//! Printing a statement that was read gives a text that is read as the same statement.
use crate::parser::ast::{
    Begin, CreateIndexView, CreateTableView, DeleteView, InsertView, SelectView, TransactionMode,
};
use crate::parser::printer;
use crate::parser::round_trip::hidden;
use crate::parser::round_trip::hidden_statement;
use crate::parser::round_trip::lexing;
use crate::parser::round_trip::matching;
use crate::parser::round_trip::origin;
use crate::parser::round_trip::print_query;
use crate::parser::round_trip::print_statement;
use crate::parser::round_trip::replay_query;
use crate::parser::round_trip::replay_statement;
use crate::parser::round_trip::shape;
use crate::parser::round_trip::spelling;
use crate::parser::rules;
use crate::parser::rules::FailView;
use crate::parser::tokenizer;
use crate::parser::tokenizer::{Keyword, KindView, TokenView};
use vstd::prelude::*;

verus! {

broadcast use matching::at_one;

proof fn lemma_source(src: Seq<char>)
    ensures
        matching::ended(tokenizer::tokens_of(src)),
        matching::sound(tokenizer::tokens_of(src)),
{
    let t = tokenizer::tokens_of(src);
    tokenizer::law_tokens_end(src, 0);
    origin::lemma_spelled(src, 0);
    matching::lemma_sound(t);
}

/// A statement up to the end of input is the whole of it.
proof fn lemma_whole<T>(t: Seq<TokenView>, r: rules::Parsed<T>)
    ensures
        rules::whole(t, r) is Ok ==> r is Ok && rules::whole(t, r)->Ok_0 == r->Ok_0.0,
        r is Ok && r->Ok_0.1 >= 0 && rules::kind(t, r->Ok_0.1) == KindView::Eof ==> rules::whole(t,
            r)
            == Ok::<T, FailView>(r->Ok_0.0),
        r is Err ==> rules::whole(t, r) == Err::<T, FailView>(r->Err_0),
{
}

/// The printed tokens of `a` are read as `a` to their end.
proof fn select_again(t: Seq<TokenView>, a: SelectView, x: Seq<char>)
    requires
        matching::ended(t),
        matching::sound(t),
        hidden::query(t, 0, 0) is Ok,
        a == hidden::query(t, 0, 0)->Ok_0.0,
        a.holds() ==> lexing::reads(x, a.kinds()),
    ensures
        ({
            let t2 = tokenizer::tokens_of(x);
            let again = rules::whole(t2, hidden::query(t2, 0, 0));
            match again {
                Ok(x) => x.bare() == a.bare(),
                Err(f) => matching::refused(t, f),
            }
        }),
{
    let t2 = tokenizer::tokens_of(x);
    tokenizer::law_tokens_end(x, 0);
    replay_query::replay_select(t, 0, 0, t2, 0);
    lexing::lemma_tokens_of(x, a.kinds());
    lemma_whole(t2, hidden::query(t2, 0, 0));
}

/// A `SELECT` that was read, printed and read again is the same `SELECT`, its
/// places in the source aside. Only a source that spells the smallest integer in
/// hexadecimal, in which it is one level less deep than it is printed, can be refused, as
/// nested too deep.
pub proof fn law_select_round_trip(src: Seq<char>)
    requires
        ({
            let t = tokenizer::tokens_of(src);
            let read = rules::whole(t, rules::select(t, 0, 0));
            read is Ok
        }),
    ensures
        ({
            let t = tokenizer::tokens_of(src);
            let a = rules::whole(t, rules::select(t, 0, 0))->Ok_0;
            let t2 = tokenizer::tokens_of(a.text());
            let again = rules::whole(t2, rules::select(t2, 0, 0));
            match again {
                Ok(x) => x.bare() == a.bare(),
                Err(f) => rules::spells_smallest(t) && rules::is_too_deep(f),
            }
        }),
{
    let t = tokenizer::tokens_of(src);
    lemma_source(src);
    matching::lemma_total(t);
    hidden::lemma_query(t, 0, 0);
    lemma_whole(t, hidden::query(t, 0, 0));
    let a = hidden::query(t, 0, 0)->Ok_0.0;
    if a.holds() {
        print_query::print_select(a);
    }
    select_again(t, a, a.text());
    let t2 = tokenizer::tokens_of(a.text());
    if rules::whole(t2, hidden::query(t2, 0, 0)) is Err {
        matching::lemma_refused(t, rules::whole(t2, hidden::query(t2, 0, 0))->Err_0);
    }
    hidden::lemma_query(tokenizer::tokens_of(a.text()), 0, 0);
}

/// The printed tokens of `a` are read as `a` to their end.
proof fn insert_again(t: Seq<TokenView>, a: InsertView, x: Seq<char>)
    requires
        matching::ended(t),
        matching::sound(t),
        hidden_statement::insert(t, 0, 0) is Ok,
        a == hidden_statement::insert(t, 0, 0)->Ok_0.0,
        a.holds() ==> lexing::reads(x, a.kinds()),
    ensures
        ({
            let t2 = tokenizer::tokens_of(x);
            let again = rules::whole(t2, hidden_statement::insert(t2, 0, 0));
            match again {
                Ok(x) => x.bare() == a.bare(),
                Err(f) => matching::refused(t, f),
            }
        }),
{
    let t2 = tokenizer::tokens_of(x);
    tokenizer::law_tokens_end(x, 0);
    replay_statement::replay_insert(t, 0, 0, t2, 0);
    lexing::lemma_tokens_of(x, a.kinds());
    lemma_whole(t2, hidden_statement::insert(t2, 0, 0));
}

/// An `INSERT` that was read, printed and read again is the same `INSERT`, its
/// places in the source aside. Only a source that spells the smallest integer in
/// hexadecimal, in which it is one level less deep than it is printed, can be refused, as
/// nested too deep.
pub proof fn law_insert_round_trip(src: Seq<char>)
    requires
        ({
            let t = tokenizer::tokens_of(src);
            let read = rules::whole(t, rules::insert(t, 0, 0));
            read is Ok
        }),
    ensures
        ({
            let t = tokenizer::tokens_of(src);
            let a = rules::whole(t, rules::insert(t, 0, 0))->Ok_0;
            let t2 = tokenizer::tokens_of(a.text());
            let again = rules::whole(t2, rules::insert(t2, 0, 0));
            match again {
                Ok(x) => x.bare() == a.bare(),
                Err(f) => rules::spells_smallest(t) && rules::is_too_deep(f),
            }
        }),
{
    let t = tokenizer::tokens_of(src);
    lemma_source(src);
    matching::lemma_total(t);
    hidden_statement::lemma_is_insert(t, 0, 0);
    lemma_whole(t, hidden_statement::insert(t, 0, 0));
    let a = hidden_statement::insert(t, 0, 0)->Ok_0.0;
    if a.holds() {
        print_statement::print_insert(a);
    }
    insert_again(t, a, a.text());
    let t2 = tokenizer::tokens_of(a.text());
    if rules::whole(t2, hidden_statement::insert(t2, 0, 0)) is Err {
        matching::lemma_refused(t, rules::whole(t2, hidden_statement::insert(t2, 0, 0))->Err_0);
    }
    hidden_statement::lemma_is_insert(tokenizer::tokens_of(a.text()), 0, 0);
}

/// The printed tokens of `a` are read as `a` to their end.
proof fn delete_again(t: Seq<TokenView>, a: DeleteView, x: Seq<char>)
    requires
        matching::ended(t),
        matching::sound(t),
        hidden_statement::delete(t, 0, 0) is Ok,
        a == hidden_statement::delete(t, 0, 0)->Ok_0.0,
        a.holds() ==> lexing::reads(x, a.kinds()),
    ensures
        ({
            let t2 = tokenizer::tokens_of(x);
            let again = rules::whole(t2, hidden_statement::delete(t2, 0, 0));
            match again {
                Ok(x) => x.bare() == a.bare(),
                Err(f) => matching::refused(t, f),
            }
        }),
{
    let t2 = tokenizer::tokens_of(x);
    tokenizer::law_tokens_end(x, 0);
    replay_statement::replay_delete(t, 0, 0, t2, 0);
    lexing::lemma_tokens_of(x, a.kinds());
    lemma_whole(t2, hidden_statement::delete(t2, 0, 0));
}

/// A `DELETE` that was read, printed and read again is the same `DELETE`, its
/// places in the source aside. Only a source that spells the smallest integer in
/// hexadecimal, in which it is one level less deep than it is printed, can be refused, as
/// nested too deep.
pub proof fn law_delete_round_trip(src: Seq<char>)
    requires
        ({
            let t = tokenizer::tokens_of(src);
            let read = rules::whole(t, rules::delete(t, 0, 0));
            read is Ok
        }),
    ensures
        ({
            let t = tokenizer::tokens_of(src);
            let a = rules::whole(t, rules::delete(t, 0, 0))->Ok_0;
            let t2 = tokenizer::tokens_of(a.text());
            let again = rules::whole(t2, rules::delete(t2, 0, 0));
            match again {
                Ok(x) => x.bare() == a.bare(),
                Err(f) => rules::spells_smallest(t) && rules::is_too_deep(f),
            }
        }),
{
    let t = tokenizer::tokens_of(src);
    lemma_source(src);
    matching::lemma_total(t);
    hidden_statement::lemma_is_delete(t, 0, 0);
    lemma_whole(t, hidden_statement::delete(t, 0, 0));
    let a = hidden_statement::delete(t, 0, 0)->Ok_0.0;
    if a.holds() {
        print_statement::print_delete(a);
    }
    delete_again(t, a, a.text());
    let t2 = tokenizer::tokens_of(a.text());
    if rules::whole(t2, hidden_statement::delete(t2, 0, 0)) is Err {
        matching::lemma_refused(t, rules::whole(t2, hidden_statement::delete(t2, 0, 0))->Err_0);
    }
    hidden_statement::lemma_is_delete(tokenizer::tokens_of(a.text()), 0, 0);
}

/// The printed tokens of `a` are read as `a` to their end.
proof fn create_table_again(t: Seq<TokenView>, a: CreateTableView, x: Seq<char>)
    requires
        matching::ended(t),
        matching::sound(t),
        hidden_statement::create_table(t, 0, 0) is Ok,
        a == hidden_statement::create_table(t, 0, 0)->Ok_0.0,
        a.holds() ==> lexing::reads(x, a.kinds()),
    ensures
        ({
            let t2 = tokenizer::tokens_of(x);
            let again = rules::whole(t2, hidden_statement::create_table(t2, 0, 0));
            match again {
                Ok(x) => x.bare() == a.bare(),
                Err(f) => matching::refused(t, f),
            }
        }),
{
    let t2 = tokenizer::tokens_of(x);
    tokenizer::law_tokens_end(x, 0);
    replay_statement::replay_create_table(t, 0, 0, t2, 0);
    lexing::lemma_tokens_of(x, a.kinds());
    lemma_whole(t2, hidden_statement::create_table(t2, 0, 0));
}

/// A `CREATE TABLE` that was read, printed and read again is the same `CREATE TABLE`, its
/// places in the source aside. Only a source that spells the smallest integer in
/// hexadecimal, in which it is one level less deep than it is printed, can be refused, as
/// nested too deep.
pub proof fn law_create_table_round_trip(src: Seq<char>)
    requires
        ({
            let t = tokenizer::tokens_of(src);
            let read = rules::whole(t, rules::create_table(t, 0, 0));
            read is Ok
        }),
    ensures
        ({
            let t = tokenizer::tokens_of(src);
            let a = rules::whole(t, rules::create_table(t, 0, 0))->Ok_0;
            let t2 = tokenizer::tokens_of(a.text());
            let again = rules::whole(t2, rules::create_table(t2, 0, 0));
            match again {
                Ok(x) => x.bare() == a.bare(),
                Err(f) => rules::spells_smallest(t) && rules::is_too_deep(f),
            }
        }),
{
    let t = tokenizer::tokens_of(src);
    lemma_source(src);
    matching::lemma_total(t);
    hidden_statement::lemma_is_create_table(t, 0, 0);
    lemma_whole(t, hidden_statement::create_table(t, 0, 0));
    let a = hidden_statement::create_table(t, 0, 0)->Ok_0.0;
    if a.holds() {
        print_statement::print_create_table(a);
    }
    create_table_again(t, a, a.text());
    let t2 = tokenizer::tokens_of(a.text());
    if rules::whole(t2, hidden_statement::create_table(t2, 0, 0)) is Err {
        matching::lemma_refused(t, rules::whole(t2, hidden_statement::create_table(t2, 0,
            0))->Err_0);
    }
    hidden_statement::lemma_is_create_table(tokenizer::tokens_of(a.text()), 0, 0);
}

/// The printed tokens of `a` are read as `a` to their end.
proof fn create_index_again(t: Seq<TokenView>, a: CreateIndexView, x: Seq<char>)
    requires
        matching::ended(t),
        matching::sound(t),
        hidden_statement::create_index(t, 0, 0) is Ok,
        a == hidden_statement::create_index(t, 0, 0)->Ok_0.0,
        a.holds() ==> lexing::reads(x, a.kinds()),
    ensures
        ({
            let t2 = tokenizer::tokens_of(x);
            let again = rules::whole(t2, hidden_statement::create_index(t2, 0, 0));
            match again {
                Ok(x) => x.bare() == a.bare(),
                Err(f) => matching::refused(t, f),
            }
        }),
{
    let t2 = tokenizer::tokens_of(x);
    tokenizer::law_tokens_end(x, 0);
    replay_statement::replay_create_index(t, 0, 0, t2, 0);
    lexing::lemma_tokens_of(x, a.kinds());
    lemma_whole(t2, hidden_statement::create_index(t2, 0, 0));
}

/// A `CREATE INDEX` that was read, printed and read again is the same `CREATE INDEX`, its
/// places in the source aside. Only a source that spells the smallest integer in
/// hexadecimal, in which it is one level less deep than it is printed, can be refused, as
/// nested too deep.
pub proof fn law_create_index_round_trip(src: Seq<char>)
    requires
        ({
            let t = tokenizer::tokens_of(src);
            let read = rules::whole(t, rules::create_index(t, 0, 0));
            read is Ok
        }),
    ensures
        ({
            let t = tokenizer::tokens_of(src);
            let a = rules::whole(t, rules::create_index(t, 0, 0))->Ok_0;
            let t2 = tokenizer::tokens_of(a.text());
            let again = rules::whole(t2, rules::create_index(t2, 0, 0));
            match again {
                Ok(x) => x.bare() == a.bare(),
                Err(f) => rules::spells_smallest(t) && rules::is_too_deep(f),
            }
        }),
{
    let t = tokenizer::tokens_of(src);
    lemma_source(src);
    matching::lemma_total(t);
    hidden_statement::lemma_is_create_index(t, 0, 0);
    lemma_whole(t, hidden_statement::create_index(t, 0, 0));
    let a = hidden_statement::create_index(t, 0, 0)->Ok_0.0;
    if a.holds() {
        print_statement::print_create_index(a);
    }
    create_index_again(t, a, a.text());
    let t2 = tokenizer::tokens_of(a.text());
    if rules::whole(t2, hidden_statement::create_index(t2, 0, 0)) is Err {
        matching::lemma_refused(t, rules::whole(t2, hidden_statement::create_index(t2, 0,
            0))->Err_0);
    }
    hidden_statement::lemma_is_create_index(tokenizer::tokens_of(a.text()), 0, 0);
}

/// A `DROP TABLE` that was read, printed and read again is the same `DROP TABLE`, its
/// places in the source aside. Only a source that spells the smallest integer in
/// hexadecimal, in which it is one level less deep than it is printed, can be refused, as
/// nested too deep.
pub proof fn law_drop_table_round_trip(src: Seq<char>)
    requires
        ({
            let t = tokenizer::tokens_of(src);
            let read = rules::whole(t, rules::drop_table(t, 0));
            read is Ok
        }),
    ensures
        ({
            let t = tokenizer::tokens_of(src);
            let a = rules::whole(t, rules::drop_table(t, 0))->Ok_0;
            let t2 = tokenizer::tokens_of(a.text());
            let again = rules::whole(t2, rules::drop_table(t2, 0));
            again is Ok && again->Ok_0.bare() == a.bare()
        }),
{
    let t = tokenizer::tokens_of(src);
    lemma_whole(t, rules::drop_table(t, 0));
    let a = rules::drop_table(t, 0)->Ok_0.0;
    let t2 = tokenizer::tokens_of(a.text());
    replay_statement::replay_drop_table(t, 0, t2, 0);
    print_statement::print_drop_table(a);
    lexing::lemma_tokens_of(a.text(), a.kinds());
    lemma_whole(t2, rules::drop_table(t2, 0));
}

/// A `DROP INDEX` that was read, printed and read again is the same `DROP INDEX`, its
/// places in the source aside. Only a source that spells the smallest integer in
/// hexadecimal, in which it is one level less deep than it is printed, can be refused, as
/// nested too deep.
pub proof fn law_drop_index_round_trip(src: Seq<char>)
    requires
        ({
            let t = tokenizer::tokens_of(src);
            let read = rules::whole(t, rules::drop_index(t, 0));
            read is Ok
        }),
    ensures
        ({
            let t = tokenizer::tokens_of(src);
            let a = rules::whole(t, rules::drop_index(t, 0))->Ok_0;
            let t2 = tokenizer::tokens_of(a.text());
            let again = rules::whole(t2, rules::drop_index(t2, 0));
            again is Ok && again->Ok_0.bare() == a.bare()
        }),
{
    let t = tokenizer::tokens_of(src);
    lemma_whole(t, rules::drop_index(t, 0));
    let a = rules::drop_index(t, 0)->Ok_0.0;
    let t2 = tokenizer::tokens_of(a.text());
    replay_statement::replay_drop_index(t, 0, t2, 0);
    print_statement::print_drop_index(a);
    lexing::lemma_tokens_of(a.text(), a.kinds());
    lemma_whole(t2, rules::drop_index(t2, 0));
}

// ---- transactions ------------------------------------------------------------------------

proof fn print_begin(begin: Begin)
    ensures
        lexing::reads(
            printer::begin_text(begin),
            shape::kw(Keyword::BEGIN) + shape::mode_kinds(begin.mode),
        ),
{
    reveal(Keyword::name);
    reveal_strlit("BEGIN");
    reveal_strlit(" ");
    reveal_strlit("");
    spelling::reads_keyword(Keyword::BEGIN);
    let k = shape::kw(Keyword::BEGIN);
    match begin.mode {
        Some(mode) => {
            let word = match mode {
                TransactionMode::Deferred => Keyword::DEFERRED,
                TransactionMode::Immediate => Keyword::IMMEDIATE,
                TransactionMode::Exclusive => Keyword::EXCLUSIVE,
            };
            spelling::reads_keyword(word);
            assert(printer::mode_text(mode) == word.name());
            lexing::reads_gap("BEGIN"@, k, word.name(), shape::kw(word));
            assert("BEGIN"@ + " "@ + word.name() =~= printer::begin_text(begin));
        },
        None => {
            assert("BEGIN"@ + ""@ =~= "BEGIN"@);
            assert(k + Seq::<KindView>::empty() =~= k);
        },
    }
}

/// A `BEGIN`, printed and read again, has the same mode.
pub proof fn law_begin_round_trip(begin: Begin)
    ensures
        ({
            let t = tokenizer::tokens_of(printer::begin_text(begin));
            let again = rules::whole(t, rules::begin(t, 0));
            again is Ok && again->Ok_0.mode == begin.mode
        }),
{
    print_begin(begin);
    let kinds = shape::kw(Keyword::BEGIN) + shape::mode_kinds(begin.mode);
    let t = tokenizer::tokens_of(printer::begin_text(begin));
    lexing::lemma_tokens_of(printer::begin_text(begin), kinds);
    matching::split2(t, 0, shape::kw(Keyword::BEGIN), shape::mode_kinds(begin.mode));
    matching::lemma_at_head(t, 1, shape::mode_kinds(begin.mode));
    lemma_whole(t, rules::begin(t, 0));
}

/// A printed `COMMIT` is read as one, and a printed `ROLLBACK` as one.
pub proof fn law_ends_round_trip()
    ensures
        ({
            let t = tokenizer::tokens_of("COMMIT"@);
            rules::whole(t, rules::commit(t, 0)) is Ok
        }),
        ({
            let t = tokenizer::tokens_of("ROLLBACK"@);
            rules::whole(t, rules::rollback(t, 0)) is Ok
        }),
{
    reveal(Keyword::name);
    spelling::reads_keyword(Keyword::COMMIT);
    spelling::reads_keyword(Keyword::ROLLBACK);
    let t = tokenizer::tokens_of("COMMIT"@);
    lexing::lemma_tokens_of("COMMIT"@, shape::kw(Keyword::COMMIT));
    matching::lemma_at_head(t, 0, shape::kw(Keyword::COMMIT));
    lemma_whole(t, rules::commit(t, 0));
    let u = tokenizer::tokens_of("ROLLBACK"@);
    lexing::lemma_tokens_of("ROLLBACK"@, shape::kw(Keyword::ROLLBACK));
    matching::lemma_at_head(u, 0, shape::kw(Keyword::ROLLBACK));
    lemma_whole(u, rules::rollback(u, 0));
}

} // verus!
