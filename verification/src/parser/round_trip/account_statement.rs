//! The other statements have the letters of their tokens, and with them every statement that is
//! printed.
use crate::parser::ast::{
    ColumnConstraintView, ColumnDefView, CreateIndexView, CreateTableView, CreateViewView,
    DeleteView, DropIndexView, DropTableView, ExprView, IndexedColumnView, InsertView, SelectView,
    TableConstraintView,
};
use crate::parser::round_trip::account;
use crate::parser::round_trip::account::{before, kept, load};
use crate::parser::round_trip::account_expr;
use crate::parser::round_trip::account_expr::counts;
use crate::parser::round_trip::account_query;
use crate::parser::round_trip::hidden;
use crate::parser::round_trip::hidden_statement;
use crate::parser::round_trip::leaves;
use crate::parser::round_trip::matching;
use crate::parser::round_trip::shape;
use crate::parser::rules;
use crate::parser::rules::Parsed;
use crate::parser::tokenizer;
use crate::parser::tokenizer::{Keyword, KindView, TokenView};
use crate::text;
use vstd::prelude::*;

verus! {

broadcast use {account::load_sum, account::load_one, account::load_none};

// ---- INSERT and DELETE ----------------------------------------------------------------

proof fn count_row(t: Seq<TokenView>, p: int, d: nat, c: char)
    requires
        counts(t, p, c),
        hidden_statement::row(t, p, d) is Ok,
    ensures
        ({
            let (list, q) = hidden_statement::row(t, p, d)->Ok_0;
            p < q && kept(t, p, q, shape::in_parens(shape::commas(shape::exprs_kinds(list))), c)
        }),
{
    hidden_statement::lemma_row(t, p, d);
    account::one(t, p, c);
    account_expr::count_list(t, p + 1, d, c);
    account::one(t, hidden::list(t, p + 1, d)->Ok_0.1, c);
}

proof fn count_rows(t: Seq<TokenView>, p: int, d: nat, list: Seq<Seq<ExprView>>, c: char)
    requires
        counts(t, p, c),
        list.len() > 0,
        hidden_statement::rows(t, p, d, list) is Ok,
    ensures
        ({
            let (all, q) = hidden_statement::rows(t, p, d, list)->Ok_0;
            &&& p <= q
            &&& before(t, q, c) + load(shape::commas(shape::rows_kinds(list)), c) == before(t, p, c)
                + load(shape::commas(shape::rows_kinds(all)), c)
        }),
    decreases rules::left(t, p),
{
    hidden_statement::lemma_rows(t, p, d, list);
    if rules::kind(t, p) == KindView::Comma {
        account::one(t, p, c);
        count_row(t, p + 1, d, c);
        let (item, q) = hidden_statement::row(t, p + 1, d)->Ok_0;
        matching::lemma_progress(t, p, q);
        shape::lemma_rows_len(list);
        shape::lemma_rows_push(list, item);
        leaves::lemma_commas_push(
            shape::rows_kinds(list),
            shape::in_parens(shape::commas(shape::exprs_kinds(item))),
        );
        count_rows(t, q, d, list.push(item), c);
    }
}

proof fn count_source(t: Seq<TokenView>, p: int, d: nat, c: char)
    requires
        counts(t, p, c),
        hidden_statement::source(t, p, d) is Ok,
    ensures
        ({
            let (a, q) = hidden_statement::source(t, p, d)->Ok_0;
            kept(t, p, q, a.0.kinds(), c)
        }),
{
    hidden_statement::lemma_source(t, p, d);
    let a = hidden_statement::source(t, p, d)->Ok_0.0.0;
    shape::shape_of_insert_source(a);
    account::one(t, p, c);
    account::one(t, p + 1, c);
    if rules::at_kw(t, p, Keyword::VALUES) {
        count_row(t, p + 1, d, c);
        let (first, q) = hidden_statement::row(t, p + 1, d)->Ok_0;
        let none = Seq::<Seq<ExprView>>::empty();
        assert(none.push(first) =~= seq![first]);
        shape::lemma_rows_empty();
        shape::lemma_rows_push(none, first);
        leaves::lemma_commas_push(
            shape::rows_kinds(none),
            shape::in_parens(shape::commas(shape::exprs_kinds(first))),
        );
        count_rows(t, q, d, seq![first], c);
    } else if !rules::at_kw(t, p, Keyword::DEFAULT) {
        account_query::count_select(t, p, d, c);
    }
}

proof fn count_names(t: Seq<TokenView>, p: int, list: Seq<Seq<char>>, c: char)
    requires
        counts(t, p, c),
        list.len() > 0,
        hidden_statement::names(t, p, list) is Ok,
    ensures
        ({
            let (all, q) = hidden_statement::names(t, p, list)->Ok_0;
            &&& p <= q
            &&& before(t, q, c) + load(shape::commas(shape::names_list(list)), c) == before(t, p, c)
                + load(shape::commas(shape::names_list(all)), c)
        }),
    decreases rules::left(t, p),
{
    hidden_statement::lemma_names(t, p, list);
    if rules::kind(t, p) == KindView::Comma {
        account::one(t, p, c);
        account::one(t, p + 1, c);
        let name = rules::kind(t, p + 1)->Identifier_0;
        matching::lemma_progress(t, p, p + 2);
        assert(shape::names_list(list.push(name)) =~= shape::names_list(list).push(
            shape::name_kinds(name),
        ));
        leaves::lemma_commas_push(shape::names_list(list), shape::name_kinds(name));
        count_names(t, p + 2, list.push(name), c);
    }
}

proof fn count_optional_names(t: Seq<TokenView>, p: int, c: char)
    requires
        counts(t, p, c),
        hidden_statement::optional_names(t, p) is Ok,
    ensures
        ({
            let (names, q) = hidden_statement::optional_names(t, p)->Ok_0;
            kept(t, p, q, shape::optional_names_kinds(names), c)
        }),
{
    hidden_statement::lemma_optional_names(t, p);
    if rules::kind(t, p) == KindView::LParen {
        let name = rules::kind(t, p + 1)->Identifier_0;
        account::one(t, p, c);
        account::one(t, p + 1, c);
        let none = Seq::<Seq<char>>::empty();
        assert(shape::names_list(seq![name]) =~= shape::names_list(none).push(
            shape::name_kinds(name),
        ));
        leaves::lemma_commas_push(shape::names_list(none), shape::name_kinds(name));
        count_names(t, p + 2, seq![name], c);
        account::one(t, hidden_statement::names(t, p + 2, seq![name])->Ok_0.1, c);
    }
}

proof fn count_conflict(t: Seq<TokenView>, p: int, c: char)
    requires
        counts(t, p, c),
        hidden_statement::conflict(t, p) is Ok,
    ensures
        ({
            let (action, q) = hidden_statement::conflict(t, p)->Ok_0;
            kept(t, p, q, shape::conflict_kinds(action), c)
        }),
{
    hidden_statement::lemma_conflict(t, p);
    account::one(t, p, c);
    account::one(t, p + 1, c);
}

proof fn count_insert(t: Seq<TokenView>, c: char)
    requires
        counts(t, 0, c),
        hidden_statement::insert(t, 0, 0) is Ok,
    ensures
        ({
            let (a, q) = hidden_statement::insert(t, 0, 0)->Ok_0;
            kept(t, 0, q, a.kinds(), c)
        }),
{
    hidden_statement::lemma_insert(t, 0, 0);
    let a = hidden_statement::insert(t, 0, 0)->Ok_0.0;
    account::one(t, 0, c);
    count_conflict(t, 1, c);
    let q = hidden_statement::conflict(t, 1)->Ok_0.1;
    account::one(t, q, c);
    account::one(t, q + 1, c);
    count_optional_names(t, q + 2, c);
    count_source(t, hidden_statement::optional_names(t, q + 2)->Ok_0.1, 0, c);
    shape::shape_of_insert(a);
}

proof fn count_delete(t: Seq<TokenView>, c: char)
    requires
        counts(t, 0, c),
        hidden_statement::delete(t, 0, 0) is Ok,
    ensures
        ({
            let (a, q) = hidden_statement::delete(t, 0, 0)->Ok_0;
            kept(t, 0, q, a.kinds(), c)
        }),
{
    hidden_statement::lemma_delete(t, 0, 0);
    let a = hidden_statement::delete(t, 0, 0)->Ok_0.0;
    account::one(t, 0, c);
    account::one(t, 1, c);
    account::one(t, 2, c);
    account_expr::count_optional(t, 3, 0, Keyword::WHERE, c);
    shape::shape_of_delete(a);
}

// ---- CREATE and DROP -------------------------------------------------------------------

proof fn count_key(t: Seq<TokenView>, p: int, d: nat, c: char)
    requires
        counts(t, p, c),
        hidden_statement::key(t, p, d) is Ok,
    ensures
        ({
            let (a, q) = hidden_statement::key(t, p, d)->Ok_0;
            p < q && kept(t, p, q, a.kinds(), c)
        }),
{
    hidden_statement::lemma_key(t, p, d);
    let a = hidden_statement::key(t, p, d)->Ok_0.0;
    account_expr::count_expr(t, p, d, c);
    account::one(t, rules::expr(t, p, d)->Ok_0.1, c);
    shape::shape_of_indexed_column(a);
}

proof fn count_keys(t: Seq<TokenView>, p: int, d: nat, list: Seq<IndexedColumnView>, c: char)
    requires
        counts(t, p, c),
        list.len() > 0,
        hidden_statement::keys(t, p, d, list) is Ok,
    ensures
        ({
            let (all, q) = hidden_statement::keys(t, p, d, list)->Ok_0;
            &&& p <= q
            &&& before(t, q, c) + load(shape::commas(shape::keys_kinds(list)), c) == before(t, p, c)
                + load(shape::commas(shape::keys_kinds(all)), c)
        }),
    decreases rules::left(t, p),
{
    hidden_statement::lemma_keys(t, p, d, list);
    if rules::kind(t, p) == KindView::Comma {
        account::one(t, p, c);
        count_key(t, p + 1, d, c);
        let (item, q) = hidden_statement::key(t, p + 1, d)->Ok_0;
        matching::lemma_progress(t, p, q);
        shape::lemma_keys_len(list);
        shape::lemma_keys_push(list, item);
        leaves::lemma_commas_push(shape::keys_kinds(list), item.kinds());
        count_keys(t, q, d, list.push(item), c);
    }
}

proof fn count_key_list(t: Seq<TokenView>, p: int, d: nat, c: char)
    requires
        counts(t, p, c),
        hidden_statement::key_list(t, p, d) is Ok,
    ensures
        ({
            let (list, q) = hidden_statement::key_list(t, p, d)->Ok_0;
            p < q && kept(t, p, q, shape::in_parens(shape::commas(shape::keys_kinds(list))), c)
        }),
{
    hidden_statement::lemma_key_list(t, p, d);
    account::one(t, p, c);
    count_key(t, p + 1, d, c);
    let (first, q) = hidden_statement::key(t, p + 1, d)->Ok_0;
    let none = Seq::<IndexedColumnView>::empty();
    assert(none.push(first) =~= seq![first]);
    shape::lemma_keys_empty();
    shape::lemma_keys_push(none, first);
    leaves::lemma_commas_push(shape::keys_kinds(none), first.kinds());
    count_keys(t, q, d, seq![first], c);
    account::one(t, hidden_statement::keys(t, q, d, seq![first])->Ok_0.1, c);
}

proof fn count_check(t: Seq<TokenView>, p: int, d: nat, c: char)
    requires
        counts(t, p, c),
        hidden_statement::check(t, p, d) is Ok,
    ensures
        ({
            let (e, q) = hidden_statement::check(t, p, d)->Ok_0;
            p < q && kept(t, p, q, shape::in_parens(e.kinds()), c)
        }),
{
    hidden_statement::lemma_check(t, p, d);
    account::one(t, p, c);
    account_expr::count_expr(t, p + 1, d, c);
    account::one(t, rules::expr(t, p + 1, d)->Ok_0.1, c);
}

proof fn count_default(t: Seq<TokenView>, p: int, d: nat, c: char)
    requires
        counts(t, p, c),
        hidden_statement::default(t, p, d) is Ok,
    ensures
        ({
            let (a, q) = hidden_statement::default(t, p, d)->Ok_0;
            p < q && kept(t, p, q, a.kinds(), c)
        }),
{
    let a = hidden_statement::default(t, p, d)->Ok_0.0;
    shape::shape_of_default_value(a);
    account::one(t, p, c);
    account::one(t, p + 1, c);
    if rules::kind(t, p) == KindView::LParen {
        hidden_statement::lemma_default_paren(t, p, d);
        account_expr::count_expr(t, p + 1, d, c);
        account::one(t, rules::expr(t, p + 1, d)->Ok_0.1, c);
    } else {
        count_default_literal(t, p, d, c);
    }
}

proof fn count_default_literal(t: Seq<TokenView>, p: int, d: nat, c: char)
    requires
        counts(t, p, c),
        rules::kind(t, p) != KindView::LParen,
        hidden_statement::default(t, p, d) is Ok,
    ensures
        ({
            let (a, q) = hidden_statement::default(t, p, d)->Ok_0;
            p < q && kept(t, p, q, a.kinds(), c)
        }),
{
    hidden_statement::lemma_is_default(t, p, d);
    let a = hidden_statement::default(t, p, d)->Ok_0.0;
    shape::shape_of_default_value(a);
    account::one(t, p, c);
    account::one(t, p + 1, c);
    if rules::kind(t, p) == KindView::Plus || rules::kind(t, p) == KindView::Minus {
        let literal = rules::literal_of(rules::kind(t, p + 1))->0;
        assert(literal.token() == rules::kind(t, p + 1));
    } else {
        let literal = rules::literal_of(rules::kind(t, p))->0;
        assert(literal.token() == rules::kind(t, p));
    }
}

/// Whether no constraint has a name.
pub open spec fn names_no_constraint(t: Seq<TokenView>) -> bool {
    forall|i: int|
        0 <= i < t.len() ==> #[trigger] t[i].kind != KindView::Keyword(Keyword::CONSTRAINT)
}

proof fn lemma_no_constraint_name(t: Seq<TokenView>, p: int)
    requires
        matching::ended(t),
        names_no_constraint(t),
        0 <= p,
    ensures
        rules::opt_constraint_name(t, p) == Parsed::<bool>::Ok((false, p)),
{
    assert(t[if p < t.len() { p } else { t.len() - 1 }].kind != KindView::Keyword(
        Keyword::CONSTRAINT,
    ));
}

proof fn count_constraint(t: Seq<TokenView>, p: int, d: nat, c: char)
    requires
        counts(t, p, c),
        names_no_constraint(t),
        hidden_statement::constraint(t, p, d) is Ok,
    ensures
        ({
            let (a, q) = hidden_statement::constraint(t, p, d)->Ok_0;
            match a {
                Some(a) => p < q && kept(t, p, q, a.kinds(), c) && rules::kind(t, p)
                    != KindView::Eof,
                None => q == p,
            }
        }),
{
    hidden_statement::lemma_constraint(t, p, d);
    lemma_no_constraint_name(t, p);
    hidden_statement::lemma_constraint_words(t, p, d, false);
    hidden_statement::lemma_constraint_plain(t, p, d, false);
    hidden_statement::lemma_constraint_nested(t, p, d, false);
    let a = hidden_statement::constraint(t, p, d)->Ok_0.0;
    if a is Some {
        shape::shape_of_column_constraint(a->0);
        account::one(t, p, c);
        account::one(t, p + 1, c);
        account::one(t, p + 2, c);
        account::one(t, p + 3, c);
        if rules::at_kw(t, p, Keyword::CHECK) {
            count_check(t, p + 1, d, c);
        } else if rules::at_kw(t, p, Keyword::DEFAULT) {
            count_default(t, p + 1, d, c);
        }
    }
}

proof fn count_constraints(
    t: Seq<TokenView>,
    p: int,
    d: nat,
    list: Seq<ColumnConstraintView>,
    c: char,
)
    requires
        counts(t, p, c),
        names_no_constraint(t),
        hidden_statement::constraints(t, p, d, list) is Ok,
    ensures
        ({
            let (all, q) = hidden_statement::constraints(t, p, d, list)->Ok_0;
            &&& p <= q
            &&& before(t, q, c) + load(
                shape::each_after(seq![], shape::constraints_kinds(list)),
                c,
            ) == before(t, p, c) + load(
                shape::each_after(seq![], shape::constraints_kinds(all)),
                c,
            )
        }),
    decreases rules::left(t, p),
{
    hidden_statement::lemma_constraints(t, p, d, list);
    count_constraint(t, p, d, c);
    let (item, q) = hidden_statement::constraint(t, p, d)->Ok_0;
    if item is Some {
        matching::lemma_progress(t, p, q);
        shape::lemma_constraints_push(list, item->0);
        leaves::lemma_each_push(seq![], shape::constraints_kinds(list), item->0.kinds());
        count_constraints(t, q, d, list.push(item->0), c);
    }
}

proof fn count_def(t: Seq<TokenView>, p: int, d: nat, c: char)
    requires
        counts(t, p, c),
        names_no_constraint(t),
        hidden_statement::def(t, p, d) is Ok,
    ensures
        ({
            let (a, q) = hidden_statement::def(t, p, d)->Ok_0;
            p < q && kept(t, p, q, a.kinds(), c)
        }),
{
    hidden_statement::lemma_def(t, p, d);
    let a = hidden_statement::def(t, p, d)->Ok_0.0;
    account::one(t, p, c);
    if rules::kind(t, p + 1) is Identifier {
        account::count_type(t, p + 1, c);
    }
    let q = rules::opt_declared_type(t, p + 1)->Ok_0.1;
    count_constraints(t, q, d, seq![], c);
    shape::lemma_constraints_empty();
    leaves::lemma_empty_lists(seq![]);
    shape::shape_of_column_def(a);
}

proof fn count_rule(t: Seq<TokenView>, p: int, d: nat, c: char)
    requires
        counts(t, p, c),
        names_no_constraint(t),
        hidden_statement::rule(t, p, d) is Ok,
    ensures
        ({
            let (a, q) = hidden_statement::rule(t, p, d)->Ok_0;
            p < q && kept(t, p, q, a.kinds(), c)
        }),
{
    hidden_statement::lemma_rule(t, p, d);
    lemma_no_constraint_name(t, p);
    let a = hidden_statement::rule(t, p, d)->Ok_0.0;
    shape::shape_of_table_constraint(a);
    account::one(t, p, c);
    account::one(t, p + 1, c);
    if rules::at_kw(t, p, Keyword::PRIMARY) {
        count_key_list(t, p + 2, d, c);
    } else if rules::at_kw(t, p, Keyword::UNIQUE) {
        count_key_list(t, p + 1, d, c);
    } else {
        count_check(t, p + 1, d, c);
    }
}

proof fn count_table_rules(
    t: Seq<TokenView>,
    p: int,
    d: nat,
    list: Seq<TableConstraintView>,
    c: char,
)
    requires
        counts(t, p, c),
        names_no_constraint(t),
        hidden_statement::table_rules(t, p, d, list) is Ok,
    ensures
        ({
            let lead = seq![KindView::Comma];
            let (all, q) = hidden_statement::table_rules(t, p, d, list)->Ok_0;
            &&& p <= q
            &&& before(t, q, c) + load(shape::each_after(lead, shape::rules_kinds(list)), c)
                == before(t, p, c) + load(shape::each_after(lead, shape::rules_kinds(all)), c)
        }),
    decreases rules::left(t, p),
{
    hidden_statement::lemma_table_rules(t, p, d, list);
    if rules::kind(t, p) == KindView::Comma {
        account::one(t, p, c);
        count_rule(t, p + 1, d, c);
        let (item, q) = hidden_statement::rule(t, p + 1, d)->Ok_0;
        matching::lemma_progress(t, p, q);
        shape::lemma_rules_push(list, item);
        leaves::lemma_each_push(seq![KindView::Comma], shape::rules_kinds(list), item.kinds());
        count_table_rules(t, q, d, list.push(item), c);
    }
}

proof fn count_items(t: Seq<TokenView>, p: int, d: nat, list: Seq<ColumnDefView>, c: char)
    requires
        counts(t, p, c),
        names_no_constraint(t),
        list.len() > 0,
        hidden_statement::items(t, p, d, list) is Ok,
    ensures
        ({
            let lead = seq![KindView::Comma];
            let ((columns, constraints), q) = hidden_statement::items(t, p, d, list)->Ok_0;
            &&& p <= q
            &&& before(t, q, c) + load(shape::commas(shape::defs_kinds(list)), c) == before(t, p, c)
                + load(shape::commas(shape::defs_kinds(columns)), c) + load(
                shape::each_after(lead, shape::rules_kinds(constraints)),
                c,
            )
        }),
    decreases rules::left(t, p),
{
    hidden_statement::lemma_items(t, p, d, list);
    shape::lemma_rules_empty();
    leaves::lemma_empty_lists(seq![KindView::Comma]);
    if rules::kind(t, p) == KindView::Comma {
        if rules::at_table_constraint_start(t, p + 1) {
            count_table_rules(t, p, d, seq![], c);
        } else {
            account::one(t, p, c);
            count_def(t, p + 1, d, c);
            let (item, q) = hidden_statement::def(t, p + 1, d)->Ok_0;
            matching::lemma_progress(t, p, q);
            shape::lemma_defs_len(list);
            shape::lemma_defs_push(list, item);
            leaves::lemma_commas_push(shape::defs_kinds(list), item.kinds());
            count_items(t, q, d, list.push(item), c);
        }
    }
}

proof fn count_if_not_exists(t: Seq<TokenView>, p: int, c: char)
    requires
        counts(t, p, c),
        hidden_statement::if_not_exists(t, p) is Ok,
    ensures
        ({
            let (flag, q) = hidden_statement::if_not_exists(t, p)->Ok_0;
            kept(t, p, q, shape::if_not_exists_kinds(flag), c)
        }),
{
    hidden_statement::lemma_if_not_exists(t, p);
    account::one(t, p, c);
    account::one(t, p + 1, c);
    account::one(t, p + 2, c);
}

/// Whether the words of the table options stand in capitals, as they are printed.
pub open spec fn options_in_capitals(t: Seq<TokenView>) -> bool {
    forall|i: int|
        0 <= i < t.len() && #[trigger] t[i].kind is Identifier ==> {
            let name = t[i].kind->Identifier_0;
            &&& text::upper(name) == text::upper("ROWID"@) ==> name == "ROWID"@
            &&& text::upper(name) == text::upper("STRICT"@) ==> name == "STRICT"@
        }
}

proof fn count_options(t: Seq<TokenView>, p: int, c: char)
    requires
        counts(t, p, c),
        options_in_capitals(t),
        rules::table_options(t, p, rules::span(t, p - 1)) is Ok,
    ensures
        ({
            let (a, q) = rules::table_options(t, p, rules::span(t, p - 1))->Ok_0;
            kept(t, p, q, shape::table_options_kinds(a.0, a.1), c)
        }),
{
    account::one(t, p, c);
    account::one(t, p + 1, c);
    if rules::at_kw(t, p, Keyword::WITHOUT) {
        assert(t[if p + 1 < t.len() { p + 1 } else { t.len() - 1 }].kind is Identifier);
    } else if rules::at_word(t, p, "STRICT"@) {
        assert(t[if p < t.len() { p } else { t.len() - 1 }].kind is Identifier);
    }
}

proof fn count_create_table(t: Seq<TokenView>, c: char)
    requires
        counts(t, 0, c),
        names_no_constraint(t),
        options_in_capitals(t),
        hidden_statement::create_table(t, 0, 0) is Ok,
    ensures
        ({
            let (a, q) = hidden_statement::create_table(t, 0, 0)->Ok_0;
            kept(t, 0, q, a.kinds(), c)
        }),
{
    hidden_statement::lemma_create_table(t, 0, 0);
    let a = hidden_statement::create_table(t, 0, 0)->Ok_0.0;
    account::one(t, 0, c);
    account::one(t, 1, c);
    count_if_not_exists(t, 2, c);
    let q = hidden_statement::if_not_exists(t, 2)->Ok_0.1;
    account::one(t, q, c);
    account::one(t, q + 1, c);
    count_def(t, q + 2, 0, c);
    let (first, r) = hidden_statement::def(t, q + 2, 0)->Ok_0;
    let none = Seq::<ColumnDefView>::empty();
    assert(none.push(first) =~= seq![first]);
    shape::lemma_defs_empty();
    shape::lemma_defs_push(none, first);
    leaves::lemma_commas_push(shape::defs_kinds(none), first.kinds());
    count_items(t, r, 0, seq![first], c);
    let e = hidden_statement::items(t, r, 0, seq![first])->Ok_0.1;
    account::one(t, e, c);
    count_options(t, e + 1, c);
    shape::shape_of_create_table(a);
}

proof fn count_create_index(t: Seq<TokenView>, c: char)
    requires
        counts(t, 0, c),
        hidden_statement::create_index(t, 0, 0) is Ok,
    ensures
        ({
            let (a, q) = hidden_statement::create_index(t, 0, 0)->Ok_0;
            kept(t, 0, q, a.kinds(), c)
        }),
{
    hidden_statement::lemma_create_index(t, 0, 0);
    let a = hidden_statement::create_index(t, 0, 0)->Ok_0.0;
    let s = rules::skip_kw(t, 1, Keyword::UNIQUE);
    account::one(t, 0, c);
    account::one(t, 1, c);
    account::one(t, s, c);
    count_if_not_exists(t, s + 1, c);
    let q = hidden_statement::if_not_exists(t, s + 1)->Ok_0.1;
    account::one(t, q, c);
    account::one(t, q + 1, c);
    account::one(t, q + 2, c);
    count_key_list(t, q + 3, 0, c);
    let r = hidden_statement::key_list(t, q + 3, 0)->Ok_0.1;
    account_expr::count_optional(t, r, 0, Keyword::WHERE, c);
    shape::shape_of_create_index(a);
}

/// The tokens of a view's definition, as those of the other definitions are printed.
pub open spec fn view_kinds(a: CreateViewView) -> Seq<KindView> {
    shape::kw(Keyword::CREATE) + shape::kw(Keyword::VIEW) + shape::if_not_exists_kinds(
        a.if_not_exists,
    ) + shape::name_kinds(a.name) + shape::optional_names_kinds(a.columns) + shape::kw(Keyword::AS)
        + a.query.kinds()
}

proof fn count_create_view(t: Seq<TokenView>, c: char)
    requires
        counts(t, 0, c),
        hidden_statement::create_view(t) is Ok,
    ensures
        ({
            let (a, q) = hidden_statement::create_view(t)->Ok_0;
            kept(t, 0, q, view_kinds(a), c)
        }),
{
    hidden_statement::lemma_create_view(t);
    account::one(t, 0, c);
    account::one(t, 1, c);
    count_if_not_exists(t, 2, c);
    let q = hidden_statement::if_not_exists(t, 2)->Ok_0.1;
    account::one(t, q, c);
    count_optional_names(t, q + 1, c);
    let r = hidden_statement::optional_names(t, q + 1)->Ok_0.1;
    account::one(t, r, c);
    account_query::count_select(t, r + 1, 0, c);
}

proof fn count_drop(t: Seq<TokenView>, what: Keyword, c: char)
    requires
        counts(t, 0, c),
        rules::drop_object(t, 0, what) is Ok,
    ensures
        ({
            let (a, q) = rules::drop_object(t, 0, what)->Ok_0;
            kept(
                t,
                0,
                q,
                shape::kw(Keyword::DROP) + shape::kw(what) + shape::if_exists_kinds(a.0)
                    + shape::name_kinds(a.1),
                c,
            )
        }),
{
    hidden_statement::lemma_drop(t, 0, what);
    account::one(t, 0, c);
    account::one(t, 1, c);
    account::one(t, 2, c);
    account::one(t, 3, c);
    account::one(t, 4, c);
}

// ---- the laws ----------------------------------------------------------------------------

/// How often `c` is a letter of the tokens of `src`.
pub open spec fn letters_in(src: Seq<char>, c: char) -> nat {
    before(tokenizer::tokens_of(src), tokenizer::tokens_of(src).len() as int, c)
}

/// Whether the tokens of `src` have names that can be told from the words that are not counted,
/// and `c` is a letter that is counted.
pub open spec fn is_counted(src: Seq<char>, c: char) -> bool {
    c != ' ' && account::no_name_is_left_out(tokenizer::tokens_of(src))
}

/// Behind a statement stands nothing that counts.
proof fn lemma_rest_counts_nothing(t: Seq<TokenView>, p: int, c: char)
    requires
        matching::ended(t),
        0 <= p,
        rules::end_of_statement(t, p) is Ok,
        forall|i: int| 0 <= i < t.len() - 1 ==> (#[trigger] t[i]).kind != KindView::Eof,
    ensures
        before(t, t.len() as int, c) == before(t, p, c),
    decreases rules::left(t, p),
{
    account::lemma_weights(c);
    if p < t.len() && t[p].kind == KindView::Semicolon {
        account::one(t, p, c);
        lemma_rest_counts_nothing(t, p + 1, c);
    } else if p < t.len() {
        assert(t[p].kind == KindView::Eof);
        account::one(t, p, c);
    } else {
        lemma_beyond(t, p, c);
    }
}

/// Beyond the end of input stands nothing that counts.
proof fn lemma_beyond(t: Seq<TokenView>, p: int, c: char)
    requires
        matching::ended(t),
        t.len() <= p,
    ensures
        before(t, p, c) == before(t, t.len() as int, c),
    decreases p,
{
    account::lemma_weights(c);
    if t.len() < p {
        lemma_beyond(t, p - 1, c);
        account::one(t, p - 1, c);
    }
}

proof fn lemma_source(src: Seq<char>, c: char)
    requires
        is_counted(src, c),
    ensures
        counts(tokenizer::tokens_of(src), 0, c),
        before(tokenizer::tokens_of(src), 0, c) == 0,
        forall|i: int|
            0 <= i < tokenizer::tokens_of(src).len() - 1 ==> (#[trigger] tokenizer::tokens_of(
                src,
            )[i]).kind != KindView::Eof,
{
    reveal(before);
    tokenizer::law_tokens_end(src, 0);
}

/// Nothing of a `SELECT` is lost: every letter of its tokens, but for those of the words that say
/// nothing, stands in the tokens that the tree is printed as, as often as in the source.
pub proof fn law_select_is_read_whole(src: Seq<char>, c: char)
    requires
        is_counted(src, c),
        ({
            let t = tokenizer::tokens_of(src);
            rules::whole(t, rules::select(t, 0, 0)) is Ok
        }),
    ensures
        ({
            let t = tokenizer::tokens_of(src);
            let a: SelectView = rules::whole(t, rules::select(t, 0, 0))->Ok_0;
            load(a.kinds(), c) == letters_in(src, c)
        }),
{
    let t = tokenizer::tokens_of(src);
    lemma_source(src, c);
    hidden::lemma_query(t, 0, 0);
    account_query::count_select(t, 0, 0, c);
    lemma_rest_counts_nothing(t, hidden::query(t, 0, 0)->Ok_0.1, c);
}

/// Nothing of an `INSERT` is lost.
pub proof fn law_insert_is_read_whole(src: Seq<char>, c: char)
    requires
        is_counted(src, c),
        ({
            let t = tokenizer::tokens_of(src);
            rules::whole(t, rules::insert(t, 0, 0)) is Ok
        }),
    ensures
        ({
            let t = tokenizer::tokens_of(src);
            let a: InsertView = rules::whole(t, rules::insert(t, 0, 0))->Ok_0;
            load(a.kinds(), c) == letters_in(src, c)
        }),
{
    let t = tokenizer::tokens_of(src);
    lemma_source(src, c);
    hidden_statement::lemma_is_insert(t, 0, 0);
    count_insert(t, c);
    lemma_rest_counts_nothing(t, hidden_statement::insert(t, 0, 0)->Ok_0.1, c);
}

/// Nothing of a `DELETE` is lost.
pub proof fn law_delete_is_read_whole(src: Seq<char>, c: char)
    requires
        is_counted(src, c),
        ({
            let t = tokenizer::tokens_of(src);
            rules::whole(t, rules::delete(t, 0, 0)) is Ok
        }),
    ensures
        ({
            let t = tokenizer::tokens_of(src);
            let a: DeleteView = rules::whole(t, rules::delete(t, 0, 0))->Ok_0;
            load(a.kinds(), c) == letters_in(src, c)
        }),
{
    let t = tokenizer::tokens_of(src);
    lemma_source(src, c);
    hidden_statement::lemma_is_delete(t, 0, 0);
    count_delete(t, c);
    lemma_rest_counts_nothing(t, hidden_statement::delete(t, 0, 0)->Ok_0.1, c);
}

/// Nothing of a `CREATE TABLE` is lost, where no constraint has a name, which is not kept, and the
/// table's options stand in capitals, as they are printed.
pub proof fn law_create_table_is_read_whole(src: Seq<char>, c: char)
    requires
        is_counted(src, c),
        names_no_constraint(tokenizer::tokens_of(src)),
        options_in_capitals(tokenizer::tokens_of(src)),
        ({
            let t = tokenizer::tokens_of(src);
            rules::whole(t, rules::create_table(t, 0, 0)) is Ok
        }),
    ensures
        ({
            let t = tokenizer::tokens_of(src);
            let a: CreateTableView = rules::whole(t, rules::create_table(t, 0, 0))->Ok_0;
            load(a.kinds(), c) == letters_in(src, c)
        }),
{
    let t = tokenizer::tokens_of(src);
    lemma_source(src, c);
    hidden_statement::lemma_is_create_table(t, 0, 0);
    count_create_table(t, c);
    lemma_rest_counts_nothing(t, hidden_statement::create_table(t, 0, 0)->Ok_0.1, c);
}

/// Nothing of a `CREATE INDEX` is lost.
pub proof fn law_create_index_is_read_whole(src: Seq<char>, c: char)
    requires
        is_counted(src, c),
        ({
            let t = tokenizer::tokens_of(src);
            rules::whole(t, rules::create_index(t, 0, 0)) is Ok
        }),
    ensures
        ({
            let t = tokenizer::tokens_of(src);
            let a: CreateIndexView = rules::whole(t, rules::create_index(t, 0, 0))->Ok_0;
            load(a.kinds(), c) == letters_in(src, c)
        }),
{
    let t = tokenizer::tokens_of(src);
    lemma_source(src, c);
    hidden_statement::lemma_is_create_index(t, 0, 0);
    count_create_index(t, c);
    lemma_rest_counts_nothing(t, hidden_statement::create_index(t, 0, 0)->Ok_0.1, c);
}

/// Nothing of a `CREATE VIEW` is lost.
pub proof fn law_create_view_is_read_whole(src: Seq<char>, c: char)
    requires
        is_counted(src, c),
        ({
            let t = tokenizer::tokens_of(src);
            rules::whole(t, rules::create_view(t, 0, 0)) is Ok
        }),
    ensures
        ({
            let t = tokenizer::tokens_of(src);
            let a = rules::whole(t, rules::create_view(t, 0, 0))->Ok_0;
            load(view_kinds(a), c) == letters_in(src, c)
        }),
{
    let t = tokenizer::tokens_of(src);
    lemma_source(src, c);
    hidden_statement::lemma_is_create_view(t);
    count_create_view(t, c);
    lemma_rest_counts_nothing(t, hidden_statement::create_view(t)->Ok_0.1, c);
}

/// Nothing of a `DROP TABLE` or `DROP INDEX` is lost.
pub proof fn law_drop_is_read_whole(src: Seq<char>, c: char)
    requires
        is_counted(src, c),
    ensures
        ({
            let t = tokenizer::tokens_of(src);
            let table = rules::whole(t, rules::drop_table(t, 0));
            let index = rules::whole(t, rules::drop_index(t, 0));
            &&& table is Ok ==> load(table->Ok_0.kinds(), c) == letters_in(src, c)
            &&& index is Ok ==> load(index->Ok_0.kinds(), c) == letters_in(src, c)
        }),
{
    let t = tokenizer::tokens_of(src);
    lemma_source(src, c);
    if rules::whole(t, rules::drop_table(t, 0)) is Ok {
        count_drop(t, Keyword::TABLE, c);
        let (a, q): (DropTableView, int) = rules::drop_table(t, 0)->Ok_0;
        shape::shape_of_drop_table(a);
        lemma_rest_counts_nothing(t, q, c);
    }
    if rules::whole(t, rules::drop_index(t, 0)) is Ok {
        count_drop(t, Keyword::INDEX, c);
        let (a, q): (DropIndexView, int) = rules::drop_index(t, 0)->Ok_0;
        shape::shape_of_drop_index(a);
        lemma_rest_counts_nothing(t, q, c);
    }
}

} // verus!
