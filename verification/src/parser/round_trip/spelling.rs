//! How the words, literals and operators that are printed are read as tokens.
use crate::parser::keyword;
use crate::parser::round_trip::lexing;
use crate::parser::round_trip::shape;
use crate::parser::tokenizer;
use crate::parser::tokenizer::{Class, Keyword, KindView};
use crate::text;
use vstd::prelude::*;

verus! {

// ---- runs ------------------------------------------------------------------------------

/// A run that ends at `e` is a run up to `e`.
pub proof fn lemma_run_to(s: Seq<char>, i: int, e: int, class: Class)
    requires
        0 <= i <= e <= s.len(),
        forall|k: int| i <= k < e ==> tokenizer::in_class(#[trigger] s[k], class),
        e < s.len() ==> !tokenizer::in_class(s[e], class),
    ensures
        tokenizer::run_end(s, i, class) == e,
    decreases e - i,
{
    if i < e {
        assert(tokenizer::in_class(s[i], class));
        lemma_run_to(s, i + 1, e, class);
    }
}

/// A run in what stands at `i` is the run there, as far as it reaches.
pub proof fn lemma_run_moves(s: Seq<char>, i: int, v: Seq<char>, k: int, class: Class)
    requires
        text::stands_at(s, v, i),
        0 <= k <= v.len(),
    ensures
        tokenizer::run_end(v, k, class) == if tokenizer::run_end(s, i + k, class) <= i + v.len() {
            tokenizer::run_end(s, i + k, class) - i
        } else {
            v.len() as int
        },
        tokenizer::run_end(s, i + k, class) >= i + k,
    decreases v.len() - k,
{
    tokenizer::lemma_run_end(s, i + k, class);
    tokenizer::lemma_run_end(v, k, class);
    if k < v.len() {
        lexing::lemma_stands_char(s, v, i, k);
        if tokenizer::in_class(v[k], class) {
            lemma_run_moves(s, i, v, k + 1, class);
        }
    }
}

// ---- words -----------------------------------------------------------------------------

/// A word where it stands, in front of what is neither of a word nor a quote.
pub proof fn lemma_word_at(s: Seq<char>, i: int, w: Seq<char>)
    requires
        text::stands_at(s, w, i),
        tokenizer::is_word(w),
        i + w.len() < s.len() ==> !tokenizer::in_class(s[i + w.len()], Class::Word) && s[i
            + w.len()] != '\'',
    ensures
        lexing::lexes(s, i, seq![tokenizer::word_kind(w)], i + w.len()),
{
    reveal(tokenizer::word_kind);
    lexing::lemma_stands_char(s, w, i, 0);
    assert forall|k: int| i <= k < i + w.len() implies tokenizer::in_class(
        #[trigger] s[k],
        Class::Word,
    ) by {
        lexing::lemma_stands_char(s, w, i, k - i);
        assert(tokenizer::in_class(w[k - i], Class::Word));
    }
    lemma_run_to(s, i, i + w.len(), Class::Word);
    lexing::lemma_starts(s, i);
    if w.len() > 1 {
        assert(tokenizer::in_class(s[i + 1], Class::Word));
        assert(s[i + 1] != '\'');
    }
    assert(tokenizer::char_at(s, i + 1) != Some('\''));
    assert(tokenizer::kind_at(s, i) == tokenizer::word_at(s, i));
    lexing::lemma_lexes_one(s, i, tokenizer::word_kind(w), i + w.len());
}

pub proof fn reads_word(w: Seq<char>)
    requires
        tokenizer::is_word(w),
    ensures
        lexing::reads(w, seq![tokenizer::word_kind(w)]),
{
    lexing::lemma_reads_by(w, seq![tokenizer::word_kind(w)]);
    assert forall|s: Seq<char>, i: int| #[trigger]
        text::stands_at(s, w, i) && lexing::is_free(s, i + w.len()) implies lexing::lexes(
        s,
        i,
        seq![tokenizer::word_kind(w)],
        i + w.len(),
    ) by {
        lemma_word_at(s, i, w);
    }
}

/// Capitals and underscores that spell a keyword are that keyword.
pub proof fn lemma_capitals(k: Keyword)
    requires
        ({
            let n = k.name();
            &&& n.len() > 0
            &&& text::is_upper(n[0])
            &&& forall|i: int| 0 <= i < n.len() ==> text::is_upper(#[trigger] n[i]) || n[i] == '_'
            &&& n != "NULL"@
            &&& n != "TRUE"@
            &&& n != "FALSE"@
        }),
    ensures
        tokenizer::is_word(k.name()),
        tokenizer::word_kind(k.name()) == KindView::Keyword(k),
{
    reveal(tokenizer::word_kind);
    let n = k.name();
    assert forall|i: int| 0 <= i < n.len() implies tokenizer::in_class(
        #[trigger] n[i],
        Class::Word,
    ) by {
        assert(text::is_upper(n[i]) || n[i] == '_');
    }
    assert(text::upper(n) =~= n) by {
        assert forall|i: int| 0 <= i < n.len() implies #[trigger] text::upper(n)[i] == n[i] by {
            assert(text::is_upper(n[i]) || n[i] == '_');
        }
    }
    keyword::law_keyword_named(k);
}

pub open spec fn is_printed_0(k: Keyword) -> bool {
    k == Keyword::DISTINCT || k == Keyword::ALL || k == Keyword::FROM || k == Keyword::WHERE || k
        == Keyword::GROUP || k == Keyword::BY || k == Keyword::HAVING || k == Keyword::UNION || k
        == Keyword::SELECT || k == Keyword::ORDER || k == Keyword::LIMIT || k == Keyword::OFFSET
        || k == Keyword::ASC
}

proof fn lemma_spelled_0(k: Keyword)
    requires
        is_printed_0(k),
    ensures
        tokenizer::is_word(k.name()),
        tokenizer::word_kind(k.name()) == KindView::Keyword(k),
{
    reveal(Keyword::name);
    reveal_strlit("NULL");
    reveal_strlit("TRUE");
    reveal_strlit("FALSE");
    match k {
        Keyword::DISTINCT => {
            reveal_strlit("DISTINCT");
            lemma_capitals(k);
        },
        Keyword::ALL => {
            reveal_strlit("ALL");
            lemma_capitals(k);
        },
        Keyword::FROM => {
            reveal_strlit("FROM");
            assert("FROM"@[0] != "NULL"@[0]);
            assert("FROM"@[0] != "TRUE"@[0]);
            lemma_capitals(k);
        },
        Keyword::WHERE => {
            reveal_strlit("WHERE");
            assert("WHERE"@[0] != "FALSE"@[0]);
            lemma_capitals(k);
        },
        Keyword::GROUP => {
            reveal_strlit("GROUP");
            assert("GROUP"@[0] != "FALSE"@[0]);
            lemma_capitals(k);
        },
        Keyword::BY => {
            reveal_strlit("BY");
            lemma_capitals(k);
        },
        Keyword::HAVING => {
            reveal_strlit("HAVING");
            lemma_capitals(k);
        },
        Keyword::UNION => {
            reveal_strlit("UNION");
            assert("UNION"@[0] != "FALSE"@[0]);
            lemma_capitals(k);
        },
        Keyword::SELECT => {
            reveal_strlit("SELECT");
            lemma_capitals(k);
        },
        Keyword::ORDER => {
            reveal_strlit("ORDER");
            assert("ORDER"@[0] != "FALSE"@[0]);
            lemma_capitals(k);
        },
        Keyword::LIMIT => {
            reveal_strlit("LIMIT");
            assert("LIMIT"@[0] != "FALSE"@[0]);
            lemma_capitals(k);
        },
        Keyword::OFFSET => {
            reveal_strlit("OFFSET");
            lemma_capitals(k);
        },
        Keyword::ASC => {
            reveal_strlit("ASC");
            lemma_capitals(k);
        },
        _ => {},
    }
}

pub open spec fn is_printed_1(k: Keyword) -> bool {
    k == Keyword::DESC || k == Keyword::NULLS || k == Keyword::FIRST || k == Keyword::LAST || k
        == Keyword::AS || k == Keyword::JOIN || k == Keyword::LEFT || k == Keyword::CROSS || k
        == Keyword::RIGHT || k == Keyword::FULL || k == Keyword::NATURAL || k == Keyword::ON || k
        == Keyword::USING
}

proof fn lemma_spelled_1(k: Keyword)
    requires
        is_printed_1(k),
    ensures
        tokenizer::is_word(k.name()),
        tokenizer::word_kind(k.name()) == KindView::Keyword(k),
{
    reveal(Keyword::name);
    reveal_strlit("NULL");
    reveal_strlit("TRUE");
    reveal_strlit("FALSE");
    match k {
        Keyword::DESC => {
            reveal_strlit("DESC");
            assert("DESC"@[0] != "NULL"@[0]);
            assert("DESC"@[0] != "TRUE"@[0]);
            lemma_capitals(k);
        },
        Keyword::NULLS => {
            reveal_strlit("NULLS");
            assert("NULLS"@[0] != "FALSE"@[0]);
            lemma_capitals(k);
        },
        Keyword::FIRST => {
            reveal_strlit("FIRST");
            assert("FIRST"@[1] != "FALSE"@[1]);
            lemma_capitals(k);
        },
        Keyword::LAST => {
            reveal_strlit("LAST");
            assert("LAST"@[0] != "NULL"@[0]);
            assert("LAST"@[0] != "TRUE"@[0]);
            lemma_capitals(k);
        },
        Keyword::AS => {
            reveal_strlit("AS");
            lemma_capitals(k);
        },
        Keyword::JOIN => {
            reveal_strlit("JOIN");
            assert("JOIN"@[0] != "NULL"@[0]);
            assert("JOIN"@[0] != "TRUE"@[0]);
            lemma_capitals(k);
        },
        Keyword::LEFT => {
            reveal_strlit("LEFT");
            assert("LEFT"@[0] != "NULL"@[0]);
            assert("LEFT"@[0] != "TRUE"@[0]);
            lemma_capitals(k);
        },
        Keyword::CROSS => {
            reveal_strlit("CROSS");
            assert("CROSS"@[0] != "FALSE"@[0]);
            lemma_capitals(k);
        },
        Keyword::RIGHT => {
            reveal_strlit("RIGHT");
            assert("RIGHT"@[0] != "FALSE"@[0]);
            lemma_capitals(k);
        },
        Keyword::FULL => {
            reveal_strlit("FULL");
            assert("FULL"@[0] != "NULL"@[0]);
            assert("FULL"@[0] != "TRUE"@[0]);
            lemma_capitals(k);
        },
        Keyword::NATURAL => {
            reveal_strlit("NATURAL");
            lemma_capitals(k);
        },
        Keyword::ON => {
            reveal_strlit("ON");
            lemma_capitals(k);
        },
        Keyword::USING => {
            reveal_strlit("USING");
            assert("USING"@[0] != "FALSE"@[0]);
            lemma_capitals(k);
        },
        _ => {},
    }
}

pub open spec fn is_printed_2(k: Keyword) -> bool {
    k == Keyword::NOT || k == Keyword::AND || k == Keyword::OR || k == Keyword::IS || k
        == Keyword::ISNULL || k == Keyword::NOTNULL || k == Keyword::BETWEEN || k == Keyword::IN
        || k == Keyword::LIKE || k == Keyword::GLOB || k == Keyword::ESCAPE || k == Keyword::CASE
        || k == Keyword::WHEN
}

proof fn lemma_spelled_2(k: Keyword)
    requires
        is_printed_2(k),
    ensures
        tokenizer::is_word(k.name()),
        tokenizer::word_kind(k.name()) == KindView::Keyword(k),
{
    reveal(Keyword::name);
    reveal_strlit("NULL");
    reveal_strlit("TRUE");
    reveal_strlit("FALSE");
    match k {
        Keyword::NOT => {
            reveal_strlit("NOT");
            lemma_capitals(k);
        },
        Keyword::AND => {
            reveal_strlit("AND");
            lemma_capitals(k);
        },
        Keyword::OR => {
            reveal_strlit("OR");
            lemma_capitals(k);
        },
        Keyword::IS => {
            reveal_strlit("IS");
            lemma_capitals(k);
        },
        Keyword::ISNULL => {
            reveal_strlit("ISNULL");
            lemma_capitals(k);
        },
        Keyword::NOTNULL => {
            reveal_strlit("NOTNULL");
            lemma_capitals(k);
        },
        Keyword::BETWEEN => {
            reveal_strlit("BETWEEN");
            lemma_capitals(k);
        },
        Keyword::IN => {
            reveal_strlit("IN");
            lemma_capitals(k);
        },
        Keyword::LIKE => {
            reveal_strlit("LIKE");
            assert("LIKE"@[0] != "NULL"@[0]);
            assert("LIKE"@[0] != "TRUE"@[0]);
            lemma_capitals(k);
        },
        Keyword::GLOB => {
            reveal_strlit("GLOB");
            assert("GLOB"@[0] != "NULL"@[0]);
            assert("GLOB"@[0] != "TRUE"@[0]);
            lemma_capitals(k);
        },
        Keyword::ESCAPE => {
            reveal_strlit("ESCAPE");
            lemma_capitals(k);
        },
        Keyword::CASE => {
            reveal_strlit("CASE");
            assert("CASE"@[0] != "NULL"@[0]);
            assert("CASE"@[0] != "TRUE"@[0]);
            lemma_capitals(k);
        },
        Keyword::WHEN => {
            reveal_strlit("WHEN");
            assert("WHEN"@[0] != "NULL"@[0]);
            assert("WHEN"@[0] != "TRUE"@[0]);
            lemma_capitals(k);
        },
        _ => {},
    }
}

pub open spec fn is_printed_3(k: Keyword) -> bool {
    k == Keyword::THEN || k == Keyword::ELSE || k == Keyword::END || k == Keyword::CAST || k
        == Keyword::COLLATE || k == Keyword::EXISTS || k == Keyword::INSERT || k
        == Keyword::REPLACE || k == Keyword::IGNORE || k == Keyword::ABORT || k
        == Keyword::ROLLBACK || k == Keyword::FAIL || k == Keyword::INTO
}

proof fn lemma_spelled_3(k: Keyword)
    requires
        is_printed_3(k),
    ensures
        tokenizer::is_word(k.name()),
        tokenizer::word_kind(k.name()) == KindView::Keyword(k),
{
    reveal(Keyword::name);
    reveal_strlit("NULL");
    reveal_strlit("TRUE");
    reveal_strlit("FALSE");
    match k {
        Keyword::THEN => {
            reveal_strlit("THEN");
            assert("THEN"@[0] != "NULL"@[0]);
            assert("THEN"@[1] != "TRUE"@[1]);
            lemma_capitals(k);
        },
        Keyword::ELSE => {
            reveal_strlit("ELSE");
            assert("ELSE"@[0] != "NULL"@[0]);
            assert("ELSE"@[0] != "TRUE"@[0]);
            lemma_capitals(k);
        },
        Keyword::END => {
            reveal_strlit("END");
            lemma_capitals(k);
        },
        Keyword::CAST => {
            reveal_strlit("CAST");
            assert("CAST"@[0] != "NULL"@[0]);
            assert("CAST"@[0] != "TRUE"@[0]);
            lemma_capitals(k);
        },
        Keyword::COLLATE => {
            reveal_strlit("COLLATE");
            lemma_capitals(k);
        },
        Keyword::EXISTS => {
            reveal_strlit("EXISTS");
            lemma_capitals(k);
        },
        Keyword::INSERT => {
            reveal_strlit("INSERT");
            lemma_capitals(k);
        },
        Keyword::REPLACE => {
            reveal_strlit("REPLACE");
            lemma_capitals(k);
        },
        Keyword::IGNORE => {
            reveal_strlit("IGNORE");
            lemma_capitals(k);
        },
        Keyword::ABORT => {
            reveal_strlit("ABORT");
            assert("ABORT"@[0] != "FALSE"@[0]);
            lemma_capitals(k);
        },
        Keyword::ROLLBACK => {
            reveal_strlit("ROLLBACK");
            lemma_capitals(k);
        },
        Keyword::FAIL => {
            reveal_strlit("FAIL");
            assert("FAIL"@[0] != "NULL"@[0]);
            assert("FAIL"@[0] != "TRUE"@[0]);
            lemma_capitals(k);
        },
        Keyword::INTO => {
            reveal_strlit("INTO");
            assert("INTO"@[0] != "NULL"@[0]);
            assert("INTO"@[0] != "TRUE"@[0]);
            lemma_capitals(k);
        },
        _ => {},
    }
}

pub open spec fn is_printed_4(k: Keyword) -> bool {
    k == Keyword::DEFAULT || k == Keyword::VALUES || k == Keyword::DELETE || k == Keyword::PRIMARY
        || k == Keyword::KEY || k == Keyword::AUTOINCREMENT || k == Keyword::UNIQUE || k
        == Keyword::CHECK || k == Keyword::CREATE || k == Keyword::TABLE || k == Keyword::IF || k
        == Keyword::INDEX || k == Keyword::WITHOUT
}

proof fn lemma_spelled_4(k: Keyword)
    requires
        is_printed_4(k),
    ensures
        tokenizer::is_word(k.name()),
        tokenizer::word_kind(k.name()) == KindView::Keyword(k),
{
    reveal(Keyword::name);
    reveal_strlit("NULL");
    reveal_strlit("TRUE");
    reveal_strlit("FALSE");
    match k {
        Keyword::DEFAULT => {
            reveal_strlit("DEFAULT");
            lemma_capitals(k);
        },
        Keyword::VALUES => {
            reveal_strlit("VALUES");
            lemma_capitals(k);
        },
        Keyword::DELETE => {
            reveal_strlit("DELETE");
            lemma_capitals(k);
        },
        Keyword::PRIMARY => {
            reveal_strlit("PRIMARY");
            lemma_capitals(k);
        },
        Keyword::KEY => {
            reveal_strlit("KEY");
            lemma_capitals(k);
        },
        Keyword::AUTOINCREMENT => {
            reveal_strlit("AUTOINCREMENT");
            lemma_capitals(k);
        },
        Keyword::UNIQUE => {
            reveal_strlit("UNIQUE");
            lemma_capitals(k);
        },
        Keyword::CHECK => {
            reveal_strlit("CHECK");
            assert("CHECK"@[0] != "FALSE"@[0]);
            lemma_capitals(k);
        },
        Keyword::CREATE => {
            reveal_strlit("CREATE");
            lemma_capitals(k);
        },
        Keyword::TABLE => {
            reveal_strlit("TABLE");
            assert("TABLE"@[0] != "FALSE"@[0]);
            lemma_capitals(k);
        },
        Keyword::IF => {
            reveal_strlit("IF");
            lemma_capitals(k);
        },
        Keyword::INDEX => {
            reveal_strlit("INDEX");
            assert("INDEX"@[0] != "FALSE"@[0]);
            lemma_capitals(k);
        },
        Keyword::WITHOUT => {
            reveal_strlit("WITHOUT");
            lemma_capitals(k);
        },
        _ => {},
    }
}

pub open spec fn is_printed_5(k: Keyword) -> bool {
    k == Keyword::DROP || k == Keyword::BEGIN || k == Keyword::DEFERRED || k == Keyword::IMMEDIATE
        || k == Keyword::EXCLUSIVE || k == Keyword::COMMIT
}

proof fn lemma_spelled_5(k: Keyword)
    requires
        is_printed_5(k),
    ensures
        tokenizer::is_word(k.name()),
        tokenizer::word_kind(k.name()) == KindView::Keyword(k),
{
    reveal(Keyword::name);
    reveal_strlit("NULL");
    reveal_strlit("TRUE");
    reveal_strlit("FALSE");
    match k {
        Keyword::DROP => {
            reveal_strlit("DROP");
            assert("DROP"@[0] != "NULL"@[0]);
            assert("DROP"@[0] != "TRUE"@[0]);
            lemma_capitals(k);
        },
        Keyword::BEGIN => {
            reveal_strlit("BEGIN");
            assert("BEGIN"@[0] != "FALSE"@[0]);
            lemma_capitals(k);
        },
        Keyword::DEFERRED => {
            reveal_strlit("DEFERRED");
            lemma_capitals(k);
        },
        Keyword::IMMEDIATE => {
            reveal_strlit("IMMEDIATE");
            lemma_capitals(k);
        },
        Keyword::EXCLUSIVE => {
            reveal_strlit("EXCLUSIVE");
            lemma_capitals(k);
        },
        Keyword::COMMIT => {
            reveal_strlit("COMMIT");
            lemma_capitals(k);
        },
        _ => {},
    }
}

/// The keywords that statements are printed with.
pub open spec fn is_printed(k: Keyword) -> bool {
    is_printed_0(k) || is_printed_1(k) || is_printed_2(k) || is_printed_3(k) || is_printed_4(k)
        || is_printed_5(k)
}

pub proof fn lemma_spelled(k: Keyword)
    requires
        is_printed(k),
    ensures
        tokenizer::is_word(k.name()),
        tokenizer::word_kind(k.name()) == KindView::Keyword(k),
{
    if is_printed_0(k) {
        lemma_spelled_0(k);
    }
    if is_printed_1(k) {
        lemma_spelled_1(k);
    }
    if is_printed_2(k) {
        lemma_spelled_2(k);
    }
    if is_printed_3(k) {
        lemma_spelled_3(k);
    }
    if is_printed_4(k) {
        lemma_spelled_4(k);
    }
    if is_printed_5(k) {
        lemma_spelled_5(k);
    }
}

pub proof fn reads_keyword(k: Keyword)
    requires
        is_printed(k),
    ensures
        lexing::reads(k.name(), shape::kw(k)),
{
    lemma_spelled(k);
    reads_word(k.name());
}

/// The words of the literals.
pub proof fn reads_constants()
    ensures
        lexing::reads("NULL"@, seq![KindView::Null]),
        lexing::reads("TRUE"@, seq![KindView::True]),
        lexing::reads("FALSE"@, seq![KindView::False]),
{
    reveal(tokenizer::word_kind);
    reveal_strlit("NULL");
    reveal_strlit("TRUE");
    reveal_strlit("FALSE");
    assert(text::upper("NULL"@) =~= "NULL"@);
    assert(text::upper("TRUE"@) =~= "TRUE"@);
    assert(text::upper("FALSE"@) =~= "FALSE"@);
    assert(tokenizer::is_word("NULL"@));
    assert(tokenizer::is_word("TRUE"@));
    assert(tokenizer::is_word("FALSE"@));
    reads_word("NULL"@);
    reads_word("TRUE"@);
    reads_word("FALSE"@);
}

} // verus!
