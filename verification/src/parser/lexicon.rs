//! How the tokens of a source are spelled, and where they stand.
use crate::parser::keyword;
use crate::parser::tokenizer;
use crate::parser::tokenizer::{Class, Keyword, KindView, ParamView};
use crate::text;
use vstd::prelude::*;

verus! {

/// Whether `part` stands in `s` at place `i`, letter for letter.
pub open spec fn stands(s: Seq<char>, i: int, part: Seq<char>) -> bool {
    &&& 0 <= i
    &&& i + part.len() <= s.len()
    &&& forall|k: int| 0 <= k < part.len() ==> s[i + k] == #[trigger] part[k]
}

/// Whether `c` stands in `s` at place `i`.
pub open spec fn shows(s: Seq<char>, i: int, c: char) -> bool {
    0 <= i < s.len() && s[i] == c
}

// ---- operators ----------------------------------------------------------------------

/// The spellings of an operator.
pub open spec fn is_mark(part: Seq<char>, k: KindView) -> bool {
    match k {
        KindView::Star => part == seq!['*'],
        KindView::Comma => part == seq![','],
        KindView::Semicolon => part == seq![';'],
        KindView::LParen => part == seq!['('],
        KindView::RParen => part == seq![')'],
        KindView::Dot => part == seq!['.'],
        KindView::Plus => part == seq!['+'],
        KindView::Minus => part == seq!['-'],
        KindView::Slash => part == seq!['/'],
        KindView::Percent => part == seq!['%'],
        KindView::Eq => part == seq!['='] || part == seq!['=', '='],
        KindView::Ne => part == seq!['!', '='] || part == seq!['<', '>'],
        KindView::Lt => part == seq!['<'],
        KindView::Le => part == seq!['<', '='],
        KindView::Gt => part == seq!['>'],
        KindView::Ge => part == seq!['>', '='],
        KindView::Concat => part == seq!['|', '|'],
        KindView::Arrow => part == seq!['-', '>'],
        KindView::ArrowArrow => part == seq!['-', '>', '>'],
        KindView::BitAnd => part == seq!['&'],
        KindView::BitOr => part == seq!['|'],
        KindView::BitNot => part == seq!['~'],
        KindView::Shl => part == seq!['<', '<'],
        KindView::Shr => part == seq!['>', '>'],
        _ => false,
    }
}

/// Whether `c`, behind a mark, can make a longer one of it.
pub open spec fn may_go_on(c: char) -> bool {
    c == '=' || c == '<' || c == '>' || c == '|'
}

/// A mark that no longer one begins with is read as the operator it is a spelling of. A point
/// before a digit begins a number.
pub proof fn law_marks_are_read(s: Seq<char>, i: int, part: Seq<char>, k: KindView)
    requires
        is_mark(part, k),
        stands(s, i, part),
        i + part.len() < s.len() ==> !may_go_on(s[i + part.len()]),
        k == KindView::Dot && i + 1 < s.len() ==> !('0' <= s[i + 1] <= '9'),
    ensures
        tokenizer::kind_at(s, i) == (k, i + part.len()),
{
    assert(part.len() > 0 && s[i] == part[0]);
    if part.len() > 1 {
        assert(s[i + 1] == part[1]);
    }
    if part.len() > 2 {
        assert(s[i + 2] == part[2]);
    }
}

// ---- numbers --------------------------------------------------------------------------

/// What decimal digits denote: the first ones ten times what they denote, and the last one.
pub open spec fn decimal_value(digits: Seq<char>) -> nat
    decreases digits.len(),
{
    if digits.len() == 0 {
        0
    } else {
        decimal_value(digits.drop_last()) * 10 + (digits.last() as u32 - '0' as u32) as nat
    }
}

proof fn lemma_decimal_value(digits: Seq<char>)
    requires
        forall|k: int| 0 <= k < digits.len() ==> '0' <= #[trigger] digits[k] <= '9',
    ensures
        text::number(digits, 10) == decimal_value(digits),
    decreases digits.len(),
{
    if digits.len() > 0 {
        assert('0' <= digits[digits.len() - 1] <= '9');
        assert forall|k: int| 0 <= k < digits.drop_last().len() implies '0'
            <= #[trigger] digits.drop_last()[k] <= '9' by {
            assert(digits.drop_last()[k] == digits[k]);
        }
        lemma_decimal_value(digits.drop_last());
    }
}

proof fn lemma_run(s: Seq<char>, i: int, e: int, class: Class)
    requires
        0 <= i <= e <= s.len(),
        forall|k: int| i <= k < e ==> tokenizer::in_class(#[trigger] s[k], class),
        e < s.len() ==> !tokenizer::in_class(s[e], class),
    ensures
        tokenizer::run_end(s, i, class) == e,
    decreases e - i,
{
    if i < e {
        assert(tokenizer::in_class(s[i], class));
        lemma_run(s, i + 1, e, class);
    }
}

/// Digits that neither a point nor the mark of an exponent follows are the integer they denote,
/// where it has 64 bits.
pub proof fn law_digits_are_an_integer(s: Seq<char>, i: int, e: int)
    requires
        0 <= i < e <= s.len(),
        forall|k: int| i <= k < e ==> '0' <= #[trigger] s[k] <= '9',
        e < s.len() ==> !('0' <= s[e] <= '9') && s[e] != '.' && s[e] != 'e' && s[e] != 'E' && s[e]
            != 'x' && s[e] != 'X',
        decimal_value(s.subrange(i, e)) <= i64::MAX,
    ensures
        tokenizer::kind_at(s, i) == (
            KindView::Integer(decimal_value(s.subrange(i, e)) as i64),
            e,
        ),
{
    assert('0' <= s[i] <= '9');
    lemma_run(s, i, e, Class::Digit);
    assert forall|k: int| 0 <= k < e - i implies '0' <= #[trigger] s.subrange(i, e)[k] <= '9' by {
        assert(s.subrange(i, e)[k] == s[i + k]);
    }
    lemma_decimal_value(s.subrange(i, e));
    if i + 1 < e {
        assert('0' <= s[i + 1] <= '9');
    }
}

/// Digits, a point and digits are a floating-point literal.
pub proof fn law_point_makes_a_double(s: Seq<char>, i: int, point: int, e: int)
    requires
        0 <= i < point < e <= s.len(),
        forall|k: int| i <= k < point ==> '0' <= #[trigger] s[k] <= '9',
        s[point] == '.',
        forall|k: int| point < k < e ==> '0' <= #[trigger] s[k] <= '9',
        e < s.len() ==> !('0' <= s[e] <= '9') && s[e] != 'e' && s[e] != 'E',
    ensures
        tokenizer::kind_at(s, i).0 == KindView::Float(
            crate::decimal::double_of(s.subrange(i, e)),
        ),
        tokenizer::kind_at(s, i).1 == e,
{
    assert('0' <= s[i] <= '9');
    lemma_run(s, i, point, Class::Digit);
    lemma_run(s, point + 1, e, Class::Digit);
    if i + 1 < point {
        assert('0' <= s[i + 1] <= '9');
    }
}

// ---- quoted texts -----------------------------------------------------------------------

proof fn lemma_quoted_plain(s: Seq<char>, i: int, e: int, close: char, doubling: bool)
    requires
        0 <= i <= e < s.len(),
        forall|k: int| i <= k < e ==> #[trigger] s[k] != close,
        s[e] == close,
        doubling ==> !shows(s, e + 1, close),
    ensures
        tokenizer::quoted(s, i, close, doubling) == Some((s.subrange(i, e), e + 1)),
    decreases e - i,
{
    if i < e {
        assert(s[i] != close);
        lemma_quoted_plain(s, i + 1, e, close, doubling);
        assert(seq![s[i]] + s.subrange(i + 1, e) =~= s.subrange(i, e));
    } else {
        assert(s.subrange(i, e) =~= seq![]);
    }
}

/// What stands between two quotes is a string, between two double quotes or backticks or in
/// square brackets a name, each of the characters as they stand there.
pub proof fn law_quotes_hold_their_characters(s: Seq<char>, i: int, e: int, close: char)
    requires
        0 <= i < e < s.len(),
        (s[i] == close && (close == '\'' || close == '"' || close == '`')) || (s[i] == '[' && close
            == ']'),
        forall|k: int| i < k < e ==> #[trigger] s[k] != close,
        s[e] == close,
        !shows(s, e + 1, close),
    ensures
        tokenizer::kind_at(s, i) == (
            if close == '\'' {
                KindView::Str(s.subrange(i + 1, e))
            } else {
                KindView::Identifier(s.subrange(i + 1, e))
            },
            e + 1,
        ),
{
    lemma_quoted_plain(s, i + 1, e, close, s[i] == close);
}

// ---- words ------------------------------------------------------------------------------

/// A word is read to its end, and told by its capitals: it is the keyword of that name, one of
/// the words of the literals, or else the name that it spells.
pub proof fn law_words_are_read(s: Seq<char>, i: int, e: int)
    requires
        0 <= i < e <= s.len(),
        s[i] == '_' || text::is_letter(s[i]),
        (s[i] == 'x' || s[i] == 'X') ==> !shows(s, i + 1, '\''),
        forall|k: int| i <= k < e ==> #[trigger] s[k] == '_' || text::is_letter_or_digit(s[k]),
        e < s.len() ==> s[e] != '_' && !text::is_letter_or_digit(s[e]),
        !text::is_digit(s[i]),
        s[i] != '\'' && s[i] != '"' && s[i] != '`' && s[i] != '[' && s[i] != '?' && s[i] != ':'
            && s[i] != '@' && s[i] != '$' && s[i] != '.',
    ensures
        ({
            let word = s.subrange(i, e);
            let (k, end) = tokenizer::kind_at(s, i);
            &&& end == e
            &&& text::upper(word) == "NULL"@ ==> k == KindView::Null
            &&& text::upper(word) == "TRUE"@ ==> k == KindView::True
            &&& text::upper(word) == "FALSE"@ ==> k == KindView::False
            &&& forall|w: Keyword|
                text::upper(word) == #[trigger] w.name() && text::upper(word) != "NULL"@
                    && text::upper(word) != "TRUE"@ && text::upper(word) != "FALSE"@ ==> k
                    == KindView::Keyword(w)
            &&& k is Identifier ==> k == KindView::Identifier(word)
            &&& k is Keyword ==> k->Keyword_0.name() == text::upper(word)
            &&& (forall|w: Keyword| text::upper(word) != #[trigger] w.name()) && text::upper(word)
                != "NULL"@ && text::upper(word) != "TRUE"@ && text::upper(word) != "FALSE"@ ==> k
                == KindView::Identifier(word)
        }),
{
    reveal(tokenizer::word_kind);
    reveal_strlit("NULL");
    reveal_strlit("TRUE");
    reveal_strlit("FALSE");
    assert("NULL"@[0] == 'N' && "TRUE"@[0] == 'T' && "FALSE"@[0] == 'F');
    lemma_run(s, i, e, Class::Word);
    assert(tokenizer::kind_at(s, i) == (tokenizer::word_kind(s.subrange(i, e)), e));
    let word = s.subrange(i, e);
    let upper = text::upper(word);
    assert forall|w: Keyword|
        upper == #[trigger] w.name() && upper != "NULL"@ && upper != "TRUE"@ && upper
            != "FALSE"@ implies tokenizer::kind_at(s, i).0 == KindView::Keyword(w) by {
        keyword::law_keyword_named(w);
    }
}

/// `?` is a parameter without a number, and with digits behind it the one of that number.
pub proof fn law_question_marks_are_numbered(s: Seq<char>, i: int, e: int)
    requires
        0 <= i < e <= s.len(),
        s[i] == '?',
        forall|k: int| i < k < e ==> '0' <= #[trigger] s[k] <= '9',
        e < s.len() ==> !('0' <= s[e] <= '9'),
        decimal_value(s.subrange(i + 1, e)) <= u32::MAX,
    ensures
        tokenizer::kind_at(s, i) == (
            if e == i + 1 {
                KindView::Param(ParamView::Anonymous)
            } else {
                KindView::Param(
                    ParamView::Numbered(decimal_value(s.subrange(i + 1, e)) as u32),
                )
            },
            e,
        ),
{
    lemma_run(s, i + 1, e, Class::Digit);
    let digits = s.subrange(i + 1, e);
    assert forall|k: int| 0 <= k < digits.len() implies '0' <= #[trigger] digits[k] <= '9' by {
        assert(digits[k] == s[i + 1 + k]);
    }
    lemma_decimal_value(digits);
}

// ---- what is skipped ----------------------------------------------------------------------

/// White space before a token is not part of it.
pub proof fn law_white_space_is_skipped(s: Seq<char>, i: int)
    requires
        0 <= i < s.len(),
        text::is_space(s[i]),
    ensures
        tokenizer::token_at(s, i).0.kind is Error || tokenizer::token_at(s, i)
            == tokenizer::token_at(s, i + 1),
        tokenizer::token_at(s, i).0.kind == tokenizer::token_at(s, i + 1).0.kind,
        tokenizer::token_at(s, i).1 == tokenizer::token_at(s, i + 1).1,
{
}

proof fn lemma_line_end_at(s: Seq<char>, i: int, e: int)
    requires
        0 <= i <= e <= s.len(),
        forall|k: int| i <= k < e ==> #[trigger] s[k] != '\n',
        e < s.len() ==> s[e] == '\n',
    ensures
        tokenizer::line_end(s, i) == e,
    decreases e - i,
{
    if i < e {
        assert(s[i] != '\n');
        lemma_line_end_at(s, i + 1, e);
    }
}

/// From `--` on, the rest of the line is not part of a token.
pub proof fn law_line_comment_is_skipped(s: Seq<char>, i: int, e: int)
    requires
        0 <= i,
        i + 2 <= e <= s.len(),
        s[i] == '-',
        s[i + 1] == '-',
        forall|k: int| i + 2 <= k < e ==> #[trigger] s[k] != '\n',
        e < s.len() ==> s[e] == '\n',
    ensures
        tokenizer::token_at(s, i).0.kind == tokenizer::token_at(s, e).0.kind,
        tokenizer::token_at(s, i).1 == tokenizer::token_at(s, e).1,
{
    lemma_line_end_at(s, i + 2, e);
}

proof fn lemma_comment_end_at(s: Seq<char>, i: int, e: int)
    requires
        0 <= i,
        i + 2 <= e <= s.len(),
        s[e - 2] == '*',
        s[e - 1] == '/',
        forall|k: int| i <= k < e - 2 ==> !(#[trigger] s[k] == '*' && s[k + 1] == '/'),
    ensures
        tokenizer::comment_end(s, i) == Some(e),
    decreases e - i,
{
    if i < e - 2 {
        assert(!(s[i] == '*' && s[i + 1] == '/'));
        lemma_comment_end_at(s, i + 1, e);
    }
}

/// From `/*` on, all up to the first `*/` is not part of a token.
pub proof fn law_block_comment_is_skipped(s: Seq<char>, i: int, e: int)
    requires
        0 <= i,
        i + 4 <= e <= s.len(),
        s[i] == '/',
        s[i + 1] == '*',
        s[e - 2] == '*',
        s[e - 1] == '/',
        forall|k: int| i + 2 <= k < e - 2 ==> !(#[trigger] s[k] == '*' && s[k + 1] == '/'),
    ensures
        tokenizer::token_at(s, i).0.kind == tokenizer::token_at(s, e).0.kind,
        tokenizer::token_at(s, i).1 == tokenizer::token_at(s, e).1,
{
    lemma_comment_end_at(s, i + 2, e);
}

// ---- places -----------------------------------------------------------------------------

/// The first place is on line 1, in column 1, at offset 0. Behind a line feed the next line
/// begins, in column 1; behind any other character the line is the same and the column one more.
/// The offset goes on by the bytes of the character. This holds as long as the numbers have 32
/// bits.
pub proof fn law_places_are_counted(s: Seq<char>, i: int)
    requires
        0 <= i < s.len(),
        4 * (s.len() + 1) <= u32::MAX,
    ensures
        tokenizer::line_at(s, 0) == 1,
        tokenizer::column_at(s, 0) == 1,
        tokenizer::offset_at(s, 0) == 0,
        s[i] == '\n' ==> tokenizer::line_at(s, i + 1) == tokenizer::line_at(s, i) + 1
            && tokenizer::column_at(s, i + 1) == 1,
        s[i] != '\n' ==> tokenizer::line_at(s, i + 1) == tokenizer::line_at(s, i)
            && tokenizer::column_at(s, i + 1) == tokenizer::column_at(s, i) + 1,
        tokenizer::offset_at(s, i + 1) == tokenizer::offset_at(s, i) + (if (s[i] as u32) < 0x80 {
            1int
        } else if (s[i] as u32) < 0x800 {
            2
        } else if (s[i] as u32) < 0x10000 {
            3
        } else {
            4
        }),
{
    assert(s.take(0) =~= seq![]);
    assert(s.take(i + 1).drop_last() =~= s.take(i));
    assert(s.take(i + 1).last() == s[i]);
    lemma_counts_are_small(s.take(i));
    lemma_counts_are_small(s.take(i + 1));
}

proof fn lemma_counts_are_small(s: Seq<char>)
    ensures
        tokenizer::newlines(s) <= s.len(),
        tokenizer::last_line_len(s) <= s.len(),
        tokenizer::byte_len(s) <= 4 * s.len(),
    decreases s.len(),
{
    if s.len() > 0 {
        lemma_counts_are_small(s.drop_last());
    }
}

} // verus!
