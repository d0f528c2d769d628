//! How a script falls into statements: what [`split_statements`] gives back when it is asked
//! again, and what [`ends_with_semicolon`] does not look at.
//!
//! [`split_statements`]: crate::parser::tokenizer::split_statements
//! [`ends_with_semicolon`]: crate::parser::tokenizer::ends_with_semicolon
use crate::parser::tokenizer;
use crate::parser::tokenizer::{
    char_at, comment_end, digit_at, exponent_end, in_class, is_trimmed, kept, kind_at, line_end,
    quoted, run_end, starts_word, statements_from, token_at, tokens_from, trivia_end,
    Class, KindView,
};
use crate::text;
use vstd::prelude::*;

verus! {

// ---- two texts with a common part --------------------------------------------------------

/// The characters of `s` from `i` up to `c` stand in `u` too, `d` places further on.
spec fn same(s: Seq<char>, u: Seq<char>, d: int, i: int, c: int) -> bool {
    &&& 0 <= i <= c <= s.len()
    &&& 0 <= i + d
    &&& c + d <= u.len()
    &&& forall|k: int| i <= k < c ==> #[trigger] s[k] == u[k + d]
}

/// Nothing at `c` can belong to an operator, a number or a comment before it.
spec fn is_edge(s: Seq<char>, c: int) -> bool {
    c == s.len() || text::is_space(s[c]) || s[c] == ';'
}

/// Nothing at `c` can belong to a word before it either, and a comment line ends there.
spec fn is_break(s: Seq<char>, c: int) -> bool {
    c == s.len() || s[c] == '\n'
}

proof fn lemma_same_back(s: Seq<char>, u: Seq<char>, d: int, i: int, c: int)
    requires
        same(s, u, d, i, c),
    ensures
        same(u, s, -d, i + d, c + d),
{
    assert forall|k: int| i + d <= k < c + d implies #[trigger] u[k] == s[k + (-d)] by {
        assert(s[k - d] == u[k - d + d]);
    }
}

proof fn lemma_run_moves(s: Seq<char>, u: Seq<char>, d: int, i: int, c: int, class: Class)
    requires
        same(s, u, d, i, c),
        run_end(s, i, class) < c,
    ensures
        run_end(u, i + d, class) == run_end(s, i, class) + d,
    decreases c - i,
{
    tokenizer::lemma_run_end(s, i, class);
    assert(s[i] == u[i + d]);
    if in_class(s[i], class) {
        lemma_run_moves(s, u, d, i + 1, c, class);
    }
}

proof fn lemma_quoted_moves(
    s: Seq<char>,
    u: Seq<char>,
    d: int,
    i: int,
    c: int,
    close: char,
    doubling: bool,
)
    requires
        same(s, u, d, i, c),
        quoted(s, i, close, doubling) is Some,
        quoted_end(s, i, close, doubling) <= c,
        doubling ==> char_at(u, c + d) != Some(close),
    ensures
        quoted(u, i + d, close, doubling) is Some,
        quoted_end(u, i + d, close, doubling) == quoted_end(s, i, close, doubling) + d,
    decreases c - i,
{
    tokenizer::lemma_quoted(s, i, close, doubling);
    assert(s[i] == u[i + d]);
    if s[i] != close {
        tokenizer::lemma_quoted(s, i + 1, close, doubling);
        lemma_quoted_moves(s, u, d, i + 1, c, close, doubling);
    } else if doubling && char_at(s, i + 1) == Some(close) {
        tokenizer::lemma_quoted(s, i + 2, close, doubling);
        assert(s[i + 1] == u[i + 1 + d]);
        lemma_quoted_moves(s, u, d, i + 2, c, close, doubling);
    } else if i + 1 < c {
        assert(s[i + 1] == u[i + 1 + d]);
    }
}

/// Where a quoted text whose content begins at `i` ends.
spec fn quoted_end(s: Seq<char>, i: int, close: char, doubling: bool) -> int {
    match quoted(s, i, close, doubling) {
        Some((value, e)) => e,
        None => s.len() as int,
    }
}

/// The closing quote stands before the place behind it.
proof fn lemma_quoted_closes(s: Seq<char>, i: int, close: char, doubling: bool)
    requires
        0 <= i <= s.len(),
        quoted(s, i, close, doubling) is Some,
    ensures
        i < quoted_end(s, i, close, doubling) <= s.len(),
        s[quoted_end(s, i, close, doubling) - 1] == close,
    decreases s.len() - i,
{
    if s[i] != close {
        lemma_quoted_closes(s, i + 1, close, doubling);
    } else if doubling && char_at(s, i + 1) == Some(close) {
        lemma_quoted_closes(s, i + 2, close, doubling);
    }
}

/// The exponent that begins at `i` ends where it did.
proof fn lemma_exponent_moves(s: Seq<char>, u: Seq<char>, d: int, i: int, c: int)
    requires
        same(s, u, d, i, c),
        is_edge(s, c),
        is_edge(u, c + d),
        exponent_end(s, i) < c,
    ensures
        exponent_end(u, i + d) == exponent_end(s, i) + d,
{
    tokenizer::lemma_exponent_end(s, i);
    assert(s[i] == u[i + d]);
    if i + 1 < c {
        assert(s[i + 1] == u[i + 1 + d]);
    }
    if i + 2 < c {
        assert(s[i + 2] == u[i + 2 + d]);
    }
    if char_at(s, i) == Some('e') || char_at(s, i) == Some('E') {
        let p = if char_at(s, i + 1) == Some('+') || char_at(s, i + 1) == Some('-') {
            i + 2
        } else {
            i + 1
        };
        if digit_at(s, p) {
            lemma_run_moves(s, u, d, p, c, Class::Digit);
        }
    }
}

/// The quoted text that a token at `i` opens: where its content begins, the mark that closes
/// it, and whether that mark can be doubled.
pub open spec fn opened(s: Seq<char>, i: int) -> Option<(int, char, bool)> {
    if s[i] == '\'' || s[i] == '"' || s[i] == '`' {
        Some((i + 1, s[i], true))
    } else if s[i] == '[' {
        Some((i + 1, ']', false))
    } else if (s[i] == 'x' || s[i] == 'X') && char_at(s, i + 1) == Some('\'') {
        Some((i + 2, '\'', false))
    } else {
        None
    }
}

/// A token that opens a quoted text ends where that does.
proof fn lemma_opened(s: Seq<char>, i: int)
    requires
        0 <= i < s.len(),
        opened(s, i) is Some,
    ensures
        ({
            let (q, close, doubling) = opened(s, i)->0;
            &&& i < q <= s.len()
            &&& !text::is_space(close)
            &&& kind_at(s, i).1 == quoted_end(s, q, close, doubling)
        }),
{
}

proof fn lemma_number_moves(s: Seq<char>, u: Seq<char>, d: int, i: int, c: int)
    requires
        same(s, u, d, i, c),
        i < c,
        is_edge(s, c),
        is_edge(u, c + d),
        text::is_digit(s[i]) || (s[i] == '.' && digit_at(s, i + 1)),
        tokenizer::number_at(s, i).1 < c,
    ensures
        tokenizer::number_at(u, i + d).1 == tokenizer::number_at(s, i).1 + d,
{
    assert(s[i] == u[i + d]);
    if s[i] == '0' && (char_at(s, i + 1) == Some('x') || char_at(s, i + 1) == Some('X')) {
        tokenizer::lemma_run_end(s, i + 2, Class::Hex);
        assert(s[i + 1] == u[i + 1 + d]);
        lemma_run_moves(s, u, d, i + 2, c, Class::Hex);
    } else {
        tokenizer::lemma_run_end(s, i, Class::Digit);
        let whole = run_end(s, i, Class::Digit);
        let point = char_at(s, whole) == Some('.');
        if point {
            tokenizer::lemma_run_end(s, whole + 1, Class::Digit);
        }
        let fraction = if point {
            run_end(s, whole + 1, Class::Digit)
        } else {
            whole
        };
        tokenizer::lemma_exponent_end(s, fraction);
        if i + 1 < c {
            assert(s[i + 1] == u[i + 1 + d]);
        }
        lemma_run_moves(s, u, d, i, c, Class::Digit);
        assert(s[whole] == u[whole + d]);
        if point {
            lemma_run_moves(s, u, d, whole + 1, c, Class::Digit);
        }
        lemma_exponent_moves(s, u, d, fraction, c);
    }
}

/// A token that ends before `c` ends at the same character in the other text.
#[verifier::rlimit(40)]
proof fn lemma_kind_moves(s: Seq<char>, u: Seq<char>, d: int, i: int, c: int)
    requires
        same(s, u, d, i, c),
        i < c,
        is_edge(s, c),
        is_edge(u, c + d),
        kind_at(s, i).1 < c,
    ensures
        kind_at(u, i + d).1 == kind_at(s, i).1 + d,
{
    tokenizer::lemma_kind_advances(s, i);
    let e = kind_at(s, i).1;
    let ch = s[i];
    assert(s[i] == u[i + d]);
    assert(s[i + 1] == u[i + 1 + d]);
    if i + 2 < c {
        assert(s[i + 2] == u[i + 2 + d]);
    }
    if text::is_digit(ch) || (ch == '.' && digit_at(s, i + 1)) {
        lemma_number_moves(s, u, d, i, c);
    } else if opened(s, i) is Some {
        let (q, close, doubling) = opened(s, i)->0;
        lemma_opened(s, i);
        tokenizer::lemma_quoted(s, q, close, doubling);
        assert(quoted(s, q, close, doubling) is Some);
        lemma_quoted_moves(s, u, d, q, c, close, doubling);
        lemma_opened(u, i + d);
    } else if ch == '?' {
        lemma_run_moves(s, u, d, i + 1, c, Class::Digit);
    } else if ch == ':' || ch == '@' || ch == '$' {
        lemma_run_moves(s, u, d, i + 1, c, Class::Word);
    } else if starts_word(ch) {
        lemma_run_moves(s, u, d, i, c, Class::Word);
    }
}

/// A run does not go beyond a break.
proof fn lemma_run_stops(s: Seq<char>, i: int, c: int, class: Class)
    requires
        0 <= i <= c <= s.len(),
        is_break(s, c),
    ensures
        run_end(s, i, class) <= c,
    decreases c - i,
{
    if i < c && in_class(s[i], class) {
        lemma_run_stops(s, i + 1, c, class);
    }
}

proof fn lemma_number_stops(s: Seq<char>, i: int, c: int)
    requires
        0 <= i < c <= s.len(),
        is_break(s, c),
        text::is_digit(s[i]) || (s[i] == '.' && digit_at(s, i + 1)),
    ensures
        tokenizer::number_at(s, i).1 <= c,
{
    if s[i] == '0' && (char_at(s, i + 1) == Some('x') || char_at(s, i + 1) == Some('X')) {
        lemma_run_stops(s, i + 2, c, Class::Hex);
    } else {
        lemma_run_stops(s, i, c, Class::Digit);
        tokenizer::lemma_run_end(s, i, Class::Digit);
        let whole = run_end(s, i, Class::Digit);
        let point = char_at(s, whole) == Some('.');
        if point {
            lemma_run_stops(s, whole + 1, c, Class::Digit);
            tokenizer::lemma_run_end(s, whole + 1, Class::Digit);
        }
        let fraction = if point {
            run_end(s, whole + 1, Class::Digit)
        } else {
            whole
        };
        if fraction + 1 <= c {
            lemma_run_stops(s, fraction + 1, c, Class::Digit);
        }
        if fraction + 2 <= c {
            lemma_run_stops(s, fraction + 2, c, Class::Digit);
        }
    }
}

/// A token that opens no quoted text does not go beyond a break.
proof fn lemma_kind_stops(s: Seq<char>, i: int, c: int)
    requires
        0 <= i < c <= s.len(),
        is_break(s, c),
        opened(s, i) is None,
    ensures
        kind_at(s, i).1 <= c,
{
    let ch = s[i];
    if text::is_digit(ch) || (ch == '.' && digit_at(s, i + 1)) {
        lemma_number_stops(s, i, c);
    } else if ch == '?' {
        lemma_run_stops(s, i + 1, c, Class::Digit);
    } else if ch == ':' || ch == '@' || ch == '$' {
        lemma_run_stops(s, i + 1, c, Class::Word);
    } else if starts_word(ch) {
        lemma_run_stops(s, i, c, Class::Word);
    }
}

/// A token is a `;` exactly where that character stands.
proof fn lemma_semicolon(s: Seq<char>, i: int)
    requires
        0 <= i < s.len(),
    ensures
        (kind_at(s, i).0 == KindView::Semicolon) == (s[i] == ';'),
        s[i] == ';' ==> kind_at(s, i).1 == i + 1,
{
    reveal(tokenizer::word_kind);
}

proof fn lemma_line_moves(s: Seq<char>, u: Seq<char>, d: int, i: int, c: int)
    requires
        same(s, u, d, i, c),
    ensures
        line_end(s, i) < c ==> line_end(u, i + d) == line_end(s, i) + d,
        line_end(s, i) >= c ==> line_end(u, i + d) >= c + d,
        line_end(s, i) >= c && is_break(u, c + d) ==> line_end(u, i + d) == c + d,
    decreases c - i,
{
    if i < c {
        assert(s[i] == u[i + d]);
        if s[i] != '\n' {
            lemma_line_moves(s, u, d, i + 1, c);
        }
    } else {
        tokenizer::lemma_line_end(s, i);
        tokenizer::lemma_line_end(u, i + d);
    }
}

/// The end of a comment stands behind its `/`.
proof fn lemma_comment_closes(s: Seq<char>, i: int)
    requires
        0 <= i <= s.len(),
        comment_end(s, i) is Some,
    ensures
        i + 2 <= comment_end(s, i)->0 <= s.len(),
        s[comment_end(s, i)->0 - 1] == '/',
    decreases s.len() - i,
{
    if !(s[i] == '*' && char_at(s, i + 1) == Some('/')) {
        lemma_comment_closes(s, i + 1);
    }
}

proof fn lemma_comment_moves(s: Seq<char>, u: Seq<char>, d: int, i: int, c: int)
    requires
        same(s, u, d, i, c),
        comment_end(s, i) is Some,
        comment_end(s, i)->0 <= c,
    ensures
        comment_end(u, i + d) == Some(comment_end(s, i)->0 + d),
    decreases c - i,
{
    lemma_comment_closes(s, i);
    assert(s[i] == u[i + d]);
    assert(s[i + 1] == u[i + 1 + d]);
    if !(s[i] == '*' && char_at(s, i + 1) == Some('/')) {
        lemma_comment_moves(s, u, d, i + 1, c);
    }
}

// ---- where a statement ends ----------------------------------------------------------------

/// The place of the first `;` from `i` on that is a token, or the end of the text.
spec fn stop(s: Seq<char>, i: int) -> int
    decreases s.len() - i,
{
    if i < 0 || i >= s.len() {
        s.len() as int
    } else if text::is_space(s[i]) {
        stop(s, i + 1)
    } else if s[i] == '-' && char_at(s, i + 1) == Some('-') {
        proof {
            tokenizer::lemma_line_end(s, i + 2);
        }
        stop(s, line_end(s, i + 2))
    } else if s[i] == '/' && char_at(s, i + 1) == Some('*') {
        proof {
            tokenizer::lemma_comment_end(s, i + 2);
        }
        match comment_end(s, i + 2) {
            Some(e) => stop(s, e),
            None => s.len() as int,
        }
    } else if s[i] == ';' {
        i
    } else {
        proof {
            tokenizer::lemma_kind_advances(s, i);
        }
        stop(s, kind_at(s, i).1)
    }
}

proof fn lemma_stop(s: Seq<char>, i: int)
    requires
        0 <= i <= s.len(),
    ensures
        i <= stop(s, i) <= s.len(),
        stop(s, i) < s.len() ==> s[stop(s, i)] == ';',
    decreases s.len() - i,
{
    if i < s.len() {
        if text::is_space(s[i]) {
            lemma_stop(s, i + 1);
        } else if s[i] == '-' && char_at(s, i + 1) == Some('-') {
            tokenizer::lemma_line_end(s, i + 2);
            lemma_stop(s, line_end(s, i + 2));
        } else if s[i] == '/' && char_at(s, i + 1) == Some('*') {
            tokenizer::lemma_comment_end(s, i + 2);
            if comment_end(s, i + 2) is Some {
                lemma_stop(s, comment_end(s, i + 2)->0);
            }
        } else if s[i] != ';' {
            tokenizer::lemma_kind_advances(s, i);
            lemma_stop(s, kind_at(s, i).1);
        }
    }
}

/// White space and comments are passed over.
proof fn lemma_skip(s: Seq<char>, begin: int, i: int, j: int)
    requires
        0 <= begin <= i < j <= s.len(),
        trivia_end(s, i) == trivia_end(s, j),
    ensures
        statements_from(s, begin, i) == statements_from(s, begin, j),
{
    assert(token_at(s, i).1 == token_at(s, j).1);
    assert(token_at(s, i).0.kind == token_at(s, j).0.kind);
}

/// The statements of a script are what stands before the first `;`, and those behind it.
proof fn lemma_statements(s: Seq<char>, begin: int, i: int)
    requires
        0 <= begin <= i <= s.len(),
    ensures
        statements_from(s, begin, i) == kept(s.subrange(begin, stop(s, i))) + (if stop(s, i)
            == s.len() {
            seq![]
        } else {
            statements_from(s, stop(s, i) + 1, stop(s, i) + 1)
        }),
    decreases s.len() - i,
{
    lemma_stop(s, i);
    let last = kept(s.subrange(begin, s.len() as int));
    assert(last + seq![] =~= last);
    if i < s.len() {
        if text::is_space(s[i]) {
            lemma_statements(s, begin, i + 1);
            lemma_skip(s, begin, i, i + 1);
        } else if s[i] == '-' && char_at(s, i + 1) == Some('-') {
            tokenizer::lemma_line_end(s, i + 2);
            lemma_statements(s, begin, line_end(s, i + 2));
            lemma_skip(s, begin, i, line_end(s, i + 2));
        } else if s[i] == '/' && char_at(s, i + 1) == Some('*') {
            tokenizer::lemma_comment_end(s, i + 2);
            match comment_end(s, i + 2) {
                Some(e) => {
                    lemma_statements(s, begin, e);
                    lemma_skip(s, begin, i, e);
                },
                None => {
                    let end = s.len() as int;
                    assert(trivia_end(s, i) is None);
                    assert(token_at(s, i).1 == end);
                    assert(trivia_end(s, end) == Some(end));
                    assert(statements_from(s, begin, end) == last);
                    assert(statements_from(s, begin, i) == statements_from(s, begin, end));
                },
            }
        } else {
            lemma_semicolon(s, i);
            tokenizer::lemma_kind_advances(s, i);
            assert(trivia_end(s, i) == Some(i));
            assert(token_at(s, i).1 == kind_at(s, i).1);
            if s[i] != ';' {
                lemma_statements(s, begin, kind_at(s, i).1);
            }
        }
    } else {
        assert(trivia_end(s, i) == Some(i));
    }
}

/// What follows the common part, whose last character stands before `c`, in the text that a
/// statement comes from: white space up to `end`, the `;` or the end of the text.
spec fn is_tail(s: Seq<char>, c: int, end: int) -> bool {
    &&& 0 <= c <= end <= s.len()
    &&& end < s.len() ==> s[end] == ';'
    &&& forall|k: int| c <= k < end ==> text::is_space(#[trigger] s[k])
}

/// What follows it in the other text: nothing, or a line with a `;` alone.
spec fn is_joint(u: Seq<char>, w: int) -> bool {
    w == u.len() || (w + 1 < u.len() && u[w] == '\n' && u[w + 1] == ';')
}

/// Where the statement ends in the other text.
spec fn joint_stop(u: Seq<char>, w: int) -> int {
    if w == u.len() {
        w
    } else {
        w + 1
    }
}

proof fn lemma_joint(u: Seq<char>, w: int)
    requires
        0 <= w <= u.len(),
        is_joint(u, w),
    ensures
        stop(u, w) == joint_stop(u, w),
{
    if w < u.len() {
        assert(stop(u, w + 1) == w + 1);
    }
}

/// A token of the common part ends at the same character in the other text, or with the
/// common part.
proof fn lemma_token_moves(s: Seq<char>, u: Seq<char>, d: int, i: int, c: int, end: int)
    requires
        same(s, u, d, i, c),
        i < c,
        is_tail(s, c, end),
        is_break(u, c + d),
        end == s.len() ==> c + d == u.len(),
        kind_at(s, i).1 <= end,
    ensures
        kind_at(u, i + d).1 == (if kind_at(s, i).1 < c {
            kind_at(s, i).1
        } else {
            c
        }) + d,
{
    let e = kind_at(s, i).1;
    let f = kind_at(u, i + d).1;
    let w = c + d;
    tokenizer::lemma_kind_advances(s, i);
    tokenizer::lemma_kind_advances(u, i + d);
    if e < c {
        lemma_kind_moves(s, u, d, i, c);
    } else {
        lemma_same_back(s, u, d, i, c);
        if f < w {
            lemma_kind_moves(u, s, -d, i + d, w);
            assert(i + d + (-d) == i);
        }
        assert(f >= w);
        assert(s[i] == u[i + d]);
        if i + 1 < c {
            assert(s[i + 1] == u[i + 1 + d]);
        }
        if opened(u, i + d) is None {
            lemma_kind_stops(u, i + d, w);
        } else {
            let (q, close, doubling) = opened(s, i)->0;
            assert(opened(u, i + d) == Some((q + d, close, doubling)));
            lemma_opened(s, i);
            lemma_opened(u, i + d);
            if quoted(s, q, close, doubling) is Some {
                lemma_quoted_closes(s, q, close, doubling);
                if e > c {
                    assert(text::is_space(s[e - 1]));
                }
                lemma_quoted_moves(s, u, d, q, c, close, doubling);
            }
        }
    }
}

/// A statement ends in the other text where the common part does.
proof fn lemma_stop_moves(s: Seq<char>, u: Seq<char>, d: int, i: int, c: int)
    requires
        same(s, u, d, i, c),
        is_tail(s, c, stop(s, i)),
        is_joint(u, c + d),
        stop(s, i) == s.len() ==> c + d == u.len(),
    ensures
        stop(u, i + d) == joint_stop(u, c + d),
    decreases s.len() - i,
{
    let end = stop(s, i);
    let w = c + d;
    lemma_joint(u, w);
    if i < c {
        assert(s[i] == u[i + d]);
        if i + 1 < c {
            assert(s[i + 1] == u[i + 1 + d]);
        }
        if text::is_space(s[i]) {
            lemma_stop_moves(s, u, d, i + 1, c);
        } else if s[i] == '-' && char_at(s, i + 1) == Some('-') {
            let le = line_end(s, i + 2);
            tokenizer::lemma_line_end(s, i + 2);
            lemma_line_moves(s, u, d, i + 2, c);
            if le < c {
                lemma_stop_moves(s, u, d, le, c);
            }
        } else if s[i] == '/' && char_at(s, i + 1) == Some('*') {
            match comment_end(s, i + 2) {
                Some(e) => {
                    lemma_comment_closes(s, i + 2);
                    lemma_stop(s, e);
                    if e > c {
                        assert(text::is_space(s[e - 1]));
                    }
                    lemma_comment_moves(s, u, d, i + 2, c);
                    lemma_stop_moves(s, u, d, e, c);
                },
                None => {
                    if comment_end(u, i + 2 + d) is Some {
                        lemma_comment_closes(u, i + 2 + d);
                        lemma_same_back(s, u, d, i + 2, c);
                        lemma_comment_moves(u, s, -d, i + 2 + d, w);
                        assert(i + 2 + d + (-d) == i + 2);
                    }
                },
            }
        } else {
            let e = kind_at(s, i).1;
            tokenizer::lemma_kind_advances(s, i);
            if s[i] == ';' {
                assert(end == i);
            }
            lemma_stop(s, e);
            lemma_token_moves(s, u, d, i, c, end);
            if e < c {
                lemma_stop_moves(s, u, d, e, c);
            }
        }
    }
}

// ---- white space around a text ---------------------------------------------------------------

spec fn all_space(s: Seq<char>) -> bool {
    forall|k: int| 0 <= k < s.len() ==> text::is_space(#[trigger] s[k])
}

proof fn lemma_trim_start_skips(a: Seq<char>, t: Seq<char>)
    requires
        all_space(a),
        t.len() > 0 ==> !text::is_space(t[0]),
    ensures
        text::trim_start(a + t) == t,
    decreases a.len(),
{
    if a.len() > 0 {
        assert((a + t)[0] == a[0]);
        assert((a + t).drop_first() =~= a.drop_first() + t);
        lemma_trim_start_skips(a.drop_first(), t);
    } else {
        assert(a + t =~= t);
    }
}

proof fn lemma_trim_end_skips(t: Seq<char>, b: Seq<char>)
    requires
        all_space(b),
        t.len() > 0 ==> !text::is_space(t.last()),
    ensures
        text::trim_end(t + b) == t,
    decreases b.len(),
{
    if b.len() > 0 {
        assert((t + b).last() == b.last());
        assert((t + b).drop_last() =~= t + b.drop_last());
        lemma_trim_end_skips(t, b.drop_last());
    } else {
        assert(t + b =~= t);
    }
}

/// White space around a statement is not kept.
proof fn lemma_kept_around(a: Seq<char>, t: Seq<char>, b: Seq<char>)
    requires
        all_space(a),
        all_space(b),
        is_trimmed(t),
    ensures
        kept(a + t + b) == seq![t],
{
    assert(a + t + b =~= a + (t + b));
    assert((t + b)[0] == t[0]);
    lemma_trim_start_skips(a, t + b);
    lemma_trim_end_skips(t, b);
}

proof fn lemma_kept_blank(a: Seq<char>)
    requires
        all_space(a),
    ensures
        kept(a) == Seq::<Seq<char>>::empty(),
{
    assert(a + seq![] =~= a);
    lemma_trim_start_skips(a, seq![]);
}

proof fn lemma_trim_start_range(x: Seq<char>) -> (lo: int)
    ensures
        0 <= lo <= x.len(),
        text::trim_start(x) == x.skip(lo),
        forall|k: int| 0 <= k < lo ==> text::is_space(#[trigger] x[k]),
    decreases x.len(),
{
    if x.len() > 0 && text::is_space(x[0]) {
        let rest = x.drop_first();
        let lo = lemma_trim_start_range(rest);
        assert(rest.skip(lo) =~= x.skip(lo + 1));
        assert forall|k: int| 0 <= k < lo + 1 implies text::is_space(#[trigger] x[k]) by {
            if k > 0 {
                assert(rest[k - 1] == x[k]);
            }
        }
        lo + 1
    } else {
        assert(x.skip(0) =~= x);
        0
    }
}

proof fn lemma_trim_end_range(x: Seq<char>) -> (hi: int)
    ensures
        0 <= hi <= x.len(),
        text::trim_end(x) == x.take(hi),
        forall|k: int| hi <= k < x.len() ==> text::is_space(#[trigger] x[k]),
    decreases x.len(),
{
    if x.len() > 0 && text::is_space(x.last()) {
        let rest = x.drop_last();
        let hi = lemma_trim_end_range(rest);
        assert(rest.take(hi) =~= x.take(hi));
        assert forall|k: int| hi <= k < x.len() implies text::is_space(#[trigger] x[k]) by {
            if k < x.len() - 1 {
                assert(rest[k] == x[k]);
            }
        }
        hi
    } else {
        assert(x.take(x.len() as int) =~= x);
        x.len() as int
    }
}

proof fn lemma_skip_blank(s: Seq<char>, i: int, j: int)
    requires
        0 <= i <= j <= s.len(),
        forall|k: int| i <= k < j ==> text::is_space(#[trigger] s[k]),
    ensures
        stop(s, i) == stop(s, j),
    decreases j - i,
{
    if i < j {
        assert(text::is_space(s[i]));
        lemma_skip_blank(s, i + 1, j);
    }
}

/// The statement that begins at `begin` without the white space around it: where it stands,
/// and that it is read up to the same `;`.
proof fn lemma_trimmed(s: Seq<char>, begin: int) -> (r: (int, int))
    requires
        0 <= begin <= s.len(),
        kept(s.subrange(begin, stop(s, begin))).len() > 0,
    ensures
        begin <= r.0 < r.1 <= stop(s, begin),
        kept(s.subrange(begin, stop(s, begin))) == seq![s.subrange(r.0, r.1)],
        is_trimmed(s.subrange(r.0, r.1)),
        stop(s, r.0) == stop(s, begin),
        is_tail(s, r.1, stop(s, begin)),
{
    let end = stop(s, begin);
    lemma_stop(s, begin);
    let piece = s.subrange(begin, end);
    let lo = lemma_trim_start_range(piece);
    let front = piece.skip(lo);
    let hi = lemma_trim_end_range(front);
    let a = begin + lo;
    let c = a + hi;
    tokenizer::lemma_kept(piece);
    assert(kept(piece)[0] == front.take(hi));
    assert(front.take(hi) =~= s.subrange(a, c));
    assert(kept(piece) =~= seq![s.subrange(a, c)]);
    assert forall|k: int| begin <= k < a implies text::is_space(#[trigger] s[k]) by {
        assert(piece[k - begin] == s[k]);
    }
    lemma_skip_blank(s, begin, a);
    assert forall|k: int| c <= k < end implies text::is_space(#[trigger] s[k]) by {
        assert(front[k - a] == s[k]);
    }
    (a, c)
}

// ---- splitting again ---------------------------------------------------------------------------

/// A statement of a script is read as one statement where nothing follows it.
proof fn lemma_alone(s: Seq<char>, begin: int)
    requires
        0 <= begin <= s.len(),
        kept(s.subrange(begin, stop(s, begin))).len() > 0,
    ensures
        ({
            let t = kept(s.subrange(begin, stop(s, begin)))[0];
            statements_from(t, 0, 0) == seq![t]
        }),
{
    let (a, c) = lemma_trimmed(s, begin);
    let t = s.subrange(a, c);
    lemma_stop(s, begin);
    assert forall|k: int| a <= k < c implies #[trigger] s[k] == t[k + (-a)] by {
    }
    lemma_stop_moves(s, t, -a, a, c);
    lemma_statements(t, 0, 0);
    assert(t.subrange(0, t.len() as int) =~= t);
    let none = Seq::<char>::empty();
    assert(none + t + none =~= t);
    lemma_kept_around(none, t, none);
    assert(seq![t] + seq![] =~= seq![t]);
}

proof fn lemma_each_alone(s: Seq<char>, begin: int, k: int)
    requires
        0 <= begin <= s.len(),
        0 <= k < statements_from(s, begin, begin).len(),
    ensures
        ({
            let t = statements_from(s, begin, begin)[k];
            statements_from(t, 0, 0) == seq![t]
        }),
    decreases s.len() - begin,
{
    let end = stop(s, begin);
    let front = kept(s.subrange(begin, end));
    lemma_stop(s, begin);
    lemma_statements(s, begin, begin);
    if k < front.len() {
        lemma_alone(s, begin);
    } else {
        let rest = statements_from(s, end + 1, end + 1);
        assert(statements_from(s, begin, begin) == front + rest);
        lemma_each_alone(s, end + 1, k - front.len());
    }
}

/// A statement of a script, split again, is that one statement.
pub proof fn law_statement_stands_alone(s: Seq<char>, k: int)
    requires
        0 <= k < statements_from(s, 0, 0).len(),
    ensures
        ({
            let statement = statements_from(s, 0, 0)[k];
            statements_from(statement, 0, 0) == seq![statement]
        }),
{
    lemma_each_alone(s, 0, k);
}

/// The statements one after the other, with a line that holds a `;` alone between them.
pub open spec fn joined(statements: Seq<Seq<char>>) -> Seq<char>
    decreases statements.len(),
{
    if statements.len() == 0 {
        seq![]
    } else if statements.len() == 1 {
        statements[0]
    } else {
        statements[0] + seq!['\n', ';', '\n'] + joined(statements.drop_first())
    }
}

/// A statement of `s` behind any text is read again as one where nothing follows it.
proof fn lemma_joined_last(
    s: Seq<char>,
    begin: int,
    a: int,
    c: int,
    before: Seq<char>,
    last: int,
)
    requires
        0 <= begin <= a < c <= s.len(),
        is_trimmed(s.subrange(a, c)),
        stop(s, a) == stop(s, begin),
        is_tail(s, c, stop(s, begin)),
        0 <= last <= before.len(),
        all_space(before.skip(last)),
    ensures
        statements_from(before + s.subrange(a, c), last, before.len() as int) == seq![
            s.subrange(a, c),
        ],
{
    let t = s.subrange(a, c);
    let u = before + t;
    let x = before.len() as int;
    let d = x - a;
    let blank = before.skip(last);
    assert(same(s, u, d, a, c)) by {
        assert forall|k: int| a <= k < c implies #[trigger] s[k] == u[k + d] by {
            assert(t[k - a] == s[k]);
        }
    }
    lemma_stop_moves(s, u, d, a, c);
    lemma_statements(u, last, x);
    assert(u.subrange(last, c + d) =~= blank + t + Seq::<char>::empty());
    lemma_kept_around(blank, t, seq![]);
    assert(seq![t] + seq![] =~= seq![t]);
}

/// A statement of `s` behind any text is read again as one where a line with a `;` alone
/// follows it.
proof fn lemma_joined_more(
    s: Seq<char>,
    begin: int,
    a: int,
    c: int,
    before: Seq<char>,
    last: int,
    after: Seq<char>,
)
    requires
        0 <= begin <= a < c <= s.len(),
        is_trimmed(s.subrange(a, c)),
        stop(s, a) == stop(s, begin),
        stop(s, begin) < s.len(),
        is_tail(s, c, stop(s, begin)),
        0 <= last <= before.len(),
        all_space(before.skip(last)),
    ensures
        ({
            let more = before + s.subrange(a, c) + seq!['\n', ';', '\n'];
            statements_from(more + after, last, before.len() as int) == seq![s.subrange(a, c)]
                + statements_from(more + after, more.len() - 1, more.len() as int)
        }),
{
    let t = s.subrange(a, c);
    let more = before + t + seq!['\n', ';', '\n'];
    let u = more + after;
    let x = before.len() as int;
    let d = x - a;
    let w = c + d;
    let blank = before.skip(last);
    let feed = seq!['\n'];
    assert(same(s, u, d, a, c)) by {
        assert forall|k: int| a <= k < c implies #[trigger] s[k] == u[k + d] by {
            assert(t[k - a] == s[k]);
        }
    }
    assert(u[w] == '\n' && u[w + 1] == ';' && u[w + 2] == '\n');
    lemma_stop_moves(s, u, d, a, c);
    lemma_statements(u, last, x);
    assert(u.subrange(last, w + 1) =~= blank + t + feed);
    lemma_kept_around(blank, t, feed);
    lemma_skip(u, w + 2, w + 2, w + 3);
}

/// The statements of `s` from `begin` on, joined behind any text, are read again from there;
/// only white space stands between the last `;` before them and their beginning.
proof fn lemma_joined(s: Seq<char>, begin: int, before: Seq<char>, last: int)
    requires
        0 <= begin <= s.len(),
        0 <= last <= before.len(),
        all_space(before.skip(last)),
    ensures
        ({
            let all = statements_from(s, begin, begin);
            let u = before + joined(all);
            statements_from(u, last, before.len() as int) == all
        }),
    decreases s.len() - begin,
{
    let end = stop(s, begin);
    let piece = s.subrange(begin, end);
    let all = statements_from(s, begin, begin);
    let u = before + joined(all);
    let x = before.len() as int;
    let blank = before.skip(last);
    lemma_stop(s, begin);
    lemma_statements(s, begin, begin);
    let rest = if end == s.len() {
        seq![]
    } else {
        statements_from(s, end + 1, end + 1)
    };
    assert(all == kept(piece) + rest);
    if kept(piece).len() == 0 {
        assert(all =~= rest);
        if end < s.len() {
            lemma_joined(s, end + 1, before, last);
        } else {
            assert(u =~= before);
            lemma_statements(u, last, x);
            assert(u.subrange(last, x) =~= blank);
            lemma_kept_blank(blank);
            assert(seq![] + seq![] =~= Seq::<Seq<char>>::empty());
        }
    } else {
        let (a, c) = lemma_trimmed(s, begin);
        let t = s.subrange(a, c);
        assert(kept(piece) == seq![t]);
        assert(all[0] == t);
        assert(all.drop_first() =~= rest);
        if rest.len() == 0 {
            assert(all =~= seq![t]);
            lemma_joined_last(s, begin, a, c, before, last);
        } else {
            let more = before + t + seq!['\n', ';', '\n'];
            assert(u =~= more + joined(rest));
            lemma_joined_more(s, begin, a, c, before, last, joined(rest));
            let w = x + t.len();
            assert(more.skip(w + 2) =~= seq!['\n']);
            lemma_joined(s, end + 1, more, w + 2);
        }
    }
}

/// The statements of a script, joined by lines with a `;` alone, split into the same
/// statements again.
pub proof fn law_joined_statements_split(s: Seq<char>)
    ensures
        statements_from(joined(statements_from(s, 0, 0)), 0, 0) == statements_from(s, 0, 0),
{
    let none = Seq::<char>::empty();
    let all = statements_from(s, 0, 0);
    assert(none + joined(all) =~= joined(all));
    lemma_joined(s, 0, none, 0);
}

// ---- what follows the last `;` ------------------------------------------------------------

/// Whether the last token from `i` on is a `;`, where `so_far` says it of the one before.
spec fn finished(s: Seq<char>, i: int, so_far: bool) -> bool
    decreases s.len() - i,
{
    if i < 0 || i >= s.len() {
        so_far
    } else if text::is_space(s[i]) {
        finished(s, i + 1, so_far)
    } else if s[i] == '-' && char_at(s, i + 1) == Some('-') {
        proof {
            tokenizer::lemma_line_end(s, i + 2);
        }
        finished(s, line_end(s, i + 2), so_far)
    } else if s[i] == '/' && char_at(s, i + 1) == Some('*') {
        proof {
            tokenizer::lemma_comment_end(s, i + 2);
        }
        match comment_end(s, i + 2) {
            Some(e) => finished(s, e, so_far),
            None => false,
        }
    } else {
        proof {
            tokenizer::lemma_kind_advances(s, i);
        }
        finished(s, kind_at(s, i).1, s[i] == ';')
    }
}

/// Whether the last token but the end of input is a `;`; `so_far` where there is none.
spec fn last_kind(t: Seq<tokenizer::TokenView>, so_far: bool) -> bool {
    if t.len() >= 2 {
        t[t.len() - 2].kind == KindView::Semicolon
    } else {
        so_far
    }
}

proof fn lemma_skip_tokens(s: Seq<char>, i: int, j: int, so_far: bool)
    requires
        0 <= i < j <= s.len(),
        trivia_end(s, i) == trivia_end(s, j),
    ensures
        last_kind(tokens_from(s, i), so_far) == last_kind(tokens_from(s, j), so_far),
{
    let (a, e) = token_at(s, i);
    let (b, f) = token_at(s, j);
    tokenizer::lemma_token_advances(s, i);
    assert(e == f);
    assert(a.kind == b.kind);
    if a.kind != KindView::Eof {
        let rest = tokens_from(s, e);
        tokenizer::law_tokens_end(s, e);
        assert(tokens_from(s, i) == seq![a] + rest);
        assert(tokens_from(s, j) == seq![b] + rest);
    }
}

proof fn lemma_finished(s: Seq<char>, i: int, so_far: bool)
    requires
        0 <= i <= s.len(),
    ensures
        finished(s, i, so_far) == last_kind(tokens_from(s, i), so_far),
    decreases s.len() - i,
{
    let (token, e) = token_at(s, i);
    tokenizer::lemma_token_advances(s, i);
    if i < s.len() {
        if text::is_space(s[i]) {
            lemma_finished(s, i + 1, so_far);
            lemma_skip_tokens(s, i, i + 1, so_far);
        } else if s[i] == '-' && char_at(s, i + 1) == Some('-') {
            tokenizer::lemma_line_end(s, i + 2);
            lemma_finished(s, line_end(s, i + 2), so_far);
            lemma_skip_tokens(s, i, line_end(s, i + 2), so_far);
        } else {
            let open = s[i] == '/' && char_at(s, i + 1) == Some('*');
            tokenizer::lemma_comment_end(s, if i + 2 <= s.len() { i + 2 } else { i });
            if open && comment_end(s, i + 2) is Some {
                lemma_finished(s, comment_end(s, i + 2)->0, so_far);
                lemma_skip_tokens(s, i, comment_end(s, i + 2)->0, so_far);
            } else {
                lemma_semicolon(s, i);
                tokenizer::lemma_kind_advances(s, i);
                let rest = tokens_from(s, e);
                if open {
                    assert(trivia_end(s, i) is None);
                } else {
                    assert(trivia_end(s, i) == Some(i));
                }
                assert(token.kind != KindView::Eof);
                assert(tokens_from(s, i) == seq![token] + rest);
                lemma_finished(s, e, token.kind == KindView::Semicolon);
                tokenizer::law_tokens_end(s, e);
                let t = tokens_from(s, i);
                if rest.len() >= 2 {
                    assert(t[t.len() - 2] == rest[rest.len() - 2]);
                } else {
                    assert(t[t.len() - 2] == token);
                }
            }
        }
    } else {
        assert(trivia_end(s, i) == Some(i));
    }
}

/// Whether the last text in quotes, or the last block comment, is not closed.
pub open spec fn is_left_open(s: Seq<char>, i: int) -> bool
    decreases s.len() - i,
{
    if i < 0 || i >= s.len() {
        false
    } else if text::is_space(s[i]) {
        is_left_open(s, i + 1)
    } else if s[i] == '-' && char_at(s, i + 1) == Some('-') {
        proof {
            tokenizer::lemma_line_end(s, i + 2);
        }
        is_left_open(s, line_end(s, i + 2))
    } else if s[i] == '/' && char_at(s, i + 1) == Some('*') {
        proof {
            tokenizer::lemma_comment_end(s, i + 2);
        }
        match comment_end(s, i + 2) {
            Some(e) => is_left_open(s, e),
            None => true,
        }
    } else {
        proof {
            tokenizer::lemma_kind_advances(s, i);
        }
        match opened(s, i) {
            Some((q, close, doubling)) => quoted(s, q, close, doubling) is None || is_left_open(
                s,
                kind_at(s, i).1,
            ),
            None => is_left_open(s, kind_at(s, i).1),
        }
    }
}

/// Whether nothing in `s` can close a text in quotes or a block comment.
pub open spec fn closes_nothing(s: Seq<char>) -> bool {
    &&& forall|k: int|
        0 <= k < s.len() ==> {
            let c = #[trigger] s[k];
            c != '\'' && c != '"' && c != '`' && c != ']'
        }
    &&& comment_end(s, 0) is None
}

proof fn lemma_finished_blank(u: Seq<char>, i: int, so_far: bool)
    requires
        0 <= i <= u.len(),
        forall|k: int| i <= k < u.len() ==> text::is_space(#[trigger] u[k]),
    ensures
        finished(u, i, so_far) == so_far,
    decreases u.len() - i,
{
    if i < u.len() {
        assert(text::is_space(u[i]));
        lemma_finished_blank(u, i + 1, so_far);
    }
}

/// A comment that is open at the end of `s` stays open where nothing closes it.
proof fn lemma_comment_open(s: Seq<char>, t: Seq<char>, i: int)
    requires
        0 <= i <= s.len(),
        comment_end(s, i) is None,
        comment_end(t, 0) is None,
        t.len() > 0 ==> t[0] != '/',
    ensures
        comment_end(s + t, i) is None,
    decreases s.len() - i,
{
    let u = s + t;
    if i < s.len() {
        assert(u[i] == s[i]);
        lemma_comment_open(s, t, i + 1);
    } else if comment_end(u, i) is Some {
        lemma_comment_closes(u, i);
        lemma_same_tail(s, t);
        lemma_comment_moves(u, t, -s.len(), i, u.len() as int);
    }
}

proof fn lemma_same_tail(s: Seq<char>, t: Seq<char>)
    ensures
        same(s + t, t, -s.len(), s.len() as int, (s + t).len() as int),
{
    let u = s + t;
    assert forall|k: int| s.len() <= k < u.len() implies #[trigger] u[k] == t[k + (-s.len())] by {
    }
}

proof fn lemma_quoted_open(s: Seq<char>, t: Seq<char>, i: int, close: char, doubling: bool)
    requires
        0 <= i <= s.len(),
        quoted(s, i, close, doubling) is None,
        forall|k: int| 0 <= k < t.len() ==> #[trigger] t[k] != close,
    ensures
        quoted(s + t, i, close, doubling) is None,
    decreases s.len() + t.len() - i,
{
    let u = s + t;
    if i < s.len() {
        assert(u[i] == s[i]);
        if s[i] == close {
            assert(u[i + 1] == s[i + 1]);
            lemma_quoted_open(s, t, i + 2, close, doubling);
        } else {
            lemma_quoted_open(s, t, i + 1, close, doubling);
        }
    } else {
        lemma_quoted_never(u, i, close, doubling);
    }
}

proof fn lemma_quoted_never(u: Seq<char>, i: int, close: char, doubling: bool)
    requires
        0 <= i,
        forall|k: int| i <= k < u.len() ==> #[trigger] u[k] != close,
    ensures
        quoted(u, i, close, doubling) is None,
    decreases u.len() - i,
{
    if i < u.len() {
        assert(u[i] != close);
        lemma_quoted_never(u, i + 1, close, doubling);
    }
}

/// White space behind a text changes nothing of what is finished in it.
proof fn lemma_finished_space(s: Seq<char>, t: Seq<char>, i: int, so_far: bool)
    requires
        0 <= i <= s.len(),
        all_space(t),
    ensures
        finished(s + t, i, so_far) == finished(s, i, so_far),
    decreases s.len() - i,
{
    let u = s + t;
    let c = s.len() as int;
    assert forall|k: int| c <= k < u.len() implies text::is_space(#[trigger] u[k]) by {
        assert(u[k] == t[k - c]);
    }
    assert forall|p: bool| #[trigger] finished(s, c, p) == p by {
    }
    if c < u.len() {
        assert(text::is_space(u[c]));
    }
    if i >= c {
        lemma_finished_blank(u, i, so_far);
    } else {
        assert(same(s, u, 0, i, c));
        assert(u[i] == s[i]);
        if i + 1 < c {
            assert(u[i + 1] == s[i + 1]);
        }
        if text::is_space(s[i]) {
            lemma_finished_space(s, t, i + 1, so_far);
        } else if s[i] == '-' && char_at(s, i + 1) == Some('-') {
            let le = line_end(s, i + 2);
            tokenizer::lemma_line_end(s, i + 2);
            tokenizer::lemma_line_end(u, i + 2);
            lemma_line_moves(s, u, 0, i + 2, c);
            lemma_finished_space(s, t, le, so_far);
            if le == c {
                lemma_finished_blank(u, line_end(u, i + 2), so_far);
            }
        } else if s[i] == '/' && char_at(s, i + 1) == Some('*') {
            tokenizer::lemma_comment_end(s, i + 2);
            match comment_end(s, i + 2) {
                Some(e) => {
                    lemma_comment_moves(s, u, 0, i + 2, c);
                    lemma_finished_space(s, t, e, so_far);
                },
                None => {
                    lemma_comment_none(t, 0);
                    lemma_comment_open(s, t, i + 2);
                },
            }
        } else {
            let e = kind_at(s, i).1;
            let f = kind_at(u, i).1;
            tokenizer::lemma_kind_advances(s, i);
            tokenizer::lemma_kind_advances(u, i);
            if e < c {
                lemma_kind_moves(s, u, 0, i, c);
                lemma_finished_space(s, t, e, s[i] == ';');
            } else {
                if f < c {
                    lemma_same_back(s, u, 0, i, c);
                    lemma_kind_moves(u, s, 0, i, c);
                }
                lemma_finished_blank(u, f, s[i] == ';');
                assert(finished(u, i, so_far) == finished(u, f, u[i] == ';'));
                assert(finished(s, i, so_far) == finished(s, e, s[i] == ';'));
                assert(finished(s, e, s[i] == ';') == (s[i] == ';'));
            }
        }
    }
}

proof fn lemma_comment_none(t: Seq<char>, i: int)
    requires
        0 <= i,
        forall|k: int| 0 <= k < t.len() ==> #[trigger] t[k] != '*',
    ensures
        comment_end(t, i) is None,
    decreases t.len() - i,
{
    if i < t.len() {
        lemma_comment_none(t, i + 1);
    }
}

/// White space and comments finish nothing.
proof fn lemma_finished_trivia(t: Seq<char>, u: Seq<char>, d: int, i: int, so_far: bool)
    requires
        0 <= d,
        0 <= i <= t.len(),
        same(t, u, d, 0, t.len() as int),
        u.len() == t.len() + d,
        trivia_end(t, i) == Some(t.len() as int),
    ensures
        finished(u, i + d, so_far) == so_far,
    decreases t.len() - i,
{
    let c = t.len() as int;
    if i < c {
        assert(t[i] == u[i + d]);
        if i + 1 < c {
            assert(t[i + 1] == u[i + 1 + d]);
        }
        if text::is_space(t[i]) {
            lemma_finished_trivia(t, u, d, i + 1, so_far);
        } else if t[i] == '-' && char_at(t, i + 1) == Some('-') {
            tokenizer::lemma_line_end(t, i + 2);
            lemma_line_moves(t, u, d, i + 2, c);
            lemma_finished_trivia(t, u, d, line_end(t, i + 2), so_far);
        } else {
            tokenizer::lemma_comment_end(t, i + 2);
            lemma_comment_moves(t, u, d, i + 2, c);
            lemma_finished_trivia(t, u, d, comment_end(t, i + 2)->0, so_far);
        }
    }
}

/// White space and comments that begin on a line of their own change nothing of what is
/// finished before them, unless they close what was left open.
proof fn lemma_finished_comment(s: Seq<char>, t: Seq<char>, i: int, so_far: bool)
    requires
        0 <= i <= s.len(),
        trivia_end(t, 0) == Some(t.len() as int),
        is_left_open(s, i) ==> closes_nothing(t),
    ensures
        finished(s + seq!['\n'] + t, i, so_far) == finished(s, i, so_far),
    decreases s.len() - i,
{
    let feed = seq!['\n'];
    let u = s + feed + t;
    let c = s.len() as int;
    assert(u[c] == '\n');
    assert(finished(s, c, false) == false);
    assert(finished(u, u.len() as int, false) == false);
    if i >= c {
        assert(same(t, u, c + 1, 0, t.len() as int)) by {
            assert forall|k: int| 0 <= k < t.len() implies #[trigger] t[k] == u[k + (c + 1)] by {
            }
        }
        lemma_finished_trivia(t, u, c + 1, 0, so_far);
        assert(finished(u, c, so_far) == finished(u, c + 1, so_far));
    } else {
        assert(same(s, u, 0, i, c));
        assert(u[i] == s[i]);
        if i + 1 < c {
            assert(u[i + 1] == s[i + 1]);
        }
        if text::is_space(s[i]) {
            lemma_finished_comment(s, t, i + 1, so_far);
        } else if s[i] == '-' && char_at(s, i + 1) == Some('-') {
            tokenizer::lemma_line_end(s, i + 2);
            lemma_line_moves(s, u, 0, i + 2, c);
            lemma_finished_comment(s, t, line_end(s, i + 2), so_far);
        } else if s[i] == '/' && char_at(s, i + 1) == Some('*') {
            tokenizer::lemma_comment_end(s, i + 2);
            match comment_end(s, i + 2) {
                Some(e) => {
                    lemma_comment_moves(s, u, 0, i + 2, c);
                    lemma_finished_comment(s, t, e, so_far);
                },
                None => {
                    lemma_feed(t);
                    assert(s + (feed + t) =~= u);
                    lemma_comment_open(s, feed + t, i + 2);
                },
            }
        } else {
            let e = kind_at(s, i).1;
            let f = kind_at(u, i).1;
            tokenizer::lemma_kind_advances(s, i);
            tokenizer::lemma_kind_advances(u, i);
            if opened(s, i) is Some && quoted(s, opened_at(s, i), mark_at(s, i), doubles_at(s, i))
                is None {
                let (q, close, doubling) = opened(s, i)->0;
                lemma_opened(s, i);
                assert(opened(u, i) == opened(s, i));
                lemma_opened(u, i);
                assert(s + (feed + t) =~= u);
                assert forall|k: int| 0 <= k < (feed + t).len() implies #[trigger] (feed + t)[k]
                    != close by {
                    if k > 0 {
                        assert((feed + t)[k] == t[k - 1]);
                    }
                }
                lemma_quoted_open(s, feed + t, q, close, doubling);
                assert(f == u.len());
            } else if e < c {
                lemma_kind_moves(s, u, 0, i, c);
                lemma_finished_comment(s, t, e, s[i] == ';');
            } else {
                lemma_token_moves_to_end(s, u, i);
                lemma_finished_comment(s, t, e, s[i] == ';');
            }
        }
    }
}

spec fn opened_at(s: Seq<char>, i: int) -> int {
    match opened(s, i) {
        Some((q, close, doubling)) => q,
        None => 0,
    }
}

spec fn mark_at(s: Seq<char>, i: int) -> char {
    match opened(s, i) {
        Some((q, close, doubling)) => close,
        None => ' ',
    }
}

spec fn doubles_at(s: Seq<char>, i: int) -> bool {
    match opened(s, i) {
        Some((q, close, doubling)) => doubling,
        None => false,
    }
}

/// A closed token at the very end of a text ends there too where a line feed follows.
proof fn lemma_token_moves_to_end(s: Seq<char>, u: Seq<char>, i: int)
    requires
        0 <= i < s.len() < u.len(),
        same(s, u, 0, i, s.len() as int),
        u[s.len() as int] == '\n',
        kind_at(s, i).1 == s.len(),
        opened(s, i) is Some ==> quoted(s, opened_at(s, i), mark_at(s, i), doubles_at(s, i))
            is Some,
    ensures
        kind_at(u, i).1 == s.len(),
{
    let c = s.len() as int;
    let f = kind_at(u, i).1;
    tokenizer::lemma_kind_advances(u, i);
    if f < c {
        lemma_same_back(s, u, 0, i, c);
        lemma_kind_moves(u, s, 0, i, c);
    }
    assert(s[i] == u[i + 0]);
    if i + 1 < c {
        assert(s[i + 1] == u[i + 1 + 0]);
    }
    assert(opened(u, i) == opened(s, i));
    if opened(s, i) is None {
        lemma_kind_stops(u, i, c);
    } else {
        let (q, close, doubling) = opened(s, i)->0;
        lemma_opened(s, i);
        lemma_opened(u, i);
        lemma_quoted_moves(s, u, 0, q, c, close, doubling);
    }
}

proof fn lemma_feed(t: Seq<char>)
    requires
        comment_end(t, 0) is None,
    ensures
        comment_end(seq!['\n'] + t, 0) is None,
{
    let u = seq!['\n'] + t;
    if comment_end(u, 0) is Some {
        assert(comment_end(u, 0) == comment_end(u, 1));
        lemma_comment_closes(u, 1);
        lemma_same_tail(seq!['\n'], t);
        lemma_comment_moves(u, t, -1, 1, u.len() as int);
    }
}

/// White space behind a text never changes whether it ends with a `;`.
pub proof fn law_trailing_space_is_ignored(s: Seq<char>, space: Seq<char>)
    requires
        forall|k: int| 0 <= k < space.len() ==> text::is_space(#[trigger] space[k]),
    ensures
        tokenizer::is_finished(s + space) == tokenizer::is_finished(s),
{
    lemma_finished(s, 0, false);
    lemma_finished(s + space, 0, false);
    lemma_finished_space(s, space, 0, false);
}

/// White space and comments that begin on a line of their own never change whether the text
/// before them ends with a `;`: what is left open there must not be closed by them.
pub proof fn law_trailing_comment_is_ignored(s: Seq<char>, comment: Seq<char>)
    requires
        trivia_end(comment, 0) == Some(comment.len() as int),
        is_left_open(s, 0) ==> closes_nothing(comment),
    ensures
        tokenizer::is_finished(s + seq!['\n'] + comment) == tokenizer::is_finished(s),
{
    lemma_finished(s, 0, false);
    lemma_finished(s + seq!['\n'] + comment, 0, false);
    lemma_finished_comment(s, comment, 0, false);
}

// ---- what lies between tokens ---------------------------------------------------------------

/// Where the token that is read from place `i` on begins. An open block comment is one token
/// with the white space and the comments in front of it.
pub open spec fn token_start(s: Seq<char>, i: int) -> int {
    match trivia_end(s, i) {
        Some(start) => start,
        None => i,
    }
}

/// Where each token from place `i` on begins and ends.
pub open spec fn places_from(s: Seq<char>, i: int) -> Seq<(int, int)>
    decreases s.len() - i,
    when 0 <= i <= s.len()
{
    let (token, e) = token_at(s, i);
    if token.kind == KindView::Eof {
        seq![(token_start(s, i), e)]
    } else {
        proof {
            tokenizer::lemma_token_advances(s, i);
        }
        seq![(token_start(s, i), e)] + places_from(s, e)
    }
}

/// Whether `s` is white space and complete comments, and nothing else. A comment line may end
/// with the text.
pub open spec fn is_trivia(s: Seq<char>) -> bool {
    trivia_end(s, 0) == Some(s.len() as int)
}

proof fn lemma_trivia_cut(s: Seq<char>, u: Seq<char>, d: int, i: int, c: int)
    requires
        same(s, u, d, i, c),
        u.len() == c + d,
        trivia_end(s, i) == Some(c),
    ensures
        trivia_end(u, i + d) == Some(c + d),
    decreases c - i,
{
    if i < c {
        assert(s[i] == u[i + d]);
        if text::is_space(s[i]) {
            tokenizer::lemma_trivia_end(s, i + 1);
            lemma_trivia_cut(s, u, d, i + 1, c);
        } else if s[i] == '-' && char_at(s, i + 1) == Some('-') {
            let le = line_end(s, i + 2);
            tokenizer::lemma_line_end(s, i + 2);
            tokenizer::lemma_trivia_end(s, le);
            assert(s[i + 1] == u[i + 1 + d]);
            lemma_line_moves(s, u, d, i + 2, c);
            lemma_trivia_cut(s, u, d, le, c);
        } else {
            lemma_comment_closes(s, i + 2);
            let e = comment_end(s, i + 2)->0;
            tokenizer::lemma_trivia_end(s, e);
            assert(s[i + 1] == u[i + 1 + d]);
            lemma_comment_moves(s, u, d, i + 2, c);
            lemma_trivia_cut(s, u, d, e, c);
        }
    }
}

/// Tokens stand one behind the other: each has the span from where it begins to where it ends,
/// the first stands at or behind `i`, and what lies between two of them, and in front of the
/// first, is white space and complete comments.
pub proof fn law_tokens_are_ordered(s: Seq<char>, i: int, k: int)
    requires
        0 <= i <= s.len(),
        0 <= k < tokens_from(s, i).len(),
    ensures
        places_from(s, i).len() == tokens_from(s, i).len(),
        ({
            let (a, b) = places_from(s, i)[k];
            let before = if k == 0 {
                i
            } else {
                places_from(s, i)[k - 1].1
            };
            &&& i <= before <= a <= b <= s.len()
            &&& tokens_from(s, i)[k].span == tokenizer::span_between(s, a, b)
            &&& tokens_from(s, i)[k].kind != KindView::Eof ==> a < b
            &&& is_trivia(s.subrange(before, a))
        }),
    decreases s.len() - i,
{
    let (token, e) = token_at(s, i);
    let a = token_start(s, i);
    tokenizer::lemma_token_advances(s, i);
    tokenizer::lemma_trivia_end(s, i);
    if trivia_end(s, i) is Some && a < s.len() {
        tokenizer::lemma_kind_advances(s, a);
    }
    let gap = s.subrange(i, a);
    assert(is_trivia(gap)) by {
        if trivia_end(s, i) is Some {
            assert forall|j: int| i <= j < a implies #[trigger] s[j] == gap[j + (-i)] by {
            }
            lemma_trivia_cut(s, gap, -i, i, a);
        }
    }
    if token.kind != KindView::Eof {
        let rest = tokens_from(s, e);
        let places = places_from(s, e);
        assert(tokens_from(s, i) == seq![token] + rest);
        assert(places_from(s, i) == seq![(a, e)] + places);
        tokenizer::law_tokens_end(s, e);
        if k > 0 {
            law_tokens_are_ordered(s, e, k - 1);
            assert(tokens_from(s, i)[k] == rest[k - 1]);
            assert(places_from(s, i)[k] == places[k - 1]);
            if k > 1 {
                assert(places_from(s, i)[k - 1] == places[k - 2]);
            }
        } else {
            law_tokens_are_ordered(s, e, 0);
        }
    }
}

} // verus!
