//! Scanning of schema text: masking of quoted regions and comments, splitting at commas and
//! white space, and searching.
use crate::text;
use vstd::prelude::*;

verus! {

/// Lists of characters, each as its characters.
pub open spec fn char_lists(v: Seq<Vec<char>>) -> Seq<Seq<char>> {
    v.map_values(|s: Vec<char>| s@)
}

pub proof fn lemma_lists_push(v: Seq<Vec<char>>, s: Vec<char>)
    ensures
        char_lists(v.push(s)) == char_lists(v).push(s@),
{
    assert(char_lists(v.push(s)) =~= char_lists(v).push(s@));
}

/// The characters `v[from..to]`.
pub(crate) fn part(v: &Vec<char>, from: usize, to: usize) -> (r: Vec<char>)
    requires
        from <= to <= v.len(),
    ensures
        r@ == v@.subrange(from as int, to as int),
{
    let mut r: Vec<char> = Vec::new();
    let mut i: usize = from;
    while i < to
        invariant
            from <= i <= to <= v.len(),
            r@ == v@.subrange(from as int, i as int),
        decreases to - i,
    {
        r.push(v[i]);
        assert(v@.subrange(from as int, i + 1) =~= v@.subrange(from as int, i as int).push(
            v@[i as int],
        ));
        i = i + 1;
    }
    r
}

pub(crate) fn text_from(v: &Vec<char>) -> (s: String)
    ensures
        s@ == v@,
{
    assert(v@.subrange(0, v@.len() as int) =~= v@);
    text::text_of(v.as_slice(), 0, v.len())
}

pub(crate) fn trimmed(v: &Vec<char>) -> (r: Vec<char>)
    ensures
        r@ == text::trim(v@),
{
    let (a, b) = text::trim_range(v, 0, v.len());
    assert(v@.subrange(0, v@.len() as int) =~= v@);
    part(v, a, b)
}

/// `v` without the white space it ends with.
pub(crate) fn trimmed_end(v: &Vec<char>) -> (r: Vec<char>)
    ensures
        r@ == text::trim_end(v@),
{
    let mut b: usize = v.len();
    assert(v@.subrange(0, b as int) =~= v@);
    while b > 0 && v[b - 1].is_whitespace()
        invariant
            b <= v.len(),
            text::trim_end(v@.subrange(0, b as int)) == text::trim_end(v@),
        decreases b,
    {
        assert(v@.subrange(0, b as int).drop_last() =~= v@.subrange(0, b - 1));
        b = b - 1;
    }
    part(v, 0, b)
}

/// `v` without the white space it begins with.
pub(crate) fn trimmed_start(v: &Vec<char>) -> (r: Vec<char>)
    ensures
        r@ == text::trim_start(v@),
{
    let n: usize = v.len();
    let mut a: usize = 0;
    assert(v@.subrange(0, n as int) =~= v@);
    while a < n && v[a].is_whitespace()
        invariant
            a <= n,
            n == v.len(),
            text::trim_start(v@.subrange(a as int, n as int)) == text::trim_start(v@),
        decreases n - a,
    {
        assert(v@.subrange(a as int, n as int).drop_first() =~= v@.subrange(a + 1, n as int));
        a = a + 1;
    }
    part(v, a, n)
}

pub(crate) fn uppered(v: &Vec<char>) -> (r: Vec<char>)
    ensures
        r@ == text::upper(v@),
{
    assert(v@.subrange(0, v@.len() as int) =~= v@);
    text::to_upper(v, 0, v.len())
}

/// `s` begins with `part`.
pub open spec fn begins(s: Seq<char>, part: Seq<char>) -> bool {
    text::stands_at(s, part, 0)
}

/// `s` ends with `part`.
pub open spec fn ends(s: Seq<char>, part: Seq<char>) -> bool {
    text::stands_at(s, part, s.len() - part.len())
}

pub(crate) fn begins_with(v: &Vec<char>, p: &str) -> (r: bool)
    ensures
        r == begins(v@, p@),
{
    let w = text::chars_of(p);
    text::at_place(v, &w, 0)
}

pub(crate) fn ends_with(v: &Vec<char>, p: &str) -> (r: bool)
    ensures
        r == ends(v@, p@),
{
    let w = text::chars_of(p);
    if w.len() > v.len() {
        return false;
    }
    text::at_place(v, &w, v.len() - w.len())
}

/// Where `part` first stands in `s` from `i` on.
pub open spec fn found_from(s: Seq<char>, part: Seq<char>, i: int) -> Option<int>
    decreases s.len() + 1 - i,
{
    if i < 0 || i > s.len() {
        None
    } else if text::stands_at(s, part, i) {
        Some(i)
    } else {
        found_from(s, part, i + 1)
    }
}

pub(crate) fn find(v: &Vec<char>, p: &str) -> (r: Option<usize>)
    ensures
        match r {
            Some(i) => found_from(v@, p@, 0) == Some(i as int) && i + p@.len() <= v@.len(),
            None => found_from(v@, p@, 0) is None,
        },
{
    let w = text::chars_of(p);
    let mut i: usize = 0;
    while i < v.len()
        invariant
            i <= v.len(),
            w@ == p@,
            found_from(v@, p@, i as int) == found_from(v@, p@, 0),
        decreases v.len() - i,
    {
        if text::at_place(v, &w, i) {
            return Some(i);
        }
        i = i + 1;
    }
    if text::at_place(v, &w, i) {
        Some(i)
    } else {
        assert(found_from(v@, p@, i + 1) is None);
        None
    }
}

// ---- masking ------------------------------------------------------------------------

/// Behind the quoted region whose contents begin at `i`: a doubled quote is an escaped one,
/// not the closing one.
pub open spec fn quote_end(s: Seq<char>, i: int, quote: char) -> int
    decreases s.len() - i,
{
    if i < 0 || i >= s.len() {
        s.len() as int
    } else if s[i] != quote {
        quote_end(s, i + 1, quote)
    } else if i + 1 < s.len() && s[i + 1] == quote {
        quote_end(s, i + 2, quote)
    } else {
        i + 1
    }
}

/// Behind the next `close` from `i` on.
pub open spec fn close_end(s: Seq<char>, i: int, close: char) -> int
    decreases s.len() - i,
{
    if i < 0 || i >= s.len() {
        s.len() as int
    } else if s[i] == close {
        i + 1
    } else {
        close_end(s, i + 1, close)
    }
}

/// The end of the line from `i` on.
pub open spec fn line_end(s: Seq<char>, i: int) -> int
    decreases s.len() - i,
{
    if i < 0 || i >= s.len() {
        s.len() as int
    } else if s[i] == '\n' {
        i
    } else {
        line_end(s, i + 1)
    }
}

/// Behind the comment whose contents begin at `i`.
pub open spec fn comment_end(s: Seq<char>, i: int) -> int
    decreases s.len() - i,
{
    if i < 0 || i >= s.len() {
        s.len() as int
    } else if s[i] == '*' && i + 1 < s.len() && s[i + 1] == '/' {
        i + 2
    } else {
        comment_end(s, i + 1)
    }
}

/// Behind the quoted region or comment that begins at `i`, or `i` where none does.
pub open spec fn region_end(s: Seq<char>, i: int) -> int {
    if s[i] == '\'' || s[i] == '"' {
        quote_end(s, i + 1, s[i])
    } else if s[i] == '`' {
        close_end(s, i + 1, '`')
    } else if s[i] == '[' {
        close_end(s, i + 1, ']')
    } else if s[i] == '-' && i + 1 < s.len() && s[i + 1] == '-' {
        line_end(s, i)
    } else if s[i] == '/' && i + 1 < s.len() && s[i + 1] == '*' {
        comment_end(s, i + 2)
    } else {
        i
    }
}

pub open spec fn blanks(n: int) -> Seq<char> {
    Seq::new(
        if n < 0 {
            0
        } else {
            n as nat
        },
        |i: int| ' ',
    )
}

/// The text from `i` on, with the quoted regions (`'...'`, `"..."`, `` `...` ``, `[...]`) and
/// comments (`--...`, `/*...*/`) that begin there as spaces.
pub open spec fn masked_from(s: Seq<char>, i: int) -> Seq<char>
    decreases s.len() - i,
{
    if i < 0 || i >= s.len() {
        Seq::empty()
    } else if i < region_end(s, i) <= s.len() {
        blanks(region_end(s, i) - i) + masked_from(s, region_end(s, i))
    } else {
        seq![s[i]] + masked_from(s, i + 1)
    }
}

pub open spec fn masked(s: Seq<char>) -> Seq<char> {
    masked_from(s, 0)
}

proof fn lemma_quote_end(s: Seq<char>, i: int, quote: char)
    requires
        0 <= i <= s.len(),
    ensures
        i <= quote_end(s, i, quote) <= s.len(),
    decreases s.len() - i,
{
    if i < s.len() {
        if s[i] != quote {
            lemma_quote_end(s, i + 1, quote);
        } else if i + 1 < s.len() && s[i + 1] == quote {
            lemma_quote_end(s, i + 2, quote);
        }
    }
}

proof fn lemma_close_end(s: Seq<char>, i: int, close: char)
    requires
        0 <= i <= s.len(),
    ensures
        i <= close_end(s, i, close) <= s.len(),
    decreases s.len() - i,
{
    if i < s.len() && s[i] != close {
        lemma_close_end(s, i + 1, close);
    }
}

proof fn lemma_line_end(s: Seq<char>, i: int)
    requires
        0 <= i <= s.len(),
    ensures
        i <= line_end(s, i) <= s.len(),
    decreases s.len() - i,
{
    if i < s.len() && s[i] != '\n' {
        lemma_line_end(s, i + 1);
    }
}

proof fn lemma_comment_end(s: Seq<char>, i: int)
    requires
        0 <= i <= s.len(),
    ensures
        i <= comment_end(s, i) <= s.len(),
    decreases s.len() - i,
{
    if i < s.len() && !(s[i] == '*' && i + 1 < s.len() && s[i + 1] == '/') {
        lemma_comment_end(s, i + 1);
    }
}

proof fn lemma_region_end(s: Seq<char>, i: int)
    requires
        0 <= i < s.len(),
    ensures
        i <= region_end(s, i) <= s.len(),
{
    lemma_quote_end(s, i + 1, s[i]);
    lemma_close_end(s, i + 1, '`');
    lemma_close_end(s, i + 1, ']');
    lemma_line_end(s, i);
    if i + 1 < s.len() {
        lemma_comment_end(s, i + 2);
    }
}

/// Masking keeps every place: the masked text is as long as the text, and where it is not a
/// space it is the text.
pub proof fn law_masking_keeps_places(s: Seq<char>, i: int)
    requires
        0 <= i <= s.len(),
    ensures
        masked_from(s, i).len() == s.len() - i,
        forall|k: int|
            0 <= k < s.len() - i ==> #[trigger] masked_from(s, i)[k] == ' ' || masked_from(s, i)[k]
                == s[i + k],
    decreases s.len() - i,
{
    if i < s.len() {
        let e = region_end(s, i);
        lemma_region_end(s, i);
        if e > i {
            law_masking_keeps_places(s, e);
            assert forall|k: int| 0 <= k < s.len() - i implies #[trigger] masked_from(s, i)[k]
                == ' ' || masked_from(s, i)[k] == s[i + k] by {
                if k >= e - i {
                    assert(masked_from(s, i)[k] == masked_from(s, e)[k - (e - i)]);
                }
            }
        } else {
            law_masking_keeps_places(s, i + 1);
            assert forall|k: int| 0 <= k < s.len() - i implies #[trigger] masked_from(s, i)[k]
                == ' ' || masked_from(s, i)[k] == s[i + k] by {
                if k > 0 {
                    assert(masked_from(s, i)[k] == masked_from(s, i + 1)[k - 1]);
                }
            }
        }
    }
}

/// Whether no quoted region and no comment begins anywhere.
spec fn is_clear(s: Seq<char>) -> bool {
    forall|k: int|
        0 <= k < s.len() ==> {
            let c = #[trigger] s[k];
            &&& c != '\'' && c != '"' && c != '`' && c != '['
            &&& c == '-' && k + 1 < s.len() ==> s[k + 1] != '-'
            &&& c == '/' && k + 1 < s.len() ==> s[k + 1] != '*'
        }
}

proof fn lemma_masked_is_clear(s: Seq<char>, i: int)
    requires
        0 <= i <= s.len(),
    ensures
        is_clear(masked_from(s, i)),
    decreases s.len() - i,
{
    law_masking_keeps_places(s, i);
    let m = masked_from(s, i);
    if i < s.len() {
        let e = region_end(s, i);
        lemma_region_end(s, i);
        if e > i {
            lemma_masked_is_clear(s, e);
            let rest = masked_from(s, e);
            assert forall|k: int| 0 <= k < m.len() implies {
                let c = #[trigger] m[k];
                &&& c != '\'' && c != '"' && c != '`' && c != '['
                &&& c == '-' && k + 1 < m.len() ==> m[k + 1] != '-'
                &&& c == '/' && k + 1 < m.len() ==> m[k + 1] != '*'
            } by {
                if k >= e - i {
                    assert(m[k] == rest[k - (e - i)]);
                    if k + 1 < m.len() {
                        assert(m[k + 1] == rest[k + 1 - (e - i)]);
                    }
                }
            }
        } else {
            lemma_masked_is_clear(s, i + 1);
            law_masking_keeps_places(s, i + 1);
            lemma_quote_end(s, i + 1, s[i]);
            lemma_close_end(s, i + 1, '`');
            lemma_close_end(s, i + 1, ']');
            lemma_line_end(s, i + 1);
            if i + 1 < s.len() {
                lemma_comment_end(s, i + 2);
            }
            let rest = masked_from(s, i + 1);
            assert forall|k: int| 0 <= k < m.len() implies {
                let c = #[trigger] m[k];
                &&& c != '\'' && c != '"' && c != '`' && c != '['
                &&& c == '-' && k + 1 < m.len() ==> m[k + 1] != '-'
                &&& c == '/' && k + 1 < m.len() ==> m[k + 1] != '*'
            } by {
                if k > 0 {
                    assert(m[k] == rest[k - 1]);
                    if k + 1 < m.len() {
                        assert(m[k + 1] == rest[k]);
                    }
                } else {
                    assert(m[0] == s[i]);
                    if m.len() > 1 {
                        assert(m[1] == rest[0]);
                        assert(rest[0] == ' ' || rest[0] == s[i + 1]);
                    }
                }
            }
        }
    }
}

proof fn lemma_clear_stays(s: Seq<char>, i: int)
    requires
        0 <= i <= s.len(),
        is_clear(s),
    ensures
        masked_from(s, i) == s.skip(i),
    decreases s.len() - i,
{
    if i < s.len() {
        assert(s[i] != '\'');
        lemma_clear_stays(s, i + 1);
        assert(region_end(s, i) == i);
        assert(seq![s[i]] + s.skip(i + 1) =~= s.skip(i));
    } else {
        assert(s.skip(i) =~= Seq::empty());
    }
}

/// Masking a masked text changes nothing.
pub proof fn law_masking_twice_is_masking_once(s: Seq<char>)
    ensures
        masked(masked(s)) == masked(s),
{
    lemma_masked_is_clear(s, 0);
    lemma_clear_stays(masked(s), 0);
    assert(masked(s).skip(0) =~= masked(s));
}

fn skip_quote(v: &Vec<char>, from: usize, quote: char) -> (to: usize)
    requires
        from <= v.len(),
    ensures
        to == quote_end(v@, from as int, quote),
{
    let mut i: usize = from;
    while i < v.len()
        invariant
            i <= v.len(),
            quote_end(v@, i as int, quote) == quote_end(v@, from as int, quote),
        decreases v.len() - i,
    {
        if v[i] == quote {
            if i + 1 < v.len() && v[i + 1] == quote {
                i = i + 2;
            } else {
                return i + 1;
            }
        } else {
            i = i + 1;
        }
    }
    i
}

fn skip_close(v: &Vec<char>, from: usize, close: char) -> (to: usize)
    requires
        from <= v.len(),
    ensures
        to == close_end(v@, from as int, close),
{
    let mut i: usize = from;
    while i < v.len()
        invariant
            i <= v.len(),
            close_end(v@, i as int, close) == close_end(v@, from as int, close),
        decreases v.len() - i,
    {
        if v[i] == close {
            return i + 1;
        }
        i = i + 1;
    }
    i
}

fn skip_line(v: &Vec<char>, from: usize) -> (to: usize)
    requires
        from <= v.len(),
    ensures
        to == line_end(v@, from as int),
{
    let mut i: usize = from;
    while i < v.len() && v[i] != '\n'
        invariant
            i <= v.len(),
            line_end(v@, i as int) == line_end(v@, from as int),
        decreases v.len() - i,
    {
        i = i + 1;
    }
    i
}

fn skip_comment(v: &Vec<char>, from: usize) -> (to: usize)
    requires
        from <= v.len(),
    ensures
        to == comment_end(v@, from as int),
{
    let mut i: usize = from;
    while i < v.len()
        invariant
            i <= v.len(),
            comment_end(v@, i as int) == comment_end(v@, from as int),
        decreases v.len() - i,
    {
        if v[i] == '*' && i + 1 < v.len() && v[i + 1] == '/' {
            return i + 2;
        }
        i = i + 1;
    }
    i
}

fn skip_region(v: &Vec<char>, i: usize) -> (to: usize)
    requires
        i < v.len(),
    ensures
        to == region_end(v@, i as int),
        i <= to <= v.len(),
{
    proof {
        lemma_region_end(v@, i as int);
    }
    let c = v[i];
    if c == '\'' || c == '"' {
        skip_quote(v, i + 1, c)
    } else if c == '`' {
        skip_close(v, i + 1, '`')
    } else if c == '[' {
        skip_close(v, i + 1, ']')
    } else if c == '-' && i + 1 < v.len() && v[i + 1] == '-' {
        skip_line(v, i)
    } else if c == '/' && i + 1 < v.len() && v[i + 1] == '*' {
        skip_comment(v, i + 2)
    } else {
        i
    }
}

/// Replaces the contents of quoted regions and comments with spaces, preserving every other
/// character and the overall length, so that a masked offset always lines up with the same
/// offset in the original. Callers scan the masked text for top-level structure but slice
/// the *original* for the text they return.
pub fn mask_quotes_and_comments(v: &Vec<char>) -> (out: Vec<char>)
    ensures
        out@ == masked(v@),
        out@.len() == v@.len(),
{
    let mut out: Vec<char> = Vec::new();
    let mut i: usize = 0;
    assert(out@ + masked(v@) =~= masked(v@));
    while i < v.len()
        invariant
            i <= v.len(),
            out@.len() == i,
            out@ + masked_from(v@, i as int) == masked(v@),
        decreases v.len() - i,
    {
        let to = skip_region(v, i);
        let ghost before = out@;
        if to > i {
            let from: usize = i;
            while i < to
                invariant
                    from <= i <= to <= v.len(),
                    out@.len() == i,
                    out@ == before + blanks(i - from),
                decreases to - i,
            {
                out.push(' ');
                i = i + 1;
                assert(out@ =~= before + blanks(i - from));
            }
            assert(out@ + masked_from(v@, to as int) =~= before + (blanks(to - from)
                + masked_from(v@, to as int)));
        } else {
            out.push(v[i]);
            assert(out@ + masked_from(v@, i + 1) =~= before + (seq![v@[i as int]] + masked_from(
                v@,
                i + 1,
            )));
            i = i + 1;
        }
    }
    assert(out@ + masked_from(v@, i as int) =~= out@);
    proof {
        law_masking_keeps_places(v@, 0);
    }
    out
}

// ---- parentheses and commas ---------------------------------------------------------

/// Where the parenthesis that brings the depth to zero stands, from `i` on, `depth` deep.
pub open spec fn closing_from(m: Seq<char>, i: int, depth: int) -> Option<int>
    decreases m.len() - i,
{
    if i < 0 || i >= m.len() {
        None
    } else if m[i] == '(' {
        closing_from(m, i + 1, depth + 1)
    } else if m[i] == ')' {
        if depth == 1 {
            Some(i)
        } else {
            closing_from(m, i + 1, depth - 1)
        }
    } else {
        closing_from(m, i + 1, depth)
    }
}

/// The range *between* the outer parentheses of the first balanced list of a statement, over
/// the text with quoted regions and comments masked.
pub open spec fn list_span(sql: Seq<char>) -> Option<(int, int)> {
    match found_from(masked(sql), "("@, 0) {
        None => None,
        Some(start) => match closing_from(masked(sql), start, 0) {
            None => None,
            Some(end) => Some((start + 1, end)),
        },
    }
}

proof fn lemma_closing(m: Seq<char>, i: int, depth: int)
    requires
        0 <= i,
    ensures
        closing_from(m, i, depth) is Some ==> i <= closing_from(m, i, depth)->0 < m.len(),
        closing_from(m, i, depth) is Some ==> m[closing_from(m, i, depth)->0] == ')',
    decreases m.len() - i,
{
    if i < m.len() {
        lemma_closing(m, i + 1, depth + 1);
        lemma_closing(m, i + 1, depth - 1);
        lemma_closing(m, i + 1, depth);
    }
}

/// The range *between* the outer parentheses of a statement's column-definition list, or
/// `None` when there is no balanced list. Depth is counted over the masked text, so a
/// parenthesis inside a string literal can't unbalance the scan, but the range indexes the
/// original.
pub fn column_list_span(sql: &Vec<char>) -> (r: Option<(usize, usize)>)
    ensures
        match r {
            Some((a, b)) => list_span(sql@) == Some((a as int, b as int)) && a <= b < sql@.len(),
            None => list_span(sql@) is None,
        },
{
    let m = mask_quotes_and_comments(sql);
    let start: usize = match find(&m, "(") {
        Some(i) => i,
        None => {
            return None;
        },
    };
    let ghost goal = closing_from(m@, start as int, 0);
    proof {
        reveal_strlit("(");
        lemma_found(m@, "("@, 0);
        assert(m@.subrange(start as int, start + 1)[0] == '(');
    }
    let mut depth: u128 = 0;
    let mut i: usize = start;
    while i < m.len()
        invariant
            start <= i <= m.len(),
            m@ == masked(sql@),
            m@.len() == sql@.len(),
            depth <= i - start,
            i > start ==> depth >= 1,
            m@[start as int] == '(',
            found_from(m@, "("@, 0) == Some(start as int),
            goal == closing_from(m@, start as int, 0),
            closing_from(m@, i as int, depth as int) == goal,
        decreases m.len() - i,
    {
        if m[i] == '(' {
            depth = depth + 1;
        } else if m[i] == ')' {
            if depth == 1 {
                return Some((start + 1, i));
            }
            depth = depth - 1;
        }
        i = i + 1;
    }
    None
}

proof fn lemma_found(s: Seq<char>, part: Seq<char>, i: int)
    ensures
        found_from(s, part, i) is Some ==> text::stands_at(s, part, found_from(s, part, i)->0),
    decreases s.len() + 1 - i,
{
    if 0 <= i <= s.len() && !text::stands_at(s, part, i) {
        lemma_found(s, part, i + 1);
    }
}

/// The parts between the commas outside parentheses of `inner` from `i` on, the first of
/// which began at `start`; `m` is the masked text and `depth` the parentheses open.
pub open spec fn parts_from(inner: Seq<char>, m: Seq<char>, i: int, start: int, depth: int) -> Seq<
    Seq<char>,
>
    decreases m.len() - i,
{
    if i < 0 || i >= m.len() {
        seq![text::trim(inner.subrange(start, inner.len() as int))]
    } else if m[i] == '(' {
        parts_from(inner, m, i + 1, start, depth + 1)
    } else if m[i] == ')' {
        parts_from(inner, m, i + 1, start, depth - 1)
    } else if m[i] == ',' && depth == 0 {
        seq![text::trim(inner.subrange(start, i))] + parts_from(inner, m, i + 1, i + 1, depth)
    } else {
        parts_from(inner, m, i + 1, start, depth)
    }
}

/// The parts of `inner` between its top-level commas, trimmed.
pub open spec fn comma_parts(inner: Seq<char>) -> Seq<Seq<char>> {
    parts_from(inner, masked(inner), 0, 0, 0)
}

/// Splits at top-level commas, over the masked text, so that a comma inside a string literal
/// is not mistaken for a column separator; the parts come from the original.
pub fn split_top_level_commas(inner: &Vec<char>) -> (parts: Vec<Vec<char>>)
    ensures
        char_lists(parts@) == comma_parts(inner@),
{
    let m = mask_quotes_and_comments(inner);
    let mut parts: Vec<Vec<char>> = Vec::new();
    let mut depth: i128 = 0;
    let mut start: usize = 0;
    let mut i: usize = 0;
    let ghost goal = comma_parts(inner@);
    assert(char_lists(parts@) + goal =~= goal);
    while i < m.len()
        invariant
            start <= i <= m.len(),
            m@ == masked(inner@),
            m@.len() == inner@.len(),
            goal == comma_parts(inner@),
            -(i as int) <= depth <= i,
            char_lists(parts@) + parts_from(
                inner@,
                m@,
                i as int,
                start as int,
                depth as int,
            ) == goal,
        decreases m.len() - i,
    {
        if m[i] == '(' {
            depth = depth + 1;
        } else if m[i] == ')' {
            depth = depth - 1;
        } else if m[i] == ',' && depth == 0 {
            let piece = part(inner, start, i);
            let t = trimmed(&piece);
            let ghost before = char_lists(parts@);
            proof {
                lemma_lists_push(parts@, t);
            }
            parts.push(t);
            start = i + 1;
            assert(char_lists(parts@) + parts_from(inner@, m@, i + 1, i + 1, depth as int)
                =~= before + (seq![t@] + parts_from(inner@, m@, i + 1, i + 1, depth as int)));
        }
        i = i + 1;
    }
    let piece = part(inner, start, inner.len());
    let t = trimmed(&piece);
    let ghost before = char_lists(parts@);
    proof {
        lemma_lists_push(parts@, t);
    }
    parts.push(t);
    assert(char_lists(parts@) =~= before + seq![t@]);
    parts
}

// ---- words --------------------------------------------------------------------------

/// Where the white space at `i` ends.
pub open spec fn gap_end(s: Seq<char>, i: int) -> int
    decreases s.len() - i,
{
    if 0 <= i < s.len() && text::is_space(s[i]) {
        gap_end(s, i + 1)
    } else {
        i
    }
}

/// Where the word at `i` ends.
pub open spec fn word_end(s: Seq<char>, i: int) -> int
    decreases s.len() - i,
{
    if 0 <= i < s.len() && !text::is_space(s[i]) {
        word_end(s, i + 1)
    } else {
        i
    }
}

/// The words of `s` from `i` on, between white space.
pub open spec fn words_from(s: Seq<char>, i: int) -> Seq<Seq<char>>
    decreases s.len() - i,
{
    let a = gap_end(s, i);
    let b = word_end(s, a);
    if !(i <= a < b <= s.len()) {
        Seq::empty()
    } else {
        seq![s.subrange(a, b)] + words_from(s, b)
    }
}

/// The words of `s`, between white space.
pub open spec fn words(s: Seq<char>) -> Seq<Seq<char>> {
    words_from(s, 0)
}

fn skip_gap(v: &Vec<char>, from: usize) -> (to: usize)
    requires
        from <= v.len(),
    ensures
        to == gap_end(v@, from as int),
        from <= to <= v.len(),
        to < v.len() ==> !text::is_space(v@[to as int]),
{
    let mut i: usize = from;
    while i < v.len() && v[i].is_whitespace()
        invariant
            from <= i <= v.len(),
            gap_end(v@, i as int) == gap_end(v@, from as int),
        decreases v.len() - i,
    {
        i = i + 1;
    }
    i
}

fn skip_word(v: &Vec<char>, from: usize) -> (to: usize)
    requires
        from <= v.len(),
    ensures
        to == word_end(v@, from as int),
        from <= to <= v.len(),
        from < v.len() && !text::is_space(v@[from as int]) ==> from < to,
{
    let mut i: usize = from;
    while i < v.len() && !v[i].is_whitespace()
        invariant
            from <= i <= v.len(),
            word_end(v@, i as int) == word_end(v@, from as int),
        decreases v.len() - i,
    {
        i = i + 1;
    }
    i
}

/// Splits at white space.
pub fn split_words(v: &Vec<char>) -> (r: Vec<Vec<char>>)
    ensures
        char_lists(r@) == words(v@),
{
    let mut r: Vec<Vec<char>> = Vec::new();
    let mut i: usize = 0;
    assert(char_lists(r@) + words(v@) =~= words(v@));
    loop
        invariant
            i <= v.len(),
            char_lists(r@) + words_from(v@, i as int) == words(v@),
        decreases v.len() - i,
    {
        let a = skip_gap(v, i);
        if a == v.len() {
            assert(word_end(v@, a as int) == a);
            assert(words_from(v@, i as int) =~= Seq::empty());
            assert(char_lists(r@) + words_from(v@, i as int) =~= char_lists(r@));
            return r;
        }
        let b = skip_word(v, a);
        let w = part(v, a, b);
        let ghost before = char_lists(r@);
        proof {
            lemma_lists_push(r@, w);
        }
        r.push(w);
        assert(char_lists(r@) + words_from(v@, b as int) =~= before + (seq![w@] + words_from(
            v@,
            b as int,
        )));
        i = b;
    }
}

/// A letter or digit of any script.
pub open spec fn is_name_char(c: char) -> bool {
    if text::is_ascii_char(c) {
        text::is_upper(c) || text::is_lower(c) || text::is_digit(c)
    } else {
        text::alphanumeric(c)
    }
}

/// The pieces of `s` from `i` on between characters that are no letter or digit, the first of
/// which began at `start`; pieces may be empty.
pub open spec fn pieces_from(s: Seq<char>, i: int, start: int) -> Seq<Seq<char>>
    decreases s.len() - i,
{
    if i < 0 || i >= s.len() {
        seq![s.subrange(start, s.len() as int)]
    } else if is_name_char(s[i]) {
        pieces_from(s, i + 1, start)
    } else {
        seq![s.subrange(start, i)] + pieces_from(s, i + 1, i + 1)
    }
}

/// Splits at every character that is no letter or digit; the pieces may be empty.
pub fn split_pieces(v: &Vec<char>) -> (r: Vec<Vec<char>>)
    ensures
        char_lists(r@) == pieces_from(v@, 0, 0),
{
    let mut r: Vec<Vec<char>> = Vec::new();
    let mut start: usize = 0;
    let mut i: usize = 0;
    let ghost goal = pieces_from(v@, 0, 0);
    assert(char_lists(r@) + goal =~= goal);
    while i < v.len()
        invariant
            start <= i <= v.len(),
            goal == pieces_from(v@, 0, 0),
            char_lists(r@) + pieces_from(v@, i as int, start as int) == goal,
        decreases v.len() - i,
    {
        if !v[i].is_alphanumeric() {
            let w = part(v, start, i);
            let ghost before = char_lists(r@);
            proof {
                lemma_lists_push(r@, w);
            }
            r.push(w);
            start = i + 1;
            assert(char_lists(r@) + pieces_from(v@, i + 1, i + 1) =~= before + (seq![w@]
                + pieces_from(v@, i + 1, i + 1)));
        }
        i = i + 1;
    }
    let w = part(v, start, v.len());
    let ghost before = char_lists(r@);
    proof {
        lemma_lists_push(r@, w);
    }
    r.push(w);
    assert(char_lists(r@) =~= before + seq![w@]);
    r
}

// ---- quotation marks ----------------------------------------------------------------

/// An opening quotation mark of a name, or the closing bracket.
pub open spec fn is_mark(c: char, closing: bool) -> bool {
    if closing {
        c == ']'
    } else {
        c == '"' || c == '`' || c == '['
    }
}

pub open spec fn strip_start(s: Seq<char>, closing: bool) -> Seq<char>
    decreases s.len(),
{
    if s.len() > 0 && is_mark(s[0], closing) {
        strip_start(s.drop_first(), closing)
    } else {
        s
    }
}

pub open spec fn strip_end(s: Seq<char>, closing: bool) -> Seq<char>
    decreases s.len(),
{
    if s.len() > 0 && is_mark(s.last(), closing) {
        strip_end(s.drop_last(), closing)
    } else {
        s
    }
}

/// A name without the quotation marks around it, and then without the closing brackets.
pub open spec fn unquoted(s: Seq<char>) -> Seq<char> {
    strip_end(strip_start(strip_end(strip_start(s, false), false), true), true)
}

fn mark(c: char, closing: bool) -> (r: bool)
    ensures
        r == is_mark(c, closing),
{
    if closing {
        c == ']'
    } else {
        c == '"' || c == '`' || c == '['
    }
}

fn strip(v: &Vec<char>, closing: bool) -> (r: Vec<char>)
    ensures
        r@ == strip_end(strip_start(v@, closing), closing),
{
    let n: usize = v.len();
    let mut a: usize = 0;
    assert(v@.subrange(0, n as int) =~= v@);
    while a < n && mark(v[a], closing)
        invariant
            a <= n,
            n == v.len(),
            strip_start(v@.subrange(a as int, n as int), closing) == strip_start(v@, closing),
        decreases n - a,
    {
        assert(v@.subrange(a as int, n as int).drop_first() =~= v@.subrange(a + 1, n as int));
        a = a + 1;
    }
    let ghost rest = v@.subrange(a as int, n as int);
    let mut b: usize = n;
    while b > a && mark(v[b - 1], closing)
        invariant
            a <= b <= n,
            n == v.len(),
            rest == v@.subrange(a as int, n as int),
            strip_end(v@.subrange(a as int, b as int), closing) == strip_end(rest, closing),
        decreases b,
    {
        assert(v@.subrange(a as int, b as int).drop_last() =~= v@.subrange(a as int, b - 1));
        b = b - 1;
    }
    part(v, a, b)
}

/// A name without its quotation marks.
pub(crate) fn unquote(v: &Vec<char>) -> (r: Vec<char>)
    ensures
        r@ == unquoted(v@),
{
    let inner = strip(v, false);
    strip(&inner, true)
}

// ---- laws ---------------------------------------------------------------------------

/// `word` stands at `i` with white space, or nothing, on both sides.
pub open spec fn is_word_at(s: Seq<char>, word: Seq<char>, i: int) -> bool {
    &&& 0 <= i
    &&& i + word.len() <= s.len()
    &&& forall|j: int| 0 <= j < word.len() ==> #[trigger] s[i + j] == word[j]
    &&& i > 0 ==> text::is_space(s[i - 1])
    &&& i + word.len() < s.len() ==> text::is_space(s[i + word.len()])
}

/// A word: characters, and none of them white space.
pub open spec fn is_solid(word: Seq<char>) -> bool {
    word.len() > 0 && forall|j: int| 0 <= j < word.len() ==> !text::is_space(#[trigger] word[j])
}

proof fn lemma_gap_end(s: Seq<char>, i: int)
    requires
        0 <= i <= s.len(),
    ensures
        i <= gap_end(s, i) <= s.len(),
        forall|k: int| i <= k < gap_end(s, i) ==> text::is_space(#[trigger] s[k]),
        gap_end(s, i) < s.len() ==> !text::is_space(s[gap_end(s, i)]),
    decreases s.len() - i,
{
    if i < s.len() && text::is_space(s[i]) {
        lemma_gap_end(s, i + 1);
    }
}

proof fn lemma_word_end(s: Seq<char>, i: int)
    requires
        0 <= i <= s.len(),
    ensures
        i <= word_end(s, i) <= s.len(),
        forall|k: int| i <= k < word_end(s, i) ==> !text::is_space(#[trigger] s[k]),
        word_end(s, i) < s.len() ==> text::is_space(s[word_end(s, i)]),
    decreases s.len() - i,
{
    if i < s.len() && !text::is_space(s[i]) {
        lemma_word_end(s, i + 1);
    }
}

proof fn lemma_words_from_at(s: Seq<char>, i: int, word: Seq<char>)
    requires
        0 <= i <= s.len(),
        i > 0 && i < s.len() ==> text::is_space(s[i - 1]) || text::is_space(s[i]),
        is_solid(word),
    ensures
        words_from(s, i).contains(word) <==> exists|a: int| i <= a && is_word_at(s, word, a),
    decreases s.len() - i,
{
    let a = gap_end(s, i);
    lemma_gap_end(s, i);
    lemma_word_end(s, a);
    let b = word_end(s, a);
    let all = words_from(s, i);
    if a < b {
        let first = s.subrange(a, b);
        let rest = words_from(s, b);
        assert(all == seq![first] + rest);
        lemma_words_from_at(s, b, word);
        assert(is_word_at(s, first, a)) by {
            if a > 0 && a > i {
                assert(text::is_space(s[a - 1]));
            }
        }
        if all.contains(word) {
            let j = choose|j: int| 0 <= j < all.len() && all[j] == word;
            if j > 0 {
                assert(rest[j - 1] == word);
                assert(rest.contains(word));
                let c = choose|c: int| b <= c && is_word_at(s, word, c);
                assert(is_word_at(s, word, c));
            } else {
                assert(is_word_at(s, word, a));
            }
        }
        if exists|c: int| i <= c && is_word_at(s, word, c) {
            let c = choose|c: int| i <= c && is_word_at(s, word, c);
            assert(s[c + 0] == word[0]);
            assert(!text::is_space(s[c]));
            if c < a {
                assert(text::is_space(s[c]));
            }
            if c < b {
                if c > a {
                    assert(text::is_space(s[c - 1]));
                    assert(!text::is_space(s[c - 1]));
                }
                // Both end at the first white space.
                if c + word.len() < b {
                    assert(!text::is_space(s[c + word.len()]));
                } else if c + word.len() > b {
                    assert(s[c + (b - c)] == word[b - c]);
                }
                assert(word =~= first) by {
                    assert forall|k: int| 0 <= k < word.len() implies word[k] == first[k] by {
                        assert(s[c + k] == word[k]);
                    }
                }
                assert(all[0] == word);
            } else {
                assert(rest.contains(word));
                let k = choose|k: int| 0 <= k < rest.len() && rest[k] == word;
                assert(all[k + 1] == word);
            }
        }
    } else {
        assert(a == s.len());
        if exists|c: int| i <= c && is_word_at(s, word, c) {
            let c = choose|c: int| i <= c && is_word_at(s, word, c);
            assert(s[c + 0] == word[0]);
            assert(text::is_space(s[c]));
        }
    }
}

/// The words of a text are exactly what stands in it between white space.
pub proof fn law_words_stand_between_white_space(s: Seq<char>, word: Seq<char>)
    requires
        is_solid(word),
    ensures
        words(s).contains(word) <==> exists|i: int| 0 <= i && is_word_at(s, word, i),
{
    lemma_words_from_at(s, 0, word);
}

/// The characters of `s` from `i` on that are no white space, in order.
pub open spec fn solid_from(s: Seq<char>, i: int) -> Seq<char>
    decreases s.len() - i,
{
    if i < 0 || i >= s.len() {
        seq![]
    } else if text::is_space(s[i]) {
        solid_from(s, i + 1)
    } else {
        seq![s[i]] + solid_from(s, i + 1)
    }
}

/// The words one behind the other.
pub open spec fn run_together(words: Seq<Seq<char>>) -> Seq<char>
    decreases words.len(),
{
    if words.len() == 0 {
        seq![]
    } else {
        words[0] + run_together(words.drop_first())
    }
}

proof fn lemma_solid_gap(s: Seq<char>, i: int)
    requires
        0 <= i <= s.len(),
    ensures
        solid_from(s, i) == solid_from(s, gap_end(s, i)),
    decreases s.len() - i,
{
    if i < s.len() && text::is_space(s[i]) {
        lemma_solid_gap(s, i + 1);
    }
}

proof fn lemma_solid_word(s: Seq<char>, i: int)
    requires
        0 <= i <= s.len(),
    ensures
        i <= word_end(s, i) <= s.len(),
        solid_from(s, i) == s.subrange(i, word_end(s, i)) + solid_from(s, word_end(s, i)),
    decreases s.len() - i,
{
    lemma_word_end(s, i);
    let b = word_end(s, i);
    if i < s.len() && !text::is_space(s[i]) {
        lemma_solid_word(s, i + 1);
        assert(seq![s[i]] + (s.subrange(i + 1, b) + solid_from(s, b)) =~= s.subrange(i, b)
            + solid_from(s, b));
    } else {
        assert(s.subrange(i, b) + solid_from(s, b) =~= solid_from(s, b));
    }
}

/// Splitting into words loses nothing but white space, and keeps the order.
pub proof fn law_words_keep_every_character(s: Seq<char>, i: int)
    requires
        0 <= i <= s.len(),
    ensures
        run_together(words_from(s, i)) == solid_from(s, i),
    decreases s.len() - i,
{
    let a = gap_end(s, i);
    lemma_gap_end(s, i);
    lemma_word_end(s, a);
    lemma_solid_gap(s, i);
    lemma_solid_word(s, a);
    let b = word_end(s, a);
    if a < b {
        law_words_keep_every_character(s, b);
        let all = words_from(s, i);
        assert(all.drop_first() =~= words_from(s, b));
        assert(all[0] == s.subrange(a, b));
    }
}

/// A letter or a number of any script.
pub open spec fn is_letter_or_number(c: char) -> bool {
    if c as u32 <= 127 {
        'A' <= c <= 'Z' || 'a' <= c <= 'z' || '0' <= c <= '9'
    } else {
        text::alphanumeric(c)
    }
}

/// `piece` stands at `i` with no letter or digit on either side of it.
pub open spec fn is_piece_at(s: Seq<char>, piece: Seq<char>, i: int) -> bool {
    &&& 0 <= i
    &&& i + piece.len() <= s.len()
    &&& forall|j: int| 0 <= j < piece.len() ==> #[trigger] s[i + j] == piece[j]
    &&& i > 0 ==> !is_letter_or_number(s[i - 1])
    &&& i + piece.len() < s.len() ==> !is_letter_or_number(s[i + piece.len()])
}

/// Made of letters and digits alone.
pub open spec fn is_name(piece: Seq<char>) -> bool {
    piece.len() > 0 && forall|j: int|
        0 <= j < piece.len() ==> is_letter_or_number(#[trigger] piece[j])
}

/// Two pieces stand next to each other from `i` on, with one character between them.
pub open spec fn are_pieces_at(s: Seq<char>, a: Seq<char>, b: Seq<char>, i: int) -> bool {
    is_piece_at(s, a, i) && is_piece_at(s, b, i + a.len() + 1)
}

/// Two pieces are next to each other in the list.
pub open spec fn are_neighbours(pieces: Seq<Seq<char>>, a: Seq<char>, b: Seq<char>, k: int)
    -> bool {
    0 <= k < pieces.len() - 1 && pieces[k] == a && pieces[k + 1] == b
}

proof fn lemma_first_piece(s: Seq<char>, i: int, start: int) -> (e: int)
    requires
        0 <= start <= i <= s.len(),
        forall|k: int| start <= k < i ==> is_letter_or_number(#[trigger] s[k]),
    ensures
        i <= e <= s.len(),
        forall|k: int| start <= k < e ==> is_letter_or_number(#[trigger] s[k]),
        e < s.len() ==> !is_letter_or_number(s[e]),
        pieces_from(s, i, start) == (if e < s.len() {
            seq![s.subrange(start, e)] + pieces_from(s, e + 1, e + 1)
        } else {
            seq![s.subrange(start, e)]
        }),
    decreases s.len() - i,
{
    if i < s.len() && is_name_char(s[i]) {
        lemma_first_piece(s, i + 1, start)
    } else {
        i
    }
}

proof fn lemma_piece_here(s: Seq<char>, start: int, e: int, piece: Seq<char>, i: int)
    requires
        0 <= start <= e <= s.len(),
        forall|k: int| start <= k < e ==> is_letter_or_number(#[trigger] s[k]),
        e < s.len() ==> !is_letter_or_number(s[e]),
        is_name(piece),
        start <= i <= e,
        is_piece_at(s, piece, i),
    ensures
        i == start,
        i + piece.len() == e,
        s.subrange(start, e) == piece,
{
    assert(s[i + 0] == piece[0]);
    if i > start {
        assert(is_letter_or_number(s[i - 1]));
    }
    if i + piece.len() < e {
        assert(is_letter_or_number(s[i + piece.len()]));
    } else if i + piece.len() > e {
        assert(s[i + (e - i)] == piece[e - i]);
    }
    assert(s.subrange(start, e) =~= piece) by {
        assert forall|k: int| 0 <= k < piece.len() implies s.subrange(start, e)[k] == piece[k] by {
            assert(s[i + k] == piece[k]);
        }
    }
}

proof fn lemma_neighbours(s: Seq<char>, start: int, a: Seq<char>, b: Seq<char>)
    requires
        0 <= start <= s.len(),
        start > 0 ==> !is_letter_or_number(s[start - 1]),
        is_name(a),
        is_name(b),
    ensures
        (exists|k: int| are_neighbours(pieces_from(s, start, start), a, b, k)) <==> exists|i: int|
            start <= i && are_pieces_at(s, a, b, i),
    decreases s.len() - start,
{
    let all = pieces_from(s, start, start);
    let e = lemma_first_piece(s, start, start);
    let first = s.subrange(start, e);
    if e < s.len() {
        let rest = pieces_from(s, e + 1, e + 1);
        lemma_neighbours(s, e + 1, a, b);
        let f = lemma_first_piece(s, e + 1, e + 1);
        let second = s.subrange(e + 1, f);
        assert(rest[0] == second);
        assert(all[1] == rest[0]);
        if exists|k: int| are_neighbours(all, a, b, k) {
            let k = choose|k: int| are_neighbours(all, a, b, k);
            if k > 0 {
                assert(all[k] == rest[k - 1] && all[k + 1] == rest[k]);
                assert(are_neighbours(rest, a, b, k - 1));
                let i = choose|i: int| e + 1 <= i && are_pieces_at(s, a, b, i);
                assert(are_pieces_at(s, a, b, i));
            } else {
                assert(first == a && second == b);
                assert(are_pieces_at(s, a, b, start));
            }
        }
        if exists|i: int| start <= i && are_pieces_at(s, a, b, i) {
            let i = choose|i: int| start <= i && are_pieces_at(s, a, b, i);
            if i <= e {
                lemma_piece_here(s, start, e, a, i);
                lemma_piece_here(s, e + 1, f, b, e + 1);
                assert(are_neighbours(all, a, b, 0));
            } else {
                assert(are_pieces_at(s, a, b, i));
                let k = choose|k: int| are_neighbours(rest, a, b, k);
                assert(all[k + 1] == rest[k] && all[k + 2] == rest[k + 1]);
                assert(are_neighbours(all, a, b, k + 1));
            }
        }
    } else {
        if exists|i: int| start <= i && are_pieces_at(s, a, b, i) {
            let i = choose|i: int| start <= i && are_pieces_at(s, a, b, i);
            assert(s[i + 0] == a[0]);
            lemma_piece_here(s, start, e, a, i);
        }
    }
}

/// Two names are next to each other among the pieces of a text exactly where they stand in it
/// with one character between them, and no letter or digit on either side.
pub proof fn law_neighbouring_pieces(s: Seq<char>, a: Seq<char>, b: Seq<char>)
    requires
        is_name(a),
        is_name(b),
    ensures
        (exists|k: int| are_neighbours(pieces_from(s, 0, 0), a, b, k)) <==> exists|i: int|
            0 <= i && are_pieces_at(s, a, b, i),
{
    lemma_neighbours(s, 0, a, b);
}

/// How many more parentheses open than close before place `i`.
pub open spec fn depth_at(m: Seq<char>, i: int) -> int
    decreases i,
{
    if i <= 0 {
        0
    } else if m[i - 1] == '(' {
        depth_at(m, i - 1) + 1
    } else if m[i - 1] == ')' {
        depth_at(m, i - 1) - 1
    } else {
        depth_at(m, i - 1)
    }
}

/// A comma outside all parentheses.
pub open spec fn is_divider(m: Seq<char>, i: int) -> bool {
    0 <= i < m.len() && m[i] == ',' && depth_at(m, i) == 0
}

/// How many such commas stand before place `i`.
pub open spec fn dividers_before(m: Seq<char>, i: int) -> nat
    decreases i,
{
    if i <= 0 {
        0
    } else {
        dividers_before(m, i - 1) + (if is_divider(m, i - 1) {
            1nat
        } else {
            0
        })
    }
}

proof fn lemma_parts(inner: Seq<char>, m: Seq<char>, i: int, start: int, from: int, to: int)
    requires
        m.len() == inner.len(),
        0 <= start <= i <= m.len(),
        start == 0 || is_divider(m, start - 1),
        forall|k: int| start <= k < i ==> !is_divider(m, k),
        i <= to <= m.len() && start <= from <= to,
        from == start || is_divider(m, from - 1),
        to == m.len() || is_divider(m, to),
        forall|k: int| from <= k < to ==> !is_divider(m, k),
        from > start ==> from > i,
    ensures
        ({
            let parts = parts_from(inner, m, i, start, depth_at(m, i));
            let k = dividers_before(m, from) - dividers_before(m, start);
            &&& 0 <= k < parts.len()
            &&& parts[k] == text::trim(inner.subrange(from, to))
            &&& parts.len() == dividers_before(m, m.len() as int) - dividers_before(m, start) + 1
        }),
    decreases m.len() - i,
{
    lemma_no_dividers(m, start, i);
    if i >= m.len() {
        assert(from == start);
    } else if is_divider(m, i) {
        let rest = parts_from(inner, m, i + 1, i + 1, depth_at(m, i));
        assert(depth_at(m, i + 1) == depth_at(m, i));
        assert(dividers_before(m, i + 1) == dividers_before(m, i) + 1);
        if from == start {
            assert(to == i);
            let next = next_divider(m, i + 1);
            lemma_next_divider(m, i + 1);
            lemma_parts(inner, m, i + 1, i + 1, i + 1, next);
        } else {
            lemma_parts(inner, m, i + 1, i + 1, from, to);
            let k = dividers_before(m, from) - dividers_before(m, start);
            let parts = parts_from(inner, m, i, start, depth_at(m, i));
            assert(parts[k] == rest[k - 1]);
        }
    } else {
        if from > start && from == i + 1 {
            assert(is_divider(m, i));
        }
        lemma_parts(inner, m, i + 1, start, from, to);
    }
}

proof fn lemma_no_dividers(m: Seq<char>, a: int, b: int)
    requires
        0 <= a <= b,
        forall|k: int| a <= k < b ==> !is_divider(m, k),
    ensures
        dividers_before(m, b) == dividers_before(m, a),
    decreases b - a,
{
    if a < b {
        lemma_no_dividers(m, a, b - 1);
    }
}

spec fn next_divider(m: Seq<char>, i: int) -> int
    decreases m.len() - i,
{
    if i >= m.len() || is_divider(m, i) {
        i
    } else {
        next_divider(m, i + 1)
    }
}

proof fn lemma_next_divider(m: Seq<char>, i: int)
    requires
        0 <= i <= m.len(),
    ensures
        i <= next_divider(m, i) <= m.len(),
        next_divider(m, i) == m.len() || is_divider(m, next_divider(m, i)),
        forall|k: int| i <= k < next_divider(m, i) ==> !is_divider(m, k),
    decreases m.len() - i,
{
    if i < m.len() && !is_divider(m, i) {
        lemma_next_divider(m, i + 1);
    }
}

/// The parts of a list are what stands between its dividers, the commas outside parentheses,
/// quotes and comments, each without the white space around it: one part more than dividers,
/// in order.
pub proof fn law_parts_stand_between_dividers(inner: Seq<char>, from: int, to: int)
    requires
        ({
            let m = masked(inner);
            &&& 0 <= from <= to <= inner.len()
            &&& from == 0 || is_divider(m, from - 1)
            &&& to == inner.len() || is_divider(m, to)
            &&& forall|k: int| from <= k < to ==> !is_divider(m, k)
        }),
    ensures
        ({
            let m = masked(inner);
            let k = dividers_before(m, from) as int;
            &&& comma_parts(inner).len() == dividers_before(m, inner.len() as int) + 1
            &&& 0 <= k < comma_parts(inner).len()
            &&& comma_parts(inner)[k] == text::trim(inner.subrange(from, to))
        }),
{
    let m = masked(inner);
    law_masking_keeps_places(inner, 0);
    lemma_parts(inner, m, 0, 0, from, to);
}

} // verus!
