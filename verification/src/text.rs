//! Character-level helpers shared by the scanners and printers.
use vstd::prelude::*;

verus! {

/// Whether Unicode classes `c` as alphabetic (what `char::is_alphabetic` answers).
pub uninterp spec fn alphabetic(c: char) -> bool;

/// Whether Unicode classes `c` as alphabetic or numeric (what `char::is_alphanumeric` answers).
pub uninterp spec fn alphanumeric(c: char) -> bool;

/// Whether `c` has the Unicode property White_Space (what `char::is_whitespace` answers).
pub uninterp spec fn white_space(c: char) -> bool;

pub open spec fn is_digit(c: char) -> bool {
    '0' <= c <= '9'
}

pub open spec fn is_upper(c: char) -> bool {
    'A' <= c <= 'Z'
}

pub open spec fn is_lower(c: char) -> bool {
    'a' <= c <= 'z'
}

pub open spec fn is_ascii_char(c: char) -> bool {
    (c as u32) < 128
}

/// A space, or a tab, line feed, vertical tab, form feed or carriage return.
pub open spec fn is_ascii_space(c: char) -> bool {
    c == ' ' || 9 <= (c as u32) <= 13
}

/// A letter of any script.
pub open spec fn is_letter(c: char) -> bool {
    if is_ascii_char(c) {
        is_upper(c) || is_lower(c)
    } else {
        alphabetic(c)
    }
}

/// A letter or a digit of any script.
pub open spec fn is_letter_or_digit(c: char) -> bool {
    if is_ascii_char(c) {
        is_upper(c) || is_lower(c) || is_digit(c)
    } else {
        alphabetic(c) || alphanumeric(c)
    }
}

/// White space of any kind.
pub open spec fn is_space(c: char) -> bool {
    if is_ascii_char(c) {
        is_ascii_space(c)
    } else {
        white_space(c)
    }
}

/// `char::is_alphabetic`: the answer is a function of the character; among the ASCII
/// characters exactly the letters are alphabetic.
pub assume_specification[ char::is_alphabetic ](c: char) -> (b: bool)
    ensures
        b == alphabetic(c),
        is_ascii_char(c) ==> b == (is_upper(c) || is_lower(c)),
;

/// `char::is_alphanumeric`: the answer is a function of the character; whatever is
/// alphabetic is alphanumeric, and among the ASCII characters exactly the letters and
/// digits are.
pub assume_specification[ char::is_alphanumeric ](c: char) -> (b: bool)
    ensures
        b == alphanumeric(c),
        alphabetic(c) ==> b,
        is_ascii_char(c) ==> b == (is_upper(c) || is_lower(c) || is_digit(c)),
;

/// `char::is_whitespace`: the answer is a function of the character; among the ASCII
/// characters exactly the space and the controls from tab to carriage return are white
/// space.
pub assume_specification[ char::is_whitespace ](c: char) -> (b: bool)
    ensures
        b == white_space(c),
        is_ascii_char(c) ==> b == is_ascii_space(c),
;

/// `String::push` appends one character.
pub assume_specification[ std::string::String::push ](s: &mut std::string::String, c: char)
    ensures
        final(s)@ == old(s)@.push(c),
;

/// `a` and `b` agree up to place `k`, and there `a` ends or has the smaller character.
pub open spec fn splits_at(a: Seq<char>, b: Seq<char>, k: int) -> bool {
    &&& 0 <= k <= a.len()
    &&& k < b.len()
    &&& forall|j: int| 0 <= j < k ==> a[j] == b[j]
    &&& k < a.len() ==> a[k] < b[k]
}

/// `a` comes before `b` in the order of dictionaries.
pub open spec fn before(a: Seq<char>, b: Seq<char>) -> bool {
    exists|k: int| splits_at(a, b, k)
}

pub proof fn lemma_before_irreflexive(a: Seq<char>)
    ensures
        !before(a, a),
{
}

pub proof fn lemma_before_transitive(a: Seq<char>, b: Seq<char>, c: Seq<char>)
    requires
        before(a, b),
        before(b, c),
    ensures
        before(a, c),
{
    let k = choose|k: int| splits_at(a, b, k);
    let m = choose|m: int| splits_at(b, c, m);
    assert(splits_at(a, c, if k < m { k } else { m }));
}

/// The three ways two texts can stand in order.
#[derive(Debug, Clone, Copy, PartialEq, Eq, Structural)]
pub enum Sorted {
    Before,
    Same,
    After,
}

/// Where `a` stands to `b` in the order of dictionaries.
pub fn compare_chars(a: &Vec<char>, b: &str) -> (r: Sorted)
    ensures
        r == Sorted::Before <==> before(a@, b@),
        r == Sorted::Same <==> a@ == b@,
        r == Sorted::After <==> before(b@, a@),
{
    let mut i: usize = 0;
    for c in iter: b.chars()
        invariant
            i == iter.index(),
            iter.seq() == b@,
            i <= a@.len(),
            forall|j: int| 0 <= j < i ==> a@[j] == b@[j],
    {
        if i == a.len() {
            assert(splits_at(a@, b@, i as int));
            return Sorted::Before;
        }
        if a[i] < c {
            assert(splits_at(a@, b@, i as int));
            return Sorted::Before;
        }
        if a[i] > c {
            assert(splits_at(b@, a@, i as int));
            return Sorted::After;
        }
        i = i + 1;
    }
    if i < a.len() {
        assert(splits_at(b@, a@, i as int));
        Sorted::After
    } else {
        assert(a@ =~= b@);
        Sorted::Same
    }
}

/// The characters of `s`, in order.
pub fn chars_of(s: &str) -> (v: Vec<char>)
    ensures
        v@ == s@,
{
    let mut v: Vec<char> = Vec::new();
    for c in iter: s.chars()
        invariant
            v@ == iter.seq().subrange(0, iter.index()),
            iter.seq() == s@,
    {
        v.push(c);
    }
    v
}

/// The text made of the characters `v[from..to]`.
pub fn text_of(v: &[char], from: usize, to: usize) -> (s: String)
    requires
        from <= to <= v@.len(),
    ensures
        s@ == v@.subrange(from as int, to as int),
{
    let mut s = String::new();
    let mut i: usize = from;
    while i < to
        invariant
            from <= i <= to <= v@.len(),
            s@ == v@.subrange(from as int, i as int),
        decreases to - i,
    {
        s.push(v[i]);
        assert(v@.subrange(from as int, i + 1) =~= v@.subrange(from as int,
            i as int).push(v@[i as int]));
        i = i + 1;
    }
    s
}

/// What `Debug` formatting makes of a string slice: the text in double quotes, with
/// its quotes, backslashes and unprintable characters escaped.
pub uninterp spec fn debug_of_text(s: Seq<char>) -> Seq<char>;

/// `str`'s `Debug` formatting; the result is a function of the text.
#[verifier::external_body]
pub(crate) fn debug_text(s: &str) -> (r: String)
    ensures
        r@ == debug_of_text(s@),
{
    format!("{:?}", s)
}

/// What `Debug` formatting makes of a character: the character in single quotes,
/// escaped where it needs to be.
pub uninterp spec fn debug_of_char(c: char) -> Seq<char>;

/// `char`'s `Debug` formatting; the result is a function of the character.
#[verifier::external_body]
pub(crate) fn debug_char(c: char) -> (r: String)
    ensures
        r@ == debug_of_char(c),
{
    format!("{:?}", c)
}

/// A letter's capital; any other character itself.
pub open spec fn upper_char(c: char) -> char {
    if is_lower(c) {
        ((c as u32 - 32) as u32) as char
    } else {
        c
    }
}

/// `s` with its ASCII letters in capitals.
pub open spec fn upper(s: Seq<char>) -> Seq<char> {
    s.map_values(|c: char| upper_char(c))
}

pub fn to_upper_char(c: char) -> (r: char)
    ensures
        r == upper_char(c),
{
    if 'a' <= c && c <= 'z' {
        (((c as u32) - 32) as u8) as char
    } else {
        c
    }
}

/// `v[from..to]` with its ASCII letters in capitals.
pub fn to_upper(v: &Vec<char>, from: usize, to: usize) -> (r: Vec<char>)
    requires
        from <= to <= v@.len(),
    ensures
        r@ == upper(v@.subrange(from as int, to as int)),
{
    let mut r: Vec<char> = Vec::new();
    let mut i: usize = from;
    while i < to
        invariant
            from <= i <= to <= v@.len(),
            r@ == upper(v@.subrange(from as int, i as int)),
        decreases to - i,
    {
        r.push(to_upper_char(v[i]));
        assert(v@.subrange(from as int, i + 1) =~= v@.subrange(from as int,
            i as int).push(v@[i as int]));
        assert(r@ =~= upper(v@.subrange(from as int, i + 1)));
        i = i + 1;
    }
    r
}

/// Whether the characters of `v` spell `s`.
pub fn spells(v: &Vec<char>, s: &str) -> (r: bool)
    ensures
        r == (v@ == s@),
{
    compare_chars(v, s) == Sorted::Same
}

pub open spec fn is_hex_digit(c: char) -> bool {
    is_digit(c) || 'a' <= c <= 'f' || 'A' <= c <= 'F'
}

/// What a digit of base ten or sixteen counts for.
pub open spec fn digit_value(c: char) -> nat {
    if is_digit(c) {
        (c as u32 - '0' as u32) as nat
    } else if 'a' <= c <= 'f' {
        (c as u32 - 'a' as u32 + 10) as nat
    } else {
        (c as u32 - 'A' as u32 + 10) as nat
    }
}

/// The number that the digits of `s` spell in `base`.
pub open spec fn number(s: Seq<char>, base: nat) -> nat
    decreases s.len(),
{
    if s.len() == 0 {
        0
    } else {
        number(s.drop_last(), base) * base + digit_value(s.last())
    }
}

pub fn to_digit_value(c: char) -> (r: u32)
    requires
        is_hex_digit(c),
    ensures
        r == digit_value(c),
        r < 16,
        is_digit(c) ==> r < 10,
{
    if '0' <= c && c <= '9' {
        (c as u32) - 48
    } else if 'a' <= c && c <= 'f' {
        (c as u32) - 97 + 10
    } else {
        (c as u32) - 65 + 10
    }
}

/// Leading digits never make a number smaller.
pub proof fn lemma_number_grows(s: Seq<char>, k: int, base: nat)
    requires
        0 <= k <= s.len(),
        base >= 1,
    ensures
        number(s.take(k), base) <= number(s, base),
    decreases s.len(),
{
    if k < s.len() {
        lemma_number_grows(s.drop_last(), k, base);
        assert(s.drop_last().take(k) =~= s.take(k));
        let m = number(s.drop_last(), base);
        assert(m <= m * base) by (nonlinear_arith)
            requires
                base >= 1,
        ;
    } else {
        assert(s.take(k) =~= s);
    }
}

/// Reads the digits `v[from..to]` in `base` (ten or sixteen), unless the number needs
/// more than 64 bits.
pub fn parse_number(v: &Vec<char>, from: usize, to: usize, base: u32) -> (r: Option<u64>)
    requires
        from <= to <= v@.len(),
        base == 10 || base == 16,
        forall|j: int| from <= j < to ==> (if base == 10 {
            is_digit(#[trigger] v@[j])
        } else {
            is_hex_digit(v@[j])
        }),
    ensures
        match r {
            Some(n) => n == number(v@.subrange(from as int, to as int), base as nat),
            None => number(v@.subrange(from as int, to as int), base as nat) > u64::MAX,
        },
{
    let mut n: u64 = 0;
    let mut i: usize = from;
    let ghost whole = v@.subrange(from as int, to as int);
    while i < to
        invariant
            from <= i <= to <= v@.len(),
            base == 10 || base == 16,
            whole == v@.subrange(from as int, to as int),
            n == number(v@.subrange(from as int, i as int), base as nat),
            forall|j: int| from <= j < to ==> (if base == 10 {
                is_digit(#[trigger] v@[j])
            } else {
                is_hex_digit(v@[j])
            }),
        decreases to - i,
    {
        let d = to_digit_value(v[i]);
        let ghost next = v@.subrange(from as int, i + 1);
        proof {
            assert(next.drop_last() =~= v@.subrange(from as int, i as int));
            assert(next =~= whole.take(i + 1 - from));
            lemma_number_grows(whole, i + 1 - from, base as nat);
        }
        let wide: u128 = (n as u128) * (base as u128) + (d as u128);
        if wide > 0xffff_ffff_ffff_ffff {
            return None;
        }
        n = wide as u64;
        i = i + 1;
    }
    Some(n)
}

/// The decimal digits of `n`.
pub open spec fn decimal(n: nat) -> Seq<char>
    decreases n,
{
    if n < 10 {
        seq![digit_char(n)]
    } else {
        decimal(n / 10).push(digit_char(n % 10))
    }
}

pub open spec fn digit_char(d: nat) -> char {
    ((48 + d) as u32) as char
}

/// `n` in decimal, with a minus sign where it is negative.
pub open spec fn signed_decimal(n: int) -> Seq<char> {
    if n < 0 {
        seq!['-'] + decimal((-n) as nat)
    } else {
        decimal(n as nat)
    }
}

fn push_decimal(s: &mut String, n: u64)
    ensures
        final(s)@ == old(s)@ + decimal(n as nat),
    decreases n,
{
    if n < 10 {
        s.push((48 + n as u8) as char);
        assert(s@ =~= old(s)@ + decimal(n as nat));
    } else {
        push_decimal(s, n / 10);
        s.push((48 + (n % 10) as u8) as char);
        assert(s@ =~= old(s)@ + decimal(n as nat));
    }
}

/// `n` in decimal.
pub fn unsigned_to_text(n: u64) -> (s: String)
    ensures
        s@ == decimal(n as nat),
{
    let mut s = String::new();
    push_decimal(&mut s, n);
    assert(s@ =~= decimal(n as nat));
    s
}

/// `n` in decimal, with a minus sign where it is negative.
pub fn signed_to_text(n: i64) -> (s: String)
    ensures
        s@ == signed_decimal(n as int),
{
    let mut s = String::new();
    if n < 0 {
        s.push('-');
        let m: u64 = (-(n as i128)) as u64;
        push_decimal(&mut s, m);
        assert(s@ =~= seq!['-'] + decimal(m as nat));
    } else {
        push_decimal(&mut s, n as u64);
        assert(s@ =~= decimal(n as nat));
    }
    s
}

/// `s` without the white space it begins with.
pub open spec fn trim_start(s: Seq<char>) -> Seq<char>
    decreases s.len(),
{
    if s.len() > 0 && is_space(s[0]) {
        trim_start(s.drop_first())
    } else {
        s
    }
}

/// `s` without the white space it ends with.
pub open spec fn trim_end(s: Seq<char>) -> Seq<char>
    decreases s.len(),
{
    if s.len() > 0 && is_space(s.last()) {
        trim_end(s.drop_last())
    } else {
        s
    }
}

/// `s` without the white space around it.
pub open spec fn trim(s: Seq<char>) -> Seq<char> {
    trim_end(trim_start(s))
}

/// The range left of `v[from..to]` without the white space around it.
pub fn trim_range(v: &Vec<char>, from: usize, to: usize) -> (r: (usize, usize))
    requires
        from <= to <= v.len(),
    ensures
        from <= r.0 <= r.1 <= to,
        v@.subrange(r.0 as int, r.1 as int) == trim(v@.subrange(from as int, to as int)),
{
    let mut a: usize = from;
    while a < to && v[a].is_whitespace()
        invariant
            from <= a <= to <= v.len(),
            trim_start(v@.subrange(a as int, to as int)) == trim_start(
                v@.subrange(from as int, to as int),
            ),
        decreases to - a,
    {
        assert(v@.subrange(a as int, to as int).drop_first() =~= v@.subrange(a + 1, to as int));
        a = a + 1;
    }
    let mut b: usize = to;
    while a < b && v[b - 1].is_whitespace()
        invariant
            from <= a <= b <= to <= v.len(),
            trim_end(v@.subrange(a as int, b as int)) == trim_end(
                v@.subrange(a as int, to as int),
            ),
        decreases b - a,
    {
        assert(v@.subrange(a as int, b as int).drop_last() =~= v@.subrange(a as int, b - 1));
        b = b - 1;
    }
    (a, b)
}

/// The texts of a list, each as its characters.
pub open spec fn texts(v: Seq<String>) -> Seq<Seq<char>> {
    v.map_values(|s: String| s@)
}

pub proof fn lemma_texts_push(v: Seq<String>, s: String)
    ensures
        texts(v.push(s)) == texts(v).push(s@),
{
    assert(texts(v.push(s)) =~= texts(v).push(s@));
}

/// Whether `a` and `b` differ in nothing but the case of ASCII letters.
pub fn same_ignoring_case(a: &str, b: &str) -> (r: bool)
    ensures
        r == (upper(a@) == upper(b@)),
{
    let v = chars_of(a);
    let w = chars_of(b);
    if v.len() != w.len() {
        assert(upper(a@).len() == v@.len() && upper(b@).len() == w@.len());
        return false;
    }
    let mut i: usize = 0;
    while i < v.len()
        invariant
            i <= v.len(),
            v@ == a@,
            w@ == b@,
            v@.len() == w@.len(),
            forall|j: int| 0 <= j < i ==> upper_char(v@[j]) == upper_char(w@[j]),
        decreases v.len() - i,
    {
        if to_upper_char(v[i]) != to_upper_char(w[i]) {
            assert(upper(a@)[i as int] != upper(b@)[i as int]);
            return false;
        }
        i = i + 1;
    }
    assert(upper(a@) =~= upper(b@));
    true
}

/// The parts in order, with `sep` between them.
pub open spec fn join(parts: Seq<Seq<char>>, sep: Seq<char>) -> Seq<char>
    decreases parts.len(),
{
    if parts.len() == 0 {
        ""@
    } else if parts.len() == 1 {
        parts[0]
    } else {
        join(parts.drop_last(), sep) + sep + parts.last()
    }
}

/// The parts in order, with `lead` in front of each.
pub open spec fn each_behind(lead: Seq<char>, parts: Seq<Seq<char>>) -> Seq<char>
    decreases parts.len(),
{
    if parts.len() == 0 {
        ""@
    } else {
        each_behind(lead, parts.drop_last()) + lead + parts.last()
    }
}

/// The parts in order, with `sep` between them.
pub fn join_texts(parts: &Vec<String>, sep: &str) -> (r: String)
    ensures
        r@ == join(texts(parts@), sep@),
{
    if parts.len() == 0 {
        return "".to_owned();
    }
    let ghost all = texts(parts@);
    let mut r = parts[0].clone();
    let mut i: usize = 1;
    assert(all.take(1).len() == 1);
    while i < parts.len()
        invariant
            1 <= i <= parts.len(),
            all == texts(parts@),
            r@ == join(all.take(i as int), sep@),
        decreases parts.len() - i,
    {
        assert(all.take(i + 1).drop_last() =~= all.take(i as int));
        assert(all[i as int] == parts@[i as int]@);
        r.append(sep);
        r.append(parts[i].as_str());
        i = i + 1;
    }
    assert(all.take(i as int) =~= all);
    r
}

/// The parts in order, with `lead` in front of each.
pub fn texts_behind(lead: &str, parts: &Vec<String>) -> (r: String)
    ensures
        r@ == each_behind(lead@, texts(parts@)),
{
    let ghost all = texts(parts@);
    let mut r = "".to_owned();
    let mut i: usize = 0;
    assert(all.take(0).len() == 0);
    while i < parts.len()
        invariant
            i <= parts.len(),
            all == texts(parts@),
            r@ == each_behind(lead@, all.take(i as int)),
        decreases parts.len() - i,
    {
        assert(all.take(i + 1).drop_last() =~= all.take(i as int));
        assert(all[i as int] == parts@[i as int]@);
        r.append(lead);
        r.append(parts[i].as_str());
        i = i + 1;
    }
    assert(all.take(i as int) =~= all);
    r
}

/// `part` stands in `s` at place `i`.
pub open spec fn stands_at(s: Seq<char>, part: Seq<char>, i: int) -> bool {
    &&& 0 <= i
    &&& i + part.len() <= s.len()
    &&& s.subrange(i, i + part.len()) == part
}

/// `part` stands somewhere in `s`.
pub open spec fn holds(s: Seq<char>, part: Seq<char>) -> bool {
    exists|i: int| stands_at(s, part, i)
}

/// Whether `part` stands in `v` at place `i`.
pub fn at_place(v: &Vec<char>, part: &Vec<char>, i: usize) -> (r: bool)
    ensures
        r == stands_at(v@, part@, i as int),
{
    if i > v.len() || v.len() - i < part.len() {
        return false;
    }
    let mut k: usize = 0;
    while k < part.len()
        invariant
            k <= part.len(),
            i + part.len() <= v.len(),
            forall|j: int| 0 <= j < k ==> v@[i + j] == part@[j],
        decreases part.len() - k,
    {
        if v[i + k] != part[k] {
            assert(v@.subrange(i as int, i + part@.len())[k as int] == v@[i + k]);
            return false;
        }
        k = k + 1;
    }
    assert(v@.subrange(i as int, i + part@.len()) =~= part@);
    true
}

/// Whether `part` stands somewhere in `v`.
pub fn contains(v: &Vec<char>, part: &str) -> (r: bool)
    ensures
        r == holds(v@, part@),
{
    let w = chars_of(part);
    let mut i: usize = 0;
    while i < v.len()
        invariant
            i <= v.len(),
            w@ == part@,
            forall|j: int| 0 <= j < i ==> !stands_at(v@, part@, j),
        decreases v.len() - i,
    {
        if at_place(v, &w, i) {
            assert(stands_at(v@, part@, i as int));
            return true;
        }
        i = i + 1;
    }
    let last = at_place(v, &w, i);
    assert(last ==> holds(v@, part@));
    last
}

/// Trimmed text is what is left of a text between white space: it neither begins nor ends with
/// any, and around it stands nothing else.
pub proof fn law_trim_takes_white_space(s: Seq<char>, a: int, b: int)
    requires
        0 <= a <= b <= s.len(),
        forall|k: int| 0 <= k < a ==> is_space(#[trigger] s[k]),
        forall|k: int| b <= k < s.len() ==> is_space(#[trigger] s[k]),
        a < b ==> !is_space(s[a]) && !is_space(s[b - 1]),
    ensures
        trim(s) == s.subrange(a, b),
{
    lemma_trim_start_to(s, if a < b { a } else { s.len() as int });
    if a < b {
        let t = s.subrange(a, s.len() as int);
        lemma_trim_end_to(t, b - a);
        assert(t.subrange(0, b - a) =~= s.subrange(a, b));
    } else {
        assert(trim_start(s) =~= seq![]);
        assert(s.subrange(a, b) =~= seq![]);
    }
}

proof fn lemma_trim_start_to(s: Seq<char>, a: int)
    requires
        0 <= a <= s.len(),
        forall|k: int| 0 <= k < a ==> is_space(#[trigger] s[k]),
        a < s.len() ==> !is_space(s[a]),
    ensures
        trim_start(s) == s.subrange(a, s.len() as int),
    decreases a,
{
    if a > 0 {
        let rest = s.drop_first();
        assert forall|k: int| 0 <= k < a - 1 implies is_space(#[trigger] rest[k]) by {
            assert(rest[k] == s[k + 1]);
        }
        lemma_trim_start_to(rest, a - 1);
        assert(rest.subrange(a - 1, rest.len() as int) =~= s.subrange(a, s.len() as int));
    } else {
        assert(s.subrange(0, s.len() as int) =~= s);
    }
}

proof fn lemma_trim_end_to(s: Seq<char>, b: int)
    requires
        0 < b <= s.len(),
        forall|k: int| b <= k < s.len() ==> is_space(#[trigger] s[k]),
        !is_space(s[b - 1]),
    ensures
        trim_end(s) == s.subrange(0, b),
    decreases s.len() - b,
{
    if b < s.len() {
        assert(is_space(s[s.len() - 1]));
        let rest = s.drop_last();
        assert forall|k: int| b <= k < rest.len() implies is_space(#[trigger] rest[k]) by {
            assert(rest[k] == s[k]);
        }
        lemma_trim_end_to(rest, b);
        assert(rest.subrange(0, b) =~= s.subrange(0, b));
    } else {
        assert(s.subrange(0, b) =~= s);
    }
}

/// Capitals are the letters `A` to `Z` for `a` to `z`; every other character stays.
pub proof fn law_capitals(s: Seq<char>, i: int)
    requires
        0 <= i < s.len(),
    ensures
        upper(s).len() == s.len(),
        !('a' <= s[i] <= 'z') ==> upper(s)[i] == s[i],
        'a' <= s[i] <= 'z' ==> upper(s)[i] as u32 + 32 == s[i] as u32,
{
}

} // verus!
