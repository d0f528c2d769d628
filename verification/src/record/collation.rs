//! Collating sequences: the orders that text is compared in.
use crate::text;
use crate::text::Sorted;
use vstd::prelude::*;

verus! {

/// The built-in collating sequences.
#[derive(Debug, Clone, Copy, PartialEq, Eq, Structural)]
pub enum Collation {
    /// Byte by byte.
    Binary,
    /// Byte by byte, with the 26 ASCII capitals as their small letters.
    NoCase,
    /// Byte by byte, without the spaces at the end.
    RTrim,
}

/// An ASCII capital's small letter; any other character itself.
pub open spec fn lower_char(c: char) -> char {
    if text::is_upper(c) {
        ((c as u32 + 32) as u32) as char
    } else {
        c
    }
}

/// `s` without the spaces at its end.
pub open spec fn without_trailing_spaces(s: Seq<char>) -> Seq<char>
    decreases s.len(),
{
    if s.len() > 0 && s.last() == ' ' {
        without_trailing_spaces(s.drop_last())
    } else {
        s
    }
}

/// What a text is ordered by.
pub open spec fn sort_key(s: Seq<char>, collation: Collation) -> Seq<char> {
    match collation {
        Collation::Binary => s,
        Collation::NoCase => s.map_values(|c: char| lower_char(c)),
        Collation::RTrim => without_trailing_spaces(s),
    }
}

/// Where a key stands to another.
pub open spec fn key_order(a: Seq<char>, b: Seq<char>) -> Sorted {
    if a == b {
        Sorted::Same
    } else if text::before(a, b) {
        Sorted::Before
    } else {
        Sorted::After
    }
}

/// Where the text `a` stands to the text `b`.
pub open spec fn text_order(a: Seq<char>, b: Seq<char>, collation: Collation) -> Sorted {
    key_order(sort_key(a, collation), sort_key(b, collation))
}

fn to_lower_char(c: char) -> (r: char)
    ensures
        r == lower_char(c),
{
    if 'A' <= c && c <= 'Z' {
        (((c as u32) + 32) as u8) as char
    } else {
        c
    }
}

fn key_of(s: &str, collation: Collation) -> (key: Vec<char>)
    ensures
        key@ == sort_key(s@, collation),
{
    let mut v = text::chars_of(s);
    match collation {
        Collation::Binary => v,
        Collation::NoCase => {
            let mut key: Vec<char> = Vec::new();
            let mut i: usize = 0;
            while i < v.len()
                invariant
                    i <= v.len(),
                    v@ == s@,
                    key@.len() == i,
                    forall|k: int| 0 <= k < i ==> #[trigger] key@[k] == lower_char(s@[k]),
                decreases v.len() - i,
            {
                key.push(to_lower_char(v[i]));
                i = i + 1;
            }
            assert(key@ =~= sort_key(s@, collation));
            key
        },
        Collation::RTrim => {
            while v.len() > 0 && v[v.len() - 1] == ' '
                invariant
                    without_trailing_spaces(v@) == without_trailing_spaces(s@),
                decreases v.len(),
            {
                v.pop();
            }
            v
        },
    }
}

/// Of two different texts one comes before the other.
pub proof fn lemma_before_total(a: Seq<char>, b: Seq<char>)
    ensures
        a == b || text::before(a, b) || text::before(b, a),
        !(text::before(a, b) && text::before(b, a)),
{
    lemma_before_from(a, b, 0);
    if text::before(a, b) && text::before(b, a) {
        text::lemma_before_transitive(a, b, a);
        text::lemma_before_irreflexive(a);
    }
}

proof fn lemma_before_from(a: Seq<char>, b: Seq<char>, k: int)
    requires
        0 <= k <= a.len(),
        k <= b.len(),
        forall|j: int| 0 <= j < k ==> a[j] == b[j],
    ensures
        a == b || text::before(a, b) || text::before(b, a),
    decreases a.len() - k,
{
    if k == a.len() && k == b.len() {
        assert(a =~= b);
    } else if k == a.len() {
        assert(text::splits_at(a, b, k));
    } else if k == b.len() {
        assert(text::splits_at(b, a, k));
    } else if a[k] == b[k] {
        lemma_before_from(a, b, k + 1);
    } else if a[k] < b[k] {
        assert(text::splits_at(a, b, k));
    } else {
        assert(text::splits_at(b, a, k));
    }
}

/// Where `a` stands to `b` in the collating sequence.
pub fn compare_text(a: &str, b: &str, collation: Collation) -> (r: Sorted)
    ensures
        r == text_order(a@, b@, collation),
{
    let ka = key_of(a, collation);
    let kb = key_of(b, collation);
    proof {
        lemma_before_total(ka@, kb@);
        text::lemma_before_irreflexive(ka@);
    }
    let mut i: usize = 0;
    while i < ka.len() && i < kb.len() && ka[i] == kb[i]
        invariant
            i <= ka.len(),
            i <= kb.len(),
            forall|j: int| 0 <= j < i ==> ka@[j] == kb@[j],
        decreases ka.len() - i,
    {
        i = i + 1;
    }
    if i == ka.len() && i == kb.len() {
        assert(ka@ =~= kb@);
        Sorted::Same
    } else if i == ka.len() {
        assert(text::splits_at(ka@, kb@, i as int));
        Sorted::Before
    } else if i == kb.len() {
        assert(text::splits_at(kb@, ka@, i as int));
        Sorted::After
    } else if ka[i] < kb[i] {
        assert(text::splits_at(ka@, kb@, i as int));
        Sorted::Before
    } else {
        assert(text::splits_at(kb@, ka@, i as int));
        Sorted::After
    }
}

// ---- laws ---------------------------------------------------------------------------

/// Under BINARY the first character in which two texts differ decides, and a text comes before
/// every longer one that begins with it.
pub proof fn law_binary_by_first_difference(a: Seq<char>, b: Seq<char>, k: int)
    requires
        0 <= k <= a.len(),
        k <= b.len(),
        forall|j: int| 0 <= j < k ==> a[j] == b[j],
    ensures
        k < a.len() && k < b.len() && a[k] < b[k] ==> text_order(a, b, Collation::Binary)
            == Sorted::Before,
        k < a.len() && k < b.len() && b[k] < a[k] ==> text_order(a, b, Collation::Binary)
            == Sorted::After,
        k == a.len() && k < b.len() ==> text_order(a, b, Collation::Binary) == Sorted::Before,
        k == b.len() && k < a.len() ==> text_order(a, b, Collation::Binary) == Sorted::After,
        k == a.len() && k == b.len() ==> text_order(a, b, Collation::Binary) == Sorted::Same,
{
    lemma_before_total(a, b);
    if k < a.len() || k < b.len() {
        if k == a.len() || (k < b.len() && a[k] < b[k]) {
            assert(text::splits_at(a, b, k));
        } else if k == b.len() || b[k] < a[k] {
            assert(text::splits_at(b, a, k));
        }
    } else {
        assert(a =~= b);
    }
}

/// Two characters that are the same, or the two cases of one ASCII letter.
pub open spec fn same_letter(a: char, b: char) -> bool {
    a == b || (text::is_upper(a) && b as u32 == a as u32 + 32) || (text::is_upper(b) && a as u32
        == b as u32 + 32)
}

proof fn lemma_same_letter(a: char, b: char)
    ensures
        same_letter(a, b) <==> lower_char(a) == lower_char(b),
{
    if text::is_upper(a) {
        assert(lower_char(a) as u32 == a as u32 + 32);
    }
    if text::is_upper(b) {
        assert(lower_char(b) as u32 == b as u32 + 32);
    }
}

/// Under NOCASE two texts are the same exactly where they have the same letters, in whatever
/// case, and else the first place decides in which they have not: there the small letters are
/// compared.
pub proof fn law_nocase_ignores_ascii_case(a: Seq<char>, b: Seq<char>, k: int)
    requires
        0 <= k <= a.len(),
        k <= b.len(),
        forall|j: int| 0 <= j < k ==> same_letter(#[trigger] a[j], b[j]),
    ensures
        k == a.len() && k == b.len() ==> text_order(a, b, Collation::NoCase) == Sorted::Same,
        k == a.len() && k < b.len() ==> text_order(a, b, Collation::NoCase) == Sorted::Before,
        k == b.len() && k < a.len() ==> text_order(a, b, Collation::NoCase) == Sorted::After,
        k < a.len() && k < b.len() && !same_letter(a[k], b[k]) ==> text_order(
            a,
            b,
            Collation::NoCase,
        ) == (if lower_char(a[k]) < lower_char(b[k]) {
            Sorted::Before
        } else {
            Sorted::After
        }),
{
    let x = sort_key(a, Collation::NoCase);
    let y = sort_key(b, Collation::NoCase);
    assert forall|j: int| 0 <= j < k implies x[j] == y[j] by {
        assert(same_letter(a[j], b[j]));
        lemma_same_letter(a[j], b[j]);
    }
    if k < a.len() && k < b.len() {
        lemma_same_letter(a[k], b[k]);
    }
    law_binary_by_first_difference(x, y, k);
}

proof fn lemma_spaces_dropped(a: Seq<char>, spaces: Seq<char>)
    requires
        forall|j: int| 0 <= j < spaces.len() ==> #[trigger] spaces[j] == ' ',
    ensures
        without_trailing_spaces(a + spaces) == without_trailing_spaces(a),
    decreases spaces.len(),
{
    let s = a + spaces;
    if spaces.len() > 0 {
        assert(s.last() == spaces[spaces.len() - 1]);
        assert(s.drop_last() =~= a + spaces.drop_last());
        lemma_spaces_dropped(a, spaces.drop_last());
    } else {
        assert(s =~= a);
    }
}

/// Under RTRIM spaces at the end do not count, and what is left is compared as under BINARY.
pub proof fn law_rtrim_ignores_trailing_spaces(
    a: Seq<char>,
    b: Seq<char>,
    spaces: Seq<char>,
)
    requires
        forall|j: int| 0 <= j < spaces.len() ==> #[trigger] spaces[j] == ' ',
    ensures
        text_order(a + spaces, b, Collation::RTrim) == text_order(a, b, Collation::RTrim),
        text_order(a, b + spaces, Collation::RTrim) == text_order(a, b, Collation::RTrim),
        (a.len() == 0 || a.last() != ' ') && (b.len() == 0 || b.last() != ' ') ==> text_order(
            a,
            b,
            Collation::RTrim,
        ) == text_order(a, b, Collation::Binary),
{
    lemma_spaces_dropped(a, spaces);
    lemma_spaces_dropped(b, spaces);
}

} // verus!
