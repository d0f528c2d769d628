//! Type affinity: the five-way storage preference steered by a column's declared type.
use crate::double;
use crate::record::value::{Value, ValueView};
use crate::text;
use crate::vdbe::coerce;
use vstd::prelude::*;

verus! {

/// A column's storage-class preference, derived from its declared type.
#[derive(Debug, Clone, Copy, PartialEq, Eq, Structural)]
pub enum Affinity {
    Text,
    Numeric,
    Integer,
    Real,
    Blob,
}

/// The affinity of a declared type: the first of the rules INT, CHAR/CLOB/TEXT, BLOB or no
/// type at all, REAL/FLOA/DOUB that its capitals meet, else NUMERIC.
pub open spec fn declared_affinity(declared_type: Seq<char>) -> Affinity {
    let upper = text::upper(declared_type);
    if text::holds(upper, "INT"@) {
        Affinity::Integer
    } else if text::holds(upper, "CHAR"@) || text::holds(upper, "CLOB"@) || text::holds(
        upper,
        "TEXT"@,
    ) {
        Affinity::Text
    } else if text::holds(upper, "BLOB"@) || upper.len() == 0 {
        Affinity::Blob
    } else if text::holds(upper, "REAL"@) || text::holds(upper, "FLOA"@) || text::holds(
        upper,
        "DOUB"@,
    ) {
        Affinity::Real
    } else {
        Affinity::Numeric
    }
}

/// Derives affinity from a declared type string, checked in order: INT, then
/// CHAR/CLOB/TEXT, then BLOB or no declared type, then REAL/FLOA/DOUB, else NUMERIC.
pub fn affinity_of(declared_type: &str) -> (r: Affinity)
    ensures
        r == declared_affinity(declared_type@),
{
    let v = text::chars_of(declared_type);
    let upper = text::to_upper(&v, 0, v.len());
    assert(v@.subrange(0, v@.len() as int) =~= v@);
    assert(upper@ == text::upper(declared_type@));
    if text::contains(&upper, "INT") {
        Affinity::Integer
    } else if text::contains(&upper, "CHAR") || text::contains(&upper, "CLOB") || text::contains(
        &upper,
        "TEXT",
    ) {
        Affinity::Text
    } else if text::contains(&upper, "BLOB") || upper.len() == 0 {
        Affinity::Blob
    } else if text::contains(&upper, "REAL") || text::contains(&upper, "FLOA") || text::contains(
        &upper,
        "DOUB",
    ) {
        Affinity::Real
    } else {
        Affinity::Numeric
    }
}

/// A value with an affinity: converted or left as it is, or the literal whose
/// floating-point value decides.
#[verifier::ext_equal]
pub enum Conversion {
    Value(ValueView),
    Parse(Seq<char>),
}

/// TEXT and BLOB affinities never convert. The others make an integer of text that spells
/// one, and leave empty text and what is not text alone; of other text its floating-point
/// value decides.
pub open spec fn conversion(v: ValueView, affinity: Affinity) -> Conversion {
    match (affinity, v) {
        (Affinity::Text, _) => Conversion::Value(v),
        (Affinity::Blob, _) => Conversion::Value(v),
        (_, ValueView::Text(s)) => {
            let trimmed = text::trim(s);
            match coerce::integer_of(trimmed) {
                Some(i) => Conversion::Value(ValueView::Integer(i)),
                None => if trimmed.len() == 0 {
                    Conversion::Value(v)
                } else {
                    Conversion::Parse(trimmed)
                },
            }
        },
        _ => Conversion::Value(v),
    }
}

/// The text stays unless its floating-point value is there and finite.
pub open spec fn with_parsed(v: ValueView, parsed: Option<u64>) -> ValueView {
    match parsed {
        Some(bits) => if double::exponent_field(double::unsigned_part(bits)) < 2047 {
            ValueView::Real(bits)
        } else {
            v
        },
        None => v,
    }
}

/// Converts a well-formed numeric-text literal to its lossless numeric representation for
/// NUMERIC/INTEGER/REAL affinities. TEXT and BLOB affinities never convert. Where the
/// answer depends on the text's floating-point value, the value stays, and the trimmed
/// text comes back for [`finish_affinity`].
pub fn apply_affinity(value: &mut Value, affinity: Affinity) -> (r: Option<String>)
    ensures
        match (r, conversion(old(value)@, affinity)) {
            (None, Conversion::Value(v)) => final(value)@ == v,
            (Some(s), Conversion::Parse(t)) => s@ == t && final(value)@ == old(value)@,
            _ => false,
        },
{
    if affinity == Affinity::Text || affinity == Affinity::Blob {
        return None;
    }
    let (number, rest): (Option<i64>, Option<String>) = match value {
        Value::Text(s) => parse_well_formed_number(s.as_str()),
        _ => (None, None),
    };
    if let Some(i) = number {
        *value = Value::Integer(i);
    }
    rest
}

/// Parses `s` as a number only if the *entire* trimmed string is a valid numeric literal
/// (unlike coercion's longest-prefix rule): the integer it spells, or else the trimmed
/// string to be read as floating point, unless it is empty.
fn parse_well_formed_number(s: &str) -> (r: (Option<i64>, Option<String>))
    ensures
        r.0 == coerce::integer_of(text::trim(s@)),
        match r.1 {
            Some(t) => r.0 is None && t@ == text::trim(s@) && t@.len() > 0,
            None => r.0 is Some || text::trim(s@).len() == 0,
        },
{
    let v = text::chars_of(s);
    let (a, b) = text::trim_range(&v, 0, v.len());
    assert(v@.subrange(0, v@.len() as int) =~= s@);
    if a == b {
        assert(text::trim(s@).len() == 0);
        return (None, None);
    }
    match coerce::parse_integer(&v, a, b) {
        Some(i) => (Some(i), None),
        None => (None, Some(text::text_of(v.as_slice(), a, b))),
    }
}

/// Ends a conversion with what reading the text as floating point gave, if anything: a
/// finite number replaces the text.
pub fn finish_affinity(value: &mut Value, parsed: Option<u64>)
    ensures
        final(value)@ == with_parsed(old(value)@, parsed),
{
    if let Some(bits) = parsed {
        if double::finite(bits) {
            *value = Value::Real(bits);
        }
    }
}

/// The byte that stands for an affinity in a `MakeRecord` instruction.
pub open spec fn p4_byte(a: Affinity) -> u8 {
    match a {
        Affinity::Blob => 0x41,
        Affinity::Text => 0x42,
        Affinity::Numeric => 0x43,
        Affinity::Integer => 0x44,
        Affinity::Real => 0x45,
    }
}

/// The affinity a byte stands for; the one that never converts where it stands for none.
pub open spec fn byte_affinity(b: u8) -> Affinity {
    match b {
        0x42 => Affinity::Text,
        0x43 => Affinity::Numeric,
        0x44 => Affinity::Integer,
        0x45 => Affinity::Real,
        _ => Affinity::Blob,
    }
}

impl Affinity {
    /// The byte that stands for the affinity in a `MakeRecord` instruction: `'A'` to `'E'`.
    pub fn to_p4_byte(self) -> (b: u8)
        ensures
            b == p4_byte(self),
            byte_affinity(b) == self,
    {
        match self {
            Affinity::Blob => 0x41,
            Affinity::Text => 0x42,
            Affinity::Numeric => 0x43,
            Affinity::Integer => 0x44,
            Affinity::Real => 0x45,
        }
    }

    /// The affinity a byte stands for.
    pub fn from_p4_byte(b: u8) -> (a: Affinity)
        ensures
            a == byte_affinity(b),
    {
        match b {
            0x42 => Affinity::Text,
            0x43 => Affinity::Numeric,
            0x44 => Affinity::Integer,
            0x45 => Affinity::Real,
            _ => Affinity::Blob,
        }
    }
}

/// TEXT and BLOB affinity leave every value as it is.
pub proof fn law_text_and_blob_never_convert(v: ValueView)
    ensures
        conversion(v, Affinity::Text) == Conversion::Value(v),
        conversion(v, Affinity::Blob) == Conversion::Value(v),
{
}

/// Only text is ever converted.
pub proof fn law_only_text_converts(v: ValueView, affinity: Affinity)
    requires
        !(v is Text),
    ensures
        conversion(v, affinity) == Conversion::Value(v),
{
}

/// INT anywhere in the declared type decides for INTEGER.
pub proof fn law_int_comes_first(declared_type: Seq<char>)
    requires
        text::holds(text::upper(declared_type), "INT"@),
    ensures
        declared_affinity(declared_type) == Affinity::Integer,
{
}

/// Whether `word` is spelled in `declared_type` from place `k` on, in letters of either case.
pub open spec fn spells(declared_type: Seq<char>, word: Seq<char>, k: int) -> bool {
    &&& 0 <= k
    &&& k + word.len() <= declared_type.len()
    &&& forall|j: int|
        0 <= j < word.len() ==> text::upper_char(declared_type[k + j]) == #[trigger] word[j]
}

/// Whether `word` is spelled somewhere in `declared_type`.
pub open spec fn says(declared_type: Seq<char>, word: Seq<char>) -> bool {
    exists|k: int| spells(declared_type, word, k)
}

proof fn lemma_says(declared_type: Seq<char>, word: Seq<char>)
    ensures
        says(declared_type, word) <==> text::holds(text::upper(declared_type), word),
{
    let upper = text::upper(declared_type);
    if says(declared_type, word) {
        let k = choose|k: int| spells(declared_type, word, k);
        assert(upper.subrange(k, k + word.len()) =~= word);
        assert(text::stands_at(upper, word, k));
    }
    if text::holds(upper, word) {
        let k = choose|k: int| text::stands_at(upper, word, k);
        assert forall|j: int| 0 <= j < word.len() implies text::upper_char(declared_type[k + j])
            == #[trigger] word[j] by {
            assert(upper.subrange(k, k + word.len())[j] == upper[k + j]);
        }
        assert(spells(declared_type, word, k));
    }
}

/// What a declared type says decides, in this order: INT for INTEGER; CHAR, CLOB or TEXT for
/// TEXT; BLOB, or no type at all, for BLOB; REAL, FLOA or DOUB for REAL; nothing of them for
/// NUMERIC.
pub proof fn law_affinity_by_the_first_word(declared_type: Seq<char>)
    ensures
        ({
            let d = declared_type;
            let whole = says(d, "INT"@);
            let chars = says(d, "CHAR"@) || says(d, "CLOB"@) || says(d, "TEXT"@);
            let bytes = says(d, "BLOB"@) || d.len() == 0;
            let broken = says(d, "REAL"@) || says(d, "FLOA"@) || says(d, "DOUB"@);
            let a = declared_affinity(d);
            &&& a == Affinity::Integer <==> whole
            &&& a == Affinity::Text <==> !whole && chars
            &&& a == Affinity::Blob <==> !whole && !chars && bytes
            &&& a == Affinity::Real <==> !whole && !chars && !bytes && broken
        }),
{
    lemma_says(declared_type, "INT"@);
    lemma_says(declared_type, "CHAR"@);
    lemma_says(declared_type, "CLOB"@);
    lemma_says(declared_type, "TEXT"@);
    lemma_says(declared_type, "BLOB"@);
    lemma_says(declared_type, "REAL"@);
    lemma_says(declared_type, "FLOA"@);
    lemma_says(declared_type, "DOUB"@);
}

/// NUMERIC, INTEGER and REAL affinity make an integer of every text that spells one, with an
/// optional sign and white space around it.
pub proof fn law_spelled_integer_converts(s: Seq<char>, n: i64, affinity: Affinity)
    requires
        affinity != Affinity::Text,
        affinity != Affinity::Blob,
        coerce::is_integer_literal(text::trim(s)),
        coerce::literal_value(text::trim(s)) == n,
    ensures
        conversion(ValueView::Text(s), affinity) == Conversion::Value(ValueView::Integer(n)),
{
}

} // verus!
