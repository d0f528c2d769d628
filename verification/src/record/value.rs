//! Column values and how text is stored.
use vstd::prelude::*;

verus! {

/// A single column value, per SQLite's dynamic type system.
#[derive(Debug, Clone, PartialEq)]
pub enum Value {
    /// SQL `NULL`.
    Null,
    /// A signed integer.
    Integer(i64),
    /// An 8-byte IEEE 754 floating-point value, as its bit pattern.
    Real(u64),
    /// A text value.
    Text(String),
    /// An uninterpreted byte sequence.
    Blob(Vec<u8>),
}

/// What a [`Value`] stands for.
#[verifier::ext_equal]
pub enum ValueView {
    Null,
    Integer(i64),
    Real(u64),
    Text(Seq<char>),
    Blob(Seq<u8>),
}

impl Value {
    pub open spec fn view(&self) -> ValueView {
        match self {
            Value::Null => ValueView::Null,
            Value::Integer(i) => ValueView::Integer(*i),
            Value::Real(r) => ValueView::Real(*r),
            Value::Text(s) => ValueView::Text(s@),
            Value::Blob(b) => ValueView::Blob(b@),
        }
    }

    /// A value of its own that stands for the same.
    pub fn copy(&self) -> (v: Value)
        ensures
            v@ == self@,
    {
        match self {
            Value::Null => Value::Null,
            Value::Integer(i) => Value::Integer(*i),
            Value::Real(r) => Value::Real(*r),
            Value::Text(s) => Value::Text(s.clone()),
            Value::Blob(b) => Value::Blob(copy_bytes(b)),
        }
    }
}

/// The values of a list, each as what it stands for.
pub open spec fn values(v: Seq<Value>) -> Seq<ValueView> {
    v.map_values(|x: Value| x@)
}

pub proof fn lemma_values_push(v: Seq<Value>, x: Value)
    ensures
        values(v.push(x)) == values(v).push(x@),
{
    assert(values(v.push(x)) =~= values(v).push(x@));
}

/// The rows of a list, each as what it stands for.
pub open spec fn rows(v: Seq<Vec<Value>>) -> Seq<Seq<ValueView>> {
    v.map_values(|x: Vec<Value>| values(x@))
}

pub fn copy_bytes(v: &Vec<u8>) -> (r: Vec<u8>)
    ensures
        r@ == v@,
{
    let mut r: Vec<u8> = Vec::new();
    r.extend_from_slice(v.as_slice());
    assert(r@ =~= v@);
    r
}

/// A list of its own that stands for the same.
pub fn copy_values(v: &Vec<Value>) -> (r: Vec<Value>)
    ensures
        values(r@) == values(v@),
{
    let mut r: Vec<Value> = Vec::new();
    let mut i: usize = 0;
    while i < v.len()
        invariant
            i <= v.len(),
            r@.len() == i,
            forall|k: int| 0 <= k < i ==> (#[trigger] r@[k])@ == v@[k]@,
        decreases v.len() - i,
    {
        r.push(v[i].copy());
        i = i + 1;
    }
    assert(values(r@) =~= values(v@));
    r
}

/// The database's text encoding, from database header byte 56.
#[derive(Debug, Clone, Copy, PartialEq, Eq, Structural)]
pub enum TextEncoding {
    /// UTF-8.
    Utf8,
    /// UTF-16 little-endian.
    Utf16Le,
    /// UTF-16 big-endian.
    Utf16Be,
}

} // verus!
