//! Conversions into [`Value`], so that a caller who binds a parameter does not have to name
//! a storage class.
//!
//! A `bool` becomes the integer 0 or 1, because SQLite has no boolean storage class. `None`
//! becomes NULL, which makes a nullable column bindable without a match.
use crate::record::value::{Value, ValueView};
use vstd::prelude::*;
use vstd::std_specs::convert::{FromSpec, FromSpecImpl};

verus! {

impl From<i64> for Value {
    fn from(v: i64) -> (r: Value) {
        Value::Integer(v)
    }
}

impl FromSpecImpl<i64> for Value {
    open spec fn obeys_from_spec() -> bool {
        true
    }

    open spec fn from_spec(v: i64) -> Value {
        Value::Integer(v)
    }
}

impl From<i32> for Value {
    fn from(v: i32) -> (r: Value) {
        Value::Integer(v as i64)
    }
}

impl FromSpecImpl<i32> for Value {
    open spec fn obeys_from_spec() -> bool {
        true
    }

    open spec fn from_spec(v: i32) -> Value {
        Value::Integer(v as i64)
    }
}

impl From<bool> for Value {
    fn from(v: bool) -> (r: Value) {
        if v {
            Value::Integer(1)
        } else {
            Value::Integer(0)
        }
    }
}

impl FromSpecImpl<bool> for Value {
    open spec fn obeys_from_spec() -> bool {
        true
    }

    open spec fn from_spec(v: bool) -> Value {
        if v {
            Value::Integer(1)
        } else {
            Value::Integer(0)
        }
    }
}

impl From<String> for Value {
    fn from(v: String) -> (r: Value) {
        Value::Text(v)
    }
}

impl FromSpecImpl<String> for Value {
    open spec fn obeys_from_spec() -> bool {
        true
    }

    open spec fn from_spec(v: String) -> Value {
        Value::Text(v)
    }
}

impl From<Vec<u8>> for Value {
    fn from(v: Vec<u8>) -> (r: Value) {
        Value::Blob(v)
    }
}

impl FromSpecImpl<Vec<u8>> for Value {
    open spec fn obeys_from_spec() -> bool {
        true
    }

    open spec fn from_spec(v: Vec<u8>) -> Value {
        Value::Blob(v)
    }
}

impl From<&str> for Value {
    fn from(v: &str) -> (r: Value)
        ensures
            r@ == ValueView::Text(v@),
    {
        Value::Text(v.to_owned())
    }
}

impl FromSpecImpl<&str> for Value {
    open spec fn obeys_from_spec() -> bool {
        false
    }

    open spec fn from_spec(v: &str) -> Value {
        arbitrary()
    }
}

impl From<&[u8]> for Value {
    fn from(v: &[u8]) -> (r: Value)
        ensures
            r@ == ValueView::Blob(v@),
    {
        let mut bytes: Vec<u8> = Vec::new();
        bytes.extend_from_slice(v);
        assert(bytes@ =~= v@);
        Value::Blob(bytes)
    }
}

impl FromSpecImpl<&[u8]> for Value {
    open spec fn obeys_from_spec() -> bool {
        false
    }

    open spec fn from_spec(v: &[u8]) -> Value {
        arbitrary()
    }
}

impl<T> From<Option<T>> for Value where Value: From<T> {
    fn from(v: Option<T>) -> (r: Value) {
        match v {
            Some(inner) => Value::from(inner),
            None => Value::Null,
        }
    }
}

impl<T> FromSpecImpl<Option<T>> for Value where Value: From<T> {
    open spec fn obeys_from_spec() -> bool {
        <Value as FromSpec<T>>::obeys_from_spec()
    }

    open spec fn from_spec(v: Option<T>) -> Value {
        match v {
            Some(inner) => <Value as FromSpec<T>>::from_spec(inner),
            None => Value::Null,
        }
    }
}

} // verus!
