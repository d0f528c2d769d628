//! Sums and differences that stop at the ends of their range.
use vstd::prelude::*;

verus! {

/// `x`, or the end of the 64-bit range it lies beyond.
pub open spec fn clamped(x: int) -> i64 {
    if x < i64::MIN {
        i64::MIN
    } else if x > i64::MAX {
        i64::MAX
    } else {
        x as i64
    }
}

pub fn plus(a: i64, b: i64) -> (r: i64)
    ensures
        r == clamped(a + b),
{
    match a.checked_add(b) {
        Some(r) => r,
        None => {
            if b < 0 {
                i64::MIN
            } else {
                i64::MAX
            }
        },
    }
}

pub fn minus(a: i64, b: i64) -> (r: i64)
    ensures
        r == clamped(a - b),
{
    match a.checked_sub(b) {
        Some(r) => r,
        None => {
            if b < 0 {
                i64::MAX
            } else {
                i64::MIN
            }
        },
    }
}

} // verus!
