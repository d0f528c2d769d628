//! Cross-type comparison, as the standard library's `Ordering`.
use crate::record::collation::Collation;
use crate::record::value::Value;
use crate::text::Sorted;
use crate::vdbe::order;
use std::cmp::Ordering;
use vstd::prelude::*;

verus! {

/// The standard library's name for a place in order.
pub open spec fn as_ordering(s: Sorted) -> Ordering {
    match s {
        Sorted::Before => Ordering::Less,
        Sorted::Same => Ordering::Equal,
        Sorted::After => Ordering::Greater,
    }
}

/// Total order over values: NULL < numeric < text < blob. `collation` governs text-vs-text
/// comparisons only.
pub fn compare(a: &Value, b: &Value, collation: Collation) -> (r: Ordering)
    ensures
        r == as_ordering(order::value_order(a@, b@, collation)),
{
    match order::order_values(a, b, collation) {
        Sorted::Before => Ordering::Less,
        Sorted::Same => Ordering::Equal,
        Sorted::After => Ordering::Greater,
    }
}

/// A value compares as less exactly where it stands before the other, and as greater where it
/// stands behind it.
pub proof fn law_less_is_before(s: Sorted)
    ensures
        as_ordering(s) is Less <==> s == Sorted::Before,
        as_ordering(s) is Equal <==> s == Sorted::Same,
        as_ordering(s) is Greater <==> s == Sorted::After,
{
}

} // verus!
