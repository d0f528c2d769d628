//! Cross-type comparison order: NULL < numeric < text < blob, with INTEGER and REAL merged
//! into one numeric class.
use crate::double;
use crate::record::collation;
use crate::record::collation::Collation;
use crate::record::value::{Value, ValueView};
use crate::text::Sorted;
use vstd::prelude::*;

verus! {

/// The storage classes in their order.
pub open spec fn class_rank(v: ValueView) -> int {
    match v {
        ValueView::Null => 0,
        ValueView::Integer(_) => 1,
        ValueView::Real(_) => 1,
        ValueView::Text(_) => 2,
        ValueView::Blob(_) => 3,
    }
}

/// Where the number `a` stands to the number `b`.
pub open spec fn number_order(a: int, b: int) -> Sorted {
    if a < b {
        Sorted::Before
    } else if a == b {
        Sorted::Same
    } else {
        Sorted::After
    }
}

pub open spec fn reversed(s: Sorted) -> Sorted {
    match s {
        Sorted::Before => Sorted::After,
        Sorted::Same => Sorted::Same,
        Sorted::After => Sorted::Before,
    }
}

/// `a` and `b` agree up to place `k`, and there `a` ends or has the smaller byte.
pub open spec fn bytes_split_at(a: Seq<u8>, b: Seq<u8>, k: int) -> bool {
    &&& 0 <= k <= a.len()
    &&& k < b.len()
    &&& forall|j: int| 0 <= j < k ==> a[j] == b[j]
    &&& k < a.len() ==> a[k] < b[k]
}

/// `a` comes before `b`, byte by byte.
pub open spec fn bytes_before(a: Seq<u8>, b: Seq<u8>) -> bool {
    exists|k: int| bytes_split_at(a, b, k)
}

/// Where the bytes `a` stand to the bytes `b`.
pub open spec fn bytes_order(a: Seq<u8>, b: Seq<u8>) -> Sorted {
    if a == b {
        Sorted::Same
    } else if bytes_before(a, b) {
        Sorted::Before
    } else {
        Sorted::After
    }
}

/// Where an integer stands to a floating-point value, exactly; above what is not a number.
pub open spec fn integer_to_double(i: i64, r: u64) -> Sorted {
    if double::is_nan(r) {
        Sorted::After
    } else {
        number_order(i * double::one(), double::denoted(r))
    }
}

/// Where the value `a` stands to the value `b`; `collation` governs text against text.
pub open spec fn value_order(a: ValueView, b: ValueView, collation: Collation) -> Sorted {
    if class_rank(a) != class_rank(b) {
        number_order(class_rank(a), class_rank(b))
    } else {
        match (a, b) {
            (ValueView::Integer(x), ValueView::Integer(y)) => number_order(x as int, y as int),
            (ValueView::Real(x), ValueView::Real(y)) => if double::is_nan(x) || double::is_nan(y) {
                Sorted::Same
            } else {
                number_order(double::denoted(x), double::denoted(y))
            },
            (ValueView::Integer(x), ValueView::Real(y)) => integer_to_double(x, y),
            (ValueView::Real(x), ValueView::Integer(y)) => reversed(integer_to_double(y, x)),
            (ValueView::Text(x), ValueView::Text(y)) => collation::text_order(x, y, collation),
            (ValueView::Blob(x), ValueView::Blob(y)) => bytes_order(x, y),
            _ => Sorted::Same,
        }
    }
}

pub proof fn lemma_bytes_total(a: Seq<u8>, b: Seq<u8>)
    ensures
        a == b || bytes_before(a, b) || bytes_before(b, a),
        !(bytes_before(a, b) && bytes_before(b, a)),
        !bytes_before(a, a),
{
    lemma_bytes_from(a, b, 0);
    if bytes_before(a, b) && bytes_before(b, a) {
        lemma_bytes_transitive(a, b, a);
    }
}

proof fn lemma_bytes_from(a: Seq<u8>, b: Seq<u8>, k: int)
    requires
        0 <= k <= a.len(),
        k <= b.len(),
        forall|j: int| 0 <= j < k ==> a[j] == b[j],
    ensures
        a == b || bytes_before(a, b) || bytes_before(b, a),
    decreases a.len() - k,
{
    if k == a.len() && k == b.len() {
        assert(a =~= b);
    } else if k == a.len() {
        assert(bytes_split_at(a, b, k));
    } else if k == b.len() {
        assert(bytes_split_at(b, a, k));
    } else if a[k] == b[k] {
        lemma_bytes_from(a, b, k + 1);
    } else if a[k] < b[k] {
        assert(bytes_split_at(a, b, k));
    } else {
        assert(bytes_split_at(b, a, k));
    }
}

pub proof fn lemma_bytes_transitive(a: Seq<u8>, b: Seq<u8>, c: Seq<u8>)
    requires
        bytes_before(a, b),
        bytes_before(b, c),
    ensures
        bytes_before(a, c),
{
    let k = choose|k: int| bytes_split_at(a, b, k);
    let m = choose|m: int| bytes_split_at(b, c, m);
    assert(bytes_split_at(a, c, if k < m { k } else { m }));
}

/// Turning a comparison round reverses its answer.
pub proof fn law_order_reverses(a: ValueView, b: ValueView, collation: Collation)
    ensures
        value_order(b, a, collation) == reversed(value_order(a, b, collation)),
{
    match (a, b) {
        (ValueView::Text(x), ValueView::Text(y)) => {
            collation::lemma_before_total(
                collation::sort_key(x, collation),
                collation::sort_key(y, collation),
            );
        },
        (ValueView::Blob(x), ValueView::Blob(y)) => {
            lemma_bytes_total(x, y);
        },
        _ => {},
    }
}

/// A value that is a number where it is a floating-point value.
pub open spec fn is_ordered(v: ValueView) -> bool {
    match v {
        ValueView::Real(r) => !double::is_nan(r),
        _ => true,
    }
}

/// What a numeric value denotes, counted in the smallest positive double.
pub open spec fn numeric(v: ValueView) -> int {
    match v {
        ValueView::Integer(i) => i * double::one(),
        ValueView::Real(r) => double::denoted(r),
        _ => 0,
    }
}

proof fn lemma_numeric_order(a: ValueView, b: ValueView, collation: Collation)
    requires
        is_ordered(a),
        is_ordered(b),
        class_rank(a) == 1,
        class_rank(b) == 1,
    ensures
        value_order(a, b, collation) == number_order(numeric(a), numeric(b)),
{
    let u = double::one() as int;
    vstd::arithmetic::power2::lemma_pow2_pos(1074);
    match (a, b) {
        (ValueView::Integer(x), ValueView::Integer(y)) => {
            assert(x < y ==> x * u < y * u) by (nonlinear_arith)
                requires
                    u > 0,
            ;
            assert(x > y ==> x * u > y * u) by (nonlinear_arith)
                requires
                    u > 0,
            ;
        },
        _ => {},
    }
}

/// Comparison is transitive over values without NaN: what is not after `b`, and `b` not
/// after `c`, is not after `c` — and is before it where one of the two is strict.
pub proof fn law_order_transitive(a: ValueView, b: ValueView, c: ValueView, collation: Collation)
    requires
        is_ordered(a),
        is_ordered(b),
        is_ordered(c),
        value_order(a, b, collation) != Sorted::After,
        value_order(b, c, collation) != Sorted::After,
    ensures
        value_order(a, c, collation) != Sorted::After,
        value_order(a, b, collation) == Sorted::Before || value_order(b, c, collation)
            == Sorted::Before ==> value_order(a, c, collation) == Sorted::Before,
{
    if class_rank(a) == 1 && class_rank(b) == 1 && class_rank(c) == 1 {
        lemma_numeric_order(a, b, collation);
        lemma_numeric_order(b, c, collation);
        lemma_numeric_order(a, c, collation);
    } else {
        match (a, b, c) {
            (ValueView::Text(x), ValueView::Text(y), ValueView::Text(z)) => {
                let kx = collation::sort_key(x, collation);
                let ky = collation::sort_key(y, collation);
                let kz = collation::sort_key(z, collation);
                collation::lemma_before_total(kx, ky);
                collation::lemma_before_total(ky, kz);
                collation::lemma_before_total(kx, kz);
                if kx != ky && ky != kz {
                    crate::text::lemma_before_transitive(kx, ky, kz);
                }
            },
            (ValueView::Blob(x), ValueView::Blob(y), ValueView::Blob(z)) => {
                lemma_bytes_total(x, y);
                lemma_bytes_total(y, z);
                lemma_bytes_total(x, z);
                if x != y && y != z {
                    lemma_bytes_transitive(x, y, z);
                }
            },
            _ => {},
        }
    }
}

/// NULL comes before everything else, numbers before text, and text before blobs.
pub proof fn law_classes_ordered(a: ValueView, b: ValueView, collation: Collation)
    requires
        class_rank(a) < class_rank(b),
    ensures
        value_order(a, b, collation) == Sorted::Before,
{
}

pub(crate) fn order_bytes(x: &Vec<u8>, y: &Vec<u8>) -> (r: Sorted)
    ensures
        r == bytes_order(x@, y@),
{
    proof {
        lemma_bytes_total(x@, y@);
    }
    let mut i: usize = 0;
    while i < x.len() && i < y.len() && x[i] == y[i]
        invariant
            i <= x.len(),
            i <= y.len(),
            forall|j: int| 0 <= j < i ==> x@[j] == y@[j],
        decreases x.len() - i,
    {
        i = i + 1;
    }
    if i == x.len() && i == y.len() {
        assert(x@ =~= y@);
        Sorted::Same
    } else if i == x.len() {
        assert(bytes_split_at(x@, y@, i as int));
        Sorted::Before
    } else if i == y.len() {
        assert(bytes_split_at(y@, x@, i as int));
        Sorted::After
    } else if x[i] < y[i] {
        assert(bytes_split_at(x@, y@, i as int));
        Sorted::Before
    } else {
        assert(bytes_split_at(y@, x@, i as int));
        Sorted::After
    }
}

fn value_rank(v: &Value) -> (r: u8)
    ensures
        r == class_rank(v@),
{
    match v {
        Value::Null => 0,
        Value::Integer(_) | Value::Real(_) => 1,
        Value::Text(_) => 2,
        Value::Blob(_) => 3,
    }
}

/// Compares an integer against a floating-point value exactly: going through a double
/// would lose precision near the ends of the integer range.
fn order_int_real(i: i64, r: u64) -> (s: Sorted)
    ensures
        s == integer_to_double(i, r),
{
    if double::nan(r) {
        return Sorted::After;
    }
    double::order_integer(i, r)
}

fn turned(s: Sorted) -> (r: Sorted)
    ensures
        r == reversed(s),
{
    match s {
        Sorted::Before => Sorted::After,
        Sorted::Same => Sorted::Same,
        Sorted::After => Sorted::Before,
    }
}

/// Where the value `a` stands to the value `b`.
pub fn order_values(a: &Value, b: &Value, collation: Collation) -> (r: Sorted)
    ensures
        r == value_order(a@, b@, collation),
{
    let ra = value_rank(a);
    let rb = value_rank(b);
    if ra < rb {
        return Sorted::Before;
    }
    if ra > rb {
        return Sorted::After;
    }
    match (a, b) {
        (Value::Integer(x), Value::Integer(y)) => {
            if *x < *y {
                Sorted::Before
            } else if *x == *y {
                Sorted::Same
            } else {
                Sorted::After
            }
        },
        (Value::Real(x), Value::Real(y)) => {
            if double::nan(*x) || double::nan(*y) {
                Sorted::Same
            } else {
                double::order(*x, *y)
            }
        },
        (Value::Integer(x), Value::Real(y)) => order_int_real(*x, *y),
        (Value::Real(x), Value::Integer(y)) => turned(order_int_real(*y, *x)),
        (Value::Text(x), Value::Text(y)) => collation::compare_text(
            x.as_str(),
            y.as_str(),
            collation,
        ),
        (Value::Blob(x), Value::Blob(y)) => order_bytes(x, y),
        _ => Sorted::Same,
    }
}

/// Integers are ordered by their value.
pub proof fn law_integers_by_value(i: i64, j: i64, collation: Collation)
    ensures
        i < j <==> value_order(ValueView::Integer(i), ValueView::Integer(j), collation)
            == Sorted::Before,
        i == j <==> value_order(ValueView::Integer(i), ValueView::Integer(j), collation)
            == Sorted::Same,
        i > j <==> value_order(ValueView::Integer(i), ValueView::Integer(j), collation)
            == Sorted::After,
{
}

/// Numbers of either class are ordered by what they denote, exactly.
pub proof fn law_numbers_by_value(a: ValueView, b: ValueView, collation: Collation)
    requires
        a is Integer || a is Real,
        b is Integer || b is Real,
        a is Real ==> !double::is_nan(a->Real_0),
        b is Real ==> !double::is_nan(b->Real_0),
    ensures
        numeric(a) < numeric(b) <==> value_order(a, b, collation) == Sorted::Before,
        numeric(a) == numeric(b) <==> value_order(a, b, collation) == Sorted::Same,
        numeric(a) > numeric(b) <==> value_order(a, b, collation) == Sorted::After,
{
    lemma_numeric_order(a, b, collation);
}

/// A floating-point value that is not a number comes before every integer, and is the same as
/// every floating-point value.
pub proof fn law_nan_is_below_integers(i: i64, r: u64, x: u64, collation: Collation)
    requires
        double::is_nan(r),
    ensures
        value_order(ValueView::Real(r), ValueView::Integer(i), collation) == Sorted::Before,
        value_order(ValueView::Integer(i), ValueView::Real(r), collation) == Sorted::After,
        value_order(ValueView::Real(r), ValueView::Real(x), collation) == Sorted::Same,
        value_order(ValueView::Real(x), ValueView::Real(r), collation) == Sorted::Same,
{
}

/// NULL is the same as NULL and comes before every other value; numbers come before text, and
/// text before blobs; the collation governs nothing but two texts.
pub proof fn law_classes_come_in_turn(a: ValueView, b: ValueView, c: Collation, d: Collation)
    ensures
        a is Null && b is Null ==> value_order(a, b, c) == Sorted::Same,
        a is Null && !(b is Null) ==> value_order(a, b, c) == Sorted::Before,
        (a is Integer || a is Real) && (b is Text || b is Blob) ==> value_order(a, b, c)
            == Sorted::Before,
        a is Text && b is Blob ==> value_order(a, b, c) == Sorted::Before,
        !(a is Text && b is Text) ==> value_order(a, b, c) == value_order(a, b, d),
        a is Text && b is Text ==> value_order(a, b, c) == collation::text_order(
            a->Text_0,
            b->Text_0,
            c,
        ),
{
}

/// Blobs are ordered by the first byte in which they differ, and a blob comes before every
/// longer one that begins with it.
pub proof fn law_blobs_by_first_difference(a: Seq<u8>, b: Seq<u8>, k: int, collation: Collation)
    requires
        0 <= k <= a.len(),
        k <= b.len(),
        forall|j: int| 0 <= j < k ==> a[j] == b[j],
    ensures
        ({
            let r = value_order(ValueView::Blob(a), ValueView::Blob(b), collation);
            &&& k < a.len() && k < b.len() && a[k] < b[k] ==> r == Sorted::Before
            &&& k < a.len() && k < b.len() && a[k] > b[k] ==> r == Sorted::After
            &&& k == a.len() && k < b.len() ==> r == Sorted::Before
            &&& k == b.len() && k < a.len() ==> r == Sorted::After
            &&& k == a.len() && k == b.len() ==> r == Sorted::Same
        }),
{
    lemma_bytes_total(a, b);
    if k < a.len() || k < b.len() {
        if k == a.len() || (k < b.len() && a[k] < b[k]) {
            assert(bytes_split_at(a, b, k));
        } else if k == b.len() || b[k] < a[k] {
            assert(bytes_split_at(b, a, k));
        }
    } else {
        assert(a =~= b);
    }
}

} // verus!
