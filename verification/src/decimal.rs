//! Decimal numbers and doubles: which double a decimal literal is read as, and which decimal
//! a double is shown as.
use crate::double;
use crate::double::{exponent_field, fraction_field, magnitude, one, unsigned_part};
use crate::natural::Natural;
use crate::text;
use vstd::arithmetic::power::*;
use vstd::arithmetic::power2::*;
use vstd::prelude::*;

verus! {

// ---- what a literal denotes ----------------------------------------------------------------

pub open spec fn is_exponent_mark(c: char) -> bool {
    c == 'e' || c == 'E'
}

/// The place of the first exponent mark from `i` on, or the end.
pub open spec fn mark_from(s: Seq<char>, i: int) -> int
    decreases s.len() - i,
{
    if 0 <= i < s.len() && !is_exponent_mark(s[i]) {
        mark_from(s, i + 1)
    } else {
        i
    }
}

/// The digits of a decimal literal in front of the exponent, without the point.
pub open spec fn digits_of(s: Seq<char>) -> Seq<char>
    decreases s.len(),
{
    if s.len() == 0 {
        seq![]
    } else if text::is_digit(s.last()) {
        digits_of(s.drop_last()).push(s.last())
    } else {
        digits_of(s.drop_last())
    }
}

/// How many digits of a decimal literal in front of the exponent stand behind the point.
pub open spec fn places(s: Seq<char>) -> nat
    decreases s.len(),
{
    if s.len() == 0 || !s.contains('.') {
        0
    } else if text::is_digit(s.last()) {
        places(s.drop_last()) + 1
    } else {
        places(s.drop_last())
    }
}

/// The exponent that stands behind the mark: an optional sign and digits.
pub open spec fn exponent_of(s: Seq<char>) -> int {
    if s.len() > 0 && s[0] == '-' {
        -(text::number(digits_of(s), 10) as int)
    } else {
        text::number(digits_of(s), 10) as int
    }
}

/// The integer `n` of the value `n * 10^k` that a decimal literal denotes.
pub open spec fn significand(s: Seq<char>) -> nat {
    text::number(digits_of(s.take(mark_from(s, 0))), 10)
}

/// The exponent `k` of the value `n * 10^k` that a decimal literal denotes.
pub open spec fn scale(s: Seq<char>) -> int {
    let m = mark_from(s, 0);
    (if m < s.len() {
        exponent_of(s.skip(m + 1))
    } else {
        0
    }) - places(s.take(m))
}

/// The digits in a range, and how many of them follow the point.
fn collect_digits(v: &Vec<char>, from: usize, to: usize) -> (r: (Vec<char>, usize))
    requires
        from <= to <= v.len(),
    ensures
        r.0@ == digits_of(v@.subrange(from as int, to as int)),
        r.1 == places(v@.subrange(from as int, to as int)),
        r.1 <= r.0@.len() <= to - from,
        forall|j: int| 0 <= j < r.0@.len() ==> text::is_digit(#[trigger] r.0@[j]),
{
    let mut digits: Vec<char> = Vec::new();
    let mut behind: usize = 0;
    let mut seen = false;
    let mut i: usize = from;
    while i < to
        invariant
            from <= i <= to <= v.len(),
            digits@ == digits_of(v@.subrange(from as int, i as int)),
            digits@.len() <= i - from,
            behind == places(v@.subrange(from as int, i as int)),
            behind <= digits@.len(),
            seen == v@.subrange(from as int, i as int).contains('.'),
            forall|j: int| 0 <= j < digits@.len() ==> text::is_digit(#[trigger] digits@[j]),
        decreases to - i,
    {
        let c = v[i];
        let ghost past = v@.subrange(from as int, i as int);
        let ghost now = v@.subrange(from as int, i + 1);
        proof {
            assert(now.drop_last() =~= past);
            assert(now.last() == c);
            assert(now.contains('.') == (past.contains('.') || c == '.')) by {
                if past.contains('.') {
                    let j = choose|j: int| 0 <= j < past.len() && past[j] == '.';
                    assert(now[j] == '.');
                }
                if c == '.' {
                    assert(now[now.len() - 1] == '.');
                }
                if now.contains('.') {
                    let j = choose|j: int| 0 <= j < now.len() && now[j] == '.';
                    if j < past.len() {
                        assert(past[j] == '.');
                    }
                }
            }
            lemma_no_places(past);
        }
        if '0' <= c && c <= '9' {
            digits.push(c);
            if seen {
                behind = behind + 1;
            }
        } else if c == '.' {
            seen = true;
        }
        i = i + 1;
    }
    (digits, behind)
}

proof fn lemma_no_places(s: Seq<char>)
    ensures
        !s.contains('.') ==> places(s) == 0,
{
}

proof fn lemma_number_bound(v: Seq<char>)
    requires
        forall|j: int| 0 <= j < v.len() ==> text::is_digit(#[trigger] v[j]),
    ensures
        0 <= text::number(v, 10) < pow(10, v.len()),
    decreases v.len(),
{
    if v.len() == 0 {
        lemma_pow0(10);
    } else {
        lemma_number_bound(v.drop_last());
        lemma_pow1(10);
        lemma_pow_adds(10, 1, (v.len() - 1) as nat);
    }
}

/// A number falls into what its leading digits spell and the rest.
proof fn lemma_number_splits(v: Seq<char>, count: nat)
    requires
        count <= v.len(),
    ensures
        text::number(v, 10) == text::number(v.take(count as int), 10) * pow(
            10,
            (v.len() - count) as nat,
        ) + text::number(v.skip(count as int), 10),
    decreases v.len() - count,
{
    if count == v.len() {
        assert(v.take(count as int) =~= v);
        lemma_pow0(10);
    } else {
        let front = v.drop_last();
        lemma_number_splits(front, count);
        assert(front.take(count as int) =~= v.take(count as int));
        assert(front.skip(count as int) =~= v.skip(count as int).drop_last());
        assert(v.skip(count as int).last() == v.last());
        lemma_pow1(10);
        lemma_pow_adds(10, 1, (v.len() - 1 - count) as nat);
        let a = text::number(v.take(count as int), 10);
        let q = pow(10, (v.len() - 1 - count) as nat);
        let r = text::number(front.skip(count as int), 10);
        assert((a * q + r) * 10 == a * (10 * q) + r * 10) by (nonlinear_arith);
    }
}

// ---- the nearest double ----------------------------------------------------------------------

/// The pattern of infinity: what is read as more than the largest finite double.
pub const INFINITE: u64 = 0x7ff0_0000_0000_0000;

/// Ten to the power of `k`, or one where `k` is negative.
pub open spec fn ten(k: int) -> nat {
    if k >= 0 {
        pow(10, k as nat) as nat
    } else {
        1
    }
}

/// Twice what `n * 10^k` denotes, counted in the smallest positive double, and multiplied by
/// `10^-k` where `k` is negative.
pub open spec fn doubled(n: nat, k: int) -> nat {
    n * (2 * one()) * ten(k)
}

/// The sum of what the pattern `b` and the one below it denote, in the same measure: twice the
/// value halfway between them.
pub open spec fn midway(b: nat, k: int) -> nat {
    ((magnitude((b - 1) as nat) + magnitude(b)) as nat) * ten(-k)
}

/// Whether `n * 10^k` is at least halfway from the pattern below `b` to `b`; a value that is
/// exactly halfway goes to the even one.
pub open spec fn reaches(n: nat, k: int, b: nat) -> bool {
    b == 0 || doubled(n, k) > midway(b, k) || (doubled(n, k) == midway(b, k) && b % 2 == 0)
}

/// Whether `b` is the pattern of the double nearest to `n * 10^k`.
pub open spec fn rounds_to(n: nat, k: int, b: nat) -> bool {
    b <= INFINITE && reaches(n, k, b) && (b == INFINITE || !reaches(n, k, b + 1))
}

/// The pattern of the double nearest to `n * 10^k`.
pub open spec fn nearest(n: nat, k: int) -> nat {
    choose|b: nat| rounds_to(n, k, b)
}

/// The pattern of the double that a decimal literal is read as.
pub open spec fn double_of(literal: Seq<char>) -> u64 {
    nearest(significand(literal), scale(literal)) as u64
}

proof fn lemma_ten(k: int)
    ensures
        ten(k) > 0,
        ten(0) == 1,
        k >= 0 ==> ten(k + 1) == 10 * ten(k) && ten(k) == pow(10, k as nat),
        k < 0 ==> ten(-k) == 10 * ten(-k - 1),
{
    lemma_pow0(10);
    if k >= 0 {
        lemma_pow_positive(10, k as nat);
        assert(pow(10, (k + 1) as nat) == 10 * pow(10, k as nat)) by {
            reveal(pow);
        }
    } else {
        lemma_pow_positive(10, (-k) as nat);
        lemma_pow_positive(10, (-k - 1) as nat);
        assert(pow(10, (-k) as nat) == 10 * pow(10, (-k - 1) as nat)) by {
            reveal(pow);
        }
    }
}

proof fn lemma_ten_adds(a: int, b: int)
    requires
        a >= 0,
        b >= 0,
    ensures
        ten(a + b) == ten(a) * ten(b),
{
    lemma_pow_adds(10, a as nat, b as nat);
    lemma_pow_positive(10, a as nat);
    lemma_pow_positive(10, b as nat);
    lemma_pow_positive(10, (a + b) as nat);
}

/// A value beyond the middle above a pattern is beyond the one below it.
proof fn lemma_reaches_below(n: nat, k: int, b: nat)
    requires
        reaches(n, k, b + 1),
    ensures
        reaches(n, k, b),
{
    if b > 0 {
        double::lemma_magnitude_order((b - 1) as nat, b);
        double::lemma_magnitude_order(b, b + 1);
        lemma_ten(-k);
        let lower = (magnitude((b - 1) as nat) + magnitude(b)) as nat;
        let upper = (magnitude(b) + magnitude(b + 1)) as nat;
        assert(((b + 1) - 1) as nat == b);
        assert(lower * ten(-k) < upper * ten(-k)) by (nonlinear_arith)
            requires
                lower < upper,
                ten(-k) > 0,
        ;
    }
}

proof fn lemma_reaches_all_below(n: nat, k: int, b: nat, c: nat)
    requires
        b <= c,
        reaches(n, k, c),
    ensures
        reaches(n, k, b),
    decreases c - b,
{
    if b < c {
        lemma_reaches_below(n, k, (c - 1) as nat);
        lemma_reaches_all_below(n, k, b, (c - 1) as nat);
    }
}

/// A larger number reaches what a smaller one does.
proof fn lemma_reaches_grows(n: nat, m: nat, k: int, b: nat)
    requires
        n <= m,
        reaches(n, k, b),
    ensures
        reaches(m, k, b),
{
    let one2 = 2 * one();
    let t = ten(k);
    assert(n * one2 * t <= m * one2 * t) by (nonlinear_arith)
        requires
            n <= m,
            one2 >= 0,
            t >= 0,
    ;
    if n < m {
        lemma_ten(k);
        lemma_pow2_pos(1074);
        assert(n * one2 * t < m * one2 * t) by (nonlinear_arith)
            requires
                n < m,
                one2 > 0,
                t > 0,
        ;
    }
}

/// A value has one nearest double.
pub proof fn lemma_nearest_is_one(n: nat, k: int, b: nat)
    requires
        rounds_to(n, k, b),
    ensures
        nearest(n, k) == b,
        b <= INFINITE,
{
    let c = nearest(n, k);
    assert(rounds_to(n, k, c));
    if b < c {
        lemma_reaches_all_below(n, k, b + 1, c);
    } else if c < b {
        lemma_reaches_all_below(n, k, c + 1, b);
    }
}

/// A zero behind a number, and an exponent that is one less, change nothing.
proof fn lemma_reaches_shift(n: nat, k: int, b: nat)
    ensures
        reaches(n * 10, k, b) == reaches(n, k + 1, b),
{
    if b > 0 {
        let m = (magnitude((b - 1) as nat) + magnitude(b)) as nat;
        let w = 2 * one();
        if k >= 0 {
            lemma_ten(k);
            lemma_ten(0);
            let t = ten(k);
            assert((n * 10) * w * t == n * w * (10 * t)) by (nonlinear_arith);
            assert(ten(-k) == 1 && ten(-(k + 1)) == 1);
        } else {
            lemma_ten(k);
            lemma_ten(0);
            let t = ten(-k - 1);
            assert(-(k + 1) == -k - 1);
            assert(ten(k) == 1 && ten(k + 1) == 1);
            assert((n * 10) * w * 1 == 10 * (n * w * 1)) by (nonlinear_arith);
            assert(m * (10 * t) == 10 * (m * t)) by (nonlinear_arith);
        }
    }
}

proof fn lemma_rounds_shift(n: nat, k: int, j: nat, b: nat)
    ensures
        rounds_to(n * ten(j as int), k, b) == rounds_to(n, k + j, b),
    decreases j,
{
    lemma_ten(0);
    if j > 0 {
        let i = (j - 1) as nat;
        lemma_ten(i as int);
        assert((n * 10) * ten(i as int) == n * (10 * ten(i as int))) by (nonlinear_arith);
        lemma_rounds_shift(n * 10, k, i, b);
        lemma_reaches_shift(n, k + i, b);
        lemma_reaches_shift(n, k + i, b + 1);
    } else {
        assert(n * 1 == n);
    }
}

/// Zeros behind a number stand for an exponent.
pub proof fn lemma_nearest_shift(n: nat, k: int, j: nat)
    ensures
        nearest(n * ten(j as int), k) == nearest(n, k + j),
{
    assert forall|b: nat| #[trigger] rounds_to(n * ten(j as int), k, b) == rounds_to(n, k + j,
        b) by {
        lemma_rounds_shift(n, k, j, b);
    }
    let b = nearest(n, k + j);
    let c = nearest(n * ten(j as int), k);
    if rounds_to(n, k + j, b) {
        assert(rounds_to(n * ten(j as int), k, b));
        lemma_nearest_is_one(n * ten(j as int), k, b);
    } else {
        lemma_nearest_exists(n, k + j);
    }
}

proof fn lemma_nearest_from(n: nat, k: int, b: nat) -> (r: nat)
    requires
        b <= INFINITE,
        b == INFINITE || !reaches(n, k, b + 1),
    ensures
        rounds_to(n, k, r),
    decreases b,
{
    if reaches(n, k, b) {
        b
    } else {
        lemma_nearest_from(n, k, (b - 1) as nat)
    }
}

/// Every value has a nearest double.
pub proof fn lemma_nearest_exists(n: nat, k: int)
    ensures
        rounds_to(n, k, nearest(n, k)),
{
    let r = lemma_nearest_from(n, k, INFINITE as nat);
    assert(rounds_to(n, k, r));
}

/// What an unsigned pattern denotes.
fn magnitude_of(m: u64) -> (r: Natural)
    requires
        m <= INFINITE,
    ensures
        r@ == magnitude(m as nat),
{
    let e: u64 = m / 0x10_0000_0000_0000;
    let f: u64 = m % 0x10_0000_0000_0000;
    if e == 0 {
        return Natural::new(f);
    }
    let mut r = Natural::new(0x10_0000_0000_0000 + f);
    let count: u64 = e - 1;
    r.raise(0x1_0000, (count / 16) as u128);
    r.raise(2, (count % 16) as u128);
    proof {
        let q = (count / 16) as nat;
        let s = (count % 16) as nat;
        let a = (0x10_0000_0000_0000 + f) as int;
        lemma2_to64();
        lemma_pow2(16);
        lemma_pow2(s);
        lemma_pow_multiplies(2, 16, q);
        lemma_pow_adds(2, 16 * q, s);
        lemma_pow2(count as nat);
        assert(count as nat == 16 * q + s);
        assert((a * pow(0x1_0000, q)) * pow(2, s) == a * (pow(0x1_0000, q) * pow(2, s)))
            by (nonlinear_arith);
    }
    r
}

/// The sum of what the pattern `b` and the one below it denote.
fn middle_of(b: u64) -> (r: Natural)
    requires
        0 < b <= INFINITE,
    ensures
        r@ == magnitude((b - 1) as nat) + magnitude(b as nat),
{
    let mut r = magnitude_of(b - 1);
    r.plus(&magnitude_of(b));
    r
}

/// Ten to the power of `400` is beyond every double, and its inverse below every one.
proof fn lemma_far(k: int)
    requires
        k >= 400,
    ensures
        ten(k) >= pow2(1197),
{
    lemma_pow2_pos(1197);
    lemma_thousands(133);
    lemma_pow_multiplies(10, 3, 133);
    lemma_ten_adds(399, k - 399);
    lemma_ten(k - 399);
    let a = ten(399);
    let b = ten(k - 399);
    assert(a * b >= a) by (nonlinear_arith)
        requires
            b >= 1,
            a >= 0,
    ;
}

proof fn lemma_thousands(n: nat)
    ensures
        ten(3 * n as int) >= pow2(9 * n),
    decreases n,
{
    lemma2_to64();
    lemma_ten(0);
    lemma_pow2(0);
    if n > 0 {
        let i = (n - 1) as nat;
        lemma_thousands(i);
        lemma_ten(3 * i as int);
        lemma_ten(3 * i as int + 1);
        lemma_ten(3 * i as int + 2);
        lemma_pow2_adds(9 * i, 9);
        let a = ten(3 * i as int);
        let b = pow2(9 * i);
        assert(ten(3 * n as int) == 1000 * a);
        assert(pow2(9 * n) == b * 512);
    }
}

proof fn lemma_infinite()
    ensures
        magnitude(INFINITE as nat) == pow2(2098),
{
    lemma2_to64_rest();
    lemma_pow2_adds(52, 2046);
    assert(exponent_field(INFINITE as nat) == 2047);
    assert(fraction_field(INFINITE as nat) == 0);
}

/// A value with a large exponent is infinite.
proof fn lemma_too_large(n: nat, k: int, b: nat)
    requires
        n >= 1,
        k >= 400,
        0 < b <= INFINITE,
    ensures
        reaches(n, k, b),
{
    lemma_far(k);
    lemma_infinite();
    double::lemma_magnitude_order((b - 1) as nat, b);
    double::lemma_magnitude_order(b, INFINITE as nat);
    lemma_pow2_adds(1074, 1197);
    lemma_pow2_strictly_increases(2098, 2271);
    lemma_pow2_pos(1074);
    let o = one();
    let t = ten(k);
    assert(n * (2 * o) * t >= 2 * (o * t)) by (nonlinear_arith)
        requires
            n >= 1,
            o > 0,
            t > 0,
    ;
    assert(o * t >= o * pow2(1197)) by (nonlinear_arith)
        requires
            t >= pow2(1197),
            o > 0,
    ;
    lemma_ten(0);
    assert(ten(-k) == 1);
}

/// A value with few digits and a large negative exponent is zero.
proof fn lemma_too_small(n: nat, digits: nat, k: int)
    requires
        n < ten(digits as int),
        k + digits <= -400,
    ensures
        !reaches(n, k, 1),
{
    let j = -k - digits;
    lemma_far(j);
    lemma_ten_adds(digits as int, j);
    lemma_ten(digits as int);
    lemma_pow2_strictly_increases(1075, 1197);
    lemma_pow2_unfold(1075);
    lemma_pow2_pos(1074);
    let o = one();
    let d = ten(digits as int);
    let t = ten(j);
    assert(ten(k) == 1);
    assert(n * (2 * o) * 1 <= d * (2 * o)) by (nonlinear_arith)
        requires
            n < d,
            o > 0,
    ;
    assert(d * (2 * o) < d * t) by (nonlinear_arith)
        requires
            2 * o < t,
            d > 0,
    ;
    assert(magnitude(0) == 0 && magnitude(1) == 1);
    assert(ten(-k) == d * t);
    assert(midway(1, k) == 1 * ten(-k));
}

/// Whether the value whose measure is given reaches the pattern `b`.
fn value_reaches(twice: &Natural, b: u64, tens: u128, Ghost(n): Ghost<nat>, Ghost(k): Ghost<int>)
    -> (r: bool)
    requires
        twice@ == doubled(n, k),
        tens == (if k < 0 {
            -k
        } else {
            0
        }),
        0 < b <= INFINITE,
    ensures
        r == reaches(n, k, b as nat),
{
    let mut mid = middle_of(b);
    mid.raise(10, tens);
    proof {
        lemma_ten(-k);
        lemma_ten(0);
        lemma_pow0(10);
        assert(pow(10, tens as nat) == ten(-k));
    }
    match twice.order(&mid) {
        text::Sorted::Before => false,
        text::Sorted::Same => b % 2 == 0,
        text::Sorted::After => true,
    }
}

/// The pattern of the double nearest to the value whose measure is given.
fn search(twice: &Natural, tens: u128, Ghost(n): Ghost<nat>, Ghost(k): Ghost<int>) -> (b: u64)
    requires
        twice@ == doubled(n, k),
        tens == (if k < 0 {
            -k
        } else {
            0
        }),
    ensures
        b == nearest(n, k),
{
    let mut low: u64 = 0;
    let mut high: u64 = INFINITE + 1;
    while high - low > 1
        invariant
            low < high <= INFINITE + 1,
            reaches(n, k, low as nat),
            high == INFINITE + 1 || !reaches(n, k, high as nat),
            twice@ == doubled(n, k),
            tens == (if k < 0 {
                -k
            } else {
                0
            }),
        decreases high - low,
    {
        let middle: u64 = low + (high - low) / 2;
        if value_reaches(twice, middle, tens, Ghost(n), Ghost(k)) {
            low = middle;
        } else {
            high = middle;
        }
    }
    proof {
        lemma_nearest_is_one(n, k, low as nat);
    }
    low
}

/// Beyond this, the exact exponent does not matter.
const FAR: u128 = 1_000_000_000_000_000_000_000_000_000_000;

/// The number that digits spell, or [`FAR`] where it is at least that.
fn bounded_number(digits: &Vec<char>) -> (r: u128)
    requires
        forall|j: int| 0 <= j < digits@.len() ==> text::is_digit(#[trigger] digits@[j]),
    ensures
        r == (if text::number(digits@, 10) < FAR {
            text::number(digits@, 10)
        } else {
            FAR as nat
        }),
{
    let mut r: u128 = 0;
    let mut i: usize = 0;
    while i < digits.len()
        invariant
            i <= digits@.len(),
            forall|j: int| 0 <= j < digits@.len() ==> text::is_digit(#[trigger] digits@[j]),
            r == (if text::number(digits@.take(i as int), 10) < FAR {
                text::number(digits@.take(i as int), 10)
            } else {
                FAR as nat
            }),
        decreases digits@.len() - i,
    {
        let d: u32 = text::to_digit_value(digits[i]);
        assert(digits@.take(i + 1).drop_last() =~= digits@.take(i as int));
        assert(digits@.take(i + 1).last() == digits@[i as int]);
        let next: u128 = r * 10 + d as u128;
        r = if next < FAR {
            next
        } else {
            FAR
        };
        i = i + 1;
    }
    assert(digits@.take(i as int) =~= digits@);
    r
}

/// The number that digits spell.
fn whole_number(digits: &Vec<char>) -> (r: Natural)
    requires
        forall|j: int| 0 <= j < digits@.len() ==> text::is_digit(#[trigger] digits@[j]),
    ensures
        r@ == text::number(digits@, 10),
{
    let mut r = Natural::new(0);
    let mut i: usize = 0;
    while i < digits.len()
        invariant
            i <= digits@.len(),
            forall|j: int| 0 <= j < digits@.len() ==> text::is_digit(#[trigger] digits@[j]),
            r@ == text::number(digits@.take(i as int), 10),
        decreases digits@.len() - i,
    {
        let d: u32 = text::to_digit_value(digits[i]);
        assert(digits@.take(i + 1).drop_last() =~= digits@.take(i as int));
        assert(digits@.take(i + 1).last() == digits@[i as int]);
        r.grow(10, d);
        i = i + 1;
    }
    assert(digits@.take(i as int) =~= digits@);
    r
}

/// The pattern of the double that a decimal literal is read as.
pub fn read_double(literal: &str) -> (bits: u64)
    ensures
        bits == double_of(literal@),
        bits <= INFINITE,
{
    let v = text::chars_of(literal);
    let n: usize = v.len();
    let mut m: usize = 0;
    while m < n && !(v[m] == 'e' || v[m] == 'E')
        invariant
            n == v@.len(),
            m <= n,
            mark_from(v@, 0) == mark_from(v@, m as int),
        decreases n - m,
    {
        m = m + 1;
    }
    assert(v@.subrange(0, m as int) =~= v@.take(m as int));
    let (digits, behind) = collect_digits(&v, 0, m);
    let mut power: u128 = 0;
    let mut negative = false;
    if m < n {
        negative = m + 1 < n && v[m + 1] == '-';
        let (exponent, _) = collect_digits(&v, m + 1, n);
        assert(v@.subrange(m + 1, n as int) =~= v@.skip(m + 1));
        power = bounded_number(&exponent);
    }
    let ghost value = significand(v@);
    let ghost k = scale(v@);
    let mut number = whole_number(&digits);
    let zero = Natural::new(0);
    if matches!(number.order(&zero), text::Sorted::Same) {
        proof {
            lemma_zero_value(k);
        }
        return 0;
    }
    let near: i128 = (if negative {
        -(power as i128)
    } else {
        power as i128
    }) - (behind as i128);
    // Where the exponent is beyond `FAR`, `near` is on the same side of every bound below.
    if near >= 400 {
        proof {
            lemma_too_large(value, k, INFINITE as nat);
            lemma_nearest_is_one(value, k, INFINITE as nat);
        }
        return INFINITE;
    }
    if near + (digits.len() as i128) <= -400 {
        proof {
            lemma_number_bound(digits@);
            lemma_too_small(value, digits@.len(), k);
            lemma_nearest_is_one(value, k, 0);
        }
        return 0;
    }
    assert(near == k);
    let tens: u128 = if near < 0 {
        (-near) as u128
    } else {
        0
    };
    number.raise(2, 1075);
    number.raise(
        10,
        if near > 0 {
            near as u128
        } else {
            0
        },
    );
    proof {
        lemma_pow2(1075);
        lemma_pow2_unfold(1075);
        lemma_ten(0);
        lemma_ten(k);
        lemma_pow0(10);
        lemma_nearest_exists(value, k);
    }
    search(&number, tens, Ghost(value), Ghost(k))
}

proof fn lemma_zero_value(k: int)
    ensures
        nearest(0, k) == 0,
{
    lemma_ten(-k);
    assert(magnitude(0) == 0 && magnitude(1) == 1);
    assert(0 * (2 * one()) * ten(k) == 0) by (nonlinear_arith);
    assert(midway(1, k) == 1 * ten(-k));
    lemma_nearest_is_one(0, k, 0);
}

// ---- the shortest decimal ----------------------------------------------------------------------

/// How far `n * 10^e` is from what the pattern `b` denotes, for an exponent of at least -1074,
/// counted in a fixed unit.
pub open spec fn distance(b: nat, n: nat, e: int) -> int {
    let d = n * ten(e + 1074) - magnitude(b) * pow(5, 1074);
    if d < 0 {
        -d
    } else {
        d
    }
}

/// Whether `m * 10^e` is what a double is shown as: it is read as that double, no decimal with
/// a higher exponent is, and of those with the same exponent it is the closest; of two that
/// are as close, the larger.
pub open spec fn is_shortest(b: nat, m: nat, e: int) -> bool {
    &&& e >= -1074
    &&& rounds_to(m, e, b)
    &&& forall|n: nat, k: int| k > e ==> !#[trigger] rounds_to(n, k, b)
    &&& forall|n: nat| #[trigger]
        rounds_to(n, e, b) ==> distance(b, m, e) < distance(b, n, e) || (distance(b, m, e)
            == distance(b, n, e) && n <= m)
}

/// The decimal `m * 10^e` that the double with the unsigned pattern `b` is shown as.
pub open spec fn shortest(b: nat) -> (nat, int) {
    choose|r: (nat, int)| is_shortest(b, r.0, r.1)
}

proof fn lemma_shortest_is_one(b: nat, m: nat, e: int)
    requires
        is_shortest(b, m, e),
    ensures
        shortest(b) == (m, e),
{
    let r = (m, e);
    assert(is_shortest(b, r.0, r.1));
    let (n, k) = shortest(b);
    assert(is_shortest(b, n, k));
    if k > e {
        assert(!rounds_to(n, k, b));
    } else if e > k {
        assert(!rounds_to(m, e, b));
    }
}

/// The measure of the search for the exponent `400 - j`.
spec fn measure(j: nat) -> nat {
    (pow(5, 1074) * ten(j as int)) as nat
}

/// One at the current exponent, in that measure.
spec fn unit() -> nat {
    2 * ten(1474)
}

proof fn lemma_ten_is_two_fives(n: nat)
    ensures
        ten(n as int) == pow2(n) * pow(5, n),
{
    lemma_pow_distributes(2, 5, n);
    lemma_pow2(n);
    lemma_pow_positive(10, n);
}

/// Both sides of [`reaches`] in the measure of the search.
proof fn lemma_measured(n: nat, b: nat, j: nat)
    requires
        b >= 1,
        j <= 1474,
    ensures
        measure(j) > 0,
        ({
            let left = n * unit();
            let right = ((magnitude((b - 1) as nat) + magnitude(b)) as nat) * measure(j);
            reaches(n, 400 - j, b) == (left > right || (left == right && b % 2 == 0))
        }),
{
    let e = 400 - j;
    let m = (magnitude((b - 1) as nat) + magnitude(b)) as nat;
    let five = pow(5, 1074) as nat;
    let o = one();
    lemma_pow_positive(5, 1074);
    lemma_ten(j as int);
    lemma_ten(0);
    assert(five * ten(j as int) > 0) by (nonlinear_arith)
        requires
            five > 0,
            ten(j as int) > 0,
    ;
    lemma_ten_is_two_fives(1074);
    if e >= 0 {
        lemma_ten_adds(1074, 400);
        lemma_ten_adds(e, j as int);
        lemma_ten(e);
        let t = ten(e);
        let u = ten(j as int);
        let c = measure(j);
        assert(ten(-e) == 1);
        assert((n * (2 * o) * t) * (five * u) == n * (2 * ((o * five) * (t * u))))
            by (nonlinear_arith);
        assert(doubled(n, e) * c == n * unit());
        assert(m * 1 * c == m * c);
        lemma_scaled(doubled(n, e), midway(b, e), c);
    } else {
        let f = ten(400);
        let t = ten(-e);
        lemma_ten(400);
        lemma_ten_adds(1074, 400);
        lemma_ten_adds(400, -e);
        assert(ten(e) == 1);
        let c = five * f;
        assert(c > 0) by (nonlinear_arith)
            requires
                five > 0,
                f > 0,
                c == five * f,
        ;
        assert((n * (2 * o) * 1) * (five * f) == n * (2 * ((o * five) * f))) by (nonlinear_arith);
        assert((m * t) * (five * f) == m * (five * (f * t))) by (nonlinear_arith);
        lemma_scaled(doubled(n, e), midway(b, e), c);
    }
}

proof fn lemma_scaled(a: nat, b: nat, c: nat)
    requires
        c > 0,
    ensures
        a * c > b * c <==> a > b,
        a * c == b * c <==> a == b,
{
    assert(a > b ==> a * c > b * c) by (nonlinear_arith)
        requires
            c > 0,
    ;
    assert(a < b ==> a * c < b * c) by (nonlinear_arith)
        requires
            c > 0,
    ;
}

/// The distance in the measure of the search.
proof fn lemma_distance(b: nat, n: nat, j: nat)
    requires
        j <= 1474,
    ensures
        ({
            let d = n * unit() - 2 * (magnitude(b) * measure(j));
            distance(b, n, 400 - j) * (2 * ten(j as int)) == (if d < 0 {
                -d
            } else {
                d
            })
        }),
        ten(j as int) > 0,
{
    let t = ten(1474 - j);
    let u = ten(j as int);
    let five = pow(5, 1074) as nat;
    let m = magnitude(b);
    lemma_ten(j as int);
    lemma_pow_positive(5, 1074);
    lemma_ten_adds(1474 - j, j as int);
    assert((n * t) * (2 * u) == n * (2 * (t * u))) by (nonlinear_arith);
    assert((m * five) * (2 * u) == 2 * (m * (five * u))) by (nonlinear_arith);
    let a = n * t;
    let c = m * five;
    assert((a - c) * (2 * u) == a * (2 * u) - c * (2 * u)) by (nonlinear_arith);
    assert((c - a) * (2 * u) == c * (2 * u) - a * (2 * u)) by (nonlinear_arith);
    if a - c < 0 {
        assert((a - c) * (2 * u) < 0) by (nonlinear_arith)
            requires
                a - c < 0,
                u > 0,
        ;
    } else {
        assert((a - c) * (2 * u) >= 0) by (nonlinear_arith)
            requires
                a - c >= 0,
                u > 0,
        ;
    }
}

/// The state of the search at the exponent `400 - j`: `m` is what the double denotes, rounded
/// down at that exponent, and the rest is below one unit.
spec fn is_state(b: nat, j: nat, m: nat, rest: nat, below: nat, above: nat) -> bool {
    &&& 0 < b < INFINITE
    &&& j <= 1474
    &&& 2 * (magnitude(b) * measure(j)) == m * unit() + rest
    &&& rest < unit()
    &&& below == (magnitude(b) - magnitude((b - 1) as nat)) * measure(j)
    &&& above == (magnitude(b + 1) - magnitude(b)) * measure(j)
    &&& forall|n: nat, k: int| k > 400 - j ==> !#[trigger] rounds_to(n, k, b)
}

/// Whether rounding down, and whether rounding up, is read as the double.
proof fn lemma_sides(b: nat, j: nat, m: nat, rest: nat, below: nat, above: nat)
    requires
        is_state(b, j, m, rest, below, above),
    ensures
        rounds_to(m, 400 - j, b) == (rest < below || (rest == below && b % 2 == 0)),
        rounds_to(m + 1, 400 - j, b) == (unit() - rest < above || (unit() - rest == above && b % 2
            == 0)),
        !reaches(m, 400 - j, b + 1),
        reaches(m + 1, 400 - j, b),
        below > 0,
        above > 0,
{
    let c = measure(j);
    let prev = magnitude((b - 1) as nat);
    let cur = magnitude(b);
    let next = magnitude(b + 1);
    double::lemma_magnitude_order((b - 1) as nat, b);
    double::lemma_magnitude_order(b, b + 1);
    lemma_measured(m, b, j);
    lemma_measured(m, b + 1, j);
    lemma_measured(m + 1, b, j);
    lemma_measured(m + 1, b + 1, j);
    assert(((b + 1) - 1) as nat == b);
    assert((prev + cur) * c == 2 * (cur * c) - (cur - prev) * c) by (nonlinear_arith);
    assert((cur + next) * c == 2 * (cur * c) + (next - cur) * c) by (nonlinear_arith);
    assert((m + 1) * unit() == m * unit() + unit()) by (nonlinear_arith);
    assert((cur - prev) * c > 0) by (nonlinear_arith)
        requires
            cur > prev,
            c > 0,
    ;
    assert((next - cur) * c > 0) by (nonlinear_arith)
        requires
            next > cur,
            c > 0,
    ;
}

/// Where neither side is read as the double, no decimal with that exponent is.
proof fn lemma_neither(b: nat, j: nat, m: nat, rest: nat, below: nat, above: nat, n: nat)
    requires
        is_state(b, j, m, rest, below, above),
        !rounds_to(m, 400 - j, b),
        !rounds_to(m + 1, 400 - j, b),
    ensures
        !rounds_to(n, 400 - j, b),
{
    lemma_sides(b, j, m, rest, below, above);
    if rounds_to(n, 400 - j, b) {
        if n <= m {
            lemma_reaches_grows(n, m, 400 - j, b);
        } else {
            lemma_reaches_grows(m + 1, n, 400 - j, b + 1);
        }
    }
}

/// Of the two sides, the closer one that is read as the double is what it is shown as.
proof fn lemma_closest(b: nat, j: nat, m: nat, rest: nat, below: nat, above: nat, up: bool)
    requires
        is_state(b, j, m, rest, below, above),
        rounds_to(m, 400 - j, b) || rounds_to(m + 1, 400 - j, b),
        up == (rounds_to(m + 1, 400 - j, b) && (!rounds_to(m, 400 - j, b) || unit() - rest
            <= rest)),
    ensures
        is_shortest(
            b,
            if up {
                m + 1
            } else {
                m
            },
            400 - j,
        ),
{
    let e = 400 - j;
    let r = if up {
        m + 1
    } else {
        m
    };
    let u = unit();
    lemma_sides(b, j, m, rest, below, above);
    lemma_distance(b, r, j);
    assert((m + 1) * u == m * u + u) by (nonlinear_arith);
    assert forall|n: nat| #[trigger] rounds_to(n, e, b) implies distance(b, r, e) < distance(
        b,
        n,
        e,
    ) || (distance(b, r, e) == distance(b, n, e) && n <= r) by {
        lemma_distance(b, n, j);
        let w = (2 * ten(j as int)) as int;
        let x = distance(b, r, e);
        let y = distance(b, n, e);
        if n < m {
            assert(n * u + u <= m * u) by (nonlinear_arith)
                requires
                    n + 1 <= m,
            ;
        } else if n > m + 1 {
            assert((m + 1) * u + u <= n * u) by (nonlinear_arith)
                requires
                    m + 2 <= n,
            ;
        }
        assert(x * w < y * w ==> x < y) by (nonlinear_arith)
            requires
                w > 0,
        ;
        assert(x * w == y * w ==> x == y) by (nonlinear_arith)
            requires
                w > 0,
        ;
        // Beyond the other side the distance grows by a unit.
        if n < m {
            lemma_reaches_grows(n, m, e, b);
            assert(rounds_to(m, e, b));
        } else if n > m + 1 {
            if reaches(m + 1, e, b + 1) {
                lemma_reaches_grows(m + 1, n, e, b + 1);
            }
            assert(rounds_to(m + 1, e, b));
        }
    }
}

/// Every decimal with a large exponent is read as another double.
proof fn lemma_none_above(b: nat)
    requires
        0 < b < INFINITE,
    ensures
        forall|n: nat, k: int| k > 400 ==> !#[trigger] rounds_to(n, k, b),
{
    assert forall|n: nat, k: int| k > 400 implies !#[trigger] rounds_to(n, k, b) by {
        if n == 0 {
            lemma_zero_value(k);
            if rounds_to(n, k, b) {
                lemma_nearest_is_one(0, k, b);
            }
        } else {
            lemma_too_large(n, k, b + 1);
        }
    }
}

proof fn lemma_first_state(b: nat)
    requires
        0 < b < INFINITE,
    ensures
        measure(0) == pow(5, 1074),
        is_state(
            b,
            0,
            0,
            (2 * (magnitude(b) * measure(0))) as nat,
            ((magnitude(b) - magnitude((b - 1) as nat)) * measure(0)) as nat,
            ((magnitude(b + 1) - magnitude(b)) * measure(0)) as nat,
        ),
{
    lemma_none_above(b);
    lemma_ten(0);
    lemma_pow_positive(5, 1074);
    let five = pow(5, 1074) as nat;
    assert(five * 1 == five);
    lemma_infinite();
    double::lemma_magnitude_order(b, INFINITE as nat);
    double::lemma_magnitude_order((b - 1) as nat, b);
    double::lemma_magnitude_order(b, b + 1);
    lemma_far(400);
    lemma_ten_adds(1074, 400);
    lemma_ten_is_two_fives(1074);
    lemma_pow2_adds(1074, 1024);
    lemma_pow2_strictly_increases(1024, 1197);
    let m = magnitude(b);
    let t = ten(400);
    let o = pow2(1074);
    lemma_pow2_pos(1074);
    assert(m * five < (o * pow2(1024)) * five) by (nonlinear_arith)
        requires
            m < o * pow2(1024),
            five > 0,
    ;
    assert((o * pow2(1024)) * five == (o * five) * pow2(1024)) by (nonlinear_arith);
    assert((o * five) * pow2(1024) <= (o * five) * t) by (nonlinear_arith)
        requires
            pow2(1024) <= t,
            o > 0,
            five > 0,
    ;
    assert(0 * unit() == 0);
    assert((m - magnitude((b - 1) as nat)) * five >= 0) by (nonlinear_arith)
        requires
            m >= magnitude((b - 1) as nat),
            five > 0,
    ;
    assert((magnitude(b + 1) - m) * five >= 0) by (nonlinear_arith)
        requires
            m <= magnitude(b + 1),
            five > 0,
    ;
}

/// One exponent further down.
proof fn lemma_next_state(
    b: nat,
    j: nat,
    m: nat,
    rest: nat,
    below: nat,
    above: nat,
    digit: nat,
    left: nat,
)
    requires
        is_state(b, j, m, rest, below, above),
        j < 1474,
        !rounds_to(m, 400 - j, b),
        !rounds_to(m + 1, 400 - j, b),
        rest * 10 == digit * unit() + left,
        left < unit(),
    ensures
        is_state(b, j + 1, m * 10 + digit, left, below * 10, above * 10),
{
    let c = measure(j);
    let five = pow(5, 1074) as nat;
    let t = ten(j as int);
    let u = unit();
    let cur = magnitude(b);
    lemma_ten(j as int);
    lemma_pow_positive(5, 1074);
    assert(five * (10 * t) == (five * t) * 10) by (nonlinear_arith);
    assert(measure(j + 1) == c * 10);
    assert(2 * (cur * (c * 10)) == (2 * (cur * c)) * 10) by (nonlinear_arith);
    assert((m * u + rest) * 10 == (m * 10) * u + rest * 10) by (nonlinear_arith);
    assert((m * 10 + digit) * u == (m * 10) * u + digit * u) by (nonlinear_arith);
    let lo = cur - magnitude((b - 1) as nat);
    let hi = magnitude(b + 1) - cur;
    assert(lo * (c * 10) == (lo * c) * 10) by (nonlinear_arith);
    assert(hi * (c * 10) == (hi * c) * 10) by (nonlinear_arith);
    assert forall|n: nat, k: int| k > 400 - (j + 1) implies !#[trigger] rounds_to(n, k, b) by {
        if k == 400 - j {
            lemma_neither(b, j, m, rest, below, above, n);
        }
    }
}

/// At the last exponent nothing is left over.
proof fn lemma_last_state(b: nat, m: nat, rest: nat, below: nat, above: nat)
    requires
        is_state(b, 1474, m, rest, below, above),
    ensures
        rest == 0,
{
    let five = pow(5, 1074) as nat;
    lemma_pow_positive(5, 1074);
    let q = magnitude(b) * five;
    let u = unit();
    let t = ten(1474);
    assert(2 * (magnitude(b) * (five * t)) == (magnitude(b) * five) * (2 * t)) by (nonlinear_arith);
    assert(q * u == m * u + rest);
    if q > m {
        assert(q * u >= m * u + u) by (nonlinear_arith)
            requires
                q >= m + 1,
        ;
    } else if q < m {
        assert(q * u + u <= m * u) by (nonlinear_arith)
            requires
                q + 1 <= m,
        ;
    }
}

/// The digits of `m`; none where it is zero.
spec fn digits_or_none(m: nat) -> Seq<char> {
    if m == 0 {
        seq![]
    } else {
        text::decimal(m)
    }
}

fn is_less(a: &Natural, b: &Natural, or_same: bool) -> (r: bool)
    ensures
        r == (a@ < b@ || (a@ == b@ && or_same)),
{
    match a.order(b) {
        text::Sorted::Before => true,
        text::Sorted::Same => or_same,
        text::Sorted::After => false,
    }
}

/// The digits and the exponent of the decimal that a double is shown as.
fn shortest_digits(b: u64) -> (r: (Vec<char>, i64))
    requires
        0 < b < INFINITE,
    ensures
        r.0@ == text::decimal(shortest(b as nat).0),
        r.1 == shortest(b as nat).1,
        -1074 <= r.1 <= 400,
        r.0@.len() <= 1475,
        shortest(b as nat).0 > 0,
        rounds_to(shortest(b as nat).0, shortest(b as nat).1, b as nat),
{
    let even = b % 2 == 0;
    let current = magnitude_of(b);
    let mut below = current.copy();
    let mut above = magnitude_of(b + 1);
    proof {
        double::lemma_magnitude_order((b - 1) as nat, b as nat);
        double::lemma_magnitude_order(b as nat, b as nat + 1);
        lemma_first_state(b as nat);
    }
    below.minus(&magnitude_of(b - 1));
    above.minus(&current);
    below.raise(5, 1074);
    above.raise(5, 1074);
    let mut rest = current;
    rest.raise(5, 1074);
    rest.grow(2, 0);
    let mut one_unit = Natural::new(2);
    one_unit.raise(10, 1474);
    assert(one_unit@ == unit()) by {
        lemma_ten(1474);
    }
    let mut digits: Vec<char> = Vec::new();
    let ghost mut m: nat = 0;
    let mut j: u64 = 0;
    loop
        invariant
            even == (b % 2 == 0),
            one_unit@ == unit(),
            is_state(b as nat, j as nat, m, rest@, below@, above@),
            digits@ == digits_or_none(m),
            digits@.len() <= j,
        decreases 1474 - j,
    {
        let mut gap = one_unit.copy();
        gap.minus(&rest);
        let down_ok = is_less(&rest, &below, even);
        let up_ok = is_less(&gap, &above, even);
        proof {
            lemma_sides(b as nat, j as nat, m, rest@, below@, above@);
        }
        if down_ok || up_ok {
            let up = up_ok && (!down_ok || is_less(&gap, &rest, true));
            proof {
                lemma_closest(b as nat, j as nat, m, rest@, below@, above@, up);
                let n: nat = if up {
                    m + 1
                } else {
                    m
                };
                lemma_shortest_is_one(b as nat, n, 400 - j);
                if n == 0 {
                    lemma_zero_value(400 - j);
                    lemma_nearest_is_one(0, 400 - j, b as nat);
                }
                if n % 10 == 0 {
                    lemma_rounds_shift(n / 10, 400 - j, 1, b as nat);
                    lemma_ten(0);
                    assert(ten(1nat as int) == 10);
                    assert((n / 10) * 10 == n);
                    assert(rounds_to((n / 10) as nat * ten(1nat as int), 400 - j, b as nat));
                    assert(!rounds_to((n / 10) as nat, 400 - j + 1, b as nat));
                }
            }
            if up {
                match digits.pop() {
                    Some(last) => {
                        let d: u32 = text::to_digit_value(last);
                        assert(d == m % 10) by {
                            lemma_last_digit(m);
                        }
                        assert(m > 0);
                        assert((m + 1) % 10 == d + 1);
                        let raised: u8 = 49 + d as u8;
                        digits.push(raised as char);
                        proof {
                            lemma_last_digit(m);
                            assert(raised as char == text::digit_char((m + 1) as nat % 10));
                            assert(digits@ =~= text::decimal(m).drop_last().push(
                                text::digit_char((m + 1) as nat % 10),
                            ));
                        }
                    },
                    None => {
                        digits.push('1');
                        assert(digits@ =~= text::decimal(1));
                    },
                }
            }
            return (digits, 400 - j as i64);
        }
        proof {
            if j == 1474 {
                lemma_last_state(b as nat, m, rest@, below@, above@);
            }
        }
        let ghost before = rest@;
        rest.grow(10, 0);
        let mut d: u8 = 0;
        while !is_less(&rest, &one_unit, false)
            invariant
                one_unit@ == unit(),
                before * 10 == d * unit() + rest@,
                before < unit(),
                d <= 9,
            decreases rest@,
        {
            proof {
                lemma_ten(1474);
                if d == 9 {
                    assert(before * 10 < 10 * unit());
                }
                assert((d + 1) * unit() == d * unit() + unit()) by (nonlinear_arith);
            }
            rest.minus(&one_unit);
            d = d + 1;
        }
        proof {
            lemma_next_state(
                b as nat,
                j as nat,
                m,
                before,
                below@,
                above@,
                d as nat,
                rest@,
            );
        }
        below.grow(10, 0);
        above.grow(10, 0);
        if digits.len() > 0 || d > 0 {
            digits.push((48 + d) as char);
        }
        proof {
            let next = (m * 10 + d) as nat;
            if next >= 10 {
                assert(next / 10 == m && next % 10 == d);
                lemma_last_digit(m);
            }
            assert(digits@ =~= digits_or_none(next));
            m = next;
        }
        j = j + 1;
    }
}

proof fn lemma_last_digit(m: nat)
    ensures
        text::decimal(m).len() > 0,
        text::decimal(m).last() == text::digit_char(m % 10),
        text::is_digit(text::digit_char(m % 10)),
        text::digit_value(text::digit_char(m % 10)) == m % 10,
        m % 10 < 9 ==> text::decimal(m + 1) == text::decimal(m).drop_last().push(
            text::digit_char((m + 1) as nat % 10),
        ),
{
    let d = m % 10;
    assert(((48 + d) as u32) as char as u32 == 48 + d);
    if m >= 10 {
        assert(text::decimal(m).drop_last() =~= text::decimal(m / 10));
        if d < 9 {
            assert((m + 1) / 10 == m / 10);
        }
    } else {
        assert(text::decimal(m).drop_last() =~= seq![]);
        if d < 9 {
            assert(text::decimal(m + 1) =~= seq![text::digit_char((m + 1) as nat % 10)]);
            assert(text::decimal(m).drop_last().push(text::digit_char((m
                + 1) as nat % 10)) =~= seq![
                text::digit_char((m + 1) as nat % 10),
            ]);
        }
    }
}

// ---- how a double is shown --------------------------------------------------------------------

pub open spec fn zeros(n: nat) -> Seq<char> {
    Seq::new(n, |i: int| '0')
}

/// `m * 10^e` without an exponent, and without a point where it is whole.
pub open spec fn plain(m: nat, e: int) -> Seq<char> {
    let d = text::decimal(m);
    let whole = d.len() + e;
    if e >= 0 {
        d + zeros(e as nat)
    } else if whole > 0 {
        d.take(whole) + seq!['.'] + d.skip(whole)
    } else {
        seq!['0', '.'] + zeros((-whole) as nat) + d
    }
}

/// `m * 10^e` with one digit in front of the point, and an exponent.
pub open spec fn with_exponent(m: nat, e: int) -> Seq<char> {
    let d = text::decimal(m);
    d.take(1) + (if d.len() > 1 {
        seq!['.'] + d.skip(1)
    } else {
        seq![]
    }) + seq!['e'] + text::signed_decimal(d.len() + e - 1)
}

/// A double as diagnostics show it: the shortest decimal that is read as it, with an exponent
/// where it is below `1e-4` or at least `1e16`, and with a point in any case.
pub open spec fn shown(bits: u64) -> Seq<char> {
    let b = unsigned_part(bits);
    let (m, e) = shortest(b);
    let size = text::decimal(m).len() + e;
    if double::is_nan(bits) {
        "NaN"@
    } else {
        (if double::is_negative(bits) {
            seq!['-']
        } else {
            seq![]
        }) + (if b == INFINITE {
            "inf"@
        } else if b == 0 {
            "0.0"@
        } else if size < -3 || size > 16 {
            with_exponent(m, e)
        } else if e >= 0 {
            plain(m, e) + seq!['.', '0']
        } else {
            plain(m, e)
        })
    }
}

/// The literal for the double with the pattern `b`, which is not negative: the shortest
/// decimal that is read as it. One that would be read as an integer gets a point; infinity is
/// written as a value beyond every double.
pub open spec fn literal_text(b: u64) -> Seq<char> {
    let (m, e) = shortest(b as nat);
    if b >= INFINITE {
        "1e999"@
    } else if b == 0 {
        "0.0"@
    } else if e >= 0 && text::number(plain(m, e), 10) <= i64::MAX {
        plain(m, e) + seq!['.', '0']
    } else {
        plain(m, e)
    }
}

fn push_zeros(s: &mut Vec<char>, n: u64)
    ensures
        final(s)@ == old(s)@ + zeros(n as nat),
{
    let mut i: u64 = 0;
    assert(s@ =~= old(s)@ + zeros(0));
    while i < n
        invariant
            i <= n,
            s@ == old(s)@ + zeros(i as nat),
        decreases n - i,
    {
        s.push('0');
        i = i + 1;
        assert(s@ =~= old(s)@ + zeros(i as nat));
    }
}

fn push_range(s: &mut Vec<char>, v: &Vec<char>, from: usize, to: usize)
    requires
        from <= to <= v@.len(),
    ensures
        final(s)@ == old(s)@ + v@.subrange(from as int, to as int),
{
    let mut i: usize = from;
    assert(s@ =~= old(s)@ + v@.subrange(from as int, from as int));
    while i < to
        invariant
            from <= i <= to <= v@.len(),
            s@ == old(s)@ + v@.subrange(from as int, i as int),
        decreases to - i,
    {
        s.push(v[i]);
        i = i + 1;
        assert(s@ =~= old(s)@ + v@.subrange(from as int, i as int));
    }
}

fn plain_chars(digits: &Vec<char>, e: i64, Ghost(m): Ghost<nat>) -> (r: Vec<char>)
    requires
        digits@ == text::decimal(m),
        -1074 <= e <= 400,
    ensures
        r@ == plain(m, e as int),
{
    let n: usize = digits.len();
    let mut r: Vec<char> = Vec::new();
    assert(digits@.subrange(0, n as int) =~= digits@);
    if e >= 0 {
        push_range(&mut r, digits, 0, n);
        push_zeros(&mut r, e as u64);
        assert(r@ =~= plain(m, e as int));
        return r;
    }
    let behind: usize = (-e) as usize;
    if n > behind {
        push_range(&mut r, digits, 0, n - behind);
        r.push('.');
        push_range(&mut r, digits, n - behind, n);
        assert(r@ =~= plain(m, e as int));
    } else {
        r.push('0');
        r.push('.');
        push_zeros(&mut r, (behind - n) as u64);
        push_range(&mut r, digits, 0, n);
        assert(r@ =~= plain(m, e as int));
    }
    r
}

/// A double as diagnostics show it.
pub fn show_double(bits: u64) -> (s: String)
    ensures
        s@ == shown(bits),
{
    let b: u64 = bits % 0x8000_0000_0000_0000;
    if b > INFINITE {
        return "NaN".to_owned();
    }
    let mut s = String::new();
    if bits >= 0x8000_0000_0000_0000 {
        s.push('-');
    }
    assert(s@ =~= (if double::is_negative(bits) {
        seq!['-']
    } else {
        seq![]
    }));
    if b == INFINITE {
        s.append("inf");
        return s;
    }
    if b == 0 {
        s.append("0.0");
        return s;
    }
    let (digits, e) = shortest_digits(b);
    let ghost (m, k) = shortest(b as nat);
    let n: usize = digits.len();
    proof {
        lemma_last_digit(m);
    }
    let size: i64 = n as i64 + e;
    let mut r: Vec<char> = Vec::new();
    if size < -3 || size > 16 {
        push_range(&mut r, &digits, 0, 1);
        if n > 1 {
            r.push('.');
            push_range(&mut r, &digits, 1, n);
        }
        r.push('e');
        let ghost front = r@;
        assert(front =~= digits@.take(1) + (if digits@.len() > 1 {
            seq!['.'] + digits@.skip(1)
        } else {
            seq![]
        }) + seq!['e']);
        s.append(text::text_of(&r, 0, r.len()).as_str());
        assert(r@.subrange(0, r@.len() as int) =~= r@);
        s.append(text::signed_to_text(size - 1).as_str());
        assert(s@ =~= shown(bits));
    } else {
        r = plain_chars(&digits, e, Ghost(m));
        if e >= 0 {
            r.push('.');
            r.push('0');
        }
        s.append(text::text_of(&r, 0, r.len()).as_str());
        assert(r@.subrange(0, r@.len() as int) =~= r@);
        assert(s@ =~= shown(bits));
    }
    s
}

/// The literal for a double that is not negative.
pub fn print_double(b: u64) -> (s: String)
    ensures
        s@ == literal_text(b),
{
    if b >= INFINITE {
        return "1e999".to_owned();
    }
    if b == 0 {
        return "0.0".to_owned();
    }
    let (digits, e) = shortest_digits(b);
    let ghost (m, k) = shortest(b as nat);
    let mut r = plain_chars(&digits, e, Ghost(m));
    assert(r@.subrange(0, r@.len() as int) =~= r@);
    if e >= 0 {
        proof {
            lemma_plain_digits(m, e as int);
        }
        match text::parse_number(&r, 0, r.len(), 10) {
            Some(n) => {
                if n <= 0x7fff_ffff_ffff_ffff {
                    r.push('.');
                    r.push('0');
                }
            },
            None => {},
        }
    }
    let s = text::text_of(&r, 0, r.len());
    assert(r@.subrange(0, r@.len() as int) =~= r@);
    assert(s@ =~= literal_text(b));
    s
}

proof fn lemma_decimal_digits(m: nat)
    ensures
        forall|j: int| 0 <= j < text::decimal(m).len() ==> text::is_digit(
            #[trigger] text::decimal(m)[j],
        ),
        text::number(text::decimal(m), 10) == m,
        text::decimal(m).len() > 0,
    decreases m,
{
    lemma_last_digit(m);
    let d = text::decimal(m);
    if m >= 10 {
        lemma_decimal_digits(m / 10);
        assert(d.drop_last() =~= text::decimal(m / 10));
        assert forall|j: int| 0 <= j < d.len() implies text::is_digit(#[trigger] d[j]) by {
            if j < d.len() - 1 {
                assert(d[j] == text::decimal(m / 10)[j]);
            }
        }
    } else {
        assert(d.drop_last() =~= seq![]);
        assert(text::number(d.drop_last(), 10) == 0);
    }
}

proof fn lemma_plain_digits(m: nat, e: int)
    requires
        e >= 0,
    ensures
        forall|j: int| 0 <= j < plain(m, e).len() ==> text::is_digit(#[trigger] plain(m, e)[j]),
        text::number(plain(m, e), 10) == m * ten(e),
    decreases e,
{
    lemma_decimal_digits(m);
    lemma_ten(0);
    let p = plain(m, e);
    if e == 0 {
        assert(p =~= text::decimal(m));
        assert(m * 1 == m);
    } else {
        lemma_plain_digits(m, e - 1);
        lemma_ten(e - 1);
        assert(p.drop_last() =~= plain(m, e - 1));
        assert(p.last() == '0');
        assert forall|j: int| 0 <= j < p.len() implies text::is_digit(#[trigger] p[j]) by {
            if j < p.len() - 1 {
                assert(p[j] == plain(m, e - 1)[j]);
            }
        }
        let t = ten(e - 1);
        assert((m * t) * 10 == m * (10 * t)) by (nonlinear_arith);
    }
}

// ---- reading what is printed ------------------------------------------------------------------

pub open spec fn all_digits(s: Seq<char>) -> bool {
    forall|j: int| 0 <= j < s.len() ==> text::is_digit(#[trigger] s[j])
}

proof fn lemma_no_mark(s: Seq<char>, i: int)
    requires
        0 <= i <= s.len(),
        forall|j: int| 0 <= j < s.len() ==> text::is_digit(#[trigger] s[j]) || s[j] == '.',
    ensures
        mark_from(s, i) == s.len(),
    decreases s.len() - i,
{
    if i < s.len() {
        assert(text::is_digit(s[i]) || s[i] == '.');
        lemma_no_mark(s, i + 1);
    }
}

proof fn lemma_digits_alone(a: Seq<char>)
    requires
        all_digits(a),
    ensures
        digits_of(a) == a,
        places(a) == 0,
    decreases a.len(),
{
    assert(!a.contains('.'));
    if a.len() > 0 {
        assert forall|j: int| 0 <= j < a.drop_last().len() implies text::is_digit(
            #[trigger] a.drop_last()[j],
        ) by {
            assert(a[j] == a.drop_last()[j]);
        }
        lemma_digits_alone(a.drop_last());
        assert(text::is_digit(a[a.len() - 1]));
        assert(a.drop_last().push(a.last()) =~= a);
    } else {
        assert(a =~= seq![]);
    }
}

proof fn lemma_pointed(a: Seq<char>, c: Seq<char>)
    requires
        all_digits(a),
        all_digits(c),
    ensures
        digits_of(a + seq!['.'] + c) == a + c,
        places(a + seq!['.'] + c) == c.len(),
        mark_from(a + seq!['.'] + c, 0) == a.len() + 1 + c.len(),
    decreases c.len(),
{
    let s = a + seq!['.'] + c;
    assert forall|j: int| 0 <= j < s.len() implies text::is_digit(#[trigger] s[j]) || s[j]
        == '.' by {
        if j < a.len() {
            assert(s[j] == a[j]);
        } else if j > a.len() {
            assert(s[j] == c[j - a.len() - 1]);
        }
    }
    lemma_no_mark(s, 0);
    assert(s[a.len() as int] == '.');
    if c.len() == 0 {
        assert(s.drop_last() =~= a);
        assert(s.last() == '.');
        lemma_digits_alone(a);
        assert(a + c =~= a);
    } else {
        let less = c.drop_last();
        assert forall|j: int| 0 <= j < less.len() implies text::is_digit(#[trigger] less[j]) by {
            assert(less[j] == c[j]);
        }
        lemma_pointed(a, less);
        assert(s.drop_last() =~= a + seq!['.'] + less);
        assert(s.last() == c[c.len() - 1]);
        assert((a + less).push(c.last()) =~= a + c);
    }
}

proof fn lemma_zeros_number(n: nat, d: Seq<char>)
    ensures
        text::number(zeros(n) + d, 10) == text::number(d, 10),
    decreases n + d.len(),
{
    let s = zeros(n) + d;
    if d.len() > 0 {
        assert(s.drop_last() =~= zeros(n) + d.drop_last());
        lemma_zeros_number(n, d.drop_last());
    } else if n > 0 {
        assert(s.drop_last() =~= zeros((n - 1) as nat) + d);
        lemma_zeros_number((n - 1) as nat, d);
    } else {
        assert(s =~= d);
    }
}

/// What a text in digits, with a point in it or not, is read as.
proof fn lemma_plain_value(m: nat, e: int)
    ensures
        nearest(significand(plain(m, e)), scale(plain(m, e))) == nearest(m, e),
        e >= 0 ==> nearest(
            significand(plain(m, e) + seq!['.', '0']),
            scale(plain(m, e) + seq!['.', '0']),
        ) == nearest(m, e),
{
    let d = text::decimal(m);
    let p = plain(m, e);
    lemma_decimal_digits(m);
    lemma_ten(0);
    if e >= 0 {
        lemma_plain_digits(m, e);
        lemma_digits_alone(p);
        lemma_no_mark(p, 0);
        assert(p.take(p.len() as int) =~= p);
        lemma_nearest_shift(m, 0, e as nat);
        assert(0 + e as nat == e);
        let q = p + seq!['.', '0'];
        let z = seq!['0'];
        assert(q =~= p + seq!['.'] + z);
        lemma_pointed(p, z);
        assert(q.take(q.len() as int) =~= q);
        assert((p + z).drop_last() =~= p);
        assert((p + z).last() == '0');
        let n = (m * ten(e)) as nat;
        lemma_nearest_shift(n, -1, 1);
        assert(ten(1nat as int) == 10);
        assert(-1 + 1nat as int == 0);
    } else {
        let whole = d.len() + e;
        assert(p.take(p.len() as int) =~= p);
        if whole > 0 {
            let a = d.take(whole);
            let c = d.skip(whole);
            assert(all_digits(a)) by {
                assert forall|j: int| 0 <= j < a.len() implies text::is_digit(#[trigger] a[j]) by {
                    assert(a[j] == d[j]);
                }
            }
            assert(all_digits(c)) by {
                assert forall|j: int| 0 <= j < c.len() implies text::is_digit(#[trigger] c[j]) by {
                    assert(c[j] == d[j + whole]);
                }
            }
            lemma_pointed(a, c);
            assert(a + c =~= d);
        } else {
            let a = seq!['0'];
            let c = zeros((-whole) as nat) + d;
            assert(all_digits(c)) by {
                assert forall|j: int| 0 <= j < c.len() implies text::is_digit(#[trigger] c[j]) by {
                    if j >= -whole {
                        assert(c[j] == d[j + whole]);
                    }
                }
            }
            assert(p =~= a + seq!['.'] + c);
            lemma_pointed(a, c);
            assert(a + c =~= zeros((1 - whole) as nat) + d);
            lemma_zeros_number((1 - whole) as nat, d);
        }
    }
}

/// The literal for a double is read as that double.
pub proof fn law_literal_is_read_back(b: u64)
    requires
        b <= INFINITE,
    ensures
        double_of(literal_text(b)) == b,
{
    let (m, e) = shortest(b as nat);
    if b == INFINITE {
        let s = literal_text(b);
        reveal_strlit("1e999");
        assert(s =~= seq!['1', 'e', '9', '9', '9']);
        reveal_with_fuel(mark_from, 3);
        assert(mark_from(s, 0) == 1);
        let one_digit = s.take(1);
        let power = s.skip(2);
        assert(one_digit =~= seq!['1']);
        assert(power =~= seq!['9', '9', '9']);
        lemma_digits_alone(one_digit);
        lemma_digits_alone(power);
        lemma_small_numbers();
        lemma_too_large(1, 999, INFINITE as nat);
        lemma_nearest_is_one(1, 999, INFINITE as nat);
    } else if b == 0 {
        let s = literal_text(b);
        reveal_strlit("0.0");
        let z = seq!['0'];
        assert(s =~= z + seq!['.'] + z);
        lemma_pointed(z, z);
        assert(s.take(s.len() as int) =~= s);
        assert(z + z =~= zeros(2) + Seq::<char>::empty());
        lemma_zeros_number(2, seq![]);
        lemma_zero_value(-1);
    } else {
        lemma_shortest_exists(b as nat);
        lemma_plain_value(m, e);
        lemma_nearest_is_one(m, e, b as nat);
    }
}

proof fn lemma_small_numbers()
    ensures
        text::number(seq!['1'], 10) == 1,
        text::number(seq!['9', '9', '9'], 10) == 999,
{
    reveal_with_fuel(text::number, 5);
    let a = seq!['9', '9', '9'];
    assert(seq!['1'].drop_last() =~= seq![]);
    assert(a.drop_last() =~= seq!['9', '9']);
    assert(a.drop_last().drop_last() =~= seq!['9']);
    assert(a.drop_last().drop_last().drop_last() =~= seq![]);
}

/// Every finite double but zero has a shortest decimal.
pub proof fn lemma_shortest_exists(b: nat)
    requires
        0 < b < INFINITE,
    ensures
        is_shortest(b, shortest(b).0, shortest(b).1),
        shortest(b).0 > 0,
{
    lemma_first_state(b);
    let r = lemma_shortest_from(
        b,
        0,
        0,
        (2 * (magnitude(b) * measure(0))) as nat,
        ((magnitude(b) - magnitude((b - 1) as nat)) * measure(0)) as nat,
        ((magnitude(b + 1) - magnitude(b)) * measure(0)) as nat,
    );
    assert(is_shortest(b, r.0, r.1));
    let (m, e) = shortest(b);
    if m == 0 {
        lemma_zero_value(e);
        lemma_nearest_is_one(0, e, b);
    }
}

proof fn lemma_shortest_from(b: nat, j: nat, m: nat, rest: nat, below: nat, above: nat) -> (r: (
    nat,
    int,
))
    requires
        is_state(b, j, m, rest, below, above),
    ensures
        is_shortest(b, r.0, r.1),
    decreases 1474 - j,
{
    let e = 400 - j;
    lemma_sides(b, j, m, rest, below, above);
    if rounds_to(m, e, b) || rounds_to(m + 1, e, b) {
        let up = rounds_to(m + 1, e, b) && (!rounds_to(m, e, b) || unit() - rest <= rest);
        lemma_closest(b, j, m, rest, below, above, up);
        if up {
            (m + 1, e)
        } else {
            (m, e)
        }
    } else {
        if j == 1474 {
            lemma_last_state(b, m, rest, below, above);
        }
        let digit = (rest * 10) as nat / unit();
        let left = (rest * 10) as nat % unit();
        lemma_ten(1474);
        vstd::arithmetic::div_mod::lemma_fundamental_div_mod((rest * 10) as int, unit() as int);
        assert(unit() * digit == digit * unit()) by (nonlinear_arith);
        lemma_next_state(b, j, m, rest, below, above, digit, left);
        lemma_shortest_from(b, j + 1, m * 10 + digit, left, below * 10, above * 10)
    }
}

/// How a literal for a finite double is spelled: digits, beyond the integers, or digits on
/// both sides of a point.
pub proof fn lemma_literal_form(b: u64) -> (r: (Seq<char>, Option<Seq<char>>))
    requires
        b < INFINITE,
    ensures
        r.0.len() > 0,
        all_digits(r.0),
        match r.1 {
            Some(c) => all_digits(c) && literal_text(b) == r.0 + seq!['.'] + c,
            None => literal_text(b) == r.0 && text::number(r.0, 10) > i64::MAX,
        },
{
    let (m, e) = shortest(b as nat);
    let d = text::decimal(m);
    lemma_decimal_digits(m);
    let z = seq!['0'];
    if b == 0 {
        reveal_strlit("0.0");
        assert(literal_text(b) =~= z + seq!['.'] + z);
        (z, Some(z))
    } else if e >= 0 {
        let p = plain(m, e);
        lemma_plain_digits(m, e);
        if text::number(p, 10) <= i64::MAX {
            assert(p + seq!['.', '0'] =~= p + seq!['.'] + z);
            (p, Some(z))
        } else {
            (p, None)
        }
    } else {
        let whole = d.len() + e;
        if whole > 0 {
            let a = d.take(whole);
            let c = d.skip(whole);
            assert forall|j: int| 0 <= j < a.len() implies text::is_digit(#[trigger] a[j]) by {
                assert(a[j] == d[j]);
            }
            assert forall|j: int| 0 <= j < c.len() implies text::is_digit(#[trigger] c[j]) by {
                assert(c[j] == d[j + whole]);
            }
            (a, Some(c))
        } else {
            let c = zeros((-whole) as nat) + d;
            assert forall|j: int| 0 <= j < c.len() implies text::is_digit(#[trigger] c[j]) by {
                if j >= -whole {
                    assert(c[j] == d[j + whole]);
                }
            }
            assert(literal_text(b) =~= z + seq!['.'] + c);
            (z, Some(c))
        }
    }
}

/// What the digits of two to the power of 63 are read as.
pub proof fn lemma_two_pow_63()
    ensures
        double_of(text::decimal(0x8000_0000_0000_0000)) == double::TWO_POW_63,
{
    let n: nat = 0x8000_0000_0000_0000;
    let b = double::TWO_POW_63 as nat;
    lemma_plain_value(n, 0);
    assert(plain(n, 0) =~= text::decimal(n));
    lemma2_to64();
    lemma2_to64_rest();
    lemma_ten(0);
    let q = pow2(1084);
    lemma_pow2_pos(1084);
    lemma_pow2_unfold(1085);
    lemma_pow2_adds(1074, 10);
    assert(exponent_field(b) == 0x43e && fraction_field(b) == 0);
    assert(magnitude(b) == 0x10_0000_0000_0000 * pow2(1085));
    let below = (b - 1) as nat;
    assert(exponent_field(below) == 0x43d && fraction_field(below) == 0xf_ffff_ffff_ffff);
    assert(magnitude(below) == 0x1f_ffff_ffff_ffff * q);
    let above = b + 1;
    assert(exponent_field(above) == 0x43e && fraction_field(above) == 1);
    assert(magnitude(above) == 0x10_0000_0000_0001 * pow2(1085));
    assert(q == one() * 1024);
    assert(n * (2 * one()) * 1 == 0x1_0000_0000_0000_0000 * one()) by (nonlinear_arith)
        requires
            n == 0x8000_0000_0000_0000,
    ;
    assert(((b + 1) - 1) as nat == b);
    assert(midway(b, 0) == (magnitude(below) + magnitude(b)) * 1);
    assert(midway(above, 0) == (magnitude(b) + magnitude(above)) * 1);
    lemma_nearest_is_one(n, 0, b);
}

} // verus!
