//! What a 64-bit pattern denotes as a floating-point value, without floating-point arithmetic.
use crate::text;
use vstd::arithmetic::power::*;
use vstd::arithmetic::power2::*;
use vstd::prelude::*;

verus! {

/// The bit pattern without its sign.
pub open spec fn unsigned_part(bits: u64) -> nat {
    (bits % 0x8000_0000_0000_0000) as nat
}

pub open spec fn is_negative(bits: u64) -> bool {
    bits >= 0x8000_0000_0000_0000
}

/// The exponent field of an unsigned pattern.
pub open spec fn exponent_field(m: nat) -> nat {
    m / 0x10_0000_0000_0000
}

/// The fraction field of an unsigned pattern.
pub open spec fn fraction_field(m: nat) -> nat {
    m % 0x10_0000_0000_0000
}

/// Not a number.
pub open spec fn is_nan(bits: u64) -> bool {
    unsigned_part(bits) > 0x7ff0_0000_0000_0000
}

/// What an unsigned pattern denotes, counted in the smallest positive double: every
/// finite double is a whole multiple of it. The pattern of infinity comes out larger
/// than that of any finite double.
pub open spec fn magnitude(m: nat) -> nat {
    if exponent_field(m) == 0 {
        fraction_field(m)
    } else {
        (0x10_0000_0000_0000 + fraction_field(m)) * (pow2((exponent_field(m) - 1) as nat))
    }
}

/// What a pattern that is a number denotes, counted in the smallest positive double.
pub open spec fn denoted(bits: u64) -> int {
    if is_negative(bits) {
        -(magnitude(unsigned_part(bits)) as int)
    } else {
        magnitude(unsigned_part(bits)) as int
    }
}

/// The pattern of two to the power of 63.
pub const TWO_POW_63: u64 = 0x43e0_0000_0000_0000;

/// One, counted in the smallest positive double.
pub open spec fn one() -> nat {
    pow2(1074)
}

/// Whether the number is the integer `n`.
pub open spec fn denotes_integer(bits: u64, n: i64) -> bool {
    denoted(bits) == n * one()
}

/// The number rounded toward zero.
pub open spec fn toward_zero(bits: u64) -> int {
    if is_negative(bits) {
        -((magnitude(unsigned_part(bits)) / one()) as int)
    } else {
        (magnitude(unsigned_part(bits)) / one()) as int
    }
}

proof fn lemma_magnitude_grows(a: nat, b: nat)
    requires
        a < b,
    ensures
        magnitude(a) < magnitude(b),
{
    let ea = exponent_field(a);
    let eb = exponent_field(b);
    let fa = fraction_field(a);
    let fb = fraction_field(b);
    assert(ea <= eb && (ea == eb ==> fa < fb));
    if ea > 0 {
        lemma_pow2_pos((ea - 1) as nat);
    }
    if eb > 0 {
        lemma_pow2_pos((eb - 1) as nat);
    }
    if ea == eb {
        if ea > 0 {
            let q = pow2((ea - 1) as nat);
            assert((0x10_0000_0000_0000 + fa) * q < (0x10_0000_0000_0000 + fb) * q)
                by (nonlinear_arith)
                requires
                    fa < fb,
                    q > 0,
            ;
        }
    } else if ea == 0 {
        let q = pow2((eb - 1) as nat);
        assert((0x10_0000_0000_0000 + fb) * q >= 0x10_0000_0000_0000) by (nonlinear_arith)
            requires
                q >= 1,
        ;
    } else {
        let qa = pow2((ea - 1) as nat);
        let qb = pow2((eb - 1) as nat);
        lemma_pow2_unfold(ea);
        if ea < eb - 1 {
            lemma_pow2_strictly_increases(ea, (eb - 1) as nat);
        }
        assert(qb >= 2 * qa);
        assert((0x10_0000_0000_0000 + fa) * qa < 0x20_0000_0000_0000 * qa) by (nonlinear_arith)
            requires
                fa < 0x10_0000_0000_0000,
                qa > 0,
        ;
        assert(0x10_0000_0000_0000 * qb <= (0x10_0000_0000_0000 + fb) * qb) by (nonlinear_arith);
        assert(0x20_0000_0000_0000 * qa <= 0x10_0000_0000_0000 * qb) by (nonlinear_arith)
            requires
                qb >= 2 * qa,
        ;
    }
}

/// Unsigned patterns are ordered as what they denote.
pub proof fn lemma_magnitude_order(a: nat, b: nat)
    ensures
        a < b <==> magnitude(a) < magnitude(b),
        a == b <==> magnitude(a) == magnitude(b),
{
    if a < b {
        lemma_magnitude_grows(a, b);
    } else if b < a {
        lemma_magnitude_grows(b, a);
    }
}

proof fn lemma_zero_magnitude(m: nat)
    ensures
        magnitude(m) == 0 <==> m == 0,
{
    lemma_magnitude_order(0, m);
}

/// Whether the pattern is not a number.
pub fn nan(bits: u64) -> (b: bool)
    ensures
        b == is_nan(bits),
{
    bits % 0x8000_0000_0000_0000 > 0x7ff0_0000_0000_0000
}

/// Where the number `a` stands to the number `b`.
pub fn order(a: u64, b: u64) -> (r: text::Sorted)
    ensures
        r == text::Sorted::Before <==> denoted(a) < denoted(b),
        r == text::Sorted::Same <==> denoted(a) == denoted(b),
        r == text::Sorted::After <==> denoted(a) > denoted(b),
{
    let ma: u64 = a % 0x8000_0000_0000_0000;
    let mb: u64 = b % 0x8000_0000_0000_0000;
    let na = a >= 0x8000_0000_0000_0000;
    let nb = b >= 0x8000_0000_0000_0000;
    proof {
        lemma_magnitude_order(ma as nat, mb as nat);
        lemma_zero_magnitude(ma as nat);
        lemma_zero_magnitude(mb as nat);
    }
    if ma == 0 && mb == 0 {
        text::Sorted::Same
    } else if na && nb {
        if mb < ma {
            text::Sorted::Before
        } else if mb == ma {
            text::Sorted::Same
        } else {
            text::Sorted::After
        }
    } else if na {
        text::Sorted::Before
    } else if nb {
        text::Sorted::After
    } else if ma < mb {
        text::Sorted::Before
    } else if ma == mb {
        text::Sorted::Same
    } else {
        text::Sorted::After
    }
}

/// A pattern denotes at most one integer.
pub proof fn lemma_one_integer(bits: u64, a: i64, b: i64)
    requires
        denotes_integer(bits, a),
        denotes_integer(bits, b),
    ensures
        a == b,
{
    let u = one() as int;
    lemma_pow2_pos(1074);
    assert(a * u == b * u ==> a == b) by (nonlinear_arith)
        requires
            u > 0,
    ;
}

/// Whether the pattern is a number and not an infinity.
pub fn finite(bits: u64) -> (b: bool)
    ensures
        b == (exponent_field(unsigned_part(bits)) < 2047),
{
    (bits % 0x8000_0000_0000_0000) / 0x10_0000_0000_0000 < 2047
}

/// Whether the number is zero.
pub fn is_zero(bits: u64) -> (b: bool)
    ensures
        b == (denoted(bits) == 0),
{
    proof {
        lemma_zero_magnitude(unsigned_part(bits));
    }
    bits % 0x8000_0000_0000_0000 == 0
}

/// What is left of `m * 2^a` when whole multiples of `2^(a+k)` are taken out.
proof fn lemma_shift_down(m: nat, a: nat, k: nat)
    ensures
        (m * pow2(a)) / pow2(a + k) == m / pow2(k),
        (m * pow2(a)) % pow2(a + k) == (m % pow2(k)) * pow2(a),
{
    let q = pow2(a) as int;
    let r = pow2(k) as int;
    lemma_pow2_pos(a);
    lemma_pow2_pos(k);
    lemma_pow2_adds(a, k);
    vstd::arithmetic::div_mod::lemma_fundamental_div_mod(m as int, r);
    let d = m as int / r;
    let e = m as int % r;
    assert(m * q == (q * r) * d + e * q) by (nonlinear_arith)
        requires
            m == r * d + e,
    ;
    assert(0 <= e * q < q * r) by (nonlinear_arith)
        requires
            0 <= e < r,
            q > 0,
    ;
    vstd::arithmetic::div_mod::lemma_fundamental_div_mod_converse(m * q, q * r, d, e * q);
}

/// The whole part and whether there is a fraction, of an unsigned pattern below two to
/// the power of 63.
fn split_whole(m: u64) -> (r: (u64, bool))
    requires
        m < 0x43e0_0000_0000_0000,
    ensures
        r.0 == magnitude(m as nat) / one(),
        r.0 < 0x8000_0000_0000_0000,
        r.1 == (magnitude(m as nat) % one() != 0),
{
    let e: u64 = m / 0x10_0000_0000_0000;
    let f: u64 = m % 0x10_0000_0000_0000;
    if e < 1023 {
        proof {
            lemma_zero_magnitude(m as nat);
            lemma_below_one(m as nat);
            vstd::arithmetic::div_mod::lemma_basic_div(magnitude(m as nat) as int, one() as int);
            vstd::arithmetic::div_mod::lemma_small_mod(magnitude(m as nat), one());
        }
        return (0, m != 0);
    }
    let significand: u64 = 0x10_0000_0000_0000 + f;
    let ghost a = (e - 1) as nat;
    if e >= 1075 {
        let shift: u64 = e - 1075;
        let mut whole: u64 = significand;
        let mut i: u64 = 0;
        proof {
            lemma2_to64();
        }
        while i < shift
            invariant
                i <= shift <= 10,
                significand < 0x20_0000_0000_0000,
                whole == significand * pow2(i as nat),
                whole < 0x20_0000_0000_0000 * pow2(i as nat),
            decreases shift - i,
        {
            proof {
                lemma_pow2_small(i as nat);
                lemma_pow2_unfold((i + 1) as nat);
                let q = pow2(i as nat);
                assert(significand * (2 * q) == 2 * (significand * q)) by (nonlinear_arith);
                assert(0x20_0000_0000_0000 * (2 * q) == 2 * (0x20_0000_0000_0000 * q))
                    by (nonlinear_arith);
            }
            whole = whole * 2;
            i = i + 1;
        }
        proof {
            lemma_pow2_small(shift as nat);
            lemma_pow2_adds(1074, shift as nat);
            let q = pow2(1074) as int;
            let h = pow2(shift as nat) as int;
            lemma_pow2_pos(1074);
            assert(significand * (q * h) == (significand * h) * q) by (nonlinear_arith);
            vstd::arithmetic::div_mod::lemma_div_by_multiple(significand * h, q);
            vstd::arithmetic::div_mod::lemma_mod_multiples_basic(significand * h, q);
        }
        return (whole, false);
    }
    let shift: u64 = 1075 - e;
    let mut unit: u64 = 1;
    let mut i: u64 = 0;
    proof {
        lemma2_to64();
    }
    while i < shift
        invariant
            i <= shift <= 52,
            unit == pow2(i as nat),
        decreases shift - i,
    {
        proof {
            lemma_pow2_small(i as nat);
            lemma_pow2_unfold((i + 1) as nat);
        }
        unit = unit * 2;
        i = i + 1;
    }
    proof {
        lemma_shift_down(significand as nat, a, shift as nat);
        lemma_pow2_pos(a);
        let left = (significand % unit) as int;
        let q = pow2(a) as int;
        assert(left * q == 0 <==> left == 0) by (nonlinear_arith)
            requires
                q > 0,
        ;
        lemma_pow2_pos(shift as nat);
        assert(significand / unit <= significand) by (nonlinear_arith)
            requires
                unit > 0,
        ;
    }
    (significand / unit, significand % unit != 0)
}

proof fn lemma_pow2_small(n: nat)
    requires
        n <= 52,
    ensures
        1 <= pow2(n) <= 0x10_0000_0000_0000,
        n <= 10 ==> pow2(n) <= 1024,
{
    lemma2_to64();
    lemma2_to64_rest();
    lemma_pow2_pos(n);
    if n < 52 {
        lemma_pow2_strictly_increases(n, 52);
    }
    if n < 10 {
        lemma_pow2_strictly_increases(n, 10);
    }
}

proof fn lemma_below_one(m: nat)
    requires
        m < 0x3ff0_0000_0000_0000,
    ensures
        magnitude(m) < one(),
{
    lemma_magnitude_grows(m, 0x3ff0_0000_0000_0000);
    lemma_pow2_adds(52, 1022);
    lemma2_to64();
    lemma2_to64_rest();
}

/// The number as an integer: `Some` exactly where it is a whole number that 64 bits hold.
pub fn to_integer(bits: u64) -> (r: Option<i64>)
    ensures
        match r {
            Some(n) => !is_nan(bits) && denotes_integer(bits, n),
            None => is_nan(bits) || forall|n: i64| !denotes_integer(bits, n),
        },
{
    let m: u64 = bits % 0x8000_0000_0000_0000;
    let negative = bits >= 0x8000_0000_0000_0000;
    let ghost mag = magnitude(m as nat) as int;
    let ghost u = one() as int;
    proof {
        lemma_pow2_pos(1074);
    }
    if m >= 0x43e0_0000_0000_0000 {
        proof {
            lemma_two_pow_63();
            lemma_magnitude_order(0x43e0_0000_0000_0000, m as nat);
        }
        if negative && m == 0x43e0_0000_0000_0000 {
            assert(-(0x8000_0000_0000_0000 * u) == (-0x8000_0000_0000_0000) * u)
                by (nonlinear_arith);
            return Some(i64::MIN);
        }
        proof {
            if !is_nan(bits) {
                assert forall|n: i64| !denotes_integer(bits, n) by {
                    assert(-0x8000_0000_0000_0000 * u <= n * u <= 0x7fff_ffff_ffff_ffff * u)
                        by (nonlinear_arith)
                        requires
                            -0x8000_0000_0000_0000 <= n <= 0x7fff_ffff_ffff_ffff,
                            u > 0,
                    ;
                }
            }
        }
        return None;
    }
    let (whole, fraction) = split_whole(m);
    proof {
        vstd::arithmetic::div_mod::lemma_fundamental_div_mod(mag, u);
    }
    if fraction {
        proof {
            assert forall|n: i64| !denotes_integer(bits, n) by {
                if denoted(bits) == n * u {
                    let k: int = if negative {
                        -(n as int)
                    } else {
                        n as int
                    };
                    assert(mag == k * u) by (nonlinear_arith)
                        requires
                            negative ==> -mag == n * u && k == -n,
                            !negative ==> mag == n * u && k == n,
                    ;
                    vstd::arithmetic::div_mod::lemma_mod_multiples_basic(k, u);
                }
            }
        }
        return None;
    }
    assert(mag == whole * u) by (nonlinear_arith)
        requires
            mag == u * (mag / u) + mag % u,
            mag % u == 0,
            whole == mag / u,
    ;
    if negative {
        let n: i64 = -(whole as i64);
        assert(-(whole * u) == n * u) by (nonlinear_arith)
            requires
                n == -whole,
        ;
        Some(n)
    } else {
        Some(whole as i64)
    }
}

proof fn lemma_two_pow_63()
    ensures
        magnitude(0x43e0_0000_0000_0000) == 0x8000_0000_0000_0000 * one(),
{
    lemma2_to64();
    lemma_pow2_adds(1074, 11);
    assert(pow2(11) == 2048);
    let q = pow2(1074) as int;
    assert(0x10_0000_0000_0000 * (q * 2048) == 0x8000_0000_0000_0000 * q) by (nonlinear_arith);
}

/// The number rounded toward zero, or the nearest integer of 64 bits where it lies
/// beyond; zero where the pattern is not a number.
pub fn truncate(bits: u64) -> (n: i64)
    ensures
        n == (if is_nan(bits) {
            0
        } else if toward_zero(bits) < i64::MIN {
            i64::MIN as int
        } else if toward_zero(bits) > i64::MAX {
            i64::MAX as int
        } else {
            toward_zero(bits)
        }),
{
    if nan(bits) {
        return 0;
    }
    let m: u64 = bits % 0x8000_0000_0000_0000;
    let negative = bits >= 0x8000_0000_0000_0000;
    if m >= 0x43e0_0000_0000_0000 {
        proof {
            let u = one() as int;
            lemma_pow2_pos(1074);
            lemma_two_pow_63();
            lemma_magnitude_order(0x43e0_0000_0000_0000, m as nat);
            vstd::arithmetic::div_mod::lemma_div_is_ordered(
                0x8000_0000_0000_0000 * u,
                magnitude(m as nat) as int,
                u,
            );
            vstd::arithmetic::div_mod::lemma_div_by_multiple(0x8000_0000_0000_0000, u);
        }
        return if negative {
            i64::MIN
        } else {
            i64::MAX
        };
    }
    let (whole, _) = split_whole(m);
    if negative {
        -(whole as i64)
    } else {
        whole as i64
    }
}

/// Where the integer `i` stands to the number `bits`.
pub fn order_integer(i: i64, bits: u64) -> (r: text::Sorted)
    requires
        !is_nan(bits),
    ensures
        r == text::Sorted::Before <==> i * one() < denoted(bits),
        r == text::Sorted::Same <==> i * one() == denoted(bits),
        r == text::Sorted::After <==> i * one() > denoted(bits),
{
    let m: u64 = bits % 0x8000_0000_0000_0000;
    let negative = bits >= 0x8000_0000_0000_0000;
    let ghost mag = magnitude(m as nat) as int;
    let ghost u = one() as int;
    proof {
        lemma_pow2_pos(1074);
    }
    if m >= 0x43e0_0000_0000_0000 {
        proof {
            lemma_two_pow_63();
            lemma_magnitude_order(0x43e0_0000_0000_0000, m as nat);
            assert(-(0x8000_0000_0000_0000 * u) <= i * u < 0x8000_0000_0000_0000 * u)
                by (nonlinear_arith)
                requires
                    -0x8000_0000_0000_0000 <= i < 0x8000_0000_0000_0000,
                    u > 0,
            ;
        }
        if !negative {
            return text::Sorted::Before;
        }
        if m > 0x43e0_0000_0000_0000 {
            return text::Sorted::After;
        }
        proof {
            assert(-(0x8000_0000_0000_0000 * u) == i * u <==> i == -0x8000_0000_0000_0000)
                by (nonlinear_arith)
                requires
                    u > 0,
            ;
        }
        return if i == i64::MIN {
            text::Sorted::Same
        } else {
            text::Sorted::After
        };
    }
    let (whole, fraction) = split_whole(m);
    let y: i64 = if negative {
        -(whole as i64)
    } else {
        whole as i64
    };
    proof {
        vstd::arithmetic::div_mod::lemma_fundamental_div_mod(mag, u);
        let part = mag % u;
        let d = denoted(bits);
        assert(d == y * u + (if negative {
            -part
        } else {
            part
        })) by (nonlinear_arith)
            requires
                mag == u * whole + part,
                negative ==> y == -whole && d == -mag,
                !negative ==> y == whole && d == mag,
        ;
        assert(i < y ==> i * u <= y * u - u) by (nonlinear_arith)
            requires
                u > 0,
        ;
        assert(i > y ==> i * u >= y * u + u) by (nonlinear_arith)
            requires
                u > 0,
        ;
    }
    if i < y {
        text::Sorted::Before
    } else if i > y {
        text::Sorted::After
    } else if !fraction {
        text::Sorted::Same
    } else if negative {
        text::Sorted::After
    } else {
        text::Sorted::Before
    }
}

} // verus!
