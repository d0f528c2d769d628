//! Natural numbers of any size.
use crate::text;
use vstd::arithmetic::power::*;
use vstd::prelude::*;

verus! {

/// What one limb counts up to.
pub open spec fn base() -> nat {
    0x1_0000_0000
}

/// The limb at place `i`; zero beyond the last one.
pub open spec fn limb(v: Seq<u32>, i: nat) -> nat {
    if i < v.len() {
        v[i as int] as nat
    } else {
        0
    }
}

/// What the lowest `i` limbs denote.
pub open spec fn low(v: Seq<u32>, i: nat) -> nat
    decreases i,
{
    if i == 0 {
        0
    } else {
        low(v, (i - 1) as nat) + limb(v, (i - 1) as nat) * weight((i - 1) as nat)
    }
}

/// What one at place `i` denotes.
pub closed spec fn weight(i: nat) -> nat {
    pow(base() as int, i) as nat
}

proof fn lemma_weight(i: nat)
    ensures
        weight(0) == 1,
        weight(i) > 0,
        weight(i + 1) == weight(i) * base(),
{
    lemma_pow0(base() as int);
    lemma_pow_positive(base() as int, i);
    lemma_pow_positive(base() as int, i + 1);
    assert(pow(base() as int, i + 1) == base() * pow(base() as int, i)) by {
        reveal(pow);
    }
    assert(base() * pow(base() as int, i) == pow(base() as int, i) * base()) by (nonlinear_arith);
}

proof fn lemma_low_beyond(v: Seq<u32>, i: nat)
    requires
        i >= v.len(),
    ensures
        low(v, i) == low(v, v.len()),
    decreases i,
{
    if i > v.len() {
        lemma_low_beyond(v, (i - 1) as nat);
        assert(0 * weight((i - 1) as nat) == 0);
    }
}

proof fn lemma_low_bound(v: Seq<u32>, i: nat)
    ensures
        low(v, i) < weight(i),
    decreases i,
{
    lemma_weight(0);
    if i > 0 {
        let k = (i - 1) as nat;
        lemma_low_bound(v, k);
        lemma_weight(k);
        assert(limb(v, k) * weight(k) + weight(k) <= base() * weight(k)) by (nonlinear_arith)
            requires
                limb(v, k) + 1 <= base(),
        ;
        assert(base() * weight(k) == weight(k) * base()) by (nonlinear_arith);
    }
}

proof fn lemma_low_same(v: Seq<u32>, u: Seq<u32>, i: nat)
    requires
        forall|k: nat| k < i ==> #[trigger] limb(v, k) == limb(u, k),
    ensures
        low(v, i) == low(u, i),
    decreases i,
{
    if i > 0 {
        lemma_low_same(v, u, (i - 1) as nat);
        assert(limb(v, (i - 1) as nat) == limb(u, (i - 1) as nat));
    }
}

/// How two numbers are ordered.
pub open spec fn sorted(a: int, b: int) -> text::Sorted {
    if a < b {
        text::Sorted::Before
    } else if a == b {
        text::Sorted::Same
    } else {
        text::Sorted::After
    }
}

/// A natural number, by its limbs, the lowest first.
#[derive(Debug)]
pub struct Natural {
    limbs: Vec<u32>,
}

impl Natural {
    pub closed spec fn view(&self) -> nat {
        low(self.limbs@, self.limbs@.len())
    }

    /// The number `n`.
    pub fn new(n: u64) -> (r: Self)
        ensures
            r@ == n,
    {
        let mut limbs: Vec<u32> = Vec::new();
        limbs.push((n % 0x1_0000_0000) as u32);
        limbs.push((n / 0x1_0000_0000) as u32);
        proof {
            reveal_with_fuel(low, 3);
            lemma_weight(0);
            assert(weight(1) == base());
            assert(limb(limbs@, 0) == n % 0x1_0000_0000);
            assert(limb(limbs@, 1) == n / 0x1_0000_0000);
            assert(low(limbs@, 1) == limb(limbs@, 0) * weight(0));
            assert(low(limbs@, 2) == low(limbs@, 1) + limb(limbs@, 1) * weight(1));
            assert(limb(limbs@, 0) * weight(0) == limb(limbs@, 0)) by (nonlinear_arith)
                requires
                    weight(0) == 1,
            ;
        }
        Natural { limbs }
    }

    /// The same number again.
    pub fn copy(&self) -> (r: Self)
        ensures
            r@ == self@,
    {
        let mut limbs: Vec<u32> = Vec::new();
        let mut i: usize = 0;
        while i < self.limbs.len()
            invariant
                i <= self.limbs@.len(),
                limbs@ == self.limbs@.take(i as int),
            decreases self.limbs@.len() - i,
        {
            limbs.push(self.limbs[i]);
            i = i + 1;
            assert(limbs@ =~= self.limbs@.take(i as int));
        }
        assert(limbs@ =~= self.limbs@);
        Natural { limbs }
    }

    /// Multiplies by `factor`, and adds `more`.
    pub fn grow(&mut self, factor: u32, more: u32)
        ensures
            final(self)@ == old(self)@ * factor + more,
    {
        let ghost before = self.limbs@;
        let n: usize = self.limbs.len();
        let mut carry: u32 = more;
        let mut i: usize = 0;
        proof {
            lemma_weight(0);
            assert(0 * factor == 0);
            assert(carry * weight(0) == more);
        }
        while i < n
            invariant
                i <= n,
                n == before.len(),
                self.limbs@.len() == n,
                forall|k: int| i <= k < n ==> self.limbs@[k] == before[k],
                low(self.limbs@, i as nat) + carry * weight(i as nat) == low(before, i as nat)
                    * factor + more,
            decreases n - i,
        {
            let ghost mid = self.limbs@;
            let digit: u32 = self.limbs[i];
            assert(digit as int * factor as int <= 0xffff_ffff * 0xffff_ffff) by (nonlinear_arith)
                requires
                    digit <= 0xffff_ffffu32,
                    factor <= 0xffff_ffffu32,
            ;
            let x: u64 = digit as u64 * factor as u64 + carry as u64;
            let lo: u32 = (x % 0x1_0000_0000) as u32;
            let hi: u32 = (x / 0x1_0000_0000) as u32;
            self.limbs.set(i, lo);
            proof {
                let w = weight(i as nat);
                lemma_low_same(mid, self.limbs@, i as nat);
                lemma_weight(i as nat);
                assert(limb(self.limbs@, i as nat) == lo);
                assert(limb(before, i as nat) == digit);
                let l = low(before, i as nat);
                let f = factor as nat;
                assert(lo * w + hi * (w * base()) == (digit * f + carry) * w) by (nonlinear_arith)
                    requires
                        lo + hi * base() == digit * f + carry,
                ;
                assert((l + digit * w) * f == l * f + digit * f * w) by (nonlinear_arith);
                assert((digit * f + carry) * w == digit * f * w + carry * w) by (nonlinear_arith);
            }
            carry = hi;
            i = i + 1;
        }
        let ghost done = self.limbs@;
        self.limbs.push(carry);
        proof {
            assert forall|k: nat| k < n implies #[trigger] limb(done, k) == limb(self.limbs@,
                k) by {
            }
            lemma_low_same(done, self.limbs@, n as nat);
            assert(limb(self.limbs@, n as nat) == carry);
        }
        self.trim();
    }

    /// Drops the zeros in front.
    fn trim(&mut self)
        ensures
            final(self)@ == old(self)@,
    {
        while self.limbs.len() > 0 && self.limbs[self.limbs.len() - 1] == 0
            invariant
                self@ == old(self)@,
            decreases self.limbs@.len(),
        {
            let ghost before = self.limbs@;
            let _ = self.limbs.pop();
            proof {
                let n = self.limbs@.len();
                assert forall|k: nat| k < n implies #[trigger] limb(before, k) == limb(
                    self.limbs@,
                    k,
                ) by {
                }
                lemma_low_same(before, self.limbs@, n);
                assert(limb(before, n) == 0);
                assert(limb(before, n) * weight(n) == 0) by (nonlinear_arith)
                    requires
                        limb(before, n) == 0,
                ;
            }
        }
    }

    fn get(&self, i: usize) -> (r: u32)
        ensures
            r == limb(self.limbs@, i as nat),
    {
        if i < self.limbs.len() {
            self.limbs[i]
        } else {
            0
        }
    }

    /// How two numbers are ordered.
    pub fn order(&self, other: &Natural) -> (r: text::Sorted)
        ensures
            r == sorted(self@ as int, other@ as int),
    {
        let n: usize = if self.limbs.len() < other.limbs.len() {
            other.limbs.len()
        } else {
            self.limbs.len()
        };
        let mut r = text::Sorted::Same;
        let mut i: usize = 0;
        while i < n
            invariant
                i <= n,
                r == sorted(
                    low(self.limbs@, i as nat) as int,
                    low(other.limbs@, i as nat) as int,
                ),
            decreases n - i,
        {
            let a: u32 = self.get(i);
            let b: u32 = other.get(i);
            proof {
                let w = weight(i as nat);
                lemma_low_bound(self.limbs@, i as nat);
                lemma_low_bound(other.limbs@, i as nat);
                if a < b {
                    assert(a * w + w <= b * w) by (nonlinear_arith)
                        requires
                            a + 1 <= b,
                    ;
                } else if b < a {
                    assert(b * w + w <= a * w) by (nonlinear_arith)
                        requires
                            b + 1 <= a,
                    ;
                }
            }
            if a < b {
                r = text::Sorted::Before;
            } else if b < a {
                r = text::Sorted::After;
            }
            i = i + 1;
        }
        proof {
            lemma_low_beyond(self.limbs@, n as nat);
            lemma_low_beyond(other.limbs@, n as nat);
        }
        r
    }

    /// Adds another number.
    pub fn plus(&mut self, other: &Natural)
        ensures
            final(self)@ == old(self)@ + other@,
    {
        let ghost before = self.limbs@;
        let n: usize = if self.limbs.len() < other.limbs.len() {
            other.limbs.len()
        } else {
            self.limbs.len()
        };
        let mut sum: Vec<u32> = Vec::new();
        let mut carry: u32 = 0;
        let mut i: usize = 0;
        assert(0 * weight(0) == 0);
        while i < n
            invariant
                i <= n,
                sum@.len() == i,
                carry <= 1,
                self.limbs@ == before,
                low(sum@, i as nat) + carry * weight(i as nat) == low(before, i as nat) + low(
                    other.limbs@,
                    i as nat,
                ),
            decreases n - i,
        {
            let ghost mid = sum@;
            let a: u32 = self.get(i);
            let b: u32 = other.get(i);
            let x: u64 = a as u64 + b as u64 + carry as u64;
            let lo: u32 = (x % 0x1_0000_0000) as u32;
            let hi: u32 = (x / 0x1_0000_0000) as u32;
            sum.push(lo);
            proof {
                let w = weight(i as nat);
                assert forall|k: nat| k < i implies #[trigger] limb(mid, k) == limb(sum@, k) by {
                }
                lemma_low_same(mid, sum@, i as nat);
                lemma_weight(i as nat);
                assert(limb(sum@, i as nat) == lo);
                assert(lo * w + hi * (w * base()) == a * w + b * w + carry * w)
                    by (nonlinear_arith)
                    requires
                        lo + hi * base() == a + b + carry,
                ;
            }
            carry = hi;
            i = i + 1;
        }
        let ghost done = sum@;
        sum.push(carry);
        proof {
            assert forall|k: nat| k < n implies #[trigger] limb(done, k) == limb(sum@, k) by {
            }
            lemma_low_same(done, sum@, n as nat);
            assert(limb(sum@, n as nat) == carry);
            lemma_low_beyond(before, n as nat);
            lemma_low_beyond(other.limbs@, n as nat);
        }
        self.limbs = sum;
        self.trim();
    }

    /// Takes a smaller number away.
    pub fn minus(&mut self, other: &Natural)
        requires
            other@ <= old(self)@,
        ensures
            final(self)@ == old(self)@ - other@,
    {
        let ghost before = self.limbs@;
        let n: usize = if self.limbs.len() < other.limbs.len() {
            other.limbs.len()
        } else {
            self.limbs.len()
        };
        let mut rest: Vec<u32> = Vec::new();
        let mut borrow: u32 = 0;
        let mut i: usize = 0;
        assert(0 * weight(0) == 0);
        while i < n
            invariant
                i <= n,
                rest@.len() == i,
                borrow <= 1,
                self.limbs@ == before,
                low(rest@, i as nat) + low(other.limbs@, i as nat) == low(before, i as nat) + borrow
                    * weight(i as nat),
            decreases n - i,
        {
            let ghost mid = rest@;
            let a: u32 = self.get(i);
            let b: u32 = other.get(i);
            let x: u64 = 0x1_0000_0000 + a as u64 - b as u64 - borrow as u64;
            let lo: u32 = (x % 0x1_0000_0000) as u32;
            let hi: u32 = 1 - (x / 0x1_0000_0000) as u32;
            rest.push(lo);
            proof {
                let w = weight(i as nat);
                assert forall|k: nat| k < i implies #[trigger] limb(mid, k) == limb(rest@, k) by {
                }
                lemma_low_same(mid, rest@, i as nat);
                lemma_weight(i as nat);
                assert(limb(rest@, i as nat) == lo);
                assert(lo * w + b * w + borrow * w == a * w + hi * (w * base()))
                    by (nonlinear_arith)
                    requires
                        lo + b + borrow == a + hi * base(),
                ;
            }
            borrow = hi;
            i = i + 1;
        }
        proof {
            lemma_low_beyond(before, n as nat);
            lemma_low_beyond(other.limbs@, n as nat);
            lemma_low_bound(rest@, n as nat);
            lemma_weight(n as nat);
            if borrow == 1 {
                assert(1 * weight(n as nat) == weight(n as nat));
            }
            assert(0 * weight(n as nat) == 0);
        }
        self.limbs = rest;
        self.trim();
    }

    /// Multiplies `count` times by `factor`.
    pub fn raise(&mut self, factor: u32, count: u128)
        requires
            factor > 0,
        ensures
            final(self)@ == old(self)@ * pow(factor as int, count as nat),
    {
        let mut i: u128 = 0;
        assert(self@ * pow(factor as int, 0) == self@) by {
            lemma_pow0(factor as int);
        }
        while i < count
            invariant
                i <= count,
                self@ == old(self)@ * pow(factor as int, i as nat),
            decreases count - i,
        {
            let ghost before = self@;
            self.grow(factor, 0);
            proof {
                let a = old(self)@ as int;
                let p = pow(factor as int, i as nat);
                let f = factor as int;
                assert(pow(f, (i + 1) as nat) == f * p) by {
                    reveal(pow);
                }
                assert((a * p) * f == a * (f * p)) by (nonlinear_arith);
            }
            i = i + 1;
        }
    }
}

} // verus!
