//! An in-memory Bloom filter over integer keys.
//!
//! **No false negatives:** [`BloomFilterState::insert`]/[`BloomFilterState::might_contain`]
//! only ever hash an integer key. Any other value inserted poisons the whole filter, and
//! once poisoned (or when the *probe* itself is not an integer) `might_contain`
//! unconditionally reports `true` ("maybe present"). A value's equality can hold between an
//! integer and a numerically-equal floating-point value, so the filter never claims
//! "definitely absent" for anything but a pure integer-keyed set.
use crate::record::value::{Value, ValueView};
use std::collections::hash_map::DefaultHasher;
use std::hash::Hasher;
use vstd::prelude::*;
use vstd::std_specs::hash::DefaultHasherAdditionalSpecFns;

verus! {

/// Fixed number of bit positions probed per key (double hashing over two independent 64-bit
/// hashes).
pub const HASH_COUNT: u64 = 4;

/// Bits per expected item.
pub const BITS_PER_ITEM: u64 = 10;

/// The fewest bits of a filter, so that a tiny or zero hint still gets a usable one.
pub const MIN_BITS: u64 = 64;

/// The most bits of a filter.
pub const MAX_BITS: u64 = 16_777_216;

#[derive(Debug, Clone, PartialEq)]
pub struct BloomFilterState {
    bits: Vec<bool>,
    /// Latched permanently the first time a non-integer value is inserted.
    has_non_integer: bool,
}

/// What a [`BloomFilterState`] stands for.
#[verifier::ext_equal]
pub struct FilterView {
    pub bits: Seq<bool>,
    pub has_non_integer: bool,
}

/// The hash of a key under a tag.
pub open spec fn hash_of(key: i64, tag: u8) -> u64 {
    DefaultHasher::spec_finish(
        seq![vstd::bytes::spec_u64_to_le_bytes(key as u64), seq![tag]],
    )
}

/// The `i`th place of a key in a filter of `len` bits.
pub open spec fn position(key: i64, i: u64, len: nat) -> int {
    ((hash_of(key, 1) + i * (hash_of(key, 2) | 1)) % 0x1_0000_0000_0000_0000) % len as int
}

/// `p` is one of the places of a key.
pub open spec fn is_place(key: i64, p: int, len: nat) -> bool {
    exists|i: u64| i < HASH_COUNT && #[trigger] position(key, i, len) == p
}

/// The number of bits for a number of expected items.
pub open spec fn size_for(expected_items: u64) -> nat {
    let n = expected_items * BITS_PER_ITEM;
    if n < MIN_BITS {
        MIN_BITS as nat
    } else if n > MAX_BITS {
        MAX_BITS as nat
    } else {
        n as nat
    }
}

/// The filter with a value put in.
pub open spec fn inserted(f: FilterView, v: ValueView) -> FilterView {
    match v {
        ValueView::Integer(key) => FilterView {
            bits: Seq::new(f.bits.len(), |p: int| f.bits[p] || is_place(key, p, f.bits.len())),
            ..f
        },
        _ => FilterView { has_non_integer: true, ..f },
    }
}

/// The bit at the `i`th place of a key is set.
pub open spec fn bit_set(bits: Seq<bool>, key: i64, i: u64) -> bool {
    bits[position(key, i, bits.len())]
}

/// Whether a value can be in the filter.
pub open spec fn maybe(f: FilterView, v: ValueView) -> bool {
    match v {
        ValueView::Integer(key) => f.has_non_integer || all_set(f.bits, key),
        _ => true,
    }
}

/// Every bit of a key is set.
pub open spec fn all_set(bits: Seq<bool>, key: i64) -> bool {
    forall|i: u64| i < HASH_COUNT ==> #[trigger] bit_set(bits, key, i)
}

fn hash64(key: i64, tag: u8) -> (h: u64)
    ensures
        h == hash_of(key, tag),
{
    let mut hasher = DefaultHasher::new();
    let bytes = vstd::bytes::u64_to_le_bytes(key as u64);
    hasher.write(bytes.as_slice());
    let mut tags: Vec<u8> = Vec::new();
    tags.push(tag);
    assert(tags@ =~= seq![tag]);
    hasher.write(tags.as_slice());
    assert(hasher@ =~= seq![vstd::bytes::spec_u64_to_le_bytes(key as u64), seq![tag]]);
    hasher.finish()
}

impl BloomFilterState {
    pub closed spec fn view(&self) -> FilterView {
        FilterView { bits: self.bits@, has_non_integer: self.has_non_integer }
    }

    /// A filter has at least one bit.
    pub closed spec fn wf(&self) -> bool {
        0 < self.bits@.len() <= MAX_BITS
    }

    /// `expected_items` sizes the bit array: never a correctness bound, only a
    /// false-positive-rate one.
    pub fn new(expected_items: u64) -> (r: Self)
        ensures
            r.wf(),
            r@.bits.len() == size_for(expected_items),
            forall|p: int| 0 <= p < r@.bits.len() ==> !r@.bits[p],
            !r@.has_non_integer,
    {
        let num_bits: u64 = if expected_items > MAX_BITS / BITS_PER_ITEM {
            MAX_BITS
        } else if expected_items * BITS_PER_ITEM < MIN_BITS {
            MIN_BITS
        } else {
            expected_items * BITS_PER_ITEM
        };
        let mut bits: Vec<bool> = Vec::new();
        let mut k: u64 = 0;
        while k < num_bits
            invariant
                k <= num_bits <= MAX_BITS,
                bits@.len() == k,
                forall|p: int| 0 <= p < bits@.len() ==> !bits@[p],
            decreases num_bits - k,
        {
            bits.push(false);
            k = k + 1;
        }
        BloomFilterState { bits, has_non_integer: false }
    }

    /// The `i`th place of the key.
    fn place(&self, h1: u64, h2: u64, i: u64, Ghost(key): Ghost<i64>) -> (p: usize)
        requires
            self.wf(),
            h1 == hash_of(key, 1),
            h2 == hash_of(key, 2) | 1,
            i < HASH_COUNT,
        ensures
            p == position(key, i, self.bits@.len()),
            p < self.bits@.len(),
    {
        let len: u64 = self.bits.len() as u64;
        let product: u64 = i.wrapping_mul(h2);
        let combined: u64 = h1.wrapping_add(product);
        proof {
            let m = 0x1_0000_0000_0000_0000int;
            assert(product == (i * h2) % m);
            vstd::arithmetic::div_mod::lemma_add_mod_noop_right(h1 as int, i * h2, m);
            assert(combined == (h1 + product) % m);
        }
        (combined % len) as usize
    }

    pub fn insert(&mut self, value: &Value)
        requires
            old(self).wf(),
        ensures
            final(self).wf(),
            final(self)@ == inserted(old(self)@, value@),
    {
        match value {
            Value::Integer(key) => {
                let h1: u64 = hash64(*key, 1);
                let h2: u64 = hash64(*key, 2) | 1;
                let ghost before = self.bits@;
                let ghost len = before.len();
                let mut i: u64 = 0;
                while i < HASH_COUNT
                    invariant
                        i <= HASH_COUNT,
                        self.wf(),
                        self.bits@.len() == len,
                        before.len() == len,
                        self.has_non_integer == old(self)@.has_non_integer,
                        h1 == hash_of(*key, 1),
                        h2 == hash_of(*key, 2) | 1,
                        forall|p: int|
                            0 <= p < len ==> #[trigger] self.bits@[p] == (before[p] || exists|
                                j: u64,
                            |
                                j < i && #[trigger] position(*key, j, len) == p),
                    decreases HASH_COUNT - i,
                {
                    let p = self.place(h1, h2, i, Ghost(*key));
                    let ghost prior = self.bits@;
                    self.bits.set(p, true);
                    assert forall|q: int| 0 <= q < len implies #[trigger] self.bits@[q] == (
                    before[q] || exists|j: u64|
                        j < i + 1 && #[trigger] position(*key, j, len) == q) by {
                        assert(prior[q] == (before[q] || exists|j: u64|
                            j < i && #[trigger] position(*key, j, len) == q));
                        if q == p {
                            assert(position(*key, i, len) == q);
                        }
                    }
                    i = i + 1;
                }
                assert(self.bits@ =~= inserted(old(self)@, value@).bits);
            },
            _ => {
                self.has_non_integer = true;
            },
        }
    }

    /// `true` means "maybe present" (the safe default whenever this filter can't rule the
    /// value out); `false` is the only claim that authorizes a caller to skip a scan.
    pub fn might_contain(&self, value: &Value) -> (r: bool)
        requires
            self.wf(),
        ensures
            r == maybe(self@, value@),
    {
        if self.has_non_integer {
            return true;
        }
        match value {
            Value::Integer(key) => {
                let h1: u64 = hash64(*key, 1);
                let h2: u64 = hash64(*key, 2) | 1;
                let mut i: u64 = 0;
                while i < HASH_COUNT
                    invariant
                        i <= HASH_COUNT,
                        self.wf(),
                        !self.has_non_integer,
                        value@ == ValueView::Integer(*key),
                        h1 == hash_of(*key, 1),
                        h2 == hash_of(*key, 2) | 1,
                        forall|j: u64|
                            j < i ==> #[trigger] bit_set(self.bits@, *key, j),
                    decreases HASH_COUNT - i,
                {
                    let p = self.place(h1, h2, i, Ghost(*key));
                    if !self.bits[p] {
                        assert(!bit_set(self@.bits, *key, i));
                        return false;
                    }
                    i = i + 1;
                }
                true
            },
            _ => true,
        }
    }
}

/// No false negatives: what was put into the filter may be there, and stays so whatever is
/// put in behind it.
pub proof fn law_no_false_negatives(f: FilterView, v: ValueView, later: Seq<ValueView>)
    requires
        f.bits.len() > 0,
    ensures
        maybe(inserted_all(inserted(f, v), later), v),
    decreases later.len(),
{
    if later.len() == 0 {
        match v {
            ValueView::Integer(key) => {
                assert forall|i: u64| i < HASH_COUNT implies #[trigger] bit_set(
                    inserted(f, v).bits,
                    key,
                    i,
                ) by {
                    let p = position(key, i, f.bits.len());
                    assert(is_place(key, p, f.bits.len()));
                }
            },
            _ => {},
        }
    } else {
        law_no_false_negatives(f, v, later.drop_last());
        let g = inserted_all(inserted(f, v), later.drop_last());
        lemma_inserted_len(inserted(f, v), later.drop_last());
        match v {
            ValueView::Integer(key) => {
                let h = inserted(g, later.last());
                assert forall|i: u64| i < HASH_COUNT
                    && !h.has_non_integer implies #[trigger] bit_set(
                    h.bits,
                    key,
                    i,
                ) by {
                    assert(bit_set(g.bits, key, i));
                }
            },
            _ => {},
        }
    }
}

/// The filter with all the values put in, one after the other.
pub open spec fn inserted_all(f: FilterView, vs: Seq<ValueView>) -> FilterView
    decreases vs.len(),
{
    if vs.len() == 0 {
        f
    } else {
        inserted(inserted_all(f, vs.drop_last()), vs.last())
    }
}

proof fn lemma_inserted_len(f: FilterView, vs: Seq<ValueView>)
    ensures
        inserted_all(f, vs).bits.len() == f.bits.len(),
    decreases vs.len(),
{
    if vs.len() > 0 {
        lemma_inserted_len(f, vs.drop_last());
    }
}

/// A value that is no integer makes the filter answer "maybe" for good.
pub proof fn law_poisoned_for_good(f: FilterView, v: ValueView, later: Seq<ValueView>, w: ValueView)
    requires
        !(v is Integer),
    ensures
        maybe(inserted_all(inserted(f, v), later), w),
    decreases later.len(),
{
    if later.len() > 0 {
        law_poisoned_for_good(f, v, later.drop_last(), w);
        lemma_poisoned(inserted(f, v), later);
    }
}

proof fn lemma_poisoned(f: FilterView, vs: Seq<ValueView>)
    requires
        f.has_non_integer,
    ensures
        inserted_all(f, vs).has_non_integer,
    decreases vs.len(),
{
    if vs.len() > 0 {
        lemma_poisoned(f, vs.drop_last());
    }
}

/// A probe that is no integer is always "maybe".
pub proof fn law_other_probes_are_maybe(f: FilterView, v: ValueView)
    requires
        !(v is Integer),
    ensures
        maybe(f, v),
{
}

} // verus!
