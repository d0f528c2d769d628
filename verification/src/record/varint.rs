//! Variable-length integers: big-endian, 7 bits per byte with a high-bit continuation
//! flag, up to 9 bytes, the ninth of which holds 8 bits.
use vstd::arithmetic::power::*;
use vstd::prelude::*;

verus! {

/// How many 7-bit groups `n` takes.
pub open spec fn group_count(n: nat) -> nat
    decreases n,
{
    if n < 128 {
        1
    } else {
        1 + group_count(n / 128)
    }
}

/// The lowest `k` 7-bit groups of `n`, highest first, each with the continuation flag.
pub open spec fn flagged_groups(n: nat, k: nat) -> Seq<u8>
    decreases k,
{
    if k == 0 {
        seq![]
    } else {
        flagged_groups(n / 128, (k - 1) as nat).push((n % 128 + 128) as u8)
    }
}

/// The smallest number that takes the nine-byte form.
pub const NINE_BYTES: u64 = 0x100_0000_0000_0000;

/// The varint for `n`: as few groups as hold it.
pub open spec fn varint(n: nat) -> Seq<u8> {
    if n < NINE_BYTES {
        flagged_groups(n / 128, (group_count(n) - 1) as nat).push((n % 128) as u8)
    } else {
        flagged_groups(n / 256, 8).push((n % 256) as u8)
    }
}

/// The varint at `i` of `b`, of which `k` bytes are read and hold `acc`: the number and
/// how many bytes it takes; `None` where the bytes run out.
pub open spec fn varint_from(b: Seq<u8>, i: int, k: nat, acc: nat) -> Option<(nat, nat)>
    decreases 9 - k,
    when k <= 8
{
    if !(0 <= i + k < b.len()) {
        None
    } else if k == 8 {
        Some((acc * 256 + b[i + 8] as nat, 9))
    } else if b[i + k] < 128 {
        Some((acc * 128 + b[i + k] as nat, k + 1))
    } else {
        varint_from(b, i, k + 1, (acc * 128 + b[i + k] as nat - 128) as nat)
    }
}

/// The varint at `i` of `b`: the number and how many bytes it takes.
pub open spec fn varint_at(b: Seq<u8>, i: int) -> Option<(nat, nat)> {
    varint_from(b, i, 0, 0)
}

proof fn lemma_flagged_len(n: nat, k: nat)
    ensures
        flagged_groups(n, k).len() == k,
    decreases k,
{
    if k > 0 {
        lemma_flagged_len(n / 128, (k - 1) as nat);
    }
}

proof fn lemma_group_count(n: nat, k: nat)
    requires
        n < pow(128, k),
        k >= 1,
    ensures
        1 <= group_count(n) <= k,
        n < pow(128, group_count(n)),
    decreases n,
{
    lemma_pow1(128);
    if n >= 128 {
        if k == 1 {
            assert(false);
        }
        lemma_pow_adds(128, 1, (k - 1) as nat);
        let q = pow(128, (k - 1) as nat);
        assert(n / 128 < q) by (nonlinear_arith)
            requires
                n < 128 * q,
        ;
        lemma_group_count(n / 128, (k - 1) as nat);
        let c = group_count(n / 128);
        lemma_pow_adds(128, 1, c);
        let r = pow(128, c);
        assert(n < 128 * r) by (nonlinear_arith)
            requires
                n / 128 < r,
        ;
    }
}

/// How many bytes a varint takes.
pub proof fn lemma_varint_len(n: nat)
    requires
        n <= u64::MAX,
    ensures
        1 <= varint(n).len() <= 9,
        n < NINE_BYTES ==> varint(n).len() == group_count(n) && group_count(n) <= 8,
        n >= NINE_BYTES ==> varint(n).len() == 9,
{
    if n < NINE_BYTES {
        lemma_eight_groups();
        lemma_group_count(n, 8);
        lemma_flagged_len(n / 128, (group_count(n) - 1) as nat);
    } else {
        lemma_flagged_len(n / 256, 8);
    }
}

proof fn lemma_eight_groups()
    ensures
        pow(128, 8) == NINE_BYTES,
{
    reveal(pow);
    assert(pow(128, 8) == NINE_BYTES) by {
        reveal_with_fuel(pow, 9);
    }
}

/// Reading over flagged groups gathers the number they hold.
proof fn lemma_read_flagged(b: Seq<u8>, i: int, n: nat, k: nat)
    requires
        k <= 8,
        0 <= i,
        i + k <= b.len(),
        n < pow(128, k),
        b.subrange(i, i + k) == flagged_groups(n, k),
    ensures
        varint_at(b, i) == varint_from(b, i, k, n),
    decreases k,
{
    if k == 0 {
        lemma_pow0(128);
    } else {
        let h = (k - 1) as nat;
        lemma_flagged_len(n / 128, h);
        lemma_pow1(128);
        lemma_pow_adds(128, 1, h);
        let q = pow(128, h);
        assert(n / 128 < q) by (nonlinear_arith)
            requires
                n < 128 * q,
        ;
        assert(b.subrange(i, i + k).drop_last() =~= b.subrange(i, i + h));
        assert(flagged_groups(n, k).drop_last() =~= flagged_groups(n / 128, h));
        lemma_read_flagged(b, i, n / 128, h);
        assert(b[i + h] == b.subrange(i, i + k)[h as int]);
        assert(b[i + h] == (n % 128 + 128) as u8);
    }
}

/// A varint is read back as the number it was written for, in as many bytes as it took,
/// whatever follows it.
pub proof fn law_varint_round_trip(b: Seq<u8>, i: int, n: nat)
    requires
        n <= u64::MAX,
        0 <= i,
        i + varint(n).len() <= b.len(),
        b.subrange(i, i + varint(n).len()) == varint(n),
    ensures
        varint_at(b, i) == Some((n, varint(n).len())),
{
    lemma_varint_len(n);
    let len = varint(n).len();
    let k = (len - 1) as nat;
    assert(b[i + k] == b.subrange(i, i + len)[k as int]);
    assert(b.subrange(i, i + len).drop_last() =~= b.subrange(i, i + k));
    if n < NINE_BYTES {
        lemma_eight_groups();
        lemma_group_count(n, 8);
        lemma_flagged_len(n / 128, k);
        assert(varint(n).drop_last() =~= flagged_groups(n / 128, k));
        lemma_pow1(128);
        lemma_pow_adds(128, 1, k);
        let q = pow(128, k);
        assert(n / 128 < q) by (nonlinear_arith)
            requires
                n < 128 * q,
        ;
        lemma_read_flagged(b, i, n / 128, k);
    } else {
        lemma_eight_groups();
        assert(varint(n).drop_last() =~= flagged_groups(n / 256, 8));
        lemma_read_flagged(b, i, n / 256, 8);
    }
}

proof fn lemma_fewest_groups(n: nat, k: nat)
    requires
        n < pow(128, k),
        k >= 1,
    ensures
        group_count(n) <= k,
{
    lemma_group_count(n, k);
}

/// No other sequence of continued groups that ends without the flag holds the number in
/// fewer bytes.
pub proof fn law_varint_minimal(n: nat, k: nat)
    requires
        n < NINE_BYTES,
        k >= 1,
        n < pow(128, k),
    ensures
        varint(n).len() <= k,
{
    lemma_varint_len(n);
    lemma_fewest_groups(n, k);
}

fn push_flagged(out: &mut Vec<u8>, n: u64, k: u32)
    ensures
        final(out)@ == old(out)@ + flagged_groups(n as nat, k as nat),
    decreases k,
{
    if k > 0 {
        push_flagged(out, n / 128, k - 1);
        out.push((n % 128 + 128) as u8);
        assert(out@ =~= old(out)@ + flagged_groups(n as nat, k as nat));
    } else {
        assert(out@ =~= old(out)@ + flagged_groups(n as nat, k as nat));
    }
}

/// Encodes a varint: the inverse of [`decode_varint`], always in the minimal encoding (no
/// redundant continuation bytes).
pub fn encode_varint(value: u64) -> (out: Vec<u8>)
    ensures
        out@ == varint(value as nat),
        1 <= out@.len() <= 9,
{
    let mut out: Vec<u8> = Vec::new();
    proof {
        lemma_varint_len(value as nat);
    }
    if value < NINE_BYTES {
        let mut groups: u32 = 0;
        let mut rest: u64 = value / 128;
        while rest > 0
            invariant
                groups + (if rest == 0 {
                    0
                } else {
                    group_count(rest as nat)
                }) == group_count(value as nat) - 1,
                groups <= 8,
                group_count(value as nat) <= 8,
            decreases rest,
        {
            groups = groups + 1;
            rest = rest / 128;
        }
        push_flagged(&mut out, value / 128, groups);
        out.push((value % 128) as u8);
    } else {
        push_flagged(&mut out, value / 256, 8);
        out.push((value % 256) as u8);
    }
    assert(out@ =~= varint(value as nat));
    out
}

/// What is read so far fits what is left of 64 bits.
proof fn lemma_acc_bound(k: nat)
    requires
        k <= 8,
    ensures
        pow(128, k) <= NINE_BYTES,
{
    lemma_eight_groups();
    lemma_pow_increases(128, k, 8);
}

/// Decodes the varint at `offset` of `bytes`: the number and how many bytes it takes;
/// `None` where the bytes run out.
pub fn decode_varint(bytes: &[u8], offset: usize) -> (r: Option<(u64, usize)>)
    ensures
        match r {
            Some((n, len)) => varint_at(bytes@, offset as int) == Some((n as nat, len as nat))
                && 1 <= len <= 9 && offset + len <= bytes@.len(),
            None => varint_at(bytes@, offset as int) is None,
        },
{
    let mut acc: u64 = 0;
    let mut k: usize = 0;
    proof {
        lemma_pow0(128);
    }
    while k < 8
        invariant
            k <= 8,
            acc < pow(128, k as nat),
            k > 0 ==> offset + k <= bytes@.len(),
            varint_at(bytes@, offset as int) == varint_from(
                bytes@,
                offset as int,
                k as nat,
                acc as nat,
            ),
        decreases 8 - k,
    {
        if offset >= bytes.len() || k >= bytes.len() - offset {
            return None;
        }
        let b = bytes[offset + k];
        proof {
            lemma_acc_bound(k as nat);
            lemma_pow1(128);
            lemma_pow_adds(128, 1, k as nat);
        }
        if b < 128 {
            return Some((acc * 128 + b as u64, k + 1));
        }
        acc = acc * 128 + (b - 128) as u64;
        k = k + 1;
    }
    if offset >= bytes.len() || 8 >= bytes.len() - offset {
        return None;
    }
    proof {
        lemma_acc_bound(8);
    }
    Some((acc * 256 + bytes[offset + 8] as u64, 9))
}

} // verus!
