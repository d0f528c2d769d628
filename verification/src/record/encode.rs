//! Values to records: a varint header length, one varint serial type per column, then the
//! column bodies back-to-back.
use crate::record::value;
use crate::record::value::{TextEncoding, Value, ValueView};
use crate::record::varint;
use vstd::prelude::*;

verus! {

/// The low `w` bytes of `u`, highest first.
pub open spec fn big_endian(u: nat, w: nat) -> Seq<u8>
    decreases w,
{
    if w == 0 {
        seq![]
    } else {
        big_endian(u / 256, (w - 1) as nat).push((u % 256) as u8)
    }
}

/// The 64-bit two's complement of `i`.
pub open spec fn twos_complement(i: int) -> nat {
    if i >= 0 {
        i as nat
    } else {
        (i + 0x1_0000_0000_0000_0000) as nat
    }
}

/// The serial type of the integer `i`: the smallest width that holds it, with types of
/// their own for 0 and 1.
pub open spec fn integer_type(i: int) -> nat {
    if i == 0 {
        8
    } else if i == 1 {
        9
    } else if -0x80 <= i < 0x80 {
        1
    } else if -0x8000 <= i < 0x8000 {
        2
    } else if -0x80_0000 <= i < 0x80_0000 {
        3
    } else if -0x8000_0000 <= i < 0x8000_0000 {
        4
    } else if -0x8000_0000_0000 <= i < 0x8000_0000_0000 {
        5
    } else {
        6
    }
}

/// How many bytes an integer of the serial type takes.
pub open spec fn integer_width(serial_type: nat) -> nat {
    if 1 <= serial_type <= 4 {
        serial_type
    } else if serial_type == 5 {
        6
    } else if serial_type == 6 {
        8
    } else {
        0
    }
}

/// The UTF-16 code units of `c`.
pub open spec fn units(c: char) -> Seq<u16> {
    if (c as u32) < 0x10000 {
        seq![(c as u32) as u16]
    } else {
        seq![
            (0xd800 + (c as u32 - 0x10000) / 0x400) as u16,
            (0xdc00 + (c as u32 - 0x10000) % 0x400) as u16,
        ]
    }
}

/// The UTF-16 code units of `s`.
pub open spec fn utf16(s: Seq<char>) -> Seq<u16>
    decreases s.len(),
{
    if s.len() == 0 {
        seq![]
    } else {
        utf16(s.drop_last()) + units(s.last())
    }
}

/// Two bytes for each code unit, the high one first where `big` holds.
pub open spec fn unit_bytes(u: Seq<u16>, big: bool) -> Seq<u8> {
    Seq::new(
        2 * u.len(),
        |k: int|
            if (k % 2 == 0) == big {
                (u[k / 2] / 256) as u8
            } else {
                (u[k / 2] % 256) as u8
            },
    )
}

/// `s` as it is stored.
pub open spec fn text_bytes(s: Seq<char>, encoding: TextEncoding) -> Seq<u8> {
    match encoding {
        TextEncoding::Utf8 => vstd::utf8::encode_utf8(s),
        TextEncoding::Utf16Le => unit_bytes(utf16(s), false),
        TextEncoding::Utf16Be => unit_bytes(utf16(s), true),
    }
}

/// `n`, or the largest 64-bit number where `n` is larger.
pub open spec fn capped(n: nat) -> nat {
    if n <= u64::MAX {
        n
    } else {
        u64::MAX as nat
    }
}

pub open spec fn blob_type(len: nat) -> nat {
    capped(12 + 2 * len)
}

pub open spec fn text_type(len: nat) -> nat {
    capped(13 + 2 * len)
}

/// The serial type of a value: the smallest integer width that losslessly holds an
/// INTEGER, the 8-byte IEEE-754 form for REAL, and the `12+2*len`/`13+2*len` scheme for
/// BLOB/TEXT.
pub open spec fn type_of(v: ValueView, encoding: TextEncoding) -> nat {
    match v {
        ValueView::Null => 0,
        ValueView::Integer(i) => integer_type(i as int),
        ValueView::Real(_) => 7,
        ValueView::Blob(b) => blob_type(b.len()),
        ValueView::Text(s) => text_type(text_bytes(s, encoding).len()),
    }
}

/// The bytes of a value.
pub open spec fn body_of(v: ValueView, encoding: TextEncoding) -> Seq<u8> {
    match v {
        ValueView::Null => seq![],
        ValueView::Integer(i) => big_endian(
            twos_complement(i as int),
            integer_width(integer_type(i as int)),
        ),
        ValueView::Real(r) => big_endian(r as nat, 8),
        ValueView::Blob(b) => b,
        ValueView::Text(s) => text_bytes(s, encoding),
    }
}

/// The serial types of the values, as varints back-to-back.
pub open spec fn types_of(vs: Seq<ValueView>, encoding: TextEncoding) -> Seq<u8>
    decreases vs.len(),
{
    if vs.len() == 0 {
        seq![]
    } else {
        types_of(vs.drop_last(), encoding) + varint::varint(type_of(vs.last(), encoding))
    }
}

/// The bodies of the values, back-to-back.
pub open spec fn bodies_of(vs: Seq<ValueView>, encoding: TextEncoding) -> Seq<u8>
    decreases vs.len(),
{
    if vs.len() == 0 {
        seq![]
    } else {
        bodies_of(vs.drop_last(), encoding) + body_of(vs.last(), encoding)
    }
}

/// How many bytes the header length takes in front of `n` bytes of serial types: the
/// least count, from `k` on, that the header length with it takes itself.
pub open spec fn prefix_len(n: nat, k: nat) -> nat
    decreases 9 - k,
{
    if k >= 9 || varint::varint(n + k).len() == k {
        k
    } else {
        prefix_len(n, k + 1)
    }
}

/// The length of a record's header, its own length included.
pub open spec fn header_len(vs: Seq<ValueView>, encoding: TextEncoding) -> nat {
    let n = types_of(vs, encoding).len();
    n + prefix_len(n, 1)
}

/// The record of a row.
pub open spec fn record_of(vs: Seq<ValueView>, encoding: TextEncoding) -> Seq<u8> {
    varint::varint(header_len(vs, encoding)) + types_of(vs, encoding) + bodies_of(vs, encoding)
}

pub fn integer_serial_type(i: i64) -> (t: u64)
    ensures
        t == integer_type(i as int),
{
    if i == 0 {
        8
    } else if i == 1 {
        9
    } else if -0x80 <= i && i < 0x80 {
        1
    } else if -0x8000 <= i && i < 0x8000 {
        2
    } else if -0x80_0000 <= i && i < 0x80_0000 {
        3
    } else if -0x8000_0000 <= i && i < 0x8000_0000 {
        4
    } else if -0x8000_0000_0000 <= i && i < 0x8000_0000_0000 {
        5
    } else {
        6
    }
}

fn push_big_endian(out: &mut Vec<u8>, u: u64, w: u64)
    ensures
        final(out)@ == old(out)@ + big_endian(u as nat, w as nat),
    decreases w,
{
    if w > 0 {
        push_big_endian(out, u / 256, w - 1);
        out.push((u % 256) as u8);
    }
    assert(out@ =~= old(out)@ + big_endian(u as nat, w as nat));
}

fn integer_body(i: i64, serial_type: u64) -> (body: Vec<u8>)
    ensures
        body@ == big_endian(twos_complement(i as int), integer_width(serial_type as nat)),
{
    let u: u64 = if i >= 0 {
        i as u64
    } else {
        (i as i128 + 0x1_0000_0000_0000_0000) as u64
    };
    let w: u64 = if 1 <= serial_type && serial_type <= 4 {
        serial_type
    } else if serial_type == 5 {
        6
    } else if serial_type == 6 {
        8
    } else {
        0
    };
    let mut body: Vec<u8> = Vec::new();
    push_big_endian(&mut body, u, w);
    assert(body@ =~= big_endian(twos_complement(i as int), integer_width(serial_type as nat)));
    body
}

fn push_unit(out: &mut Vec<u8>, u: u16, big: bool)
    ensures
        final(out)@ == old(out)@ + unit_bytes(seq![u], big),
{
    let high = (u / 256) as u8;
    let low = (u % 256) as u8;
    if big {
        out.push(high);
        out.push(low);
    } else {
        out.push(low);
        out.push(high);
    }
    assert(out@ =~= old(out)@ + unit_bytes(seq![u], big));
}

/// The bytes of two runs of code units are those of each in turn.
pub proof fn lemma_unit_bytes_append(a: Seq<u16>, b: Seq<u16>, big: bool)
    ensures
        unit_bytes(a + b, big) == unit_bytes(a, big) + unit_bytes(b, big),
{
    assert(unit_bytes(a + b, big) =~= unit_bytes(a, big) + unit_bytes(b, big)) by {
        assert forall|k: int| 0 <= k < 2 * (a.len() + b.len()) implies unit_bytes(a + b, big)[k]
            == (unit_bytes(a, big) + unit_bytes(b, big))[k] by {
            if k < 2 * a.len() {
                assert((a + b)[k / 2] == a[k / 2]);
            } else {
                let m = k - 2 * a.len();
                assert(k / 2 == a.len() + m / 2 && k % 2 == m % 2);
                assert((a + b)[k / 2] == b[m / 2]);
            }
        }
    }
}

fn encode_utf16(s: &str, big: bool) -> (out: Vec<u8>)
    ensures
        out@ == unit_bytes(utf16(s@), big),
{
    let mut out: Vec<u8> = Vec::new();
    let ghost mut done: Seq<char> = seq![];
    assert(out@ =~= unit_bytes(utf16(done), big));
    for c in iter: s.chars()
        invariant
            iter.seq() == s@,
            done == s@.take(iter.index()),
            out@ == unit_bytes(utf16(done), big),
    {
        let code = c as u32;
        let ghost before = utf16(done);
        if code < 0x10000 {
            push_unit(&mut out, code as u16, big);
            proof {
                lemma_unit_bytes_append(before, seq![code as u16], big);
            }
        } else {
            let high = (0xd800 + (code - 0x10000) / 0x400) as u16;
            let low = (0xdc00 + (code - 0x10000) % 0x400) as u16;
            push_unit(&mut out, high, big);
            push_unit(&mut out, low, big);
            proof {
                lemma_unit_bytes_append(before, seq![high], big);
                lemma_unit_bytes_append(before + seq![high], seq![low], big);
                assert(before + seq![high] + seq![low] =~= before + units(c));
            }
        }
        proof {
            assert(s@.take(iter.index() + 1).drop_last() =~= done);
            done = done.push(c);
            assert(done.drop_last() =~= s@.take(iter.index()));
            assert(s@.take(iter.index() + 1) =~= done);
        }
    }
    assert(done =~= s@);
    out
}

fn encode_text(s: &str, encoding: TextEncoding) -> (out: Vec<u8>)
    ensures
        out@ == text_bytes(s@, encoding),
{
    match encoding {
        TextEncoding::Utf8 => {
            let bytes = s.as_bytes();
            let mut out: Vec<u8> = Vec::new();
            out.extend_from_slice(bytes);
            assert(out@ =~= bytes@);
            out
        },
        TextEncoding::Utf16Le => encode_utf16(s, false),
        TextEncoding::Utf16Be => encode_utf16(s, true),
    }
}

fn blob_serial_type(len: usize) -> (t: u64)
    ensures
        t == blob_type(len as nat),
{
    if len as u64 > 0x7fff_ffff_ffff_fff9 {
        u64::MAX
    } else {
        12 + 2 * (len as u64)
    }
}

fn text_serial_type(len: usize) -> (t: u64)
    ensures
        t == text_type(len as nat),
{
    if len as u64 > 0x7fff_ffff_ffff_fff9 {
        u64::MAX
    } else {
        13 + 2 * (len as u64)
    }
}

/// Returns a value's serial type and encoded body.
pub fn serial_type_and_body(v: &Value, encoding: TextEncoding) -> (r: (u64, Vec<u8>))
    ensures
        r.0 == type_of(v@, encoding),
        r.1@ == body_of(v@, encoding),
{
    match v {
        Value::Null => (0, Vec::new()),
        Value::Integer(i) => {
            let st = integer_serial_type(*i);
            (st, integer_body(*i, st))
        },
        Value::Real(r) => {
            let mut body: Vec<u8> = Vec::new();
            push_big_endian(&mut body, *r, 8);
            assert(body@ =~= big_endian(*r as nat, 8));
            (7, body)
        },
        Value::Blob(b) => (blob_serial_type(b.len()), value::copy_bytes(b)),
        Value::Text(s) => {
            let body = encode_text(s.as_str(), encoding);
            (text_serial_type(body.len()), body)
        },
    }
}

pub proof fn lemma_types_len(vs: Seq<ValueView>, encoding: TextEncoding)
    ensures
        types_of(vs, encoding).len() <= 9 * vs.len(),
    decreases vs.len(),
{
    if vs.len() > 0 {
        lemma_types_len(vs.drop_last(), encoding);
        lemma_type_fits(vs.last(), encoding);
        varint::lemma_varint_len(type_of(vs.last(), encoding));
    }
}

pub proof fn lemma_type_fits(v: ValueView, encoding: TextEncoding)
    ensures
        type_of(v, encoding) <= u64::MAX,
{
}

/// Encodes column values into a record payload: a varint header length, one varint serial
/// type per column, then the column bodies back-to-back. The inverse of
/// [`crate::record::decode_record`].
pub fn encode_record(values: &[Value], encoding: TextEncoding) -> (out: Vec<u8>)
    requires
        values@.len() * 16 <= usize::MAX,
    ensures
        out@ == record_of(value::values(values@), encoding),
{
    let ghost vs = value::values(values@);
    let mut types: Vec<u8> = Vec::new();
    let mut bodies: Vec<u8> = Vec::new();
    let mut i: usize = 0;
    assert(types@ =~= types_of(vs.take(0), encoding));
    assert(bodies@ =~= bodies_of(vs.take(0), encoding));
    while i < values.len()
        invariant
            i <= values@.len(),
            vs == value::values(values@),
            types@ == types_of(vs.take(i as int), encoding),
            bodies@ == bodies_of(vs.take(i as int), encoding),
        decreases values@.len() - i,
    {
        let (st, mut body) = serial_type_and_body(&values[i], encoding);
        let mut type_bytes = varint::encode_varint(st);
        proof {
            assert(vs.take(i + 1).drop_last() =~= vs.take(i as int));
            assert(vs.take(i + 1).last() == values@[i as int]@);
        }
        types.append(&mut type_bytes);
        bodies.append(&mut body);
        i = i + 1;
    }
    assert(vs.take(i as int) =~= vs);
    proof {
        lemma_types_len(vs, encoding);
    }
    let n: u64 = types.len() as u64;
    let mut k: u64 = 1;
    let mut out = varint::encode_varint(n + 1);
    while k < 9 && out.len() as u64 != k
        invariant
            n == types_of(vs, encoding).len(),
            1 <= k <= 9,
            n + 9 <= u64::MAX,
            out@ == varint::varint((n + k) as nat),
            prefix_len(n as nat, 1) == prefix_len(n as nat, k as nat),
        decreases 9 - k,
    {
        k = k + 1;
        out = varint::encode_varint(n + k);
    }
    out.append(&mut types);
    out.append(&mut bodies);
    out
}

} // verus!
