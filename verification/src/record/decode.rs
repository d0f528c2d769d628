//! Records to values: the header walk and the column bodies.
use crate::record::encode;
use crate::record::error::RecordError;
use crate::record::value;
use crate::record::value::{TextEncoding, Value, ValueView};
use crate::record::varint;
use vstd::arithmetic::power::*;
use vstd::prelude::*;

verus! {

// ---- what a record holds --------------------------------------------------------

/// How many bytes a value of the serial type takes.
pub open spec fn body_len(serial_type: nat) -> nat {
    if serial_type >= 12 {
        ((serial_type - 12) / 2) as nat
    } else if serial_type == 7 {
        8
    } else {
        encode::integer_width(serial_type)
    }
}

/// `n`, or the largest machine size where `n` is larger: such an offset lies beyond any
/// buffer.
pub open spec fn far(n: nat) -> usize {
    if n <= usize::MAX {
        n as usize
    } else {
        usize::MAX
    }
}

/// The number that the bytes hold, highest first.
pub open spec fn unsigned_of(b: Seq<u8>) -> nat
    decreases b.len(),
{
    if b.len() == 0 {
        0
    } else {
        unsigned_of(b.drop_last()) * 256 + b.last() as nat
    }
}

/// The number that the bytes hold as two's complement, highest first.
pub open spec fn signed_of(b: Seq<u8>) -> int {
    let u = unsigned_of(b);
    if 2 * u >= pow(256, b.len()) {
        u - pow(256, b.len())
    } else {
        u as int
    }
}

/// The code units that pairs of bytes hold.
pub open spec fn units_of(b: Seq<u8>, big: bool) -> Seq<u16> {
    Seq::new(
        b.len() / 2,
        |k: int|
            if big {
                (b[2 * k] as int * 256 + b[2 * k + 1]) as u16
            } else {
                (b[2 * k + 1] as int * 256 + b[2 * k]) as u16
            },
    )
}

pub open spec fn is_high_surrogate(u: u16) -> bool {
    0xd800 <= u < 0xdc00
}

pub open spec fn is_low_surrogate(u: u16) -> bool {
    0xdc00 <= u < 0xe000
}

/// The characters that UTF-16 code units from `i` on stand for; `None` where a surrogate
/// stands alone.
pub open spec fn chars_from(u: Seq<u16>, i: int) -> Option<Seq<char>>
    decreases u.len() - i,
{
    if i < 0 || i >= u.len() {
        Some(seq![])
    } else if is_high_surrogate(u[i]) {
        if i + 1 < u.len() && is_low_surrogate(u[i + 1]) {
            match chars_from(u, i + 2) {
                None => None,
                Some(rest) => Some(seq![paired_char(u[i], u[i + 1])] + rest),
            }
        } else {
            None
        }
    } else if is_low_surrogate(u[i]) {
        None
    } else {
        match chars_from(u, i + 1) {
            None => None,
            Some(rest) => Some(seq![(u[i] as u32) as char] + rest),
        }
    }
}

/// The character that a pair of surrogates stands for.
pub open spec fn paired_char(high: u16, low: u16) -> char {
    ((0x10000 + (high - 0xd800) * 0x400 + (low - 0xdc00)) as u32) as char
}

/// The text that the bytes hold.
pub open spec fn text_of(b: Seq<u8>, encoding: TextEncoding) -> Result<Seq<char>, RecordError> {
    match encoding {
        TextEncoding::Utf8 => if vstd::utf8::valid_utf8(b) {
            Ok(vstd::utf8::decode_utf8(b))
        } else {
            Err(RecordError::InvalidUtf8)
        },
        _ => {
            let big = encoding == TextEncoding::Utf16Be;
            if b.len() % 2 != 0 {
                Err(RecordError::InvalidUtf16)
            } else {
                match chars_from(units_of(b, big), 0) {
                    Some(s) => Ok(s),
                    None => Err(RecordError::InvalidUtf16),
                }
            }
        },
    }
}

/// The value of the serial type at `offset`.
pub open spec fn value_at(b: Seq<u8>, serial_type: nat, offset: usize, encoding: TextEncoding)
    -> Result<
    ValueView,
    RecordError,
> {
    let len = body_len(serial_type);
    let body = b.subrange(offset as int, offset + len);
    if offset + len > b.len() {
        Err(RecordError::UnexpectedEof { offset })
    } else if serial_type == 0 || serial_type == 10 || serial_type == 11 {
        Ok(ValueView::Null)
    } else if serial_type <= 6 {
        Ok(ValueView::Integer(signed_of(body) as i64))
    } else if serial_type == 7 {
        Ok(ValueView::Real(unsigned_of(body) as u64))
    } else if serial_type == 8 {
        Ok(ValueView::Integer(0))
    } else if serial_type == 9 {
        Ok(ValueView::Integer(1))
    } else if serial_type % 2 == 0 {
        Ok(ValueView::Blob(body))
    } else {
        match text_of(body, encoding) {
            Ok(s) => Ok(ValueView::Text(s)),
            Err(e) => Err(e),
        }
    }
}

/// The header entries from `pos` on, up to the header's end: each column's serial type
/// and the offset of its body, the first of which lies at `offset`.
pub open spec fn entries_from(b: Seq<u8>, pos: int, end: int, offset: usize) -> Result<
    Seq<(nat, usize)>,
    RecordError,
>
    decreases end - pos,
{
    if pos >= end {
        Ok(seq![])
    } else {
        match varint::varint_at(b, pos) {
            None => Err(RecordError::UnexpectedEof { offset: pos as usize }),
            Some((serial_type, len)) => if pos + len > end {
                Err(RecordError::HeaderOverrun { offset: pos as usize, header_len: end as usize })
            } else {
                proof {
                    lemma_varint_takes(b, pos, 0, 0);
                }
                match entries_from(b, pos + len, end, far((offset
                    + body_len(serial_type)) as nat)) {
                    Err(e) => Err(e),
                    Ok(rest) => Ok(seq![(serial_type, offset)] + rest),
                }
            },
        }
    }
}

pub proof fn lemma_varint_takes(b: Seq<u8>, i: int, k: nat, acc: nat)
    requires
        k <= 8,
    ensures
        match varint::varint_from(b, i, k, acc) {
            Some((n, len)) => k < len <= 9 && i + len <= b.len(),
            None => true,
        },
    decreases 9 - k,
{
    if k < 8 && 0 <= i + k < b.len() && b[i + k] >= 128 {
        lemma_varint_takes(b, i, k + 1, (acc * 128 + b[i + k] as nat - 128) as nat);
    }
}

/// The header of a record: its entries.
pub open spec fn entries_of(b: Seq<u8>) -> Result<Seq<(nat, usize)>, RecordError> {
    match varint::varint_at(b, 0) {
        None => Err(RecordError::UnexpectedEof { offset: 0 }),
        Some((declared, len)) => if declared < len {
            Err(
                RecordError::HeaderTooShort {
                    declared: declared as usize,
                    varint_len: len as usize,
                },
            )
        } else {
            entries_from(b, len as int, declared as int, far(declared))
        },
    }
}

/// The values of the entries from `k` on.
pub open spec fn values_from(
    b: Seq<u8>,
    entries: Seq<(nat, usize)>,
    k: int,
    encoding: TextEncoding,
) -> Result<Seq<ValueView>, RecordError>
    decreases entries.len() - k,
{
    if k < 0 || k >= entries.len() {
        Ok(seq![])
    } else {
        match value_at(b, entries[k].0, entries[k].1, encoding) {
            Err(e) => Err(e),
            Ok(v) => match values_from(b, entries, k + 1, encoding) {
                Err(e) => Err(e),
                Ok(rest) => Ok(seq![v] + rest),
            },
        }
    }
}

/// Where the last of the entries ends; the end of the header where there are none.
pub open spec fn end_of(b: Seq<u8>, entries: Seq<(nat, usize)>) -> nat {
    if entries.len() == 0 {
        match varint::varint_at(b, 0) {
            Some((_, len)) => len,
            None => 0,
        }
    } else {
        entries.last().1 as nat + body_len(entries.last().0)
    }
}

/// The row that a record holds.
pub open spec fn row_of(b: Seq<u8>, encoding: TextEncoding) -> Result<Seq<ValueView>, RecordError> {
    match entries_of(b) {
        Err(e) => Err(e),
        Ok(entries) => match values_from(b, entries, 0, encoding) {
            Err(e) => Err(e),
            Ok(vs) => if end_of(b, entries) < b.len() {
                Err(RecordError::TrailingData { trailing: (b.len() - end_of(b, entries)) as usize })
            } else {
                Ok(vs)
            },
        },
    }
}

/// One column of the row that a record holds; NULL beyond the last.
pub open spec fn column_of(b: Seq<u8>, index: int, encoding: TextEncoding) -> Result<
    ValueView,
    RecordError,
> {
    match entries_of(b) {
        Err(e) => Err(e),
        Ok(entries) => if index < entries.len() {
            value_at(b, entries[index].0, entries[index].1, encoding)
        } else {
            Ok(ValueView::Null)
        },
    }
}

// ---- decoding -----------------------------------------------------------------------

/// `String::from_utf8`: succeeds exactly on valid UTF-8, and the string's bytes are the
/// bytes given.
#[verifier::external_body]
fn string_from_utf8(bytes: Vec<u8>) -> (r: Option<String>)
    ensures
        r is Some <==> vstd::utf8::valid_utf8(bytes@),
        r is Some ==> vstd::utf8::encode_utf8(r->0@) == bytes@,
{
    String::from_utf8(bytes).ok()
}

fn body_size(serial_type: u64) -> (n: u64)
    ensures
        n == body_len(serial_type as nat),
{
    if serial_type >= 12 {
        (serial_type - 12) / 2
    } else if serial_type == 7 || serial_type == 6 {
        8
    } else if serial_type == 5 {
        6
    } else if serial_type <= 4 {
        serial_type
    } else {
        0
    }
}

/// The bytes `b[from..to]`.
fn slice_bytes(b: &[u8], from: usize, to: usize) -> (r: Vec<u8>)
    requires
        from <= to <= b@.len(),
    ensures
        r@ == b@.subrange(from as int, to as int),
{
    let mut r: Vec<u8> = Vec::new();
    let mut i: usize = from;
    while i < to
        invariant
            from <= i <= to <= b@.len(),
            r@ == b@.subrange(from as int, i as int),
        decreases to - i,
    {
        r.push(b[i]);
        i = i + 1;
        assert(r@ =~= b@.subrange(from as int, i as int));
    }
    r
}

proof fn lemma_unsigned_bound(b: Seq<u8>)
    ensures
        unsigned_of(b) < pow(256, b.len()),
    decreases b.len(),
{
    if b.len() == 0 {
        lemma_pow0(256);
    } else {
        lemma_unsigned_bound(b.drop_last());
        lemma_pow1(256);
        lemma_pow_adds(256, 1, (b.len() - 1) as nat);
    }
}

proof fn lemma_pow_256(n: nat)
    requires
        n <= 8,
    ensures
        pow(256, n) <= 0x1_0000_0000_0000_0000,
        n == 0 ==> pow(256, n) == 1,
        n == 1 ==> pow(256, n) == 0x100,
        n == 2 ==> pow(256, n) == 0x1_0000,
        n == 3 ==> pow(256, n) == 0x100_0000,
        n == 4 ==> pow(256, n) == 0x1_0000_0000,
        n == 6 ==> pow(256, n) == 0x1_0000_0000_0000,
        n == 8 ==> pow(256, n) == 0x1_0000_0000_0000_0000,
{
    reveal(pow);
    assert(pow(256, 0) == 1 && pow(256, 1) == 0x100 && pow(256, 2) == 0x1_0000 && pow(256, 3)
        == 0x100_0000 && pow(256, 4) == 0x1_0000_0000 && pow(256, 6) == 0x1_0000_0000_0000 && pow(
        256,
        8,
    ) == 0x1_0000_0000_0000_0000) by {
        reveal_with_fuel(pow, 9);
    }
    lemma_pow_increases(256, n, 8);
}

/// Reads `b[from..to]`, of at most 8 bytes.
fn read_unsigned(b: &[u8], from: usize, to: usize) -> (u: u64)
    requires
        from <= to <= b@.len(),
        to - from <= 8,
    ensures
        u == unsigned_of(b@.subrange(from as int, to as int)),
{
    let mut u: u64 = 0;
    let mut i: usize = from;
    while i < to
        invariant
            from <= i <= to <= b@.len(),
            to - from <= 8,
            u == unsigned_of(b@.subrange(from as int, i as int)),
        decreases to - i,
    {
        let ghost next = b@.subrange(from as int, i + 1);
        proof {
            assert(next.drop_last() =~= b@.subrange(from as int, i as int));
            lemma_unsigned_bound(next);
            lemma_pow_256(next.len());
        }
        u = u * 256 + b[i] as u64;
        i = i + 1;
    }
    u
}

fn read_signed(b: &[u8], from: usize, to: usize) -> (n: i64)
    requires
        from <= to <= b@.len(),
        to - from == 1 || to - from == 2 || to - from == 3 || to - from == 4 || to - from == 6
            || to - from == 8,
    ensures
        n == signed_of(b@.subrange(from as int, to as int)),
{
    let u: u64 = read_unsigned(b, from, to);
    let width: usize = to - from;
    let span: u128 = if width == 1 {
        0x100
    } else if width == 2 {
        0x1_0000
    } else if width == 3 {
        0x100_0000
    } else if width == 4 {
        0x1_0000_0000
    } else if width == 6 {
        0x1_0000_0000_0000
    } else {
        0x1_0000_0000_0000_0000
    };
    proof {
        lemma_pow_256(width as nat);
        lemma_unsigned_bound(b@.subrange(from as int, to as int));
    }
    if 2 * (u as u128) >= span {
        ((u as i128) - (span as i128)) as i64
    } else {
        u as i64
    }
}

fn decode_units(b: &Vec<u8>, big: bool) -> (r: Vec<u16>)
    requires
        b@.len() % 2 == 0,
    ensures
        r@ == units_of(b@, big),
{
    let mut r: Vec<u16> = Vec::new();
    let mut i: usize = 0;
    while i < b.len()
        invariant
            i <= b.len(),
            i % 2 == 0,
            b@.len() % 2 == 0,
            r@.len() == i / 2,
            forall|k: int| 0 <= k < r@.len() ==> #[trigger] r@[k] == units_of(b@, big)[k],
        decreases b.len() - i,
    {
        let first = b[i] as u32;
        let second = b[i + 1] as u32;
        let u: u32 = if big {
            first * 256 + second
        } else {
            second * 256 + first
        };
        r.push(u as u16);
        i = i + 2;
    }
    assert(r@ =~= units_of(b@, big));
    r
}

/// `char::from_u32` on a number that is a Unicode scalar value.
#[verifier::external_body]
fn char_from(code: u32) -> (c: char)
    requires
        code < 0xd800 || 0xe000 <= code <= 0x10ffff,
    ensures
        c as u32 == code,
{
    char::from_u32(code).unwrap_or_default()
}

fn decode_utf16(u: &Vec<u16>) -> (r: Option<String>)
    ensures
        match r {
            Some(s) => chars_from(u@, 0) == Some(s@),
            None => chars_from(u@, 0) is None,
        },
{
    let mut s = String::new();
    let mut i: usize = 0;
    let ghost whole = chars_from(u@, 0);
    assert(match whole {
        Some(rest) => s@ + rest =~= rest,
        None => true,
    });
    while i < u.len()
        invariant
            i <= u.len(),
            whole == chars_from(u@, 0),
            match chars_from(u@, i as int) {
                Some(rest) => whole == Some(s@ + rest),
                None => whole is None,
            },
        decreases u.len() - i,
    {
        let first = u[i];
        let ghost past = s@;
        if 0xd800 <= first && first < 0xdc00 {
            if i + 1 >= u.len() {
                return None;
            }
            let second = u[i + 1];
            if !(0xdc00 <= second && second < 0xe000) {
                return None;
            }
            let code: u32 = 0x10000 + ((first - 0xd800) as u32) * 0x400
                + ((second - 0xdc00) as u32);
            let c = char_from(code);
            s.push(c);
            proof {
                assert(c == paired_char(first, second));
                if let Some(rest) = chars_from(u@, i + 2) {
                    assert(past + (seq![c] + rest) =~= s@ + rest);
                }
            }
            i = i + 2;
        } else if 0xdc00 <= first && first < 0xe000 {
            return None;
        } else {
            let c = char_from(first as u32);
            s.push(c);
            proof {
                assert(c == (first as u32) as char);
                if let Some(rest) = chars_from(u@, i + 1) {
                    assert(past + (seq![c] + rest) =~= s@ + rest);
                }
            }
            i = i + 1;
        }
    }
    assert(s@ + seq![] =~= s@);
    Some(s)
}

fn decode_text(b: Vec<u8>, encoding: TextEncoding) -> (r: Result<String, RecordError>)
    ensures
        match r {
            Ok(s) => text_of(b@, encoding) == Ok::<Seq<char>, RecordError>(s@),
            Err(e) => text_of(b@, encoding) == Err::<Seq<char>, RecordError>(e),
        },
{
    if encoding == TextEncoding::Utf8 {
        return match string_from_utf8(b) {
            Some(s) => {
                proof {
                    vstd::utf8::encode_utf8_decode_utf8(s@);
                }
                Ok(s)
            },
            None => Err(RecordError::InvalidUtf8),
        };
    }
    if b.len() % 2 != 0 {
        return Err(RecordError::InvalidUtf16);
    }
    let units = decode_units(&b, encoding == TextEncoding::Utf16Be);
    match decode_utf16(&units) {
        Some(s) => Ok(s),
        None => Err(RecordError::InvalidUtf16),
    }
}

/// Decodes the value of `serial_type` whose body lies at `offset` of `payload`.
pub fn decode_serial_value(
    serial_type: u64,
    payload: &[u8],
    offset: usize,
    encoding: TextEncoding,
) -> (r: Result<Value, RecordError>)
    ensures
        match r {
            Ok(v) => value_at(payload@, serial_type as nat, offset, encoding) == Ok::<
                ValueView,
                RecordError,
            >(v@),
            Err(e) => value_at(payload@, serial_type as nat, offset, encoding) == Err::<
                ValueView,
                RecordError,
            >(e),
        },
{
    let len: u64 = body_size(serial_type);
    if offset > payload.len() || len > (payload.len() - offset) as u64 {
        return Err(RecordError::UnexpectedEof { offset });
    }
    let end: usize = offset + len as usize;
    if serial_type == 0 || serial_type == 10 || serial_type == 11 {
        Ok(Value::Null)
    } else if serial_type <= 6 {
        Ok(Value::Integer(read_signed(payload, offset, end)))
    } else if serial_type == 7 {
        Ok(Value::Real(read_unsigned(payload, offset, end)))
    } else if serial_type == 8 {
        Ok(Value::Integer(0))
    } else if serial_type == 9 {
        Ok(Value::Integer(1))
    } else if serial_type % 2 == 0 {
        Ok(Value::Blob(slice_bytes(payload, offset, end)))
    } else {
        match decode_text(slice_bytes(payload, offset, end), encoding) {
            Ok(s) => Ok(Value::Text(s)),
            Err(e) => Err(e),
        }
    }
}

/// The header entries of a list, each as numbers.
pub open spec fn entry_views(v: Seq<(u64, usize)>) -> Seq<(nat, usize)> {
    v.map_values(|e: (u64, usize)| (e.0 as nat, e.1))
}

/// Walks a record's header: each column's serial type and the offset of its body.
pub fn parse_header(payload: &[u8]) -> (r: Result<Vec<(u64, usize)>, RecordError>)
    ensures
        match r {
            Ok(entries) => entries_of(payload@) == Ok::<Seq<(nat, usize)>, RecordError>(
                entry_views(entries@),
            ),
            Err(e) => entries_of(payload@) == Err::<Seq<(nat, usize)>, RecordError>(e),
        },
{
    let (declared, first) = match varint::decode_varint(payload, 0) {
        Some(x) => x,
        None => {
            return Err(RecordError::UnexpectedEof { offset: 0 });
        },
    };
    if declared < first as u64 {
        return Err(
            RecordError::HeaderTooShort { declared: declared as usize, varint_len: first },
        );
    }
    let total: usize = payload.len();
    let mut entries: Vec<(u64, usize)> = Vec::new();
    let mut pos: usize = first;
    let mut offset: usize = if declared <= usize::MAX as u64 {
        declared as usize
    } else {
        usize::MAX
    };
    let ghost whole = entries_of(payload@);
    assert(match whole {
        Ok(rest) => entry_views(entries@) + rest =~= rest,
        Err(_) => true,
    });
    while (pos as u64) < declared
        invariant
            total == payload@.len(),
            pos <= total,
            whole == entries_of(payload@),
            match entries_from(payload@, pos as int, declared as int, offset) {
                Ok(rest) => whole == Ok::<Seq<(nat, usize)>, RecordError>(
                    entry_views(entries@) + rest,
                ),
                Err(e) => whole == Err::<Seq<(nat, usize)>, RecordError>(e),
            },
        decreases declared - pos,
    {
        let (serial_type, len) = match varint::decode_varint(payload, pos) {
            Some(x) => x,
            None => {
                return Err(RecordError::UnexpectedEof { offset: pos });
            },
        };
        if (pos + len) as u64 > declared {
            return Err(
                RecordError::HeaderOverrun { offset: pos, header_len: declared as usize },
            );
        }
        let ghost past = entry_views(entries@);
        let entry = (serial_type, offset);
        entries.push(entry);
        let size: u64 = body_size(serial_type);
        let next: usize = if size <= (usize::MAX - offset) as u64 {
            offset + size as usize
        } else {
            usize::MAX
        };
        proof {
            assert(entry_views(entries@) =~= past.push((serial_type as nat, offset)));
            if let Ok(rest) = entries_from(payload@, pos + len, declared as int, next) {
                assert(past + (seq![(serial_type as nat, offset)] + rest) =~= entry_views(entries@)
                    + rest);
            }
        }
        offset = next;
        pos = pos + len;
    }
    assert(entry_views(entries@) + seq![] =~= entry_views(entries@));
    Ok(entries)
}

/// Decodes a record into the values of its columns.
pub fn decode_record(payload: &[u8], encoding: TextEncoding) -> (r: Result<
    Vec<Value>,
    RecordError,
>)
    ensures
        match r {
            Ok(vs) => row_of(payload@, encoding) == Ok::<Seq<ValueView>, RecordError>(
                value::values(vs@),
            ),
            Err(e) => row_of(payload@, encoding) == Err::<Seq<ValueView>, RecordError>(e),
        },
{
    let entries = parse_header(payload)?;
    let mut vs: Vec<Value> = Vec::new();
    let mut i: usize = 0;
    let ghost ev = entry_views(entries@);
    let ghost whole = values_from(payload@, ev, 0, encoding);
    assert(match whole {
        Ok(rest) => value::values(vs@) + rest =~= rest,
        Err(_) => true,
    });
    let mut end: u64 = match varint::decode_varint(payload, 0) {
        Some((_, len)) => len as u64,
        None => 0,
    };
    let total: usize = payload.len();
    let mut ended: usize = 0;
    while i < entries.len()
        invariant
            total == payload@.len(),
            i <= entries.len(),
            ev == entry_views(entries@),
            whole == values_from(payload@, ev, 0, encoding),
            entries_of(payload@) == Ok::<Seq<(nat, usize)>, RecordError>(ev),
            match values_from(payload@, ev, i as int, encoding) {
                Ok(rest) => whole == Ok::<Seq<ValueView>, RecordError>(value::values(vs@) + rest),
                Err(e) => whole == Err::<Seq<ValueView>, RecordError>(e),
            },
            i > 0 ==> ended <= payload@.len() && ended == ev[i - 1].1 + body_len(ev[i - 1].0),
        decreases entries.len() - i,
    {
        let (serial_type, offset) = entries[i];
        assert(ev[i as int] == (serial_type as nat, offset));
        let v = decode_serial_value(serial_type, payload, offset, encoding)?;
        ended = offset + body_size(serial_type) as usize;
        let ghost past = value::values(vs@);
        vs.push(v);
        proof {
            assert(value::values(vs@) =~= past.push(v@));
            if let Ok(rest) = values_from(payload@, ev, i + 1, encoding) {
                assert(past + (seq![v@] + rest) =~= value::values(vs@) + rest);
            }
        }
        i = i + 1;
    }
    assert(value::values(vs@) + seq![] =~= value::values(vs@));
    if i > 0 {
        end = ended as u64;
    }
    assert(end == end_of(payload@, ev));
    if end < total as u64 {
        return Err(RecordError::TrailingData { trailing: total - end as usize });
    }
    Ok(vs)
}

/// Decodes one column of a record; NULL where the record has fewer columns.
pub fn decode_column(payload: &[u8], index: usize, encoding: TextEncoding) -> (r: Result<
    Value,
    RecordError,
>)
    ensures
        match r {
            Ok(v) => column_of(payload@, index as int, encoding) == Ok::<ValueView, RecordError>(
                v@,
            ),
            Err(e) => column_of(payload@, index as int, encoding) == Err::<ValueView, RecordError>(
                e,
            ),
        },
{
    let entries = parse_header(payload)?;
    assert(entry_views(entries@).len() == entries@.len());
    if index < entries.len() {
        let (serial_type, offset) = entries[index];
        assert(entry_views(entries@)[index as int] == (serial_type as nat, offset));
        decode_serial_value(serial_type, payload, offset, encoding)
    } else {
        Ok(Value::Null)
    }
}

// ---- the laws -----------------------------------------------------------------------

proof fn lemma_values_from_at(
    b: Seq<u8>,
    entries: Seq<(nat, usize)>,
    k: int,
    encoding: TextEncoding,
    index: int,
)
    requires
        0 <= k <= index < entries.len(),
        values_from(b, entries, k, encoding) is Ok,
    ensures
        values_from(b, entries, k, encoding)->Ok_0.len() == entries.len() - k,
        value_at(b, entries[index].0, entries[index].1, encoding) == Ok::<ValueView, RecordError>(
            values_from(b, entries, k, encoding)->Ok_0[index - k],
        ),
    decreases entries.len() - k,
{
    let rest = values_from(b, entries, k + 1, encoding);
    if k + 1 < entries.len() {
        lemma_values_from_at(
            b,
            entries,
            k + 1,
            encoding,
            if index > k {
                index
            } else {
                k + 1
            },
        );
    }
    let all = values_from(b, entries, k, encoding)->Ok_0;
    assert(all == seq![value_at(b, entries[k].0, entries[k].1, encoding)->Ok_0] + rest->Ok_0);
    if index > k {
        assert(all[index - k] == rest->Ok_0[index - k - 1]);
    }
}

/// A column read alone is that of the row, and NULL beyond its last.
pub proof fn law_column_is_of_the_row(b: Seq<u8>, index: int, encoding: TextEncoding)
    requires
        0 <= index,
        row_of(b, encoding) is Ok,
    ensures
        column_of(b, index, encoding) == Ok::<ValueView, RecordError>(
            if index < row_of(b, encoding)->Ok_0.len() {
                row_of(b, encoding)->Ok_0[index]
            } else {
                ValueView::Null
            },
        ),
{
    let entries = entries_of(b)->Ok_0;
    if entries.len() > 0 {
        lemma_values_from_at(
            b,
            entries,
            0,
            encoding,
            if index < entries.len() {
                index
            } else {
                0
            },
        );
    }
}

/// One byte is a number from -128 to 127, and each further byte is the next digit to the base of
/// 256.
pub proof fn law_bytes_are_signed_numbers(b: Seq<u8>, x: u8)
    ensures
        signed_of(seq![x]) == (if x < 128 {
            x as int
        } else {
            x - 256
        }),
        b.len() > 0 ==> signed_of(b.push(x)) == signed_of(b) * 256 + x,
{
    reveal_with_fuel(unsigned_of, 2);
    assert(seq![x].drop_last() =~= seq![]);
    assert(pow(256, 1) == 256) by {
        reveal_with_fuel(pow, 2);
    }
    assert(b.push(x).drop_last() =~= b);
    if b.len() > 0 {
        let n = b.len();
        assert(pow(256, n + 1) == 256 * pow(256, n)) by {
            reveal_with_fuel(pow, 2);
        }
        assert(pow(256, n) == 256 * pow(256, (n - 1) as nat)) by {
            reveal_with_fuel(pow, 2);
        }
        assert(unsigned_of(b.push(x)) == unsigned_of(b) * 256 + x);
    }
}

/// Whether the value of a serial type takes these bytes.
pub open spec fn takes(serial_type: nat, bytes: int) -> bool {
    if serial_type >= 12 {
        serial_type == 12 + 2 * bytes || serial_type == 13 + 2 * bytes
    } else {
        bytes == (if serial_type <= 4 {
            serial_type as int
        } else if serial_type == 5 {
            6
        } else if serial_type <= 7 {
            8
        } else {
            0
        })
    }
}

/// What a serial type says of its bytes: integers of one, two, three, four, six and eight bytes, a
/// double, zero and one without bytes, and blobs and texts of any length.
pub proof fn law_serial_types(
    b: Seq<u8>,
    serial_type: nat,
    offset: usize,
    bytes: int,
    encoding: TextEncoding,
)
    requires
        0 <= bytes,
        takes(serial_type, bytes),
        offset + bytes <= b.len(),
    ensures
        ({
            let body = b.subrange(offset as int, offset + bytes);
            let v = value_at(b, serial_type, offset, encoding);
            &&& serial_type == 0 ==> v == Ok::<ValueView, RecordError>(ValueView::Null)
            &&& 1 <= serial_type <= 6 ==> v == Ok::<ValueView, RecordError>(
                ValueView::Integer(signed_of(body) as i64),
            )
            &&& serial_type == 7 ==> v == Ok::<ValueView, RecordError>(
                ValueView::Real(unsigned_of(body) as u64),
            )
            &&& serial_type == 8 ==> v == Ok::<ValueView, RecordError>(ValueView::Integer(0))
            &&& serial_type == 9 ==> v == Ok::<ValueView, RecordError>(ValueView::Integer(1))
            &&& serial_type >= 12 && serial_type % 2 == 0 ==> v == Ok::<ValueView, RecordError>(
                ValueView::Blob(body),
            )
            &&& serial_type >= 13 && serial_type % 2 == 1 ==> v == (match text_of(body, encoding) {
                Ok(chars) => Ok::<ValueView, RecordError>(ValueView::Text(chars)),
                Err(e) => Err(e),
            })
        }),
{
}

} // verus!
