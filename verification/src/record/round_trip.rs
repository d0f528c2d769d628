//! What is written is read back.
use crate::record::decode;
use crate::record::encode;
use crate::record::error::RecordError;
use crate::record::value::{TextEncoding, ValueView};
use crate::record::varint;
use vstd::arithmetic::div_mod::*;
use vstd::arithmetic::power::*;
use vstd::prelude::*;

verus! {

proof fn lemma_big_endian(u: nat, w: nat)
    ensures
        encode::big_endian(u, w).len() == w,
        decode::unsigned_of(encode::big_endian(u, w)) == u % (pow(256, w) as nat),
        pow(256, w) > 0,
    decreases w,
{
    lemma_pow_positive(256, w);
    if w == 0 {
        lemma_pow0(256);
    } else {
        let h = (w - 1) as nat;
        lemma_big_endian(u / 256, h);
        lemma_pow1(256);
        lemma_pow_adds(256, 1, h);
        lemma_mod_breakdown(u as int, 256, pow(256, h));
        assert(encode::big_endian(u, w).drop_last() =~= encode::big_endian(u / 256, h));
    }
}

proof fn lemma_widths()
    ensures
        pow(256, 0) == 1,
        pow(256, 1) == 0x100,
        pow(256, 2) == 0x1_0000,
        pow(256, 3) == 0x100_0000,
        pow(256, 4) == 0x1_0000_0000,
        pow(256, 6) == 0x1_0000_0000_0000,
        pow(256, 8) == 0x1_0000_0000_0000_0000,
{
    reveal(pow);
    assert(pow(256, 0) == 1 && pow(256, 1) == 0x100 && pow(256, 2) == 0x1_0000 && pow(256, 3)
        == 0x100_0000 && pow(256, 4) == 0x1_0000_0000 && pow(256, 6) == 0x1_0000_0000_0000 && pow(
        256,
        8,
    ) == 0x1_0000_0000_0000_0000) by {
        reveal_with_fuel(pow, 9);
    }
}

/// The low `w` bytes of a number that `w` bytes hold are read back as the number.
proof fn lemma_signed(i: int, w: nat, m: int, k: int)
    requires
        pow(256, w) == m,
        m % 2 == 0,
        m > 0,
        0x1_0000_0000_0000_0000 == m * (k + 1),
        -m <= 2 * i < m,
        -0x1_0000_0000_0000_0000 <= i,
    ensures
        encode::big_endian(encode::twos_complement(i), w).len() == w,
        decode::signed_of(encode::big_endian(encode::twos_complement(i), w)) == i,
{
    let u = encode::twos_complement(i);
    lemma_big_endian(u, w);
    if i >= 0 {
        lemma_small_mod(i as nat, m as nat);
    } else {
        assert(m * (k + 1) == m * k + m) by (nonlinear_arith);
        assert(u == m * k + (i + m));
        lemma_mod_multiples_vanish(k, i + m, m);
        lemma_small_mod((i + m) as nat, m as nat);
    }
}

proof fn lemma_integer(i: i64)
    ensures
        encode::big_endian(
            encode::twos_complement(i as int),
            encode::integer_width(encode::integer_type(i as int)),
        ).len() == decode::body_len(encode::integer_type(i as int)),
        1 <= encode::integer_type(i as int) <= 6 ==> decode::signed_of(
            encode::big_endian(
                encode::twos_complement(i as int),
                encode::integer_width(encode::integer_type(i as int)),
            ),
        ) == i,
{
    let t = encode::integer_type(i as int);
    lemma_widths();
    lemma_big_endian(encode::twos_complement(i as int), encode::integer_width(t));
    if t == 1 {
        lemma_signed(i as int, 1, 0x100, 0xff_ffff_ffff_ffff);
    } else if t == 2 {
        lemma_signed(i as int, 2, 0x1_0000, 0xffff_ffff_ffff);
    } else if t == 3 {
        lemma_signed(i as int, 3, 0x100_0000, 0xff_ffff_ffff);
    } else if t == 4 {
        lemma_signed(i as int, 4, 0x1_0000_0000, 0xffff_ffff);
    } else if t == 5 {
        lemma_signed(i as int, 6, 0x1_0000_0000_0000, 0xffff);
    } else if t == 6 {
        lemma_signed(i as int, 8, 0x1_0000_0000_0000_0000, 0);
    }
}

proof fn lemma_units_of(u: Seq<u16>, big: bool)
    ensures
        decode::units_of(encode::unit_bytes(u, big), big) == u,
        encode::unit_bytes(u, big).len() % 2 == 0,
{
    let b = encode::unit_bytes(u, big);
    assert(decode::units_of(b, big) =~= u) by {
        assert forall|k: int| 0 <= k < u.len() implies decode::units_of(b, big)[k] == u[k] by {
            assert((2 * k) / 2 == k && (2 * k + 1) / 2 == k && (2 * k) % 2 == 0 && (2 * k + 1) % 2
                == 1);
        }
    }
}

/// Behind whole characters, the units of one more are read as that character.
proof fn lemma_chars_append(u: Seq<u16>, i: int, c: char)
    requires
        0 <= i <= u.len(),
        decode::chars_from(u, i) is Some,
    ensures
        decode::chars_from(u + encode::units(c), i) == Some(decode::chars_from(u, i)->0.push(c)),
    decreases u.len() - i,
{
    let v = u + encode::units(c);
    if i == u.len() {
        assert(v[i] == encode::units(c)[0]);
        if (c as u32) >= 0x10000 {
            assert(v[i + 1] == encode::units(c)[1]);
            let code = c as u32;
            assert(decode::paired_char(v[i], v[i + 1]) as u32 == code);
            assert(decode::chars_from(v, i + 2) == Some(Seq::<char>::empty()));
        } else {
            assert(decode::chars_from(v, i + 1) == Some(Seq::<char>::empty()));
        }
        assert(seq![c] + Seq::<char>::empty() =~= decode::chars_from(u, i)->0.push(c));
    } else {
        assert(v[i] == u[i]);
        if decode::is_high_surrogate(u[i]) {
            assert(v[i + 1] == u[i + 1]);
            lemma_chars_append(u, i + 2, c);
            let rest = decode::chars_from(u, i + 2)->0;
            let head = seq![decode::paired_char(u[i], u[i + 1])];
            assert((head + rest).push(c) =~= head + rest.push(c));
        } else {
            lemma_chars_append(u, i + 1, c);
            let rest = decode::chars_from(u, i + 1)->0;
            let head = seq![(u[i] as u32) as char];
            assert((head + rest).push(c) =~= head + rest.push(c));
        }
    }
}

proof fn lemma_utf16(s: Seq<char>)
    ensures
        decode::chars_from(encode::utf16(s), 0) == Some(s),
    decreases s.len(),
{
    if s.len() == 0 {
        assert(s =~= seq![]);
    } else {
        lemma_utf16(s.drop_last());
        lemma_chars_append(encode::utf16(s.drop_last()), 0, s.last());
        assert(s.drop_last().push(s.last()) =~= s);
    }
}

/// Text is read back as it was stored, in each encoding.
pub proof fn law_text_round_trip(s: Seq<char>, encoding: TextEncoding)
    ensures
        decode::text_of(encode::text_bytes(s, encoding), encoding) == Ok::<
            Seq<char>,
            RecordError,
        >(s),
{
    match encoding {
        TextEncoding::Utf8 => {
            vstd::utf8::encode_utf8_valid_utf8(s);
            vstd::utf8::encode_utf8_decode_utf8(s);
        },
        TextEncoding::Utf16Le => {
            lemma_units_of(encode::utf16(s), false);
            lemma_utf16(s);
        },
        TextEncoding::Utf16Be => {
            lemma_units_of(encode::utf16(s), true);
            lemma_utf16(s);
        },
    }
}

/// A value's body is read back as the value, wherever in a buffer it lies.
pub proof fn law_value_round_trip(
    b: Seq<u8>,
    v: ValueView,
    offset: usize,
    encoding: TextEncoding,
)
    requires
        13 + 2 * encode::body_of(v, encoding).len() <= u64::MAX,
        offset + encode::body_of(v, encoding).len() <= b.len(),
        b.subrange(offset as int, offset + encode::body_of(v, encoding).len()) == encode::body_of(
            v,
            encoding,
        ),
    ensures
        decode::body_len(encode::type_of(v, encoding)) == encode::body_of(v, encoding).len(),
        decode::value_at(b, encode::type_of(v, encoding), offset, encoding) == Ok::<
            ValueView,
            RecordError,
        >(v),
{
    match v {
        ValueView::Null => {
            let body: Seq<u8> = encode::body_of(v, encoding);
            assert(body.len() == 0);
            assert(encode::type_of(v, encoding) == 0);
            assert(decode::body_len(0) == 0);
        },
        ValueView::Integer(i) => {
            lemma_integer(i);
        },
        ValueView::Real(r) => {
            lemma_widths();
            lemma_big_endian(r as nat, 8);
        },
        ValueView::Blob(_) => {},
        ValueView::Text(s) => {
            law_text_round_trip(s, encoding);
        },
    }
}

proof fn lemma_group_count_grows(a: nat, b: nat)
    requires
        a <= b,
    ensures
        varint::group_count(a) <= varint::group_count(b),
    decreases a,
{
    if a >= 128 {
        assert(a / 128 <= b / 128) by (nonlinear_arith)
            requires
                a <= b,
        ;
        lemma_group_count_grows(a / 128, b / 128);
    }
}

/// The header length takes as many bytes as it counts for itself.
proof fn lemma_prefix_len(n: nat, k: nat)
    requires
        1 <= k <= 9,
        n + 9 <= u64::MAX,
        varint::varint(n + k).len() >= k,
    ensures
        1 <= encode::prefix_len(n, k) <= 9,
        varint::varint(n + encode::prefix_len(n, k)).len() == encode::prefix_len(n, k),
    decreases 9 - k,
{
    varint::lemma_varint_len(n + k);
    if k < 9 && varint::varint(n + k).len() != k {
        varint::lemma_varint_len(n + k + 1);
        lemma_group_count_grows(n + k, n + k + 1);
        lemma_prefix_len(n, k + 1);
    }
}

/// The serial types of the first values come first.
proof fn lemma_types_prefix(vs: Seq<ValueView>, j: int, encoding: TextEncoding)
    requires
        0 <= j <= vs.len(),
    ensures
        ({
            let part = encode::types_of(vs.take(j), encoding);
            let whole = encode::types_of(vs, encoding);
            part.len() <= whole.len() && whole.take(part.len() as int) == part
        }),
    decreases vs.len(),
{
    let part = encode::types_of(vs.take(j), encoding);
    let whole = encode::types_of(vs, encoding);
    if j == vs.len() {
        assert(vs.take(j) =~= vs);
        assert(whole.take(whole.len() as int) =~= whole);
    } else {
        lemma_types_prefix(vs.drop_last(), j, encoding);
        assert(vs.drop_last().take(j) =~= vs.take(j));
        let before = encode::types_of(vs.drop_last(), encoding);
        assert(whole.take(part.len() as int) =~= before.take(part.len() as int));
    }
}

/// The bodies of the first values come first.
proof fn lemma_bodies_prefix(vs: Seq<ValueView>, j: int, encoding: TextEncoding)
    requires
        0 <= j <= vs.len(),
    ensures
        ({
            let part = encode::bodies_of(vs.take(j), encoding);
            let whole = encode::bodies_of(vs, encoding);
            part.len() <= whole.len() && whole.take(part.len() as int) == part
        }),
    decreases vs.len(),
{
    let part = encode::bodies_of(vs.take(j), encoding);
    let whole = encode::bodies_of(vs, encoding);
    if j == vs.len() {
        assert(vs.take(j) =~= vs);
        assert(whole.take(whole.len() as int) =~= whole);
    } else {
        lemma_bodies_prefix(vs.drop_last(), j, encoding);
        assert(vs.drop_last().take(j) =~= vs.take(j));
        let before = encode::bodies_of(vs.drop_last(), encoding);
        assert(whole.take(part.len() as int) =~= before.take(part.len() as int));
    }
}

/// Where in its record the serial type of value `j` lies.
spec fn type_place(vs: Seq<ValueView>, j: int, encoding: TextEncoding) -> int {
    encode::header_len(vs, encoding) - encode::types_of(vs, encoding).len() + encode::types_of(
        vs.take(j),
        encoding,
    ).len()
}

/// Where in its record the body of value `j` lies.
spec fn body_place(vs: Seq<ValueView>, j: int, encoding: TextEncoding) -> int {
    (encode::header_len(vs, encoding) + encode::bodies_of(vs.take(j), encoding).len()) as int
}

/// The record is one that a buffer can hold.
pub open spec fn fits(vs: Seq<ValueView>, encoding: TextEncoding) -> bool {
    &&& encode::record_of(vs, encoding).len() <= usize::MAX
    &&& 13 + 2 * encode::record_of(vs, encoding).len() <= u64::MAX
}

proof fn lemma_header(vs: Seq<ValueView>, encoding: TextEncoding)
    requires
        fits(vs, encoding),
    ensures
        ({
            let n = encode::types_of(vs, encoding).len();
            let e = encode::prefix_len(n, 1);
            let h = encode::header_len(vs, encoding);
            let b = encode::record_of(vs, encoding);
            &&& 1 <= e <= 9
            &&& h == n + e
            &&& h <= u64::MAX
            &&& varint::varint(h).len() == e
            &&& b.len() == h + encode::bodies_of(vs, encoding).len()
            &&& b.subrange(0, e as int) == varint::varint(h)
            &&& b.subrange(e as int, h as int) == encode::types_of(vs, encoding)
            &&& b.subrange(h as int, b.len() as int) == encode::bodies_of(vs, encoding)
        }),
{
    let n = encode::types_of(vs, encoding).len();
    let b = encode::record_of(vs, encoding);
    assert(n + 9 <= u64::MAX);
    varint::lemma_varint_len(n + 1);
    lemma_prefix_len(n, 1);
    let e = encode::prefix_len(n, 1);
    let h = encode::header_len(vs, encoding);
    assert(b.subrange(0, e as int) =~= varint::varint(h));
    assert(b.subrange(e as int, h as int) =~= encode::types_of(vs, encoding));
    assert(b.subrange(h as int, b.len() as int) =~= encode::bodies_of(vs, encoding));
}

proof fn lemma_type_at(vs: Seq<ValueView>, j: int, encoding: TextEncoding)
    requires
        fits(vs, encoding),
        0 <= j < vs.len(),
    ensures
        ({
            let b = encode::record_of(vs, encoding);
            let t = encode::type_of(vs[j], encoding);
            let p = type_place(vs, j, encoding);
            &&& 1 <= p
            &&& type_place(vs, j + 1, encoding) == p + varint::varint(t).len()
            &&& type_place(vs, j + 1, encoding) <= encode::header_len(vs, encoding)
            &&& varint::varint_at(b, p) == Some((t, varint::varint(t).len()))
            &&& varint::varint(t).len() >= 1
        }),
{
    let b = encode::record_of(vs, encoding);
    let t = encode::type_of(vs[j], encoding);
    let p = type_place(vs, j, encoding);
    lemma_header(vs, encoding);
    lemma_types_prefix(vs, j + 1, encoding);
    assert(vs.take(j + 1).drop_last() =~= vs.take(j));
    let types = encode::types_of(vs, encoding);
    let upto = encode::types_of(vs.take(j + 1), encoding);
    let before = encode::types_of(vs.take(j), encoding);
    let e = encode::prefix_len(types.len(), 1);
    let l = varint::varint(t).len();
    assert(upto == before + varint::varint(t));
    assert(upto.subrange(before.len() as int, upto.len() as int) =~= varint::varint(t));
    assert(b.subrange(p, (p + l) as int) =~= types.subrange(
        before.len() as int,
        (before.len() + l) as int,
    )) by {
        assert forall|k: int| 0 <= k < l implies #[trigger] b.subrange(p, (p + l) as int)[k]
            == types.subrange(before.len() as int, (before.len() + l) as int)[k] by {
            assert(b.subrange(e as int, (e + types.len()) as int)[before.len() + k]
                == types[before.len()
                + k]);
        }
    }
    assert(types.subrange(before.len() as int, upto.len() as int) =~= upto.subrange(
        before.len() as int,
        upto.len() as int,
    )) by {
        assert forall|k: int| before.len() <= k < upto.len() implies types[k] == upto[k] by {
            assert(types.take(upto.len() as int)[k] == upto[k]);
        }
    }
    encode::lemma_type_fits(vs[j], encoding);
    varint::lemma_varint_len(t);
    varint::law_varint_round_trip(b, p, t);
}

proof fn lemma_value_at(vs: Seq<ValueView>, j: int, encoding: TextEncoding)
    requires
        fits(vs, encoding),
        0 <= j < vs.len(),
    ensures
        ({
            let b = encode::record_of(vs, encoding);
            let t = encode::type_of(vs[j], encoding);
            let o = body_place(vs, j, encoding);
            &&& 0 <= o <= usize::MAX
            &&& body_place(vs, j + 1, encoding) == o + decode::body_len(t)
            &&& body_place(vs, j + 1, encoding) <= b.len()
            &&& decode::value_at(b, t, o as usize, encoding) == Ok::<ValueView, RecordError>(vs[j])
        }),
{
    let b = encode::record_of(vs, encoding);
    let t = encode::type_of(vs[j], encoding);
    let o = body_place(vs, j, encoding);
    lemma_header(vs, encoding);
    lemma_bodies_prefix(vs, j + 1, encoding);
    assert(vs.take(j + 1).drop_last() =~= vs.take(j));
    let bodies = encode::bodies_of(vs, encoding);
    let upto = encode::bodies_of(vs.take(j + 1), encoding);
    let before = encode::bodies_of(vs.take(j), encoding);
    let body = encode::body_of(vs[j], encoding);
    let h = encode::header_len(vs, encoding);
    assert(upto == before + body);
    assert(b.subrange(o, o + body.len()) =~= body) by {
        assert forall|k: int| 0 <= k < body.len() implies #[trigger] b.subrange(
            o,
            o + body.len(),
        )[k] == body[k] by {
            assert(b.subrange(h as int, b.len() as int)[before.len() + k] == bodies[before.len()
                + k]);
            assert(bodies.take(upto.len() as int)[before.len() + k] == upto[before.len() + k]);
        }
    }
    law_value_round_trip(b, vs[j], o as usize, encoding);
}

/// The header entries of values `j` and up.
spec fn entries_behind(vs: Seq<ValueView>, j: int, encoding: TextEncoding) -> Seq<(nat, usize)> {
    Seq::new(
        (vs.len() - j) as nat,
        |k: int|
            (encode::type_of(vs[j + k], encoding), body_place(vs, j + k, encoding) as usize),
    )
}

#[verifier::rlimit(60)]
#[verifier::spinoff_prover]
proof fn lemma_entries(vs: Seq<ValueView>, j: int, encoding: TextEncoding)
    requires
        fits(vs, encoding),
        0 <= j <= vs.len(),
    ensures
        decode::entries_from(
            encode::record_of(vs, encoding),
            type_place(vs, j, encoding),
            encode::header_len(vs, encoding) as int,
            body_place(vs, j, encoding) as usize,
        ) == Ok::<Seq<(nat, usize)>, RecordError>(entries_behind(vs, j, encoding)),
    decreases vs.len() - j,
{
    if j == vs.len() {
        assert(vs.take(j) =~= vs);
        assert(entries_behind(vs, j, encoding) =~= seq![]);
    } else {
        lemma_type_at(vs, j, encoding);
        lemma_value_at(vs, j, encoding);
        lemma_entries(vs, j + 1, encoding);
        let head = (encode::type_of(vs[j], encoding), body_place(vs, j, encoding) as usize);
        assert(entries_behind(vs, j, encoding) =~= seq![head] + entries_behind(
            vs,
            j + 1,
            encoding,
        ));
    }
}

proof fn lemma_values(vs: Seq<ValueView>, j: int, encoding: TextEncoding)
    requires
        fits(vs, encoding),
        0 <= j <= vs.len(),
    ensures
        decode::values_from(
            encode::record_of(vs, encoding),
            entries_behind(vs, 0, encoding),
            j,
            encoding,
        ) == Ok::<Seq<ValueView>, RecordError>(vs.skip(j)),
    decreases vs.len() - j,
{
    if j == vs.len() {
        assert(vs.skip(j) =~= seq![]);
    } else {
        lemma_value_at(vs, j, encoding);
        lemma_values(vs, j + 1, encoding);
        assert(vs.skip(j) =~= seq![vs[j]] + vs.skip(j + 1));
    }
}

proof fn lemma_entries_of(vs: Seq<ValueView>, encoding: TextEncoding)
    requires
        fits(vs, encoding),
    ensures
        decode::entries_of(encode::record_of(vs, encoding)) == Ok::<
            Seq<(nat, usize)>,
            RecordError,
        >(entries_behind(vs, 0, encoding)),
        varint::varint_at(encode::record_of(vs, encoding), 0) == Some(
            (
                encode::header_len(vs, encoding),
                encode::prefix_len(encode::types_of(vs, encoding).len(), 1),
            ),
        ),
{
    let b = encode::record_of(vs, encoding);
    lemma_header(vs, encoding);
    varint::law_varint_round_trip(b, 0, encode::header_len(vs, encoding));
    lemma_entries(vs, 0, encoding);
    assert(vs.take(0) =~= seq![]);
}

/// Decoding a record gives back the row that was encoded, in each text encoding.
pub proof fn law_record_round_trip(vs: Seq<ValueView>, encoding: TextEncoding)
    requires
        fits(vs, encoding),
    ensures
        decode::row_of(encode::record_of(vs, encoding), encoding) == Ok::<
            Seq<ValueView>,
            RecordError,
        >(vs),
{
    let b = encode::record_of(vs, encoding);
    lemma_entries_of(vs, encoding);
    lemma_header(vs, encoding);
    lemma_values(vs, 0, encoding);
    assert(vs.skip(0) =~= vs);
    let n = vs.len() as int;
    if n > 0 {
        lemma_value_at(vs, n - 1, encoding);
        assert(vs.take(n) =~= vs);
    } else {
        assert(encode::types_of(vs, encoding) =~= seq![]);
        assert(encode::bodies_of(vs, encoding) =~= seq![]);
    }
}

/// Decoding one column of a record gives back the value that was encoded there.
pub proof fn law_column_round_trip(vs: Seq<ValueView>, index: int, encoding: TextEncoding)
    requires
        fits(vs, encoding),
        0 <= index,
    ensures
        decode::column_of(encode::record_of(vs, encoding), index, encoding) == Ok::<
            ValueView,
            RecordError,
        >(if index < vs.len() {
            vs[index]
        } else {
            ValueView::Null
        }),
{
    lemma_entries_of(vs, encoding);
    if index < vs.len() {
        lemma_value_at(vs, index, encoding);
    }
}

/// Two rows with the same record are the same row.
pub proof fn law_record_injective(a: Seq<ValueView>, b: Seq<ValueView>, encoding: TextEncoding)
    requires
        fits(a, encoding),
        fits(b, encoding),
        encode::record_of(a, encoding) == encode::record_of(b, encoding),
    ensures
        a == b,
{
    law_record_round_trip(a, encoding);
    law_record_round_trip(b, encoding);
}

} // verus!
