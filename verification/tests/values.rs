//! Values: records, comparison, coercion, affinity, aggregates and filters.
use std::cmp::Ordering;

use sqlite_rs::record::encode::serial_type_and_body;
use sqlite_rs::record::varint::encode_varint;
use sqlite_rs::record::{
    compare_text, decode_column, decode_record, decode_varint, encode_record, Collation,
    RecordError, TextEncoding, Value,
};
use sqlite_rs::text::Sorted;
use sqlite_rs::vdbe::affinity::{affinity_of, apply_affinity, finish_affinity, Affinity};
use sqlite_rs::vdbe::aggregate::{
    added, finalize as finalize_outside, step as step_outside, Addition, AggState, Finalized,
    FunctionError, Stepped,
};
use sqlite_rs::vdbe::coerce::{
    cast_to_integer, checked_add as add_outside, checked_mul as mul_outside,
    coerce_text_to_numeric as coerce_outside, ArithmeticOp, Computed, Operand, Task,
};
use sqlite_rs::vdbe::compare::compare;
use sqlite_rs::vdbe::explain::explain;
use sqlite_rs::vdbe::filter::BloomFilterState;
use sqlite_rs::vdbe::program::{Instruction, Opcode, Program, SortKeyColumn, P4};

const I24_MIN: i64 = -(1 << 23);
const I24_MAX: i64 = (1 << 23) - 1;
const I48_MIN: i64 = -(1 << 47);
const I48_MAX: i64 = (1 << 47) - 1;

fn float(x: f64) -> Value {
    Value::Real(x.to_bits())
}

fn number(o: &Operand) -> f64 {
    match o {
        Operand::Integer(i) => *i as f64,
        Operand::Real(r) => f64::from_bits(*r),
        Operand::Decimal(s) => s.parse().unwrap(),
    }
}

/// Carries a calculation on to its value.
fn computed(mut c: Computed) -> Value {
    loop {
        match c {
            Computed::Value(v) => return v,
            Computed::Outside(calculation) => {
                let x: f64 = match calculation.task() {
                    Task::Parse(s) => s.parse().unwrap(),
                    Task::Apply(ArithmeticOp::Add, a, b) => number(&a) + number(&b),
                    Task::Apply(ArithmeticOp::Multiply, a, b) => number(&a) * number(&b),
                    Task::Apply(op, _, _) => panic!("unexpected {op:?}"),
                };
                c = calculation.carry_on(x.to_bits());
            }
        }
    }
}

fn checked_add(a: &Value, b: &Value) -> Value {
    computed(add_outside(a, b))
}

fn checked_mul(a: &Value, b: &Value) -> Value {
    computed(mul_outside(a, b))
}

fn coerce_text_to_numeric(s: &str) -> Value {
    match coerce_outside(s) {
        Operand::Integer(i) => Value::Integer(i),
        o => float(number(&o)),
    }
}

fn sum_of(a: Addition) -> u64 {
    let x: f64 = match a {
        Addition::Reals(a, b) => f64::from_bits(a) + f64::from_bits(b),
        Addition::RealAndInteger(a, i) => f64::from_bits(a) + i as f64,
    };
    x.to_bits()
}

fn step(
    name: &str,
    state: Option<AggState>,
    args: &[Value],
) -> Result<AggState, FunctionError> {
    Ok(match step_outside(name, state, args)? {
        Stepped::State(s) => s,
        Stepped::Adding(s, a) => added(s, sum_of(a)),
    })
}

fn finalize(name: &str, state: Option<&AggState>) -> Result<Value, FunctionError> {
    Ok(match finalize_outside(name, state)? {
        Finalized::Value(v) => v,
        Finalized::Adding(a) => Value::Real(sum_of(a)),
    })
}

#[test]
fn round_trips_through_decode_record() {
    let values = vec![
        Value::Null,
        Value::Integer(0),
        Value::Integer(1),
        Value::Integer(-1),
        Value::Integer(i64::MAX),
        Value::Integer(i64::MIN),
        float(1.5),
        Value::Text("hello".to_string()),
        Value::Text(String::new()),
        Value::Blob(vec![0xde, 0xad, 0xbe, 0xef]),
        Value::Blob(Vec::new()),
    ];
    let payload = encode_record(&values, TextEncoding::Utf8);
    assert_eq!(decode_record(&payload, TextEncoding::Utf8), Ok(values));
}

#[test]
fn integer_widths_pick_smallest_serial_type() {
    let cases: &[(i64, u64)] = &[
        (0, 8),
        (1, 9),
        (2, 1),
        (i8::MIN as i64, 1),
        (i8::MAX as i64 + 1, 2),
        (i16::MIN as i64, 2),
        (i16::MAX as i64 + 1, 3),
        (I24_MIN, 3),
        (I24_MAX + 1, 4),
        (i32::MIN as i64, 4),
        (i32::MAX as i64 + 1, 5),
        (I48_MIN, 5),
        (I48_MAX + 1, 6),
        (i64::MAX, 6),
        (i64::MIN, 6),
    ];
    for (v, expected_st) in cases {
        let (st, _) = serial_type_and_body(&Value::Integer(*v), TextEncoding::Utf8);
        assert_eq!(
            st, *expected_st,
            "value {v} expected serial type {expected_st}"
        );
    }
}

#[test]
fn matches_spec_003_header_shape_for_a_multi_column_row() {
    let values = vec![Value::Integer(42), Value::Text("abc".to_string())];
    let payload = encode_record(&values, TextEncoding::Utf8);
    assert_eq!(payload[0], 3);
    assert_eq!(payload[1], 1); // type 1: i8
    assert_eq!(payload[2], 19); // type 13+2*3
    assert_eq!(payload[3], 42);
    assert_eq!(&payload[4..7], b"abc");
}

#[test]
fn null_is_lower_than_every_other_class() {
    for other in [
        Value::Integer(1),
        Value::Text("a".to_string()),
        Value::Blob(vec![0]),
    ] {
        assert_eq!(
            compare(&Value::Null, &other, Collation::Binary),
            Ordering::Less
        );
    }
}

#[test]
fn numeric_sorts_below_text_below_blob() {
    let one = Value::Integer(1);
    let a = Value::Text("a".to_string());
    let blob = Value::Blob(vec![0]);
    assert_eq!(compare(&one, &a, Collation::Binary), Ordering::Less);
    assert_eq!(compare(&one, &blob, Collation::Binary), Ordering::Less);
    assert_eq!(compare(&a, &blob, Collation::Binary), Ordering::Less);
}

#[test]
fn integer_and_real_merge_into_one_numeric_class() {
    assert_eq!(
        compare(&Value::Integer(2), &float(2.0), Collation::Binary),
        Ordering::Equal
    );
    assert_eq!(
        compare(
            &Value::Integer(9_223_372_036_854_775_807),
            &float(9_223_372_036_854_775_807.0),
            Collation::Binary
        ),
        Ordering::Less
    );
}

#[test]
fn coercion_parses_longest_valid_numeric_prefix() {
    assert_eq!(coerce_text_to_numeric("123abc"), Value::Integer(123));
    assert_eq!(coerce_text_to_numeric("  123  "), Value::Integer(123));
    assert_eq!(coerce_text_to_numeric("abc"), Value::Integer(0));
    assert_eq!(coerce_text_to_numeric(""), Value::Integer(0));
    assert_eq!(coerce_text_to_numeric("0x10"), Value::Integer(0));
    assert_eq!(coerce_text_to_numeric(".5"), float(0.5));
    assert_eq!(coerce_text_to_numeric("1e3"), float(1000.0));
}

#[test]
fn arithmetic_matches_oracle_coercion_vectors() {
    assert_eq!(
        checked_add(&Value::Text("123abc".to_string()), &Value::Integer(1)),
        Value::Integer(124)
    );
    assert_eq!(
        checked_add(&Value::Text("  123  ".to_string()), &Value::Integer(1)),
        Value::Integer(124)
    );
    assert_eq!(
        checked_add(&Value::Text("abc".to_string()), &Value::Integer(1)),
        Value::Integer(1)
    );
}

#[test]
fn integer_overflow_promotes_to_real_never_wraps() {
    let max = Value::Integer(i64::MAX);
    match checked_add(&max, &Value::Integer(1)) {
        Value::Real(r) => assert!((f64::from_bits(r) - 9_223_372_036_854_775_808.0).abs() < 1.0),
        other => panic!("expected REAL promotion, got {other:?}"),
    }
    match checked_mul(&max, &Value::Integer(2)) {
        Value::Real(r) => assert!(f64::from_bits(r) > i64::MAX as f64),
        other => panic!("expected REAL promotion, got {other:?}"),
    }
}

#[test]
fn cast_to_integer_truncates_toward_zero() {
    assert_eq!(cast_to_integer(&float(3.9)), Ok(3));
    assert_eq!(cast_to_integer(&float(-3.9)), Ok(-3));
}

#[test]
fn affinity_of_matches_oracle_declared_types() {
    let cases = [
        ("INTEGER", Affinity::Integer),
        ("INT", Affinity::Integer),
        ("TINYINT", Affinity::Integer),
        ("UNSIGNED BIG INT", Affinity::Integer),
        ("INT2", Affinity::Integer),
        ("TEXT", Affinity::Text),
        ("CHARACTER(20)", Affinity::Text),
        ("VARCHAR(255)", Affinity::Text),
        ("VARYING CHARACTER(255)", Affinity::Text),
        ("NCHAR(55)", Affinity::Text),
        ("NATIVE CHARACTER(70)", Affinity::Text),
        ("NVARCHAR(100)", Affinity::Text),
        ("CLOB", Affinity::Text),
        ("BLOB", Affinity::Blob),
        ("", Affinity::Blob),
        ("REAL", Affinity::Real),
        ("DOUBLE", Affinity::Real),
        ("DOUBLE PRECISION", Affinity::Real),
        ("FLOAT", Affinity::Real),
        ("NUMERIC", Affinity::Numeric),
        ("DECIMAL(10,5)", Affinity::Numeric),
        ("BOOLEAN", Affinity::Numeric),
        ("DATE", Affinity::Numeric),
        ("DATETIME", Affinity::Numeric),
        ("POINT", Affinity::Integer),
        ("STRING", Affinity::Numeric),
    ];
    for (declared, expected) in cases {
        assert_eq!(
            affinity_of(declared),
            expected,
            "affinity_of({declared:?}) mismatch"
        );
    }
}


#[test]
fn count_star_counts_every_row_regardless_of_args() {
    let mut state = None;
    for _ in 0..4 {
        state = Some(step("count", state, &[]).unwrap());
    }
    assert_eq!(
        finalize("count", state.as_ref()).unwrap(),
        Value::Integer(4)
    );
}

#[test]
fn count_x_skips_null_args() {
    let mut state = None;
    for v in [Value::Integer(1), Value::Null, Value::Integer(2)] {
        state = Some(step("count", state, &[v]).unwrap());
    }
    assert_eq!(
        finalize("count", state.as_ref()).unwrap(),
        Value::Integer(2)
    );
}

#[test]
fn count_with_zero_rows_finalizes_to_zero() {
    assert_eq!(finalize("count", None).unwrap(), Value::Integer(0));
}

#[test]
fn sum_of_all_integers_stays_exact_integer() {
    let mut state = None;
    for v in [1i64, 2, 3] {
        state = Some(step("sum", state, &[Value::Integer(v)]).unwrap());
    }
    assert_eq!(finalize("sum", state.as_ref()).unwrap(), Value::Integer(6));
}

#[test]
fn sum_promotes_to_real_once_any_real_input_seen() {
    let mut state = None;
    state = Some(step("sum", state, &[Value::Integer(1)]).unwrap());
    state = Some(step("sum", state, &[float(0.5)]).unwrap());
    assert_eq!(finalize("sum", state.as_ref()).unwrap(), float(1.5));
}

#[test]
fn sum_skips_null_and_finalizes_null_on_zero_rows() {
    assert_eq!(finalize("sum", None).unwrap(), Value::Null);
    let state = step("sum", None, &[Value::Null]).unwrap();
    assert_eq!(finalize("sum", Some(&state)).unwrap(), Value::Null);
}

#[test]
fn unknown_aggregate_name_errors() {
    assert!(matches!(
        step("median", None, &[Value::Integer(1)]),
        Err(FunctionError::Unknown { .. })
    ));
}

#[test]
fn inserted_integer_is_always_reported_present() {
    let mut filter = BloomFilterState::new(100);
    for v in [1_i64, 2, 3, 1000, -5] {
        filter.insert(&Value::Integer(v));
    }
    for v in [1_i64, 2, 3, 1000, -5] {
        assert!(filter.might_contain(&Value::Integer(v)));
    }
}

#[test]
fn a_value_far_outside_the_inserted_set_is_usually_absent() {
    let mut filter = BloomFilterState::new(1000);
    for v in 0..1000_i64 {
        filter.insert(&Value::Integer(v));
    }
    let absent = (2_000_000..2_001_000_i64)
        .filter(|v| !filter.might_contain(&Value::Integer(*v)))
        .count();
    assert!(
        absent > 900,
        "expected most probes to miss, got {absent}/1000"
    );
}

#[test]
fn non_integer_insert_poisons_the_slot_to_always_maybe() {
    let mut filter = BloomFilterState::new(10);
    filter.insert(&Value::Text("x".to_string()));
    assert!(filter.might_contain(&Value::Integer(42)));
    assert!(filter.might_contain(&Value::Text("anything".to_string())));
}

#[test]
fn non_integer_probe_is_always_maybe_present() {
    let mut filter = BloomFilterState::new(10);
    filter.insert(&Value::Integer(1));
    assert!(filter.might_contain(&float(1.0)));
    assert!(filter.might_contain(&Value::Null));
}

#[test]
fn explain_renders_one_row_per_instruction() {
    let program = Program::new(vec![
        Instruction::new(Opcode::Init, 0, 1, 0),
        Instruction::new(Opcode::Halt, 0, 0, 0),
    ]);
    let rows = explain(&program);
    assert_eq!(rows.len(), 2);
    assert_eq!(rows[0].addr, 0);
    assert_eq!(rows[0].opcode, "Init");
    assert_eq!(rows[1].addr, 1);
    assert_eq!(rows[1].opcode, "Halt");
}

#[test]
fn p4_renders_display_form_not_debug_bytes() {
    let program = Program::new(vec![Instruction::with_p4(
        Opcode::String8,
        0,
        1,
        0,
        P4::Str("g%".to_string()),
    )]);
    let rows = explain(&program);
    assert_eq!(rows[0].p4, "g%");
}

#[test]
fn declared_types_decide_whether_numeric_text_converts() {
    for (declared, is_text) in [
        ("BLOB", true),
        ("", true),
        ("TEXT", true),
        ("VARCHAR(10)", true),
        ("INTEGER", false),
        ("REAL", false),
        ("NUMERIC", false),
        ("DATE", false),
    ] {
        let mut value = Value::Text("1.5".to_string());
        if let Some(text) = apply_affinity(&mut value, affinity_of(declared)) {
            finish_affinity(&mut value, text.parse::<f64>().ok().map(f64::to_bits));
        }
        assert_eq!(matches!(value, Value::Text(_)), is_text, "{declared}");
    }
}

#[test]
fn affinity_converts_whole_literals_only() {
    for (text, wanted) in [
        (" 12 ", Value::Integer(12)),
        ("+7", Value::Integer(7)),
        ("-9223372036854775808", Value::Integer(i64::MIN)),
        ("9223372036854775808", float(9223372036854775808.0)),
        ("1e2", float(100.0)),
        ("12x", Value::Text("12x".to_string())),
        ("", Value::Text(String::new())),
        ("  ", Value::Text("  ".to_string())),
        ("nan", Value::Text("nan".to_string())),
        ("1e999", Value::Text("1e999".to_string())),
    ] {
        let mut value = Value::Text(text.to_string());
        if let Some(rest) = apply_affinity(&mut value, Affinity::Numeric) {
            assert_eq!(rest, text.trim());
            finish_affinity(&mut value, rest.parse::<f64>().ok().map(f64::to_bits));
        }
        assert_eq!(value, wanted, "{text:?}");
    }
    let mut value = Value::Blob(vec![49]);
    assert_eq!(apply_affinity(&mut value, Affinity::Integer), None);
    assert_eq!(value, Value::Blob(vec![49]));
}

#[test]
fn affinity_bytes_run_from_a_to_e() {
    let bytes: Vec<u8> = [
        Affinity::Blob,
        Affinity::Text,
        Affinity::Numeric,
        Affinity::Integer,
        Affinity::Real,
    ]
    .iter()
    .map(|a| a.to_p4_byte())
    .collect();
    assert_eq!(bytes, b"ABCDE");
    for b in bytes {
        assert_eq!(Affinity::from_p4_byte(b).to_p4_byte(), b);
    }
    assert_eq!(Affinity::from_p4_byte(b'Z'), Affinity::Blob);
}

#[test]
fn numeric_prefixes_end_where_the_number_does() {
    for (text, wanted) in [
        ("12.5.7", float(12.5)),
        ("1e", Value::Integer(1)),
        ("1e+", Value::Integer(1)),
        ("1e+2x", float(100.0)),
        (".", Value::Integer(0)),
        ("-.5", float(-0.5)),
        ("5.", float(5.0)),
        ("- 5", Value::Integer(0)),
        ("\u{b}5", Value::Integer(0)),
        ("\u{c}5", Value::Integer(5)),
        ("99999999999999999999", float(99999999999999999999.0)),
    ] {
        assert_eq!(coerce_text_to_numeric(text), wanted, "{text:?}");
    }
}

#[test]
fn casts_saturate_at_the_ends_of_the_range() {
    assert_eq!(cast_to_integer(&float(1e300)), Ok(i64::MAX));
    assert_eq!(cast_to_integer(&float(-1e300)), Ok(i64::MIN));
    assert_eq!(cast_to_integer(&float(f64::NAN)), Ok(0));
    assert_eq!(cast_to_integer(&float(f64::INFINITY)), Ok(i64::MAX));
    assert_eq!(cast_to_integer(&float(0.99)), Ok(0));
    assert_eq!(cast_to_integer(&float(2251799813685249.5)), Ok(2251799813685249));
    assert_eq!(cast_to_integer(&Value::Text("12abc".to_string())), Ok(12));
    assert_eq!(
        cast_to_integer(&Value::Text("1.9e1z".to_string())),
        Err("1.9e1".to_string())
    );
    assert_eq!(cast_to_integer(&Value::Null), Ok(0));
    assert_eq!(cast_to_integer(&Value::Blob(vec![1])), Ok(0));
}

#[test]
fn comparison_is_a_total_order_on_values_without_nan() {
    let values = [
        Value::Null,
        float(f64::NEG_INFINITY),
        Value::Integer(i64::MIN),
        float(-1.5),
        Value::Integer(-1),
        float(-0.0),
        float(5e-324),
        Value::Integer(1),
        float(1.5),
        Value::Integer(9007199254740993),
        float(9007199254740994.0),
        Value::Integer(i64::MAX),
        float(9223372036854775808.0),
        float(f64::INFINITY),
        Value::Text(String::new()),
        Value::Text("a".to_string()),
        Value::Text("a\u{0}".to_string()),
        Value::Text("\u{ffff}".to_string()),
        Value::Text("\u{10000}".to_string()),
        Value::Blob(vec![]),
        Value::Blob(vec![0]),
        Value::Blob(vec![0, 1]),
        Value::Blob(vec![1]),
    ];
    for (i, a) in values.iter().enumerate() {
        for (j, b) in values.iter().enumerate() {
            assert_eq!(
                compare(a, b, Collation::Binary),
                i.cmp(&j),
                "{a:?} against {b:?}"
            );
        }
    }
}

#[test]
fn nan_is_below_every_integer_and_equal_to_every_real() {
    let nan = float(f64::NAN);
    assert_eq!(
        compare(&Value::Integer(i64::MIN), &nan, Collation::Binary),
        Ordering::Greater
    );
    assert_eq!(
        compare(&nan, &Value::Integer(0), Collation::Binary),
        Ordering::Less
    );
    assert_eq!(compare(&nan, &float(1.0), Collation::Binary), Ordering::Equal);
}

#[test]
fn collations_order_text_in_their_own_way() {
    assert_eq!(compare_text("b", "A", Collation::Binary), Sorted::After);
    assert_eq!(compare_text("b", "A", Collation::NoCase), Sorted::After);
    assert_eq!(compare_text("a", "B", Collation::Binary), Sorted::After);
    assert_eq!(compare_text("a", "B", Collation::NoCase), Sorted::Before);
    assert_eq!(compare_text("_", "A", Collation::NoCase), Sorted::Before);
    assert_eq!(compare_text("É", "é", Collation::NoCase), Sorted::Before);
    assert_eq!(compare_text("a  ", "a", Collation::RTrim), Sorted::Same);
    assert_eq!(compare_text("a\t", "a", Collation::RTrim), Sorted::After);
    assert_eq!(compare_text("  a", "a", Collation::RTrim), Sorted::Before);
}

#[test]
fn varints_are_as_short_as_they_can_be() {
    for (value, len) in [
        (0u64, 1),
        (127, 1),
        (128, 2),
        (16383, 2),
        (16384, 3),
        ((1 << 56) - 1, 8),
        (1 << 56, 9),
        (u64::MAX, 9),
    ] {
        let bytes = encode_varint(value);
        assert_eq!(bytes.len(), len, "{value}");
        assert_eq!(decode_varint(&bytes, 0), Some((value, len)));
        assert_eq!(decode_varint(&bytes[..len - 1], 0), None);
    }
}

#[test]
fn records_round_trip_in_every_encoding() {
    let row = vec![
        Value::Text("héllo \u{1f600}".to_string()),
        Value::Integer(I24_MIN),
        Value::Integer(I48_MAX),
        float(-0.0),
        Value::Blob((0..=255).collect()),
        Value::Null,
    ];
    for encoding in [
        TextEncoding::Utf8,
        TextEncoding::Utf16Le,
        TextEncoding::Utf16Be,
    ] {
        let payload = encode_record(&row, encoding);
        assert_eq!(decode_record(&payload, encoding).unwrap(), row);
        for (i, v) in row.iter().enumerate() {
            assert_eq!(decode_column(&payload, i, encoding).unwrap(), *v);
        }
        assert_eq!(decode_column(&payload, row.len(), encoding), Ok(Value::Null));
    }
}

#[test]
fn broken_records_are_reported() {
    let utf8 = TextEncoding::Utf8;
    assert_eq!(
        decode_record(&[], utf8),
        Err(RecordError::UnexpectedEof { offset: 0 })
    );
    assert_eq!(
        decode_record(&[0], utf8),
        Err(RecordError::HeaderTooShort {
            declared: 0,
            varint_len: 1
        })
    );
    assert_eq!(
        decode_record(&[2, 1], utf8),
        Err(RecordError::UnexpectedEof { offset: 2 })
    );
    assert_eq!(
        decode_record(&[2, 8, 7], utf8),
        Err(RecordError::TrailingData { trailing: 1 })
    );
    assert_eq!(
        decode_record(&[2, 15, 0xff], utf8),
        Err(RecordError::InvalidUtf8)
    );
    assert_eq!(
        decode_record(&[2, 15, 0x41], TextEncoding::Utf16Le),
        Err(RecordError::InvalidUtf16)
    );
    assert_eq!(
        decode_record(&[2, 17, 0x00, 0xd8], TextEncoding::Utf16Le),
        Err(RecordError::InvalidUtf16)
    );
    assert!(matches!(
        decode_record(&[2, 0x81, 0x00], utf8),
        Err(RecordError::HeaderOverrun { .. })
    ));
    assert_eq!(
        RecordError::TrailingData { trailing: 3 }.describe(),
        "record has 3 unconsumed trailing byte(s) after decoding all columns"
    );
}

#[test]
fn sums_of_integers_overflow_only_at_the_end() {
    let mut state = None;
    for v in [i64::MAX, 1] {
        state = Some(step("SUM", state, &[Value::Integer(v)]).unwrap());
    }
    assert_eq!(
        finalize("sum", state.as_ref()),
        Err(FunctionError::IntegerOverflow)
    );
    let state = step("sum", state, &[Value::Integer(-1)]).unwrap();
    assert_eq!(finalize("sum", Some(&state)), Ok(Value::Integer(i64::MAX)));
    assert_eq!(
        finalize("Median", None),
        Err(FunctionError::Unknown {
            name: "median".to_string(),
            arity: 1
        })
    );
}

#[test]
fn an_empty_filter_rules_integers_out() {
    let filter = BloomFilterState::new(0);
    for v in -100..100 {
        assert!(!filter.might_contain(&Value::Integer(v)));
    }
    assert!(filter.might_contain(&Value::Null));
}

#[test]
fn explain_shows_descriptors_and_comments() {
    let keys = vec![
        SortKeyColumn {
            index: 0,
            descending: true,
            collation: Collation::Binary,
            nulls_first: false,
        },
        SortKeyColumn {
            index: 1,
            descending: false,
            collation: Collation::NoCase,
            nulls_first: true,
        },
    ];
    let program = Program::new(vec![
        Instruction::with_p4(Opcode::SorterOpen, 2, 0, 0, P4::SortKey(keys)),
        Instruction::with_p4(
            Opcode::Ge,
            1,
            7,
            3,
            P4::CollSeq {
                collation: Collation::RTrim,
                affinity: 8,
            },
        ),
        Instruction::new(Opcode::Column, 0, 4, 5),
        Instruction::with_p4(Opcode::Int64, 0, 1, 0, P4::Int(-3)),
    ]);
    let rows = explain(&program);
    assert_eq!(rows[0].p4, "k(2,-B,N)");
    assert_eq!(rows[0].comment, "cursor 2 sorter open");
    assert_eq!(rows[1].p4, "RTRIM-8");
    assert_eq!(rows[1].comment, "if r[1]>=r[3] goto 7");
    assert_eq!(rows[2].comment, "r[5] = cursor 0 column 4");
    assert_eq!(rows[3].p4, "-3");
    assert_eq!(rows[3].comment, "");
    assert_eq!(rows[3].opcode, "Int64");
}

#[test]
fn rust_values_become_column_values() {
    assert_eq!(Value::from(7i64), Value::Integer(7));
    assert_eq!(Value::from(-7i32), Value::Integer(-7));
    assert_eq!(Value::from(true), Value::Integer(1));
    assert_eq!(Value::from(false), Value::Integer(0));
    assert_eq!(Value::from("x"), Value::Text("x".to_string()));
    assert_eq!(Value::from("x".to_string()), Value::Text("x".to_string()));
    assert_eq!(Value::from(&[1u8, 2][..]), Value::Blob(vec![1, 2]));
    assert_eq!(Value::from(vec![1u8, 2]), Value::Blob(vec![1, 2]));
    assert_eq!(Value::from(Some(3i64)), Value::Integer(3));
    assert_eq!(Value::from(None::<&str>), Value::Null);
}
