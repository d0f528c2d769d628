//! Decimal numbers and doubles.
use sqlite_rs::decimal::{print_double, read_double, show_double, INFINITE};
use sqlite_rs::natural::Natural;
use sqlite_rs::text::Sorted;

/// Doubles from every region: the smallest and the largest, powers of two and of ten with their
/// neighbours, and patterns from all over.
fn samples(count: u64) -> Vec<f64> {
    let mut all = vec![
        0.1,
        0.2,
        0.3,
        1.5,
        1.0,
        100.0,
        123456.789,
        1e-4,
        9.999e-5,
        1e15,
        9999999999999998.0,
        1e16,
        1e21,
        1e22,
        1e23,
        9007199254740993.0,
        9223372036854775807.0,
        18446744073709551615.0,
        5e-324,
        2.2250738585072014e-308,
        2.225073858507201e-308,
        f64::MAX,
        f64::MIN_POSITIVE,
    ];
    for e in [-1074, -1022, -60, -1, 0, 1, 52, 53, 62, 63, 64, 1023] {
        let x = 2f64.powi(e);
        for bits in [x.to_bits().wrapping_sub(1), x.to_bits(), x.to_bits() + 1] {
            all.push(f64::from_bits(bits));
        }
    }
    let mut seed: u64 = 88172645463325252;
    for _ in 0..count {
        seed ^= seed << 13;
        seed ^= seed >> 7;
        seed ^= seed << 17;
        all.push(f64::from_bits(seed & 0x7fff_ffff_ffff_ffff));
    }
    all.retain(|x| x.is_finite());
    all
}

#[test]
fn literals_are_read_as_the_nearest_double() {
    for literal in [
        "0", "0.0", "00.00e5", "1", "1.", ".5", "1.50", "3.14159", "1e5", "1E+5", "1.5e-3", "1.e5",
        "9007199254740992", "9007199254740993", "9007199254740994", "9007199254740995",
        "9223372036854775807", "9223372036854775808", "18446744073709551616",
        "0.1000000000000000055511151231257827021181583404541015625",
        "0.10000000000000000555111512312578270211815834045410156250001",
        "2.4703282292062327e-324", "2.4703282292062328e-324", "5e-324", "2.2250738585072011e-308",
        "1.7976931348623157e308", "1.7976931348623158e308", "1.7976931348623159e308", "1e308",
        "1e309", "1e400", "1e401", "1e999999999999999999999999999999999999", "1e-400", "123e-402",
        "1e-999999999999999999999999999999999999", "0e999", "000000000000000000001e-5",
    ] {
        let value: f64 = literal.parse().unwrap();
        assert_eq!(read_double(literal), value.to_bits(), "{literal}");
    }
    let long = format!("0.{}1", "0".repeat(500));
    assert_eq!(read_double(&long), 0);
    let long = format!("{}e-500", "7".repeat(600));
    assert_eq!(read_double(&long), long.parse::<f64>().unwrap().to_bits());
    assert_eq!(read_double("1e309"), INFINITE);
}

#[test]
fn spelled_doubles_are_read_back() {
    for x in samples(60) {
        for text in [format!("{x}"), format!("{x:e}"), format!("{x:.20}")] {
            let value: f64 = text.parse().unwrap();
            assert_eq!(read_double(&text), value.to_bits(), "{text}");
        }
    }
}

#[test]
fn doubles_are_shown_by_their_shortest_decimal() {
    for x in samples(60) {
        assert_eq!(show_double(x.to_bits()), format!("{x:?}"));
        assert_eq!(show_double((-x).to_bits()), format!("{:?}", -x));
    }
    assert_eq!(show_double(1.5f64.to_bits()), "1.5");
    assert_eq!(show_double((-0.0f64).to_bits()), "-0.0");
    assert_eq!(show_double(1e16f64.to_bits()), "1e16");
    assert_eq!(show_double(1.25e-7f64.to_bits()), "1.25e-7");
    assert_eq!(show_double(f64::INFINITY.to_bits()), "inf");
    assert_eq!(show_double(f64::NEG_INFINITY.to_bits()), "-inf");
    assert_eq!(show_double(f64::NAN.to_bits()), "NaN");
}

#[test]
fn literals_for_doubles_are_read_back() {
    for x in samples(60) {
        let text = print_double(x.to_bits());
        assert_eq!(read_double(&text), x.to_bits());
        let plain = format!("{x}");
        let expected = match plain.parse::<i64>() {
            Ok(_) => format!("{plain}.0"),
            Err(_) => plain,
        };
        assert_eq!(text, expected);
    }
    assert_eq!(print_double(0), "0.0");
    assert_eq!(print_double(1.5f64.to_bits()), "1.5");
    assert_eq!(print_double(9223372036854775808f64.to_bits()), "9223372036854776000");
    assert_eq!(print_double(1e19f64.to_bits()), "10000000000000000000");
    assert_eq!(print_double(INFINITE), "1e999");
    assert_eq!(read_double("1e999"), INFINITE);
}

#[test]
fn large_naturals_are_exact() {
    let mut a = Natural::new(u64::MAX);
    let mut b = a.copy();
    a.grow(u32::MAX, u32::MAX);
    b.raise(10, 30);
    assert!(matches!(a.order(&b), Sorted::Before));
    let c = b.copy();
    b.plus(&a);
    assert!(matches!(b.order(&c), Sorted::After));
    b.minus(&a);
    assert!(matches!(b.order(&c), Sorted::Same));
    b.minus(&c);
    assert!(matches!(b.order(&Natural::new(0)), Sorted::Same));
}
