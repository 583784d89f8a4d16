use agentropic_patterns::binary64::{power_of_two, Binary64, INFINITY_BITS, ONE_BITS, SIGN_BIT};

fn number(value: f64) -> Binary64 {
    Binary64::from_bits(value.to_bits())
}

fn samples() -> Vec<f64> {
    vec![
        0.0,
        -0.0,
        5e-324,
        -5e-324,
        2.2250738585072009e-308,
        2.2250738585072014e-308,
        -2.2250738585072014e-308,
        0.1,
        0.5,
        0.6,
        0.9999999999999999,
        1.0,
        1.0000000000000002,
        1.5,
        -1.5,
        75.0,
        90.0,
        100.0,
        -100.0,
        4503599627370496.0,
        9007199254740993.0,
        1.7976931348623157e308,
        -1.7976931348623157e308,
        f64::INFINITY,
        f64::NEG_INFINITY,
        f64::NAN,
        -f64::NAN,
        f64::from_bits(0x7FF0_0000_0000_0001),
        f64::from_bits(0xFFFF_FFFF_FFFF_FFFF),
    ]
}

#[test]
fn encodings_of_the_named_numbers() {
    assert_eq!(ONE_BITS, 1.0f64.to_bits());
    assert_eq!(INFINITY_BITS, f64::INFINITY.to_bits());
    assert_eq!(SIGN_BIT, (-0.0f64).to_bits());
    assert_eq!(Binary64::from_bits(0x4059_0000_0000_0000).to_bits(), 100.0f64.to_bits());
}

#[test]
fn not_a_number_is_told_apart() {
    for x in samples() {
        assert_eq!(number(x).is_not_a_number(), x.is_nan(), "{x}");
    }
}

#[test]
fn less_than_orders_as_the_numbers_do() {
    for a in samples() {
        for b in samples() {
            assert_eq!(number(a).less_than(number(b)), a < b, "{a} < {b}");
        }
    }
}

#[test]
fn clamp_to_unit_keeps_the_range() {
    for x in samples() {
        assert_eq!(number(x).clamp_to_unit().to_bits(), x.clamp(0.0, 1.0).to_bits(), "{x}");
    }
    assert_eq!(number(1.5).clamp_to_unit().to_bits(), ONE_BITS);
    assert_eq!(number(-1.5).clamp_to_unit().to_bits(), 0);
}

#[test]
fn at_most_orders_as_the_numbers_do() {
    for a in samples() {
        for b in samples() {
            assert_eq!(number(a).at_most(number(b)), a <= b, "{a} <= {b}");
        }
    }
}

#[test]
fn power_of_two_doubles() {
    assert_eq!(power_of_two(0), 1);
    assert_eq!(power_of_two(1), 2);
    assert_eq!(power_of_two(10), 1024);
    assert_eq!(power_of_two(64), 1u128 << 64);
    assert_eq!(power_of_two(126), 1u128 << 126);
    assert_eq!(power_of_two(127), 1u128 << 127);
}
