use unitcalc::binary64::{Binary64, INFINITY_BITS, LARGE_BITS, ONE_BITS, SIGN_BIT, SMALL_BITS};

fn pack(x: f64) -> Binary64 {
    Binary64::from_bits(x.to_bits())
}

fn samples() -> Vec<f64> {
    vec![
        0.0,
        -0.0,
        5e-324,
        -5e-324,
        f64::MIN_POSITIVE,
        -f64::MIN_POSITIVE,
        1e-5,
        0.5,
        -0.5,
        1.0,
        -1.0,
        1.5,
        2.0,
        1e10,
        -1e10,
        f64::MAX,
        f64::MIN,
        f64::INFINITY,
        f64::NEG_INFINITY,
        f64::NAN,
        -f64::NAN,
        f64::from_bits(0x7FF0_0000_0000_0001),
    ]
}

#[test]
fn named_patterns_are_the_numbers_they_are_named_after() {
    assert_eq!(ONE_BITS, 1.0f64.to_bits());
    assert_eq!(SMALL_BITS, 1e-5f64.to_bits());
    assert_eq!(LARGE_BITS, 1e10f64.to_bits());
    assert_eq!(INFINITY_BITS, f64::INFINITY.to_bits());
    assert_eq!(SIGN_BIT, (-0.0f64).to_bits());
}

#[test]
fn bits_are_kept() {
    for x in samples() {
        assert_eq!(pack(x).to_bits(), x.to_bits());
    }
}

#[test]
fn classes_agree_with_the_floating_point_numbers() {
    for x in samples() {
        assert_eq!(pack(x).is_nan(), x.is_nan(), "{x}");
        assert_eq!(pack(x).is_infinite(), x.is_infinite(), "{x}");
        assert_eq!(pack(x).is_zero(), x == 0.0, "{x}");
        assert_eq!(pack(x).is_negative(), x < 0.0, "{x}");
    }
}

#[test]
fn order_agrees_with_the_floating_point_numbers() {
    for x in samples() {
        for y in samples() {
            assert_eq!(pack(x).less_than(&pack(y)), x < y, "{x} < {y}");
            assert_eq!(pack(x).less_or_equal(&pack(y)), x <= y, "{x} <= {y}");
            assert_eq!(pack(x).equals(&pack(y)), x == y, "{x} == {y}");
        }
    }
}

#[test]
fn sign_changes_agree_with_the_floating_point_numbers() {
    for x in samples() {
        assert_eq!(pack(x).neg().to_bits(), (-x).to_bits(), "{x}");
        assert_eq!(pack(x).abs().to_bits(), x.abs().to_bits(), "{x}");
    }
}
