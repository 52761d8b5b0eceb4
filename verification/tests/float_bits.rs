use firewheel_clap_node::float_bits::{bits_are_nan, bits_are_zero, f64_bits_equal};

#[test]
fn equal_values_compare_equal() {
    assert!(f64_bits_equal(1.5f64.to_bits(), 1.5f64.to_bits()));
    assert!(f64_bits_equal(0.007f64.to_bits(), 0.007f64.to_bits()));
}

#[test]
fn different_values_compare_unequal() {
    assert!(!f64_bits_equal(1.0f64.to_bits(), 2.0f64.to_bits()));
    assert!(!f64_bits_equal(1.0f64.to_bits(), (-1.0f64).to_bits()));
}

#[test]
fn the_two_zeros_are_equal() {
    assert!(f64_bits_equal(0.0f64.to_bits(), (-0.0f64).to_bits()));
    assert!(bits_are_zero((-0.0f64).to_bits()));
    assert!(!bits_are_zero(f64::MIN_POSITIVE.to_bits()));
}

#[test]
fn nan_equals_nothing() {
    let nan = f64::NAN.to_bits();
    assert!(bits_are_nan(nan));
    assert!(!f64_bits_equal(nan, nan));
    assert!(!f64_bits_equal(nan, 1.0f64.to_bits()));
    assert!(!bits_are_nan(f64::INFINITY.to_bits()));
    assert!(f64_bits_equal(f64::INFINITY.to_bits(), f64::INFINITY.to_bits()));
}

#[test]
fn agrees_with_f64_equality() {
    let samples = [
        0.0f64,
        -0.0,
        1.0,
        -1.0,
        0.5,
        f64::NAN,
        -f64::NAN,
        f64::INFINITY,
        f64::NEG_INFINITY,
        f64::MIN_POSITIVE,
        f64::MAX,
        1e-310,
    ];
    for a in samples.iter() {
        for b in samples.iter() {
            assert_eq!(f64_bits_equal(a.to_bits(), b.to_bits()), a == b, "{a} vs {b}");
        }
    }
}
