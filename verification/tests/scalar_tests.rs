use tinker::scalar::Scalar;

fn scalar(value: f64) -> Scalar {
    Scalar { bits: value.to_bits() }
}

fn samples() -> Vec<f64> {
    vec![
        0.0,
        -0.0,
        0.4,
        0.5,
        0.5000000000000001,
        0.49999999999999994,
        1.0,
        1.5,
        2.5,
        3.5,
        -0.4,
        -0.5,
        -1.5,
        -2.5,
        71.49,
        72.5,
        73.5,
        -40.0,
        99.99,
        1e-320,
        5e-324,
        4503599627370495.5,
        4503599627370496.5,
        9007199254740991.0,
        9007199254740992.0,
        1e15,
        1e16,
        1e21,
        1.7976931348623157e308,
        -1.7976931348623157e308,
        123456789.123456789,
        f64::MIN_POSITIVE,
    ]
}

#[test]
fn rounding_agrees_with_fixed_point_formatting() {
    for value in samples() {
        assert_eq!(scalar(value).rounded_string(), format!("{:.0}", value), "{:e}", value);
    }
}

#[test]
fn ties_round_to_the_even_neighbour() {
    assert_eq!(scalar(0.5).rounded_string(), "0");
    assert_eq!(scalar(1.5).rounded_string(), "2");
    assert_eq!(scalar(2.5).rounded_string(), "2");
    assert_eq!(scalar(72.5).rounded_string(), "72");
    assert_eq!(scalar(73.5).rounded_string(), "74");
    assert_eq!(scalar(71.49).rounded_string(), "71");
    assert_eq!(scalar(71.51).rounded_string(), "72");
}

#[test]
fn the_sign_is_written_before_a_zero() {
    assert_eq!(scalar(-0.0).rounded_string(), "-0");
    assert_eq!(scalar(-0.4).rounded_string(), "-0");
    assert_eq!(scalar(-3.7).rounded_string(), "-4");
}

#[test]
fn large_values_are_written_out_in_full() {
    assert_eq!(scalar(1e21).rounded_string(), "1000000000000000000000");
    assert_eq!(scalar(1e23).rounded_string(), "99999999999999991611392");
    assert_eq!(scalar(f64::MAX).rounded_string().len(), 309);
}

#[test]
fn what_is_not_finite_has_a_word() {
    assert_eq!(scalar(f64::NAN).rounded_string(), "NaN");
    assert_eq!(scalar(f64::INFINITY).rounded_string(), "inf");
    assert_eq!(scalar(f64::NEG_INFINITY).rounded_string(), "-inf");
}

#[test]
fn rank_orders_numbers_as_their_values() {
    let mut values = samples();
    values.push(f64::INFINITY);
    values.push(f64::NEG_INFINITY);
    for a in values.iter() {
        for b in values.iter() {
            assert_eq!(scalar(*a).below(&scalar(*b)), a < b, "{:e} {:e}", a, b);
            assert_eq!(
                scalar(*a).order_rank() == scalar(*b).order_rank(),
                a == b,
                "{:e} {:e}",
                a,
                b
            );
        }
    }
}

#[test]
fn classification_follows_the_bits() {
    assert!(scalar(f64::NAN).is_nan());
    assert!(!scalar(f64::INFINITY).is_nan());
    assert!(!scalar(1.0).is_nan());
    assert!(scalar(1.0).is_finite());
    assert!(!scalar(f64::NEG_INFINITY).is_finite());
    assert!(!scalar(f64::NAN).is_finite());
    assert!(scalar(-1.0).is_negative());
    assert!(scalar(-0.0).is_negative());
    assert!(!scalar(0.0).is_negative());
    assert_eq!(Scalar::zero().bits, 0.0f64.to_bits());
    assert_eq!(scalar(-2.0).abs_bits(), 2.0f64.to_bits());
}
