use unrvl::binary64::{abs_bits, is_finite_bits, is_nan_bits, ordinal_of, total_key_of};

#[test]
fn classifies_special_values() {
    assert!(is_nan_bits(f64::NAN.to_bits()));
    assert!(!is_nan_bits(f64::INFINITY.to_bits()));
    assert!(!is_finite_bits(f64::INFINITY.to_bits()));
    assert!(!is_finite_bits(f64::NEG_INFINITY.to_bits()));
    assert!(is_finite_bits(f64::MAX.to_bits()));
    assert!(is_finite_bits((-0.0f64).to_bits()));
}

#[test]
fn absolute_value_clears_the_sign() {
    assert_eq!(abs_bits((-2.5f64).to_bits()), 2.5f64.to_bits());
    assert_eq!(abs_bits((-0.0f64).to_bits()), 0.0f64.to_bits());
    assert_eq!(abs_bits(7.0f64.to_bits()), 7.0f64.to_bits());
}

#[test]
fn ordinals_follow_numeric_order() {
    let xs = [f64::NEG_INFINITY, -3.0, -1e-300, 0.0, 1e-300, 2.0, f64::INFINITY];
    for pair in xs.windows(2) {
        assert!(ordinal_of(pair[0].to_bits()) < ordinal_of(pair[1].to_bits()));
    }
    assert_eq!(ordinal_of((-0.0f64).to_bits()), ordinal_of(0.0f64.to_bits()));
}

#[test]
fn total_keys_follow_total_cmp() {
    let xs = [f64::NEG_INFINITY, -3.0, -0.0, 0.0, 1e-300, 2.0, f64::INFINITY, f64::NAN];
    for a in xs {
        for b in xs {
            let expected = a.total_cmp(&b);
            let actual = total_key_of(a.to_bits()).cmp(&total_key_of(b.to_bits()));
            assert_eq!(actual, expected, "{a} vs {b}");
        }
    }
}
