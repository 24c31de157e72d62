use unrvl::deviations::{centering_unit, power_of_two_unit};

fn unit(x: f64) -> f64 {
    f64::from_bits(power_of_two_unit(x.to_bits()))
}

fn bits(xs: &[f64]) -> Vec<u64> {
    xs.iter().map(|x| x.to_bits()).collect()
}

#[test]
fn selects_power_of_two_units_across_the_finite_range() {
    assert_eq!(unit(0.0), 1.0);
    assert_eq!(unit(1.0), 1.0);
    assert_eq!(unit(3.0), 2.0);

    assert_eq!(unit(f64::from_bits(3)), f64::from_bits(2));
    assert_eq!(unit(f64::MIN_POSITIVE), f64::MIN_POSITIVE);

    let largest_power_of_two = f64::from_bits(0x7fe0_0000_0000_0000);
    assert_eq!(unit(f64::MAX), largest_power_of_two);
}

#[test]
fn negative_zero_has_the_unit_one() {
    assert_eq!(unit(-0.0), 1.0);
}

#[test]
fn scaled_values_lie_in_one_to_two() {
    for x in [1e-300, 0.75, 3.0, 1000.0, 1e300, f64::from_bits(12345)] {
        let scaled = x / unit(x);
        assert!((1.0..2.0).contains(&scaled), "{x} scaled to {scaled}");
    }
}

#[test]
fn rejects_empty_or_nonfinite_samples() {
    assert!(centering_unit(&[]).is_none());

    for value in [f64::NAN, f64::INFINITY, f64::NEG_INFINITY] {
        assert!(centering_unit(&bits(&[1.0, value])).is_none());
    }
}

#[test]
fn unit_follows_the_largest_magnitude() {
    let (u, constant) = centering_unit(&bits(&[1000.0, 1001.0, 1002.0])).unwrap();
    assert_eq!(f64::from_bits(u), 512.0);
    assert!(!constant);

    let (u, _) = centering_unit(&bits(&[-f64::MAX, 0.0, f64::MAX])).unwrap();
    assert_eq!(u, 0x7fe0_0000_0000_0000);

    let d = f64::from_bits(1);
    let (u, _) = centering_unit(&bits(&[0.0, 0.0, d])).unwrap();
    assert_eq!(f64::from_bits(u), d);
}

#[test]
fn constants_have_positive_units() {
    let values = [0.0, 42.0, f64::from_bits(1), -f64::from_bits(1), f64::MAX, -f64::MAX];

    for value in values {
        let (u, constant) = centering_unit(&bits(&[value; 4])).unwrap();
        let u = f64::from_bits(u);
        assert!(u.is_finite());
        assert!(u > 0.0);
        assert!(constant);
    }
}

#[test]
fn all_zero_sample_uses_a_unit_of_one() {
    let (u, constant) = centering_unit(&bits(&[0.0, -0.0, 0.0])).unwrap();
    assert_eq!(f64::from_bits(u), 1.0);
    assert!(constant);
}
