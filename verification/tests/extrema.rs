use unrvl::extrema::{argmax, argmax_abs, argmin, argmin_abs, max_abs, min_abs, min_max};

fn bits(xs: &[f64]) -> Vec<u64> {
    xs.iter().map(|x| x.to_bits()).collect()
}

fn value(b: u64) -> f64 {
    f64::from_bits(b)
}

#[test]
fn extrema_ignores_nan_when_numeric_values_are_present() {
    let xs = bits(&[f64::NAN, 1.0, -2.0, f64::NAN]);
    assert_eq!(value(max_abs(&xs)), 2.0);
    assert_eq!(value(min_abs(&xs)), 1.0);
    assert_eq!(argmax(&xs), 1);
    assert_eq!(argmin(&xs), 2);
    assert_eq!(argmax_abs(&xs), 2);
    assert_eq!(argmin_abs(&xs), 1);

    let ys = bits(&[1.0, f64::NAN, 3.0]);
    let (lower, upper) = min_max(&ys);
    assert_eq!((value(lower), value(upper)), (1.0, 3.0));
}

#[test]
fn extrema_returns_nan_when_all_values_are_nan() {
    let xs = bits(&[f64::NAN, f64::NAN]);
    assert!(value(max_abs(&xs)).is_nan());
    assert!(value(min_abs(&xs)).is_nan());
}

#[test]
fn extrema_handles_infinity() {
    let xs = bits(&[1.0, f64::NEG_INFINITY, 2.0]);
    assert_eq!(value(max_abs(&xs)), f64::INFINITY);
    assert_eq!(value(min_abs(&xs)), 1.0);
    assert_eq!(argmin(&xs), 1);
    assert_eq!(argmax_abs(&xs), 1);
    assert_eq!(argmin_abs(&xs), 0);

    let ys = bits(&[1.0, f64::INFINITY, 2.0]);
    assert_eq!(argmax(&ys), 1);
}

#[test]
fn handles_negative_zero() {
    let xs = bits(&[-0.0, 1.0]);
    let result = value(min_abs(&xs));

    assert_eq!(result, 0.0);
    assert!(result.is_sign_positive());
}

#[test]
fn returns_max_abs() {
    let xs = bits(&[1.0, 100.0, -101.5, 13.25]);
    assert_eq!(value(max_abs(&xs)), 101.5);
}

#[test]
fn returns_min_abs() {
    let xs = bits(&[1.0, 100.0, -101.5, 13.25]);
    assert_eq!(value(min_abs(&xs)), 1.0);
}

#[test]
fn extrema_returns_first_index_when_all_values_are_nan() {
    let xs = bits(&[f64::NAN, f64::NAN]);
    assert_eq!(argmax(&xs), 0);
    assert_eq!(argmin(&xs), 0);
    assert_eq!(argmax_abs(&xs), 0);
    assert_eq!(argmin_abs(&xs), 0);
}

#[test]
fn extrema_returns_first_occurrence() {
    assert_eq!(argmax(&bits(&[1.0, 2.0, 2.0])), 1);
    assert_eq!(argmin(&bits(&[1.0, -2.0, -2.0])), 1);
    assert_eq!(argmax_abs(&bits(&[1.0, -2.0, -2.0])), 1);
    assert_eq!(argmin_abs(&bits(&[1.0, -0.5, -0.5])), 1);
}

#[test]
fn returns_arg_max() {
    let xs = bits(&[1.0, 100.0, -101.5, 13.25]);
    assert_eq!(argmax(&xs), 1);
}

#[test]
fn returns_arg_min() {
    let xs = bits(&[1.0, 100.0, -101.5, 13.25]);
    assert_eq!(argmin(&xs), 2);
}

#[test]
fn returns_arg_max_abs() {
    let xs = bits(&[1.0, 100.0, -101.5, 13.25]);
    assert_eq!(argmax_abs(&xs), 2);
}

#[test]
fn returns_arg_min_abs() {
    let xs = bits(&[1.0, 100.0, -101.5, 13.25]);
    assert_eq!(argmin_abs(&xs), 0);
}

fn bounds(xs: &[f64]) -> (f64, f64) {
    let (lower, upper) = min_max(&bits(xs));
    (value(lower), value(upper))
}

#[test]
fn singleton_returns_value_as_both_bounds() {
    assert_eq!(bounds(&[42.0]), (42.0, 42.0));
}

#[test]
fn finds_minimum_and_maximum() {
    assert_eq!(bounds(&[3.0, -2.0, 7.0, 1.0]), (-2.0, 7.0));
}

#[test]
fn handles_repeated_extrema() {
    assert_eq!(bounds(&[-2.0, 7.0, -2.0, 3.0, 7.0]), (-2.0, 7.0));
}

#[test]
fn handles_negative_infinity() {
    assert_eq!(bounds(&[1.0, f64::NEG_INFINITY, 3.0]), (f64::NEG_INFINITY, 3.0));
}

#[test]
fn handles_positive_infinity() {
    assert_eq!(bounds(&[1.0, f64::INFINITY, 3.0]), (1.0, f64::INFINITY));
}

#[test]
fn handles_both_infinities() {
    assert_eq!(bounds(&[0.0, f64::INFINITY, f64::NEG_INFINITY]), (f64::NEG_INFINITY, f64::INFINITY));
}

#[test]
fn recovers_when_first_value_is_nan() {
    assert_eq!(bounds(&[f64::NAN, 1.0, 3.0]), (1.0, 3.0));
}

#[test]
fn all_nan_values_return_nan_bounds() {
    let (min, max) = bounds(&[f64::NAN, f64::NAN]);

    assert!(min.is_nan());
    assert!(max.is_nan());
}

#[test]
fn extrema_is_available_externally() {
    let xs = bits(&[1.0, 2.0, -3.0]);

    let _ = max_abs(&xs);
    let _ = min_abs(&xs);
    let _ = argmax(&xs);
    let _ = argmin(&xs);
    let _ = argmax_abs(&xs);
    let _ = argmin_abs(&xs);
}

#[test]
fn zero_signs_tie_and_the_first_is_kept() {
    let xs = bits(&[-0.0, 0.0]);
    assert_eq!(argmax(&xs), 0);
    assert_eq!(argmin(&xs), 0);
    let (lower, upper) = min_max(&xs);
    assert_eq!(lower, (-0.0f64).to_bits());
    assert_eq!(upper, (-0.0f64).to_bits());
}

#[test]
fn negative_nan_is_ignored_like_positive_nan() {
    let negative_nan = f64::NAN.to_bits() | (1u64 << 63);
    let xs = vec![negative_nan, 5.0f64.to_bits(), (-7.0f64).to_bits()];
    assert_eq!(argmax(&xs), 1);
    assert_eq!(argmin(&xs), 2);
    assert_eq!(value(max_abs(&xs)), 7.0);
    assert_eq!(value(min_abs(&xs)), 5.0);
}
