use unrvl::ordering::sorted_by_total_order;
use unrvl::quantile::{is_valid_probability, is_valid_sample};

fn bits(xs: &[f64]) -> Vec<u64> {
    xs.iter().map(|x| x.to_bits()).collect()
}

#[test]
fn accepts_finite_nonempty_sample() {
    assert!(is_valid_sample(&bits(&[-1.0, 0.0, 1.0])));
}

#[test]
fn rejects_empty_sample() {
    assert!(!is_valid_sample(&[]));
}

#[test]
fn internal_rejects_nonfinite_values() {
    assert!(!is_valid_sample(&bits(&[1.0, f64::NAN])));
    assert!(!is_valid_sample(&bits(&[1.0, f64::INFINITY])));
    assert!(!is_valid_sample(&bits(&[1.0, f64::NEG_INFINITY])));

    assert!(!is_valid_probability(f64::NAN.to_bits()));
    assert!(!is_valid_probability(f64::INFINITY.to_bits()));
    assert!(!is_valid_probability(f64::NEG_INFINITY.to_bits()));
}

#[test]
fn accepts_closed_unit_interval() {
    assert!(is_valid_probability(0.0f64.to_bits()));
    assert!(is_valid_probability(0.5f64.to_bits()));
    assert!(is_valid_probability(1.0f64.to_bits()));
}

#[test]
fn rejects_values_outside_unit_interval() {
    assert!(!is_valid_probability((-f64::EPSILON).to_bits()));
    assert!(!is_valid_probability((1.0 + f64::EPSILON).to_bits()));
}

#[test]
fn negative_zero_is_a_valid_probability() {
    assert!(is_valid_probability((-0.0f64).to_bits()));
    assert!(!is_valid_probability(f64::MIN_POSITIVE.to_bits() | (1u64 << 63)));
}

fn sorted(xs: &[f64]) -> Vec<f64> {
    sorted_by_total_order(&bits(xs)).into_iter().map(f64::from_bits).collect()
}

#[test]
fn sorts_an_unsorted_sample() {
    assert_eq!(sorted(&[40.0, 0.0, 30.0, 10.0, 20.0]), vec![0.0, 10.0, 20.0, 30.0, 40.0]);
}

#[test]
fn sorts_by_the_total_order() {
    let xs = [f64::INFINITY, 0.0, -0.0, -1.5, f64::NEG_INFINITY, 1e-310];
    let actual = sorted_by_total_order(&bits(&xs));
    let expected = bits(&[f64::NEG_INFINITY, -1.5, -0.0, 0.0, 1e-310, f64::INFINITY]);
    assert_eq!(actual, expected);
}

#[test]
fn sorting_keeps_duplicates_and_handles_empty_input() {
    assert_eq!(sorted(&[2.0, 1.0, 2.0, 1.0]), vec![1.0, 1.0, 2.0, 2.0]);
    assert_eq!(sorted_by_total_order(&[]), Vec::<u64>::new());
}

#[test]
fn sorting_ignores_the_order_of_the_input() {
    let xs = [3.5, -1.0, 8.0, 0.25, -1.0];
    let mut reversed = xs;
    reversed.reverse();
    assert_eq!(sorted_by_total_order(&bits(&xs)), sorted_by_total_order(&bits(&reversed)));
}

#[test]
fn nans_sort_to_the_ends_by_sign() {
    let negative_nan = f64::NAN.to_bits() | (1u64 << 63);
    let positive_nan = f64::NAN.to_bits() & !(1u64 << 63);
    let xs = vec![positive_nan, 1.0f64.to_bits(), negative_nan];
    assert_eq!(sorted_by_total_order(&xs), vec![negative_nan, 1.0f64.to_bits(), positive_nan]);
}

use unrvl::extrema::min_max;
use unrvl::quantile::type7_endpoint;

#[test]
fn singleton_returns_its_only_observation() {
    for p in [0.0, 0.25, 0.5, 0.75, 1.0] {
        assert_eq!(type7_endpoint(1, f64::to_bits(p)), Some(0));
    }
}

#[test]
fn boundary_probabilities_select_minimum_and_maximum() {
    assert_eq!(type7_endpoint(4, 0.0f64.to_bits()), Some(0));
    assert_eq!(type7_endpoint(4, (-0.0f64).to_bits()), Some(0));
    assert_eq!(type7_endpoint(4, 1.0f64.to_bits()), Some(3));
}

#[test]
fn interior_probabilities_are_interpolated() {
    assert_eq!(type7_endpoint(5, 0.25f64.to_bits()), None);
    assert_eq!(type7_endpoint(5, 0.125f64.to_bits()), None);
    assert_eq!(type7_endpoint(2, 0.5f64.to_bits()), None);
}

#[test]
fn sorted_copy_ends_are_the_sample_bounds() {
    let xs = bits(&[4.0, -2.0, 8.0, 1.0]);
    let sorted = sorted_by_total_order(&xs);
    let (lower, upper) = min_max(&xs);
    assert_eq!(sorted[0], lower);
    assert_eq!(sorted[sorted.len() - 1], upper);
    assert_eq!(f64::from_bits(sorted[0]), -2.0);
    assert_eq!(f64::from_bits(sorted[3]), 8.0);
}

use unrvl::quantile::interpolates_by_weights;

fn weighted(a: f64, b: f64) -> bool {
    interpolates_by_weights(a.to_bits(), b.to_bits())
}

#[test]
fn weighted_form_is_used_only_across_zero() {
    assert!(weighted(-20.0, 20.0));
    assert!(weighted(-f64::MAX, f64::MAX));
    assert!(weighted(-1.0, 0.0));
    assert!(!weighted(10.0, 20.0));
    assert!(!weighted(-20.0, -10.0));
}

#[test]
fn tiny_endpoints_use_the_difference_form() {
    let d = f64::from_bits(1);
    assert!(!weighted(-3.0 * d, d));
    assert!(!weighted(-f64::MIN_POSITIVE, f64::MIN_POSITIVE));
    assert!(weighted(-f64::MIN_POSITIVE, 2.0 * f64::MIN_POSITIVE));
}
