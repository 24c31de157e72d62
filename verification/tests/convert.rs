use unrvl::convert::usize_to_f64;
use unrvl::moments::finite_constant;

fn convert(n: usize) -> f64 {
    f64::from_bits(usize_to_f64(n))
}

#[test]
fn converts_representable_values() {
    assert_eq!(convert(0), 0.0);
    assert_eq!(convert(1), 1.0);
    assert_eq!(convert(42), 42.0);
}

#[test]
fn accepts_end_of_consecutive_exact_range() {
    let value = 1_usize << f64::MANTISSA_DIGITS;
    assert_eq!(convert(value), 9_007_199_254_740_992.0,);
}

#[test]
fn scalar_helpers_are_available_to_external_callers() {
    let _: f64 = convert(42);
}

#[test]
fn conversion_agrees_with_the_language_cast() {
    let mut samples: Vec<usize> = (0..2000).collect();
    for k in 0..=53 {
        let p = 1usize << k;
        samples.extend([p - 1, p, p + 1].into_iter().filter(|&n| n <= 1 << 53));
    }
    samples.push((1 << 53) - 12345);
    for n in samples {
        assert_eq!(usize_to_f64(n), (n as f64).to_bits(), "{n}");
    }
}

fn bits(xs: &[f64]) -> Vec<u64> {
    xs.iter().map(|x| x.to_bits()).collect()
}

#[test]
fn finite_constant_samples_are_recognised() {
    assert_eq!(finite_constant(&bits(&[2.5, 2.5, 2.5])), Some(2.5f64.to_bits()));
    assert_eq!(finite_constant(&bits(&[-0.0, 0.0])), Some((-0.0f64).to_bits()));
    assert_eq!(finite_constant(&bits(&[2.5, 2.5, 3.0])), None);
    assert_eq!(finite_constant(&bits(&[f64::INFINITY, f64::INFINITY])), None);
    assert_eq!(finite_constant(&bits(&[1.0, f64::NAN])), None);
    assert_eq!(finite_constant(&[]), None);
}
