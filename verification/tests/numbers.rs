use complex::binary64::Binary64;
use complex::complex::Complex;

fn bits(x: f64) -> Binary64 {
    Binary64::from_bits(x.to_bits())
}

const SAMPLES: [f64; 22] = [
    0.0,
    -0.0,
    1.0,
    -1.0,
    0.5,
    -0.5,
    0.9999999999999999,
    1.0000000000000002,
    2.0,
    -3.75,
    1e-300,
    -1e-300,
    5e-324,
    -5e-324,
    f64::MIN_POSITIVE,
    f64::MAX,
    f64::MIN,
    f64::INFINITY,
    f64::NEG_INFINITY,
    f64::NAN,
    1e300,
    123456.789,
];

#[test]
fn classification_agrees_with_the_hardware() {
    for x in SAMPLES {
        let b = bits(x);
        assert_eq!(x.is_nan(), b.is_nan(), "{x}");
        assert_eq!(x.is_finite(), b.is_finite(), "{x}");
        assert_eq!(x == 0.0, b.is_zero(), "{x}");
        assert_eq!(x < 0.0, b.is_negative(), "{x}");
        assert_eq!(x.abs() < 1.0, b.is_below_one(), "{x}");
        assert_eq!((-x).to_bits(), b.negated().to_bits(), "{x}");
    }
    let negative_nan = f64::from_bits(f64::NAN.to_bits() | (1 << 63));
    assert!(bits(negative_nan).is_nan());
    assert!(!bits(negative_nan).is_negative());
    assert!(!bits(negative_nan).is_below_one());
}

#[test]
fn equality_agrees_with_the_hardware() {
    for x in SAMPLES {
        for y in SAMPLES {
            assert_eq!(x == y, bits(x) == bits(y), "{x} {y}");
        }
    }
}

#[test]
fn complex_equality_is_part_by_part() {
    let c = |re: f64, im: f64| Complex::new(bits(re), bits(im));
    assert_eq!(c(1.0, 0.0), c(1.0, -0.0));
    assert_ne!(c(1.0, 0.0), c(1.0, 1.0));
    assert_ne!(c(f64::NAN, 0.0), c(f64::NAN, 0.0));
    assert!(c(0.0, -0.0).is_zero());
    assert!(!c(0.0, 5e-324).is_zero());
    assert!(c(1.0, f64::MAX).is_finite());
    assert!(!c(1.0, f64::INFINITY).is_finite());
}

#[test]
fn constants() {
    assert_eq!(1.0f64.to_bits(), Binary64::one().to_bits());
    assert_eq!(0.0f64.to_bits(), Binary64::zero().to_bits());
    assert_eq!(f64::INFINITY.to_bits(), complex::binary64::INFINITY_BITS);
    assert_eq!((-0.0f64).to_bits(), complex::binary64::SIGN_BIT);
    assert_eq!(1.0f64.to_bits(), complex::binary64::ONE_BITS);
}
