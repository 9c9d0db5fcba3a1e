use mupdf::binary32::Binary32;

fn c(x: f32) -> Binary32 {
    Binary32::from_bits(x.to_bits())
}

#[test]
fn classification_follows_ieee() {
    assert!(c(f32::NAN).is_nan());
    assert!(!c(1.5).is_nan());
    assert!(c(1.5).is_finite());
    assert!(!c(f32::INFINITY).is_finite());
    assert!(c(f32::NEG_INFINITY).is_infinite());
    assert!(!c(f32::NAN).is_infinite());
    assert!(c(0.0).is_zero());
    assert!(c(-0.0).is_zero());
    assert!(!c(f32::MIN_POSITIVE).is_zero());
    assert!(c(-0.0).le_zero());
    assert!(c(-3.0).le_zero());
    assert!(!c(3.0).le_zero());
    assert!(!c(f32::NAN).le_zero());
    assert!(c(f32::NEG_INFINITY).le_zero());
}

#[test]
fn negation_equality_and_constants() {
    assert_eq!(f32::from_bits(c(2.5).neg().to_bits()), -2.5);
    assert_eq!(c(-0.0).neg().to_bits(), 0);
    assert_eq!(c(1.0), c(1.0));
    assert_eq!(c(0.0), c(-0.0));
    assert_ne!(c(f32::NAN), c(f32::NAN));
    assert_ne!(c(1.0), c(2.0));
    assert_eq!(f32::from_bits(Binary32::hundred().to_bits()), 100.0);
    assert_eq!(Binary32::from_bits(7).to_bits(), 7);
}
