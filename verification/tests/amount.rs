use listen_diffs::amount::{Amount, MAGNITUDE_BITS, SIGN_BIT};

fn amount(value: f64) -> Amount {
    Amount::from_bits(value.to_bits())
}

fn value(amount: Amount) -> f64 {
    f64::from_bits(amount.to_bits())
}

#[test]
fn bits_go_in_and_out_unchanged() {
    assert_eq!(Amount::from_bits(0x4000_0000_0000_0000).to_bits(), 0x4000_0000_0000_0000);
    assert_eq!(Amount::from_bits(0).bits, 0);
    assert_eq!(value(amount(2.0)), 2.0);
}

#[test]
fn abs_clears_the_sign() {
    assert_eq!(amount(-2.0).abs(), amount(2.0));
    assert_eq!(amount(2.0).abs(), amount(2.0));
    assert_eq!(amount(-0.0).abs(), amount(0.0));
    assert_eq!(value(amount(-1e-300).abs()), 1e-300);
    assert_eq!(value(amount(f64::NEG_INFINITY).abs()), f64::INFINITY);
    assert_eq!(amount(-2.0).abs().to_bits(), 0x4000_0000_0000_0000);
}

#[test]
fn abs_agrees_with_the_float_operation() {
    for v in [-3.5, 3.5, 0.0, -0.0, 1e308, -1e-308, f64::MIN_POSITIVE, f64::MAX, f64::MIN] {
        assert_eq!(amount(v).abs().to_bits(), v.abs().to_bits());
    }
    assert!(value(amount(f64::NAN).abs()).is_nan());
}

#[test]
fn abs_twice_is_abs_once() {
    for v in [-3.5, 3.5, -0.0, f64::MIN] {
        assert_eq!(amount(v).abs().abs(), amount(v).abs());
    }
}

#[test]
fn zero_of_either_sign_is_zero() {
    assert!(amount(0.0).is_zero());
    assert!(amount(-0.0).is_zero());
    assert!(!amount(5e-324).is_zero());
    assert!(!amount(-1.0).is_zero());
    assert!(!amount(f64::NAN).is_zero());
    assert!(!amount(f64::INFINITY).is_zero());
}

#[test]
fn the_masks_split_the_bits() {
    assert_eq!(SIGN_BIT, 1u64 << 63);
    assert_eq!(MAGNITUDE_BITS, !SIGN_BIT);
    assert_eq!((-1.0f64).to_bits() & SIGN_BIT, SIGN_BIT);
}
