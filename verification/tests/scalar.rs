use vdw_simulation::scalar::Scalar;
use vdw_simulation::scalar::FIVE_BITS;
use vdw_simulation::scalar::HALF_BITS;
use vdw_simulation::scalar::INFINITY_BITS;
use vdw_simulation::scalar::MILLI_BITS;
use vdw_simulation::scalar::ONE_BITS;
use vdw_simulation::scalar::SIGN_BIT;
use vdw_simulation::scalar::TWO_BITS;
use vdw_simulation::scalar::ZERO_BITS;

fn s(v: f64) -> Scalar {
    Scalar::from_bits(v.to_bits())
}

fn samples() -> Vec<f64> {
    vec![
        0.0,
        -0.0,
        1.0,
        -1.0,
        0.5,
        2.0,
        1.9999999999999998,
        2.0000000000000004,
        5.0,
        0.001,
        -0.001,
        1e-320,
        -1e-320,
        f64::MIN_POSITIVE,
        f64::MAX,
        f64::MIN,
        f64::INFINITY,
        f64::NEG_INFINITY,
        f64::NAN,
        -f64::NAN,
        f64::from_bits(0x7FF0_0000_0000_0001),
        f64::from_bits(0xFFFF_FFFF_FFFF_FFFF),
        3.141592653589793,
        -123456.789,
    ]
}

#[test]
fn constants_encode_their_numbers() {
    assert_eq!(ZERO_BITS, 0.0f64.to_bits());
    assert_eq!(HALF_BITS, 0.5f64.to_bits());
    assert_eq!(ONE_BITS, 1.0f64.to_bits());
    assert_eq!(TWO_BITS, 2.0f64.to_bits());
    assert_eq!(FIVE_BITS, 5.0f64.to_bits());
    assert_eq!(MILLI_BITS, 0.001f64.to_bits());
    assert_eq!(INFINITY_BITS, f64::INFINITY.to_bits());
    assert_eq!(SIGN_BIT, (-0.0f64).to_bits());
}

#[test]
fn bits_round_trip() {
    for v in samples() {
        assert_eq!(s(v).to_bits(), v.to_bits());
        assert_eq!(Scalar::from_bits(v.to_bits()).bits, v.to_bits());
    }
}

#[test]
fn is_nan_agrees_with_the_numbers() {
    for v in samples() {
        assert_eq!(s(v).is_nan(), v.is_nan(), "is_nan of {:?}", v);
    }
}

#[test]
fn order_agrees_with_the_numbers() {
    for a in samples() {
        for b in samples() {
            assert_eq!(s(a).le(s(b)), a <= b, "{:?} <= {:?}", a, b);
            assert_eq!(s(a).lt(s(b)), a < b, "{:?} < {:?}", a, b);
            assert_eq!(s(a).ge(s(b)), a >= b, "{:?} >= {:?}", a, b);
            assert_eq!(s(a).gt(s(b)), a > b, "{:?} > {:?}", a, b);
        }
    }
}

#[test]
fn both_zeros_are_equal_in_order_but_not_in_bits() {
    assert!(s(0.0).le(s(-0.0)));
    assert!(s(-0.0).le(s(0.0)));
    assert!(!s(0.0).lt(s(-0.0)));
    assert_ne!(s(0.0), s(-0.0));
}

#[test]
fn nothing_compares_with_nan() {
    let nan = s(f64::NAN);
    assert!(!nan.le(nan));
    assert!(!nan.lt(s(1.0)));
    assert!(!s(1.0).ge(nan));
    assert!(!nan.gt(s(f64::NEG_INFINITY)));
}

#[test]
fn clamp_agrees_with_raising_then_lowering() {
    let bounds = [(-0.05, 0.05), (0.0, 0.0), (-1.0, 2.0), (1.0, 1.5)];
    for v in samples() {
        for (lo, hi) in bounds {
            let got = f64::from_bits(s(v).clamp(s(lo), s(hi)).to_bits());
            let want = v.max(lo).min(hi);
            assert_eq!(got, want, "{:?} into {:?}..{:?}", v, lo, hi);
            assert!(lo <= got && got <= hi);
        }
    }
}

#[test]
fn clamp_gives_exact_values() {
    assert_eq!(s(0.3).clamp(s(-0.05), s(0.05)), s(0.05));
    assert_eq!(s(-0.3).clamp(s(-0.05), s(0.05)), s(-0.05));
    assert_eq!(s(0.01).clamp(s(-0.05), s(0.05)), s(0.01));
    assert_eq!(s(f64::NAN).clamp(s(-0.05), s(0.05)), s(-0.05));
}
