use path_tracer::math::scalar::{Scalar, HIDDEN, INFINITY, ONE, SIGN, ZERO};

fn s(x: f64) -> Scalar {
    Scalar::from_bits(x.to_bits())
}

fn samples() -> Vec<f64> {
    vec![
        0.0,
        -0.0,
        1.0,
        -1.0,
        0.5,
        0.001,
        0.999,
        2.0,
        -2.5,
        1e-310,
        -1e-310,
        5e-324,
        -5e-324,
        f64::MIN_POSITIVE,
        f64::MAX,
        f64::MIN,
        f64::INFINITY,
        f64::NEG_INFINITY,
        f64::NAN,
        -f64::NAN,
        f64::from_bits(0x7FF0_0000_0000_0001),
        f64::from_bits(0xFFFF_FFFF_FFFF_FFFF),
        1.0 + f64::EPSILON,
        1.0 - f64::EPSILON / 2.0,
        255.744,
        1e300,
        -1e300,
    ]
}

#[test]
fn constants_are_the_patterns_of_their_doubles() {
    assert_eq!(ZERO, 0.0f64.to_bits());
    assert_eq!(ONE, 1.0f64.to_bits());
    assert_eq!(INFINITY, f64::INFINITY.to_bits());
    assert_eq!(SIGN, (-0.0f64).to_bits());
    assert_eq!(HIDDEN, 1u64 << 52);
}

#[test]
fn bits_go_in_and_come_out() {
    for x in samples() {
        assert_eq!(s(x).to_bits(), x.to_bits());
        assert_eq!(Scalar::from_bits(x.to_bits()).bits, x.to_bits());
    }
}

#[test]
fn is_nan_agrees_with_doubles() {
    for x in samples() {
        assert_eq!(s(x).is_nan(), x.is_nan(), "{:?}", x);
    }
}

#[test]
fn lt_agrees_with_doubles() {
    for x in samples() {
        for y in samples() {
            assert_eq!(s(x).lt(s(y)), x < y, "{:?} < {:?}", x, y);
        }
    }
}

#[test]
fn gt_agrees_with_doubles() {
    for x in samples() {
        for y in samples() {
            assert_eq!(s(x).gt(s(y)), x > y, "{:?} > {:?}", x, y);
        }
    }
}

#[test]
fn le_agrees_with_doubles() {
    for x in samples() {
        for y in samples() {
            assert_eq!(s(x).le(s(y)), x <= y, "{:?} <= {:?}", x, y);
        }
    }
}

#[test]
fn ge_agrees_with_doubles() {
    for x in samples() {
        for y in samples() {
            assert_eq!(s(x).ge(s(y)), x >= y, "{:?} >= {:?}", x, y);
        }
    }
}

#[test]
fn neg_agrees_with_doubles() {
    for x in samples() {
        assert_eq!(s(x).neg().to_bits(), (-x).to_bits(), "{:?}", x);
    }
}

#[test]
fn both_zeros_are_equal_and_neither_is_less() {
    assert!(!s(-0.0).lt(s(0.0)));
    assert!(!s(0.0).lt(s(-0.0)));
    assert!(s(-0.0).le(s(0.0)));
    assert!(s(0.0).ge(s(-0.0)));
}

#[test]
fn nothing_compares_with_what_is_not_a_number() {
    for x in samples() {
        assert!(!s(f64::NAN).lt(s(x)));
        assert!(!s(f64::NAN).gt(s(x)));
        assert!(!s(f64::NAN).le(s(x)));
        assert!(!s(f64::NAN).ge(s(x)));
    }
}

#[test]
fn neighbours_are_ordered() {
    let mut bits = 0u64;
    while bits < INFINITY {
        let next = bits + (INFINITY / 4096) + 1;
        if next > INFINITY {
            break;
        }
        assert!(Scalar::from_bits(bits).lt(Scalar::from_bits(next)));
        assert!(f64::from_bits(bits) < f64::from_bits(next));
        assert!(Scalar::from_bits(next | SIGN).lt(Scalar::from_bits(bits | SIGN)));
        bits = next;
    }
}
