use solar_system_sim::scalar::{Scalar, INFINITY_BITS, MAX_BITS, ONE_BITS};

fn s(x: f64) -> Scalar {
    Scalar { bits: x.to_bits() }
}

const SAMPLES: [f64; 14] = [
    0.0,
    -0.0,
    1.0,
    -1.0,
    1.5,
    -1.5,
    5e-324,
    -5e-324,
    1e300,
    -1e300,
    f64::MAX,
    f64::INFINITY,
    f64::NEG_INFINITY,
    f64::NAN,
];

#[test]
fn numbers_compare_by_value() {
    for a in SAMPLES {
        for b in SAMPLES {
            assert_eq!(s(a).less(&s(b)), a < b, "{a} {b}");
        }
    }
}

#[test]
fn only_nan_is_not_a_number() {
    for a in SAMPLES {
        assert_eq!(s(a).not_a_number(), a.is_nan());
    }
    assert!(s(-f64::NAN).not_a_number());
}

#[test]
fn named_numbers() {
    assert_eq!(Scalar::infinity(), s(f64::INFINITY));
    assert_eq!(Scalar::max_finite(), s(f64::MAX));
    assert_eq!(INFINITY_BITS, f64::INFINITY.to_bits());
    assert_eq!(MAX_BITS, f64::MAX.to_bits());
    assert_eq!(ONE_BITS, 1.0f64.to_bits());
}

#[test]
fn clamping_keeps_a_number_between_its_bounds() {
    for a in SAMPLES {
        let r = s(a).clamp(s(-1.25), s(2.5));
        if a.is_nan() {
            assert_eq!(r, s(a));
        } else {
            assert_eq!(f64::from_bits(r.bits), a.clamp(-1.25, 2.5));
        }
    }
}

#[test]
fn parts_are_exact() {
    for n in [0u32, 1, 2, 3, 5, 30, 500, 3600, 86_400, 1_000_000, u32::MAX] {
        for h in [0u32, 1, 2, 10, 64] {
            let expected = n as f64 / 2f64.powi(h as i32);
            assert_eq!(f64::from_bits(Scalar::of_parts(n, h).bits), expected);
        }
    }
}

#[test]
fn bounds_are_compared_exactly() {
    assert!(s(1.4999999999999998).is_under(3, 1));
    assert!(!s(1.5).is_under(3, 1));
    assert!(!s(f64::NAN).is_under(3, 1));
    assert!(s(1.5).is_at_least(3, 1));
    assert!(!s(f64::NAN).is_at_least(3, 1));
    assert!(s(f64::INFINITY).is_at_least(86_400, 0));
    assert!(s(f64::NEG_INFINITY).is_under(0, 0));
}

#[test]
fn doubling_ends_at_infinity() {
    assert_eq!(s(3600.0).doubled(), s(7200.0));
    assert_eq!(s(1e308).doubled(), s(f64::INFINITY));
    assert_eq!(s(f64::MAX / 2.0).doubled(), s(f64::MAX));
    assert_eq!(s(f64::INFINITY).doubled(), s(f64::INFINITY));
}

#[test]
fn halving_ends_at_one() {
    assert_eq!(s(3600.0).halved(), s(1800.0));
    assert_eq!(s(2.0).halved(), s(1.0));
    assert_eq!(s(1.7578125).halved(), s(1.0));
    assert_eq!(s(1.0).halved(), s(1.0));
    assert_eq!(s(f64::INFINITY).halved(), s(f64::INFINITY));
}

#[test]
fn whole_parts_drop_the_fraction() {
    for x in [1.0, 1.7578125, 112.5, 3599.999, 4503599627370495.5] {
        assert_eq!(s(x).whole_part(), x as u64);
    }
}

#[test]
fn negation_changes_the_sign() {
    assert_eq!(s(1.5).negated(), s(-1.5));
    assert_eq!(s(-1.5).negated(), s(1.5));
}
