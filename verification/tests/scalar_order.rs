use rusttracer::structs::compare::clamp;
use rusttracer::structs::pixel::channel;
use rusttracer::structs::scalar::Scalar;

fn s(x: f64) -> Scalar {
    Scalar::from_bits(x.to_bits())
}

fn f(x: Scalar) -> f64 {
    f64::from_bits(x.to_bits())
}

fn samples() -> Vec<f64> {
    vec![
        0.0,
        -0.0,
        1.0,
        -1.0,
        0.001,
        0.999,
        0.5,
        0.25,
        0.00390625,
        0.003906249,
        0.9999999,
        f64::MAX,
        f64::MIN,
        f64::MIN_POSITIVE,
        -f64::MIN_POSITIVE,
        5e-324,
        -5e-324,
        f64::INFINITY,
        f64::NEG_INFINITY,
        f64::NAN,
        -f64::NAN,
        3.5,
        -3.5,
        255.0,
        256.0,
        1e300,
    ]
}

#[test]
fn order_agrees_with_the_hardware() {
    for &a in samples().iter() {
        assert_eq!(s(a).is_nan(), a.is_nan());
        assert_eq!(s(a).neg().to_bits(), (-a).to_bits());
        for &b in samples().iter() {
            assert_eq!(s(a).lt(&s(b)), a < b, "{} < {}", a, b);
            assert_eq!(s(a).le(&s(b)), a <= b, "{} <= {}", a, b);
            assert_eq!(s(a).gt(&s(b)), a > b, "{} > {}", a, b);
            assert_eq!(s(a).ge(&s(b)), a >= b, "{} >= {}", a, b);
        }
    }
}

#[test]
fn operators_agree_with_the_hardware() {
    for &a in samples().iter() {
        for &b in samples().iter() {
            assert_eq!(s(a) < s(b), a < b);
            assert_eq!(s(a) <= s(b), a <= b);
            assert_eq!(s(a) > s(b), a > b);
            assert_eq!(s(a) >= s(b), a >= b);
            assert_eq!(s(a) == s(b), a == b);
            assert_eq!(s(a) != s(b), a != b);
            assert_eq!(s(a).partial_cmp(&s(b)), a.partial_cmp(&b));
        }
    }
}

#[test]
fn keys_are_ordered_as_the_quantities() {
    for &a in samples().iter() {
        for &b in samples().iter() {
            if !a.is_nan() && !b.is_nan() {
                assert_eq!(s(a).key() < s(b).key(), a < b);
                assert_eq!(s(a).key() == s(b).key(), a == b);
            }
        }
    }
    assert_eq!(s(0.0).key(), 0);
    assert_eq!(s(-0.0).key(), 0);
    assert_eq!(s(1.0).key(), 0x3ff0_0000_0000_0000);
    assert_eq!(s(-1.0).key(), -0x3ff0_0000_0000_0000);
}

#[test]
fn larger_and_smaller_agree_with_the_hardware() {
    for &a in samples().iter() {
        for &b in samples().iter() {
            let hi = f(s(a).max(s(b)));
            let lo = f(s(a).min(s(b)));
            if a.is_nan() && b.is_nan() {
                assert!(hi.is_nan());
                assert!(lo.is_nan());
            } else {
                assert_eq!(hi, a.max(b));
                assert_eq!(lo, a.min(b));
            }
        }
    }
}

#[test]
fn a_nan_yields_to_the_other_operand() {
    assert_eq!(s(f64::NAN).max(s(2.0)).to_bits(), 2.0f64.to_bits());
    assert_eq!(s(2.0).max(s(f64::NAN)).to_bits(), 2.0f64.to_bits());
    assert_eq!(s(f64::NAN).min(s(2.0)).to_bits(), 2.0f64.to_bits());
    assert_eq!(s(2.0).min(s(f64::NAN)).to_bits(), 2.0f64.to_bits());
}

#[test]
fn constants_have_their_patterns() {
    assert_eq!(f(Scalar::zero()), 0.0);
    assert_eq!(f(Scalar::one()), 1.0);
    assert_eq!(Scalar::zero().to_bits(), 0);
}

#[test]
fn clamp_agrees_with_the_hardware() {
    for &x in samples().iter() {
        let got = f(clamp(s(x), s(0.0), s(0.999)));
        let expected = num::clamp(x, 0.0, 0.999);
        if x.is_nan() {
            assert!(got.is_nan());
        } else {
            assert_eq!(got, expected);
        }
    }
    assert_eq!(f(clamp(s(2.0), s(0.0), s(0.999))), 0.999);
    assert_eq!(f(clamp(s(-2.0), s(0.0), s(0.999))), 0.0);
    assert_eq!(f(clamp(s(0.25), s(0.0), s(0.999))), 0.25);
}

#[test]
fn clamp_leaves_the_input_where_the_bounds_are_not_ordered() {
    assert_eq!(f(clamp(s(5.0), s(1.0), s(0.0))), 5.0);
    assert_eq!(f(clamp(s(5.0), s(f64::NAN), s(1.0))), 5.0);
}

#[test]
fn channel_is_the_floor_of_256_times_the_clamped_value() {
    for &x in samples().iter() {
        let expected = (256.0 * num::clamp(x, 0.0, 0.999)) as u8;
        assert_eq!(channel(s(x)), expected, "channel of {}", x);
    }
    let mut x = 0.0;
    while x < 1.2 {
        let expected = (256.0 * num::clamp(x, 0.0, 0.999)) as u8;
        assert_eq!(channel(s(x)), expected, "channel of {}", x);
        let root = f64::sqrt(x);
        let expected = (256.0 * num::clamp(root, 0.0, 0.999)) as u8;
        assert_eq!(channel(s(root)), expected, "channel of {}", root);
        x += 0.000173;
    }
}

#[test]
fn channel_exact_values() {
    assert_eq!(channel(s(0.0)), 0);
    assert_eq!(channel(s(-0.0)), 0);
    assert_eq!(channel(s(0.5)), 128);
    assert_eq!(channel(s(0.25)), 64);
    assert_eq!(channel(s(0.00390625)), 1);
    assert_eq!(channel(s(0.0039)), 0);
    assert_eq!(channel(s(0.999)), 255);
    assert_eq!(channel(s(1.0)), 255);
    assert_eq!(channel(s(7.0)), 255);
    assert_eq!(channel(s(-3.0)), 0);
    assert_eq!(channel(s(f64::NAN)), 0);
    assert_eq!(channel(s(f64::INFINITY)), 255);
    assert_eq!(channel(s(5e-324)), 0);
}
