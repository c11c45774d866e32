use ray_tracing_weekend::math_util::{clamp, infinite, min};
use ray_tracing_weekend::path::bias;
use ray_tracing_weekend::ppm::channel_scale;
use ray_tracing_weekend::scalar::Scalar;

fn scalar(x: f64) -> Scalar {
    Scalar::from_bits(x.to_bits())
}

fn number(s: Scalar) -> f64 {
    f64::from_bits(s.to_bits())
}

fn samples() -> Vec<f64> {
    vec![
        0.0,
        -0.0,
        1.0,
        -1.0,
        0.001,
        -0.001,
        0.5,
        2.0,
        1.0e-310,
        -1.0e-310,
        f64::MIN_POSITIVE,
        f64::EPSILON,
        f64::MAX,
        f64::MIN,
        f64::INFINITY,
        f64::NEG_INFINITY,
        f64::NAN,
        -f64::NAN,
        f64::from_bits(1),
        f64::from_bits(0x8000_0000_0000_0001),
        f64::from_bits(0x000f_ffff_ffff_ffff),
        f64::from_bits(0x0010_0000_0000_0000),
        f64::from_bits(0x7ff0_0000_0000_0001),
        3.141592653589793,
        1.0000000000000002,
        0.9999999999999999,
        255.999,
        254.99999999999997,
        2147483647.0,
        2147483647.5,
        2147483648.0,
        -2147483648.0,
        -2147483648.5,
        -2147483649.0,
        4294967296.0,
        1.0e300,
        -1.0e300,
        123456.789,
        -123456.789,
        0.49999999999999994,
        -0.9999999999999999,
    ]
}

#[test]
fn lt_agrees_with_native_order() {
    for a in samples() {
        for b in samples() {
            assert_eq!(scalar(a).lt(scalar(b)), a < b, "{:?} < {:?}", a, b);
        }
    }
}

#[test]
fn gt_agrees_with_native_order() {
    for a in samples() {
        for b in samples() {
            assert_eq!(scalar(a).gt(scalar(b)), a > b, "{:?} > {:?}", a, b);
        }
    }
}

#[test]
fn bits_round_trip() {
    for a in samples() {
        assert_eq!(scalar(a).to_bits(), a.to_bits());
    }
}

#[test]
fn both_zeros_compare_equal() {
    assert!(!scalar(-0.0).lt(scalar(0.0)));
    assert!(!scalar(0.0).lt(scalar(-0.0)));
    assert!(!scalar(-0.0).gt(scalar(0.0)));
}

#[test]
fn nothing_compares_with_what_is_not_a_number() {
    for a in samples() {
        assert!(!scalar(a).lt(scalar(f64::NAN)));
        assert!(!scalar(f64::NAN).lt(scalar(a)));
        assert!(!scalar(a).gt(scalar(f64::NAN)));
    }
}

#[test]
fn neg_flips_the_sign_bit() {
    for a in samples() {
        assert_eq!(scalar(a).neg().to_bits(), (-a).to_bits(), "{:?}", a);
    }
    assert_eq!(number(scalar(2.5).neg()), -2.5);
    assert_eq!(scalar(0.0).neg().to_bits(), 0x8000_0000_0000_0000);
}

#[test]
fn constants_are_what_they_are_called() {
    assert_eq!(Scalar::zero().to_bits(), 0.0f64.to_bits());
    assert_eq!(Scalar::one().to_bits(), 1.0f64.to_bits());
    assert_eq!(Scalar::infinity().to_bits(), f64::INFINITY.to_bits());
    assert_eq!(infinite().to_bits(), f64::MAX.to_bits());
}

#[test]
fn infinite_is_the_largest_finite_number() {
    assert!(infinite().lt(Scalar::infinity()));
    for a in samples() {
        if a.is_finite() {
            assert!(!scalar(a).gt(infinite()));
        }
    }
}

#[test]
fn clamp_holds_a_number_to_an_interval() {
    assert_eq!(number(clamp(scalar(-0.5), scalar(0.0), scalar(1.0))), 0.0);
    assert_eq!(number(clamp(scalar(1.5), scalar(0.0), scalar(1.0))), 1.0);
    assert_eq!(number(clamp(scalar(0.25), scalar(0.0), scalar(1.0))), 0.25);
    assert_eq!(number(clamp(scalar(0.0), scalar(0.0), scalar(1.0))), 0.0);
    assert_eq!(number(clamp(scalar(1.0), scalar(0.0), scalar(1.0))), 1.0);
}

#[test]
fn clamp_passes_on_what_is_not_a_number() {
    assert!(number(clamp(scalar(f64::NAN), scalar(0.0), scalar(1.0))).is_nan());
}

#[test]
fn clamp_agrees_with_the_comparisons() {
    for x in samples() {
        for (min, max) in [(0.0, 1.0), (-1.0, 1.0), (0.0, 0.999), (-2.0, -1.0)] {
            let expected = if x < min {
                min
            } else if x > max {
                max
            } else {
                x
            };
            let got = number(clamp(scalar(x), scalar(min), scalar(max)));
            assert_eq!(got.to_bits(), expected.to_bits(), "{:?}", x);
        }
    }
}

#[test]
fn to_i32_agrees_with_the_native_cast() {
    for a in samples() {
        assert_eq!(scalar(a).to_i32(), a as i32, "{:?}", a);
    }
}

#[test]
fn to_i32_drops_the_fraction() {
    assert_eq!(scalar(255.999).to_i32(), 255);
    assert_eq!(scalar(0.999).to_i32(), 0);
    assert_eq!(scalar(-0.999).to_i32(), 0);
    assert_eq!(scalar(-1.5).to_i32(), -1);
    assert_eq!(scalar(216.0).to_i32(), 216);
    assert_eq!(scalar(215.99999999999997).to_i32(), 215);
}

#[test]
fn to_i32_saturates() {
    assert_eq!(scalar(1.0e10).to_i32(), i32::MAX);
    assert_eq!(scalar(-1.0e10).to_i32(), i32::MIN);
    assert_eq!(scalar(f64::INFINITY).to_i32(), i32::MAX);
    assert_eq!(scalar(f64::NEG_INFINITY).to_i32(), i32::MIN);
    assert_eq!(scalar(f64::NAN).to_i32(), 0);
}

#[test]
fn to_i32_quantises_a_channel() {
    let factor = number(channel_scale());
    for k in 0..=1000 {
        let value = k as f64 / 1000.0;
        let quantised = scalar(factor * value).to_i32();
        assert_eq!(quantised, (255.999 * value) as i32);
        assert!((0..=255).contains(&quantised));
    }
    assert_eq!(scalar(factor * 1.0).to_i32(), 255);
    assert_eq!(scalar(factor * 0.0).to_i32(), 0);
    assert_eq!(scalar(factor * 0.5).to_i32(), 127);
}

#[test]
fn channel_scale_is_just_below_a_byte() {
    assert_eq!(channel_scale().to_bits(), 255.999f64.to_bits());
    assert!(channel_scale().lt(scalar(256.0)));
    assert!(channel_scale().gt(scalar(255.0)));
}

#[test]
fn bias_is_one_thousandth() {
    assert_eq!(bias().to_bits(), 0.001f64.to_bits());
    assert!(bias().gt(Scalar::zero()));
    assert!(bias().lt(Scalar::one()));
}

#[test]
fn from_u32_agrees_with_the_native_cast() {
    let mut n: u32 = 0;
    loop {
        assert_eq!(Scalar::from_u32(n).to_bits(), (n as f64).to_bits(), "{}", n);
        if n > 70000 {
            break;
        }
        n += 1;
    }
    for k in 0..32 {
        for d in [-1i64, 0, 1] {
            let n = ((1i64 << k) + d).clamp(0, u32::MAX as i64) as u32;
            assert_eq!(Scalar::from_u32(n).to_bits(), (n as f64).to_bits(), "{}", n);
        }
    }
    assert_eq!(Scalar::from_u32(u32::MAX).to_bits(), (u32::MAX as f64).to_bits());
    assert_eq!(Scalar::from_u32(384).to_bits(), 384.0f64.to_bits());
}

#[test]
fn from_u32_and_to_i32_are_inverse() {
    for n in [0u32, 1, 2, 3, 100, 255, 384, 65535, 65536, 1 << 30, i32::MAX as u32] {
        assert_eq!(Scalar::from_u32(n).to_i32(), n as i32);
    }
    assert_eq!(Scalar::from_u32(u32::MAX).to_i32(), i32::MAX);
}

#[test]
fn nan_tells_what_is_not_a_number() {
    for a in samples() {
        assert_eq!(scalar(a).nan(), a.is_nan(), "{:?}", a);
    }
}

#[test]
fn min_is_the_smaller_number() {
    assert_eq!(number(min(scalar(0.25), scalar(1.0))), 0.25);
    assert_eq!(number(min(scalar(1.5), scalar(1.0))), 1.0);
    assert_eq!(number(min(scalar(-3.0), scalar(1.0))), -3.0);
    assert_eq!(number(min(scalar(f64::NAN), scalar(1.0))), 1.0);
    assert_eq!(number(min(scalar(0.5), scalar(f64::NAN))), 0.5);
    assert!(number(min(scalar(f64::NAN), scalar(f64::NAN))).is_nan());
}

#[test]
fn min_agrees_with_the_native_minimum() {
    for a in samples() {
        for b in samples() {
            let got = number(min(scalar(a), scalar(b)));
            let expected = f64::min(a, b);
            assert!(got == expected || (got.is_nan() && expected.is_nan()), "{:?} {:?}", a, b);
        }
    }
}
