use path_tracer::math::scalar::Scalar;
use path_tracer::math::vec::{clamp, inside_unit_ball, quantize, Vec3, BRIGHTEST};

fn s(x: f64) -> Scalar {
    Scalar::from_bits(x.to_bits())
}

fn f(x: Scalar) -> f64 {
    f64::from_bits(x.to_bits())
}

fn color(r: f64, g: f64, b: f64) -> Vec3 {
    Vec3(s(r), s(g), s(b))
}

fn clamp_in_doubles(x: f64, min: f64, max: f64) -> f64 {
    if x < min {
        min
    } else if x > max {
        max
    } else {
        x
    }
}

fn level_in_doubles(x: f64) -> i32 {
    (clamp_in_doubles(x, 0., 0.999) * 256.) as i32
}

/// The channel that `accumulated` over `n` samples comes to, before it is
/// clamped: the average, corrected for gamma.
fn gamma(accumulated: f64, n: i32) -> f64 {
    let scale = 1. / n as f64;
    (scale * accumulated).sqrt()
}

#[test]
fn brightest_is_the_pattern_of_its_double() {
    assert_eq!(BRIGHTEST, 0.999f64.to_bits());
}

#[test]
fn clamp_agrees_with_doubles() {
    let values = [
        -1.0,
        -0.0,
        0.0,
        0.25,
        0.999,
        0.9990000000000001,
        1.0,
        7.0,
        f64::INFINITY,
        f64::NEG_INFINITY,
        f64::NAN,
    ];
    for x in values {
        for (lo, hi) in [(0.0, 0.999), (-1.0, 1.0), (0.25, 0.25), (1.0, 0.0)] {
            let got = f(clamp(s(x), s(lo), s(hi)));
            let want = clamp_in_doubles(x, lo, hi);
            assert_eq!(got.to_bits(), want.to_bits(), "clamp({x}, {lo}, {hi})");
        }
    }
}

#[test]
fn clamp_keeps_what_lies_between() {
    assert_eq!(f(clamp(s(0.5), s(0.), s(0.999))), 0.5);
    assert_eq!(f(clamp(s(-3.), s(0.), s(0.999))), 0.);
    assert_eq!(f(clamp(s(3.), s(0.), s(0.999))), 0.999);
    assert!(f(clamp(s(f64::NAN), s(0.), s(0.999))).is_nan());
}

#[test]
fn quantize_gives_exact_levels() {
    assert_eq!(quantize(s(0.0)), 0);
    assert_eq!(quantize(s(0.5)), 128);
    assert_eq!(quantize(s(0.25)), 64);
    assert_eq!(quantize(s(1. / 256.)), 1);
    assert_eq!(quantize(s(1. / 256. - 1e-12)), 0);
    assert_eq!(quantize(s(0.999)), 255);
    assert_eq!(quantize(s(255. / 256.)), 255);
    assert_eq!(quantize(s(255. / 256. - 1e-12)), 254);
    assert_eq!(quantize(s(0.7)), 179);
    assert_eq!(quantize(s(0.3)), 76);
}

#[test]
fn quantize_agrees_with_doubles_on_a_sweep() {
    let mut k = -2000;
    while k <= 3000 {
        let x = k as f64 / 1000.;
        assert_eq!(quantize(s(x)) as i32, level_in_doubles(x), "{x}");
        k += 1;
    }
}

#[test]
fn quantize_agrees_with_doubles_on_every_kind_of_pattern() {
    let mut bits: u64 = 0x9E37_79B9_7F4A_7C15;
    for _ in 0..200_000 {
        bits ^= bits << 13;
        bits ^= bits >> 7;
        bits ^= bits << 17;
        let x = f64::from_bits(bits);
        assert_eq!(quantize(s(x)) as i32, level_in_doubles(x), "{:#x}", bits);
        let small = f64::from_bits(bits % 0x3FF0_0000_0000_0001);
        assert_eq!(quantize(s(small)) as i32, level_in_doubles(small), "{:#x}", small.to_bits());
    }
}

#[test]
fn quantize_agrees_with_doubles_at_the_edges() {
    let edges = [
        0.,
        -0.,
        5e-324,
        f64::MIN_POSITIVE,
        1. / 512.,
        1. / 256.,
        f64::from_bits((1f64 / 256.).to_bits() - 1),
        0.999,
        f64::from_bits(0.999f64.to_bits() - 1),
        f64::from_bits(0.999f64.to_bits() + 1),
        1.,
        f64::MAX,
        f64::INFINITY,
        f64::NEG_INFINITY,
        f64::NAN,
        -f64::NAN,
        -5e-324,
        -1.,
    ];
    for x in edges {
        assert_eq!(quantize(s(x)) as i32, level_in_doubles(x), "{:?}", x);
    }
}

#[test]
fn full_light_over_one_sample_is_written_as_255() {
    let channel = gamma(1.0, 1);
    assert_eq!(quantize(s(channel)), 255);
    let white = color(channel, channel, channel);
    assert_eq!(white.write_color(), b"255 255 255\n".to_vec());
}

#[test]
fn negative_light_is_written_as_0_and_too_much_as_255() {
    assert_eq!(quantize(s(gamma(-1.0, 1))), 0);
    assert_eq!(quantize(s(gamma(-0.25, 4))), 0);
    assert_eq!(quantize(s(-0.5)), 0);
    assert_eq!(quantize(s(gamma(4.0, 1))), 255);
    assert_eq!(quantize(s(gamma(1e300, 3))), 255);
    assert_eq!(quantize(s(f64::INFINITY)), 255);
    let odd = color(gamma(-1.0, 1), gamma(9.0, 1), f64::NAN);
    assert_eq!(odd.write_color(), b"0 255 0\n".to_vec());
}

#[test]
fn a_colour_is_averaged_before_it_is_written() {
    let n = 100;
    let c = color(gamma(25., n), gamma(49., n), gamma(0., n));
    assert_eq!(c.write_color(), b"128 179 0\n".to_vec());
}

#[test]
fn write_color_writes_three_levels_and_a_line_feed() {
    assert_eq!(color(0., 0., 0.).write_color(), b"0 0 0\n".to_vec());
    assert_eq!(color(0.5, 0.25, 0.04).write_color(), b"128 64 10\n".to_vec());
    assert_eq!(color(0.7, 0.3, 0.5).write_color(), b"179 76 128\n".to_vec());
}

#[test]
fn neg_turns_each_component() {
    let v = color(1., -2., 0.).neg();
    assert_eq!(f(v.0).to_bits(), (-1f64).to_bits());
    assert_eq!(f(v.1).to_bits(), 2f64.to_bits());
    assert_eq!(f(v.2).to_bits(), (-0f64).to_bits());
}

#[test]
fn zero_is_three_zeros() {
    let v = Vec3::zero();
    assert_eq!((v.0.bits, v.1.bits, v.2.bits), (0, 0, 0));
}

#[test]
fn only_points_inside_the_unit_ball_are_taken() {
    assert!(inside_unit_ball(s(0.)));
    assert!(inside_unit_ball(s(0.25)));
    assert!(inside_unit_ball(s(1. - f64::EPSILON)));
    assert!(!inside_unit_ball(s(1.)));
    assert!(!inside_unit_ball(s(3.)));
    assert!(!inside_unit_ball(s(f64::INFINITY)));
    assert!(inside_unit_ball(s(f64::NAN)));
    for x in [0.3f64, 0.99, 1.0, 1.5, f64::NAN] {
        assert_eq!(inside_unit_ball(s(x)), !(x >= 1.));
    }
}
