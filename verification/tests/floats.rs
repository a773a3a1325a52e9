use pixel_shift::float::{FloatOp, FloatUnit};
use pixel_shift::float::{
    abs, clamp, is_nan, le, lt, max, min, neg, wide_abs, wide_lt, wide_neg, BLUE_WEIGHT, BYTE_MAX, FOUR,
    GREEN_WEIGHT, HALF, MILLIONTH, NEG_INFINITY, ONE, RED_WEIGHT, THREE, TWO, WIDE_1E_10, WIDE_ZERO,
    WORD_MAX, ZERO,
};

/// The machine's own floating-point instructions.
fn unit() -> FloatUnit<impl Fn(FloatOp) -> u64> {
    fn s(bits: u32) -> f32 {
        f32::from_bits(bits)
    }
    fn d(bits: u64) -> f64 {
        f64::from_bits(bits)
    }
    fn single(v: f32) -> u64 {
        v.to_bits() as u64
    }
    FloatUnit::new(|op: FloatOp| match op {
        FloatOp::Add(a, b) => single(s(a) + s(b)),
        FloatOp::Sub(a, b) => single(s(a) - s(b)),
        FloatOp::Mul(a, b) => single(s(a) * s(b)),
        FloatOp::Div(a, b) => single(s(a) / s(b)),
        FloatOp::Sqrt(a) => single(s(a).sqrt()),
        FloatOp::Exp(a) => single(s(a).exp()),
        FloatOp::Sin(a) => single(s(a).sin()),
        FloatOp::Cos(a) => single(s(a).cos()),
        FloatOp::Atan2(a, b) => single(s(a).atan2(s(b))),
        FloatOp::Powf(a, b) => single(s(a).powf(s(b))),
        FloatOp::Floor(a) => single(s(a).floor()),
        FloatOp::Ceil(a) => single(s(a).ceil()),
        FloatOp::Round(a) => single(s(a).round()),
        FloatOp::WideAdd(a, b) => (d(a) + d(b)).to_bits(),
        FloatOp::WideSub(a, b) => (d(a) - d(b)).to_bits(),
        FloatOp::WideMul(a, b) => (d(a) * d(b)).to_bits(),
        FloatOp::WideDiv(a, b) => (d(a) / d(b)).to_bits(),
        FloatOp::WideSqrt(a) => d(a).sqrt().to_bits(),
        FloatOp::FromU64(a) => single(a as f32),
        FloatOp::FromI32(a) => single(a as f32),
        FloatOp::ToI32(a) => s(a) as i32 as u32 as u64,
        FloatOp::ToU32(a) => s(a) as u32 as u64,
        FloatOp::Widen(a) => (s(a) as f64).to_bits(),
        FloatOp::Narrow(a) => single(d(a) as f32),
        FloatOp::WideFromU64(a) => (a as f64).to_bits(),
    })
}

#[test]
fn constants_are_the_values_they_are_named_for() {
    assert_eq!(ZERO, 0.0f32.to_bits());
    assert_eq!(HALF, 0.5f32.to_bits());
    assert_eq!(ONE, 1.0f32.to_bits());
    assert_eq!(TWO, 2.0f32.to_bits());
    assert_eq!(THREE, 3.0f32.to_bits());
    assert_eq!(FOUR, 4.0f32.to_bits());
    assert_eq!(BYTE_MAX, 255.0f32.to_bits());
    assert_eq!(WORD_MAX, 65535.0f32.to_bits());
    assert_eq!(RED_WEIGHT, 0.2126f32.to_bits());
    assert_eq!(GREEN_WEIGHT, 0.7152f32.to_bits());
    assert_eq!(BLUE_WEIGHT, 0.0722f32.to_bits());
    assert_eq!(MILLIONTH, 1e-6f32.to_bits());
    assert_eq!(NEG_INFINITY, f32::NEG_INFINITY.to_bits());
    assert_eq!(WIDE_ZERO, 0.0f64.to_bits());
    assert_eq!(WIDE_1E_10, 1e-10f64.to_bits());
}

const VALUES: [f32; 11] = [
    f32::NEG_INFINITY,
    -3.5,
    -1.0,
    -1e-40,
    -0.0,
    0.0,
    1e-40,
    0.75,
    1.0,
    f32::INFINITY,
    f32::NAN,
];

#[test]
fn comparisons_agree_with_the_machine() {
    for a in VALUES {
        for b in VALUES {
            let (x, y) = (a.to_bits(), b.to_bits());
            assert_eq!(lt(x, y), a < b);
            assert_eq!(le(x, y), a <= b);
            let (wx, wy) = ((a as f64).to_bits(), (b as f64).to_bits());
            assert_eq!(wide_lt(wx, wy), (a as f64) < (b as f64));
            if !(a == 0.0 && b == 0.0) {
                assert_eq!(f32::from_bits(max(x, y)).to_bits() == a.max(b).to_bits() || a.max(b).is_nan(), true);
                assert_eq!(f32::from_bits(min(x, y)).to_bits() == a.min(b).to_bits() || a.min(b).is_nan(), true);
            }
        }
    }
}

#[test]
fn signs_and_limits_agree_with_the_machine() {
    for a in VALUES {
        let x = a.to_bits();
        assert_eq!(is_nan(x), a.is_nan());
        assert_eq!(abs(x), a.abs().to_bits());
        assert_eq!(neg(x), (-a).to_bits());
        assert_eq!(wide_abs((a as f64).to_bits()), (a as f64).abs().to_bits());
        assert_eq!(wide_neg((a as f64).to_bits()), (-(a as f64)).to_bits());
        if !a.is_nan() {
            assert_eq!(clamp(x, ZERO, ONE), a.clamp(0.0, 1.0).to_bits());
        }
    }
    assert!(is_nan(clamp(f32::NAN.to_bits(), ZERO, ONE)));
}

#[test]
fn clamped_values_stay_within_their_limits() {
    assert_eq!(clamp(5.0f32.to_bits(), ZERO, ONE), ONE);
    assert_eq!(clamp((-5.0f32).to_bits(), ZERO, ONE), ZERO);
    assert_eq!(clamp(0.25f32.to_bits(), ZERO, ONE), 0.25f32.to_bits());
}

#[test]
fn conversions_to_integers_saturate() {
    let fpu = unit();
    assert_eq!(fpu.to_u8(300.7f32.to_bits()), 255);
    assert_eq!(fpu.to_u8((-3.0f32).to_bits()), 0);
    assert_eq!(fpu.to_u8(f32::NAN.to_bits()), 0);
    assert_eq!(fpu.to_u8(17.9f32.to_bits()), 17);
    assert_eq!(fpu.to_u16(70000.0f32.to_bits()), 65535);
    assert_eq!(fpu.to_u16(1234.5f32.to_bits()), 1234);
    assert_eq!(fpu.to_i32((-2.5f32).to_bits()), -2);
    assert_eq!(fpu.from_i32(-2), (-2.0f32).to_bits());
}
