use pixel_shift::float::{FloatOp, FloatUnit};
use pixel_shift::motion_detection::{
    can_detect_motion, detect_motion, MotionDetectionParams, MotionMask,
};
use pixel_shift::frame::RgbaFrame;

/// The machine's own floating-point instructions.
fn unit() -> FloatUnit<impl Fn(FloatOp) -> u64> {
    fn s(bits: u32) -> f32 {
        f32::from_bits(bits)
    }
    fn d(bits: u64) -> f64 {
        f64::from_bits(bits)
    }
    fn single(v: f32) -> u64 {
        v.to_bits() as u64
    }
    FloatUnit::new(|op: FloatOp| match op {
        FloatOp::Add(a, b) => single(s(a) + s(b)),
        FloatOp::Sub(a, b) => single(s(a) - s(b)),
        FloatOp::Mul(a, b) => single(s(a) * s(b)),
        FloatOp::Div(a, b) => single(s(a) / s(b)),
        FloatOp::Sqrt(a) => single(s(a).sqrt()),
        FloatOp::Exp(a) => single(s(a).exp()),
        FloatOp::Sin(a) => single(s(a).sin()),
        FloatOp::Cos(a) => single(s(a).cos()),
        FloatOp::Atan2(a, b) => single(s(a).atan2(s(b))),
        FloatOp::Powf(a, b) => single(s(a).powf(s(b))),
        FloatOp::Floor(a) => single(s(a).floor()),
        FloatOp::Ceil(a) => single(s(a).ceil()),
        FloatOp::Round(a) => single(s(a).round()),
        FloatOp::WideAdd(a, b) => (d(a) + d(b)).to_bits(),
        FloatOp::WideSub(a, b) => (d(a) - d(b)).to_bits(),
        FloatOp::WideMul(a, b) => (d(a) * d(b)).to_bits(),
        FloatOp::WideDiv(a, b) => (d(a) / d(b)).to_bits(),
        FloatOp::WideSqrt(a) => d(a).sqrt().to_bits(),
        FloatOp::FromU64(a) => single(a as f32),
        FloatOp::FromI32(a) => single(a as f32),
        FloatOp::ToI32(a) => s(a) as i32 as u32 as u64,
        FloatOp::ToU32(a) => s(a) as u32 as u64,
        FloatOp::Widen(a) => (s(a) as f64).to_bits(),
        FloatOp::Narrow(a) => single(d(a) as f32),
        FloatOp::WideFromU64(a) => (a as f64).to_bits(),
    })
}

/// A frame whose samples are given by column and row.
fn frame(width: u32, height: u32, at: impl Fn(u32, u32) -> [f32; 4]) -> RgbaFrame {
    let mut samples = Vec::new();
    for y in 0..height {
        for x in 0..width {
            for v in at(x, y) {
                samples.push(v.to_bits());
            }
        }
    }
    RgbaFrame { width, height, samples }
}

/// One sample of a frame.
fn sample(f: &RgbaFrame, x: u32, y: u32, c: u32) -> f32 {
    f32::from_bits(f.get(x, y, c))
}

#[test]
fn test_no_motion_identical_frames() {
    let fpu = unit();
    let texture = |x: u32, y: u32| {
        let v = ((x + y) as f32 * 0.1).sin() * 0.2 + 0.5;
        [v, v, v, 1.0]
    };
    let frames = vec![frame(64, 64, texture), frame(64, 64, texture), frame(64, 64, texture)];

    let mask = detect_motion(&fpu, &frames, MotionDetectionParams::default());

    let weights: Vec<f32> = mask.weights.iter().map(|&w| f32::from_bits(w)).collect();
    let avg_weight: f32 = weights.iter().sum::<f32>() / weights.len() as f32;
    assert!(avg_weight > 0.99, "Expected avg_weight > 0.99, got {}", avg_weight);
}

#[test]
fn every_pixel_of_equal_frames_keeps_its_weight() {
    let fpu = unit();
    let frames: Vec<RgbaFrame> = (0..4).map(|_| frame(9, 7, |x, _| [x as f32 * 0.1; 4])).collect();
    let mask = detect_motion(&fpu, &frames, MotionDetectionParams::default());
    for w in &mask.weights {
        assert!((f32::from_bits(*w) - 1.0).abs() < 1e-5);
    }
}

#[test]
fn a_moving_pixel_loses_weight() {
    let fpu = unit();
    let values = [0.50f32, 0.51, 0.49, 0.505, 0.95];
    let frames: Vec<RgbaFrame> = values
        .iter()
        .map(|&v| frame(5, 5, move |x, y| if x == 2 && y == 2 { [v, v, v, 1.0] } else { [0.5; 4] }))
        .collect();
    let mut params = MotionDetectionParams::default();
    params.blur_sigma = 0.0f32.to_bits();
    let mask = detect_motion(&fpu, &frames, params);
    assert_eq!(mask.get(2, 2), 0.1f32.to_bits());
    assert_eq!(mask.get(1, 2), 1.0f32.to_bits());
    params.blur_sigma = 1.5f32.to_bits();
    let soft = detect_motion(&fpu, &frames, params);
    assert!(f32::from_bits(soft.get(2, 2)) > 0.1);
    assert!(f32::from_bits(soft.get(2, 2)) < 1.0);
}

#[test]
fn an_outlier_among_equal_values_moves() {
    let fpu = unit();
    let frames: Vec<RgbaFrame> = [0.2f32, 0.2, 0.2, 0.2, 1.0]
        .iter()
        .map(|&v| frame(1, 1, move |_, _| [v, v, v, 1.0]))
        .collect();
    let mut params = MotionDetectionParams::default();
    params.blur_sigma = 0.0f32.to_bits();
    assert_eq!(detect_motion(&fpu, &frames, params).weights, vec![0.1f32.to_bits()]);
}

#[test]
fn defaults_are_the_documented_ones() {
    let p = MotionDetectionParams::default();
    assert_eq!(p.mad_threshold, 3.0f32.to_bits());
    assert_eq!(p.neighborhood_radius, 2);
    assert_eq!(p.blur_sigma, 1.5f32.to_bits());
    assert_eq!(p.min_weight, 0.1f32.to_bits());
}

#[test]
fn few_frames_show_no_motion() {
    let fpu = unit();
    let none = detect_motion(&fpu, &Vec::new(), MotionDetectionParams::default());
    assert_eq!((none.width, none.height, none.weights.len()), (0, 0, 0));
    let one = detect_motion(&fpu, &vec![frame(3, 2, |_, _| [0.2; 4])], MotionDetectionParams::default());
    assert_eq!((one.width, one.height), (3, 2));
    assert!(one.weights.iter().all(|&w| w == 1.0f32.to_bits()));
}

#[test]
fn masks_are_zero_outside() {
    let mask = MotionMask::new(2, 3);
    assert_eq!(mask.get(1, 2), 1.0f32.to_bits());
    assert_eq!(mask.get(2, 0), 0.0f32.to_bits());
    assert_eq!(mask.get(0, 3), 0.0f32.to_bits());
}

#[test]
fn masks_are_shown_in_gray() {
    let fpu = unit();
    let mut mask = MotionMask::new(3, 1);
    mask.weights = vec![0.0f32.to_bits(), 0.5f32.to_bits(), 2.0f32.to_bits()];
    let img = mask.to_image(&fpu);
    assert_eq!((img.width, img.height), (3, 1));
    assert_eq!(img.pixels, vec![0, 127, 255]);
}

#[test]
fn motion_needs_frames_as_large_as_the_first() {
    let fpu = unit();
    let p = MotionDetectionParams::default();
    let pair = vec![frame(4, 4, |_, _| [0.0; 4]), frame(3, 4, |_, _| [0.0; 4])];
    assert!(!can_detect_motion(&fpu, &pair, p));
    let pair = vec![frame(3, 4, |_, _| [0.0; 4]), frame(4, 4, |_, _| [0.0; 4])];
    assert!(can_detect_motion(&fpu, &pair, p));
}
