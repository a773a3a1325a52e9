use pixel_shift::float::{FloatOp, FloatUnit};
use pixel_shift::basic_merge::{can_merge, merge_frames, robust_merge, MergeError, MergeMethod};
use pixel_shift::cfa_fusion::median;
use pixel_shift::order::{median_f32, sort_samples, trimmed_mean};
use pixel_shift::frame::RgbaFrame;

/// The machine's own floating-point instructions.
fn unit() -> FloatUnit<impl Fn(FloatOp) -> u64> {
    fn s(bits: u32) -> f32 {
        f32::from_bits(bits)
    }
    fn d(bits: u64) -> f64 {
        f64::from_bits(bits)
    }
    fn single(v: f32) -> u64 {
        v.to_bits() as u64
    }
    FloatUnit::new(|op: FloatOp| match op {
        FloatOp::Add(a, b) => single(s(a) + s(b)),
        FloatOp::Sub(a, b) => single(s(a) - s(b)),
        FloatOp::Mul(a, b) => single(s(a) * s(b)),
        FloatOp::Div(a, b) => single(s(a) / s(b)),
        FloatOp::Sqrt(a) => single(s(a).sqrt()),
        FloatOp::Exp(a) => single(s(a).exp()),
        FloatOp::Sin(a) => single(s(a).sin()),
        FloatOp::Cos(a) => single(s(a).cos()),
        FloatOp::Atan2(a, b) => single(s(a).atan2(s(b))),
        FloatOp::Powf(a, b) => single(s(a).powf(s(b))),
        FloatOp::Floor(a) => single(s(a).floor()),
        FloatOp::Ceil(a) => single(s(a).ceil()),
        FloatOp::Round(a) => single(s(a).round()),
        FloatOp::WideAdd(a, b) => (d(a) + d(b)).to_bits(),
        FloatOp::WideSub(a, b) => (d(a) - d(b)).to_bits(),
        FloatOp::WideMul(a, b) => (d(a) * d(b)).to_bits(),
        FloatOp::WideDiv(a, b) => (d(a) / d(b)).to_bits(),
        FloatOp::WideSqrt(a) => d(a).sqrt().to_bits(),
        FloatOp::FromU64(a) => single(a as f32),
        FloatOp::FromI32(a) => single(a as f32),
        FloatOp::ToI32(a) => s(a) as i32 as u32 as u64,
        FloatOp::ToU32(a) => s(a) as u32 as u64,
        FloatOp::Widen(a) => (s(a) as f64).to_bits(),
        FloatOp::Narrow(a) => single(d(a) as f32),
        FloatOp::WideFromU64(a) => (a as f64).to_bits(),
    })
}

/// A frame whose samples are given by column and row.
fn frame(width: u32, height: u32, at: impl Fn(u32, u32) -> [f32; 4]) -> RgbaFrame {
    let mut samples = Vec::new();
    for y in 0..height {
        for x in 0..width {
            for v in at(x, y) {
                samples.push(v.to_bits());
            }
        }
    }
    RgbaFrame { width, height, samples }
}

/// One sample of a frame.
fn sample(f: &RgbaFrame, x: u32, y: u32, c: u32) -> f32 {
    f32::from_bits(f.get(x, y, c))
}

fn bits(values: &[f32]) -> Vec<u32> {
    values.iter().map(|v| v.to_bits()).collect()
}

#[test]
fn test_merge_average_two_frames() {
    let fpu = unit();
    let f1 = frame(64, 64, |_, _| [0.2, 0.4, 0.6, 1.0]);
    let f2 = frame(64, 64, |_, _| [0.4, 0.6, 0.8, 1.0]);

    let result = merge_frames(&fpu, &vec![f1, f2], MergeMethod::Average, false).unwrap();

    assert!((sample(&result, 32, 32, 0) - 0.3).abs() < 0.001);
    assert!((sample(&result, 32, 32, 1) - 0.5).abs() < 0.001);
    assert!((sample(&result, 32, 32, 2) - 0.7).abs() < 0.001);
    assert!((sample(&result, 32, 32, 3) - 1.0).abs() < 0.001);
}

#[test]
fn test_merge_median_outlier() {
    let fpu = unit();
    let f1 = frame(64, 64, |_, _| [0.1, 0.1, 0.1, 1.0]);
    let f2 = frame(64, 64, |_, _| [0.2, 0.2, 0.2, 1.0]);
    let f3 = frame(64, 64, |_, _| [1.0, 1.0, 1.0, 1.0]);

    let result = merge_frames(&fpu, &vec![f1, f2, f3], MergeMethod::Median, false).unwrap();

    assert!((sample(&result, 32, 32, 0) - 0.2).abs() < 0.001);
    assert!((sample(&result, 32, 32, 1) - 0.2).abs() < 0.001);
    assert!((sample(&result, 32, 32, 2) - 0.2).abs() < 0.001);
}

#[test]
fn basic_merge_test_median_f32() {
    let fpu = unit();
    let mut vals = bits(&[0.5, 0.1, 0.9, 0.3, 0.7]);
    let m = f32::from_bits(median_f32(&fpu, &mut vals));
    assert!((m - 0.5).abs() < 0.001);

    let mut vals = bits(&[0.2, 0.8, 0.4, 0.6]);
    let m = f32::from_bits(median_f32(&fpu, &mut vals));
    assert!((m - 0.5).abs() < 0.001);
}

#[test]
fn motion_detection_test_median_f32() {
    let fpu = unit();
    let mut vals = bits(&[0.5, 0.1, 0.9, 0.3, 0.7]);
    assert!((f32::from_bits(median_f32(&fpu, &mut vals)) - 0.5).abs() < 0.001);

    let mut vals = bits(&[0.2, 0.8, 0.4, 0.6]);
    assert!((f32::from_bits(median_f32(&fpu, &mut vals)) - 0.5).abs() < 0.001);
}

#[test]
fn values_are_sorted_with_their_signs() {
    let mut vals = bits(&[1.0, -2.0, 0.5, -0.5, 3.0]);
    sort_samples(&mut vals);
    assert_eq!(vals, bits(&[-2.0, -0.5, 0.5, 1.0, 3.0]));
}

#[test]
fn median_of_no_value_is_zero() {
    let fpu = unit();
    assert_eq!(median_f32(&fpu, &mut Vec::new()), 0.0f32.to_bits());
    assert_eq!(median(&fpu, &Vec::new()), 0.0f32.to_bits());
}

#[test]
fn median_leaves_its_values_alone() {
    let fpu = unit();
    let vals = bits(&[4.0, 1.0, 3.0, 2.0]);
    assert_eq!(median(&fpu, &vals), 2.5f32.to_bits());
    assert_eq!(vals, bits(&[4.0, 1.0, 3.0, 2.0]));
    assert_eq!(median(&fpu, &bits(&[7.0])), 7.0f32.to_bits());
}

#[test]
fn median_of_equal_values_is_that_value() {
    let fpu = unit();
    assert_eq!(median_f32(&fpu, &mut bits(&[0.3, 0.3, 0.3, 0.3])), 0.3f32.to_bits());
}

#[test]
fn majority_is_the_median() {
    let fpu = unit();
    assert_eq!(median_f32(&fpu, &mut bits(&[9.0, 0.25, 0.25, -4.0, 0.25])), 0.25f32.to_bits());
}

#[test]
fn trimmed_mean_drops_the_extremes() {
    let fpu = unit();
    let mut vals = bits(&[100.0, 1.0, 2.0, 3.0, -50.0]);
    assert_eq!(trimmed_mean(&fpu, &mut vals, 1), 2.0f32.to_bits());
}

#[test]
fn merging_nothing_is_refused() {
    let fpu = unit();
    let r = merge_frames(&fpu, &Vec::new(), MergeMethod::Average, false);
    assert!(matches!(r, Err(MergeError::NoFrames)));
    assert_eq!(MergeError::NoFrames.message(), "No frames provided for merging");
}

#[test]
fn one_frame_is_returned_as_it_is() {
    let fpu = unit();
    let f = frame(3, 2, |x, y| [x as f32, y as f32, 0.5, 1.0]);
    let expected = f.samples.clone();
    let r = merge_frames(&fpu, &vec![f], MergeMethod::Median, true).unwrap();
    assert_eq!((r.width, r.height), (3, 2));
    assert_eq!(r.samples, expected);
}

#[test]
fn regression_is_answered_by_the_median_here() {
    let fpu = unit();
    let frames = vec![
        frame(2, 2, |_, _| [0.1; 4]),
        frame(2, 2, |_, _| [0.9; 4]),
        frame(2, 2, |_, _| [0.3; 4]),
    ];
    let r = merge_frames(&fpu, &frames, MergeMethod::SKR, false).unwrap();
    assert_eq!(sample(&r, 1, 1, 2), 0.3);
}

#[test]
fn robust_merge_trims_outliers() {
    let fpu = unit();
    let frames: Vec<RgbaFrame> =
        [0.5, 0.25, 0.75, 8.0, -8.0].iter().map(|&v| frame(2, 2, move |_, _| [v; 4])).collect();
    let r = robust_merge(&fpu, &frames, 2, 2, 1).unwrap();
    assert_eq!(sample(&r, 0, 0, 0), 0.5);
    let few = robust_merge(&fpu, &frames, 2, 2, 3).unwrap();
    assert!((sample(&few, 0, 0, 0) - 0.3).abs() < 1e-6);
}

#[test]
fn frames_that_are_too_small_cannot_be_merged() {
    let small = frame(2, 2, |_, _| [0.0; 4]);
    let large = frame(4, 4, |_, _| [0.0; 4]);
    assert!(!can_merge(&vec![large, small]));
    let a = frame(4, 4, |_, _| [0.0; 4]);
    let b = frame(4, 4, |_, _| [0.0; 4]);
    assert!(can_merge(&vec![a, b]));
}

#[test]
fn copies_merge_to_the_frame() {
    let fpu = unit();
    let copy = || frame(3, 2, |x, y| [0.25 * x as f32, 0.5 * y as f32, 0.75, 1.0]);
    for method in [MergeMethod::Median, MergeMethod::Average, MergeMethod::SKR] {
        let copies: Vec<RgbaFrame> = (0..4).map(|_| copy()).collect();
        let merged = merge_frames(&fpu, &copies, method, false).unwrap();
        assert_eq!(merged.samples, copy().samples);
    }
}

#[test]
fn medians_do_not_depend_on_the_order_of_frames() {
    let fpu = unit();
    let level = |v: f32| frame(2, 2, move |x, y| [v, v + x as f32, v * y as f32, 1.0]);
    let burst = |order: [f32; 4]| order.iter().map(|&v| level(v)).collect::<Vec<RgbaFrame>>();
    let first = burst([0.1, 0.7, 0.3, 0.2]);
    let second = burst([0.3, 0.2, 0.1, 0.7]);
    let a = merge_frames(&fpu, &first, MergeMethod::Median, false).unwrap();
    let b = merge_frames(&fpu, &second, MergeMethod::SKR, false).unwrap();
    assert_eq!(a.samples, b.samples);
    assert_eq!(sample(&a, 0, 0, 0), 0.25);
}
