use pixel_shift::float::{FloatOp, FloatUnit};
use image::{DynamicImage, ImageBuffer, Rgba};
use pixel_shift::alignment::{
    align_frames, alignment_error, can_align, compute_gradients, lucas_kanade_subpixel, ncc_score,
    phase_correlation, sample_bilinear, warp_frame, AlignError, CONVERGENCE,
};
use pixel_shift::frame::GrayFrame;
use pixel_shift::frame::RgbaFrame;

/// The machine's own floating-point instructions.
fn unit() -> FloatUnit<impl Fn(FloatOp) -> u64> {
    fn s(bits: u32) -> f32 {
        f32::from_bits(bits)
    }
    fn d(bits: u64) -> f64 {
        f64::from_bits(bits)
    }
    fn single(v: f32) -> u64 {
        v.to_bits() as u64
    }
    FloatUnit::new(|op: FloatOp| match op {
        FloatOp::Add(a, b) => single(s(a) + s(b)),
        FloatOp::Sub(a, b) => single(s(a) - s(b)),
        FloatOp::Mul(a, b) => single(s(a) * s(b)),
        FloatOp::Div(a, b) => single(s(a) / s(b)),
        FloatOp::Sqrt(a) => single(s(a).sqrt()),
        FloatOp::Exp(a) => single(s(a).exp()),
        FloatOp::Sin(a) => single(s(a).sin()),
        FloatOp::Cos(a) => single(s(a).cos()),
        FloatOp::Atan2(a, b) => single(s(a).atan2(s(b))),
        FloatOp::Powf(a, b) => single(s(a).powf(s(b))),
        FloatOp::Floor(a) => single(s(a).floor()),
        FloatOp::Ceil(a) => single(s(a).ceil()),
        FloatOp::Round(a) => single(s(a).round()),
        FloatOp::WideAdd(a, b) => (d(a) + d(b)).to_bits(),
        FloatOp::WideSub(a, b) => (d(a) - d(b)).to_bits(),
        FloatOp::WideMul(a, b) => (d(a) * d(b)).to_bits(),
        FloatOp::WideDiv(a, b) => (d(a) / d(b)).to_bits(),
        FloatOp::WideSqrt(a) => d(a).sqrt().to_bits(),
        FloatOp::FromU64(a) => single(a as f32),
        FloatOp::FromI32(a) => single(a as f32),
        FloatOp::ToI32(a) => s(a) as i32 as u32 as u64,
        FloatOp::ToU32(a) => s(a) as u32 as u64,
        FloatOp::Widen(a) => (s(a) as f64).to_bits(),
        FloatOp::Narrow(a) => single(d(a) as f32),
        FloatOp::WideFromU64(a) => (a as f64).to_bits(),
    })
}

/// A frame whose samples are given by column and row.
fn frame(width: u32, height: u32, at: impl Fn(u32, u32) -> [f32; 4]) -> RgbaFrame {
    let mut samples = Vec::new();
    for y in 0..height {
        for x in 0..width {
            for v in at(x, y) {
                samples.push(v.to_bits());
            }
        }
    }
    RgbaFrame { width, height, samples }
}

/// One sample of a frame.
fn sample(f: &RgbaFrame, x: u32, y: u32, c: u32) -> f32 {
    f32::from_bits(f.get(x, y, c))
}

fn gray(width: u32, height: u32, at: impl Fn(u32, u32) -> u8) -> GrayFrame {
    let mut pixels = Vec::new();
    for y in 0..height {
        for x in 0..width {
            pixels.push(at(x, y));
        }
    }
    GrayFrame { width, height, pixels }
}

fn brightness(img: &DynamicImage) -> GrayFrame {
    let luma = img.to_luma8();
    GrayFrame { width: luma.width(), height: luma.height(), pixels: luma.into_raw() }
}

fn create_textured_frame(width: u32, height: u32) -> DynamicImage {
    let img: ImageBuffer<Rgba<f32>, Vec<f32>> = ImageBuffer::from_fn(width, height, |x, y| {
        let r = (x as f32 * 0.1).sin() * 0.3 + 0.5;
        let g = (y as f32 * 0.1).cos() * 0.3 + 0.5;
        let b = ((x + y) as f32 * 0.05).sin() * 0.3 + 0.5;
        Rgba([r, g, b, 1.0])
    });
    DynamicImage::ImageRgba32F(img)
}

#[test]
fn test_align_identical_frames() {
    let fpu = unit();
    let f1 = create_textured_frame(128, 128);
    let f2 = f1.clone();

    let shifts = align_frames(&fpu, &vec![brightness(&f1), brightness(&f2)], 0).unwrap();
    assert_eq!(shifts.len(), 2);
    assert!(f32::from_bits(shifts[0].dx).abs() < 1.0);
    assert!(f32::from_bits(shifts[0].dy).abs() < 1.0);
    assert!(f32::from_bits(shifts[1].dx).abs() < 1.0);
    assert!(f32::from_bits(shifts[1].dy).abs() < 1.0);
}

#[test]
fn test_bilinear_sample() {
    let fpu = unit();
    let img = gray(4, 4, |x, y| (x + y * 4) as u8 * 16);

    let val = f32::from_bits(sample_bilinear(&fpu, &img, 4, 4, 1.0f32.to_bits(), 1.0f32.to_bits()));
    assert!((val - 80.0).abs() < 1.0);
}

#[test]
fn samples_between_pixels_are_mixed() {
    let fpu = unit();
    let img = gray(2, 2, |x, y| (x * 100 + y * 40) as u8);
    let at = |x: f32, y: f32| f32::from_bits(sample_bilinear(&fpu, &img, 2, 2, x.to_bits(), y.to_bits()));
    assert_eq!(at(0.5, 0.0), 50.0);
    assert_eq!(at(0.25, 0.5), 45.0);
    assert_eq!(at(1.0, 1.0), 140.0);
}

#[test]
fn the_step_limit_is_a_hundredth() {
    assert_eq!(CONVERGENCE, 0.01f64.to_bits());
}

#[test]
fn whole_pixel_shifts_are_found() {
    let fpu = unit();
    let scene = |x: i64, y: i64| ((x * 7919 + y * 104729 + x * y * 31).rem_euclid(251)) as u8;
    let a = gray(80, 80, |x, y| scene(x as i64, y as i64));
    let b = gray(80, 80, |x, y| scene(x as i64 + 3, y as i64 - 2));
    let (dx, dy, quality) = phase_correlation(&fpu, &a, &b, 80, 80);
    assert_eq!((dx, dy), (3, -2));
    assert_eq!(quality, 1.0f32.to_bits());
    assert_eq!(ncc_score(&fpu, &a, &b, 80, 80, 3, -2, 2), 1.0f32.to_bits());
}

#[test]
fn an_image_correlates_with_itself() {
    let fpu = unit();
    let a = gray(40, 30, |x, y| (x * 3 + y * 5) as u8);
    assert_eq!(ncc_score(&fpu, &a, &a, 40, 30, 0, 0, 2), 1.0f32.to_bits());
    let black = gray(40, 30, |_, _| 0);
    assert_eq!(ncc_score(&fpu, &a, &black, 40, 30, 0, 0, 2), 0.0f32.to_bits());
    assert_eq!(ncc_score(&fpu, &a, &a, 40, 30, 50, 0, 2), 0.0f32.to_bits());
}

#[test]
fn of_equal_offsets_the_first_is_found() {
    let fpu = unit();
    let flat = gray(64, 64, |_, _| 90);
    let (dx, dy, _) = phase_correlation(&fpu, &flat, &flat, 64, 64);
    assert_eq!((dx, dy), (-16, -16));
}

#[test]
fn gradients_are_eighths_of_sobel_sums() {
    let img = gray(4, 4, |x, y| if x >= 2 { 200 } else { (y * 10) as u8 });
    let (gx, gy) = compute_gradients(&img, 4, 4);
    assert_eq!(gx.get(1, 1), 95);
    assert_eq!(gy.get(1, 1), 7);
    assert_eq!(gx.get(0, 0), 0);
    let falling = gray(4, 4, |x, _| 200 - (x * 60) as u8);
    assert_eq!(compute_gradients(&falling, 4, 4).0.get(1, 1), -60);
    let slope = gray(4, 4, |x, y| 200 - (x * 7 + y * 3) as u8);
    let (gx, gy) = compute_gradients(&slope, 4, 4);
    assert_eq!((gx.get(1, 1), gy.get(2, 2)), (-7, -3));
    let steep = gray(3, 3, |x, _| if x == 2 { 255 } else { 0 });
    assert_eq!(compute_gradients(&steep, 3, 3).0.get(1, 1), 127);
}

#[test]
fn aligning_nothing_is_refused() {
    let fpu = unit();
    let r = align_frames(&fpu, &Vec::new(), 0);
    assert!(matches!(r, Err(AlignError::NoFrames)));
    assert_eq!(AlignError::NoFrames.message(), "No frames to align");
}

#[test]
fn the_reference_does_not_move() {
    let fpu = unit();
    let shifts = align_frames(&fpu, &vec![gray(9, 9, |x, y| (x * y) as u8)], 0).unwrap();
    assert_eq!(shifts[0].dx, 0.0f32.to_bits());
    assert_eq!(shifts[0].quality, 1.0f32.to_bits());
}

#[test]
fn frames_that_share_nothing_get_a_shift_each() {
    let fpu = unit();
    let a = gray(24, 24, |x, y| ((x * x + y * y) / 8) as u8);
    let b = gray(24, 24, |_, _| 0);
    assert_eq!(align_frames(&fpu, &vec![a, b], 0).ok().unwrap().len(), 2);
}

#[test]
fn positions_beyond_the_target_are_left_out() {
    let fpu = unit();
    let a = gray(12, 12, |x, y| (x * x + 3 * y) as u8);
    let far = 100.0f32.to_bits();
    let none = lucas_kanade_subpixel(&fpu, &a, &a, far, far, 12, 12);
    assert_eq!(none, (0.0f32.to_bits(), 0.0f32.to_bits()));
    let before = (-100.0f32).to_bits();
    let none = lucas_kanade_subpixel(&fpu, &a, &a, before, before, 12, 12);
    assert_eq!(none, (0.0f32.to_bits(), 0.0f32.to_bits()));
}

#[test]
fn frames_that_cannot_be_aligned_are_told() {
    assert!(can_align(&Vec::new(), 0));
    assert!(!can_align(&vec![gray(8, 8, |_, _| 0)], 1));
    assert!(!can_align(&vec![gray(8, 1, |_, _| 0), gray(8, 1, |_, _| 0)], 0));
    assert!(!can_align(&vec![gray(8, 8, |_, _| 0), gray(7, 8, |_, _| 0)], 0));
    assert!(can_align(&vec![gray(8, 8, |_, _| 0), gray(9, 8, |_, _| 0)], 0));
}

#[test]
fn an_unshifted_frame_stays() {
    let fpu = unit();
    let f = frame(7, 5, |x, y| [x as f32 * 0.1, y as f32 * 0.2, 0.3, 1.0]);
    let warped = warp_frame(&fpu, &f, 0.0f32.to_bits(), 0.0f32.to_bits());
    assert_eq!(warped.samples, f.samples);
}

#[test]
fn warping_moves_samples_and_holds_the_border() {
    let fpu = unit();
    let f = frame(4, 1, |x, _| [x as f32, 0.0, 0.0, 1.0]);
    let w = warp_frame(&fpu, &f, 1.0f32.to_bits(), 0.0f32.to_bits());
    let row: Vec<f32> = (0..4).map(|x| sample(&w, x, 0, 0)).collect();
    assert_eq!(row, vec![0.0, 0.0, 1.0, 2.0]);
    let half = warp_frame(&fpu, &f, (-0.5f32).to_bits(), 0.0f32.to_bits());
    let row: Vec<f32> = (0..4).map(|x| sample(&half, x, 0, 0)).collect();
    assert_eq!(row, vec![0.5, 1.5, 2.5, 3.0]);
}

#[test]
fn equal_frames_have_no_error() {
    let fpu = unit();
    let f = frame(9, 9, |x, y| [x as f32 * 0.1, y as f32 * 0.1, 0.5, 1.0]);
    let g = frame(9, 9, |x, y| [x as f32 * 0.1, y as f32 * 0.1, 0.5, 1.0]);
    let zero = 0.0f32.to_bits();
    assert_eq!(alignment_error(&fpu, &f, &g, zero, zero), zero);
}

#[test]
fn error_is_the_root_of_the_mean_square() {
    let fpu = unit();
    let f = frame(8, 8, |_, _| [0.0, 0.0, 0.0, 1.0]);
    let g = frame(8, 8, |_, _| [3.0, 0.0, 0.0, 1.0]);
    let zero = 0.0f32.to_bits();
    let e = f32::from_bits(alignment_error(&fpu, &f, &g, zero, zero));
    assert!((e - 3.0f32.sqrt()).abs() < 1e-6);
    assert_eq!(alignment_error(&fpu, &f, &g, 100.0f32.to_bits(), zero), zero);
}

#[test]
fn qualities_are_fractions() {
    let fpu = unit();
    let light = gray(40, 40, |x, y| ((x * 11 + y * 29) % 200) as u8);
    let dark = gray(40, 40, |_, _| 0);
    let (_, _, found) = phase_correlation(&fpu, &light, &light, 40, 40);
    assert_eq!(f32::from_bits(found), 1.0);
    let (_, _, nothing) = phase_correlation(&fpu, &light, &dark, 40, 40);
    assert_eq!(f32::from_bits(nothing), 0.5);
}

#[test]
fn a_moved_scene_is_aligned() {
    let fpu = unit();
    let scene = |x: f32, y: f32| {
        (128.0 + 60.0 * (x * 0.31).sin() + 50.0 * (y * 0.23 + 0.4).cos() + 10.0 * (x * y * 0.01).sin())
            as u8
    };
    let moves =
        [(1.0f32, 0.0f32), (0.0, -1.0), (-1.0, 2.0), (0.4, 0.3), (4.0, -5.0), (-6.0, 4.0)];
    for (mx, my) in moves {
        let a = gray(48, 48, |x, y| scene(x as f32, y as f32));
        let b = gray(48, 48, |x, y| scene(x as f32 + mx, y as f32 + my));
        let shifts = align_frames(&fpu, &vec![a, b], 0).ok().unwrap();
        let (dx, dy) = (f32::from_bits(shifts[1].dx), f32::from_bits(shifts[1].dy));
        assert!((dx + mx).abs() < 0.2 && (dy + my).abs() < 0.2, "{} {} for {} {}", dx, dy, mx, my);
    }
}
