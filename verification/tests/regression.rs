use pixel_shift::float::{FloatOp, FloatUnit};
use pixel_shift::motion_detection::MotionMask;
use pixel_shift::skr_fusion::{
    eigen_decompose_2x2, SkrFusion, SkrFusionParams, StructureTensor, MINUS_HALF, NEGLIGIBLE, PI,
};
use pixel_shift::frame::RgbaFrame;

/// The machine's own floating-point instructions.
fn unit() -> FloatUnit<impl Fn(FloatOp) -> u64> {
    fn s(bits: u32) -> f32 {
        f32::from_bits(bits)
    }
    fn d(bits: u64) -> f64 {
        f64::from_bits(bits)
    }
    fn single(v: f32) -> u64 {
        v.to_bits() as u64
    }
    FloatUnit::new(|op: FloatOp| match op {
        FloatOp::Add(a, b) => single(s(a) + s(b)),
        FloatOp::Sub(a, b) => single(s(a) - s(b)),
        FloatOp::Mul(a, b) => single(s(a) * s(b)),
        FloatOp::Div(a, b) => single(s(a) / s(b)),
        FloatOp::Sqrt(a) => single(s(a).sqrt()),
        FloatOp::Exp(a) => single(s(a).exp()),
        FloatOp::Sin(a) => single(s(a).sin()),
        FloatOp::Cos(a) => single(s(a).cos()),
        FloatOp::Atan2(a, b) => single(s(a).atan2(s(b))),
        FloatOp::Powf(a, b) => single(s(a).powf(s(b))),
        FloatOp::Floor(a) => single(s(a).floor()),
        FloatOp::Ceil(a) => single(s(a).ceil()),
        FloatOp::Round(a) => single(s(a).round()),
        FloatOp::WideAdd(a, b) => (d(a) + d(b)).to_bits(),
        FloatOp::WideSub(a, b) => (d(a) - d(b)).to_bits(),
        FloatOp::WideMul(a, b) => (d(a) * d(b)).to_bits(),
        FloatOp::WideDiv(a, b) => (d(a) / d(b)).to_bits(),
        FloatOp::WideSqrt(a) => d(a).sqrt().to_bits(),
        FloatOp::FromU64(a) => single(a as f32),
        FloatOp::FromI32(a) => single(a as f32),
        FloatOp::ToI32(a) => s(a) as i32 as u32 as u64,
        FloatOp::ToU32(a) => s(a) as u32 as u64,
        FloatOp::Widen(a) => (s(a) as f64).to_bits(),
        FloatOp::Narrow(a) => single(d(a) as f32),
        FloatOp::WideFromU64(a) => (a as f64).to_bits(),
    })
}

/// A frame whose samples are given by column and row.
fn frame(width: u32, height: u32, at: impl Fn(u32, u32) -> [f32; 4]) -> RgbaFrame {
    let mut samples = Vec::new();
    for y in 0..height {
        for x in 0..width {
            for v in at(x, y) {
                samples.push(v.to_bits());
            }
        }
    }
    RgbaFrame { width, height, samples }
}

/// One sample of a frame.
fn sample(f: &RgbaFrame, x: u32, y: u32, c: u32) -> f32 {
    f32::from_bits(f.get(x, y, c))
}

fn tensor(ixx: f32, ixy: f32, iyy: f32) -> StructureTensor {
    StructureTensor { ixx: ixx.to_bits(), ixy: ixy.to_bits(), iyy: iyy.to_bits() }
}

#[test]
fn test_eigen_flat_region() {
    let fpu = unit();
    let eigen = eigen_decompose_2x2(&fpu, &tensor(0.0, 0.0, 0.0));
    assert!(f32::from_bits(eigen.e1).abs() < 1e-6);
    assert!(f32::from_bits(eigen.e2).abs() < 1e-6);
}

#[test]
fn test_eigen_horizontal_edge() {
    let fpu = unit();
    let eigen = eigen_decompose_2x2(&fpu, &tensor(0.0, 0.0, 100.0));
    let (e1, e2) = (f32::from_bits(eigen.e1), f32::from_bits(eigen.e2));
    let angle = f32::from_bits(eigen.angle);
    assert!(e1 > e2);
    assert!((angle - std::f32::consts::PI * 0.5).abs() < 0.1 || angle.abs() < 0.1);
}

#[test]
fn test_skr_fusion_identical_frames() {
    let fpu = unit();
    let f1 = frame(64, 64, |_, _| [0.3, 0.4, 0.5, 1.0]);
    let f2 = frame(64, 64, |_, _| [0.3, 0.4, 0.5, 1.0]);

    let params = SkrFusionParams {
        kernel_sigma: 1.0f32.to_bits(),
        stretch: 2.0f32.to_bits(),
        structure_sigma: 0.5f32.to_bits(),
        output_scale: 1.0f32.to_bits(),
        robust_iterations: 0,
        min_samples: 4,
    };

    let fusion = SkrFusion::new(params);
    let result = fusion.fuse(&fpu, &vec![f1, f2], None);

    assert!((sample(&result, 32, 32, 0) - 0.3).abs() < 0.01);
    assert!((sample(&result, 32, 32, 1) - 0.4).abs() < 0.01);
    assert!((sample(&result, 32, 32, 2) - 0.5).abs() < 0.01);
}

#[test]
fn constants_of_the_kernel() {
    assert_eq!(PI, std::f32::consts::PI.to_bits());
    assert_eq!(MINUS_HALF, (-0.5f32).to_bits());
    assert_eq!(NEGLIGIBLE, 1e-10f32.to_bits());
}

#[test]
fn default_parameters_of_the_regression() {
    let p = SkrFusionParams::default();
    assert_eq!(p.kernel_sigma, 1.5f32.to_bits());
    assert_eq!(p.stretch, 4.0f32.to_bits());
    assert_eq!(p.structure_sigma, 1.0f32.to_bits());
    assert_eq!(p.output_scale, 1.0f32.to_bits());
    assert_eq!((p.robust_iterations, p.min_samples), (1, 4));
}

#[test]
fn eigenvalues_come_in_order() {
    let fpu = unit();
    let eigen = eigen_decompose_2x2(&fpu, &tensor(3.0, 0.0, 1.0));
    assert_eq!((eigen.e1, eigen.e2), (3.0f32.to_bits(), 1.0f32.to_bits()));
    assert_eq!(eigen.angle, 0.0f32.to_bits());
    let tilted = eigen_decompose_2x2(&fpu, &tensor(2.0, 1.0, 2.0));
    assert_eq!((tilted.e1, tilted.e2), (3.0f32.to_bits(), 1.0f32.to_bits()));
    assert!((f32::from_bits(tilted.angle) - std::f32::consts::FRAC_PI_4).abs() < 1e-6);
}

#[test]
fn tensors_of_a_ramp() {
    let fpu = unit();
    let ramp = frame(5, 5, |x, _| [x as f32, x as f32, x as f32, 1.0]);
    let mut params = SkrFusionParams::default();
    params.structure_sigma = 0.5f32.to_bits();
    let tensors = SkrFusion::new(params).compute_structure_tensors(&fpu, &ramp);
    assert_eq!(tensors.len(), 25);
    assert!((f32::from_bits(tensors[12].ixx) - 4.0).abs() < 1e-5);
    assert_eq!(tensors[12].iyy, 0.0f32.to_bits());
}

#[test]
fn tensors_need_inner_pixels() {
    let fpu = unit();
    let fusion = SkrFusion::new(SkrFusionParams::default());
    let small = frame(2, 5, |x, y| [(x + y) as f32, x as f32, y as f32, 1.0]);
    for t in fusion.compute_structure_tensors(&fpu, &small) {
        assert_eq!([t.ixx, t.ixy, t.iyy], [0.0f32.to_bits(); 3]);
    }
    let uneven = frame(7, 6, |x, y| [(x * y % 5) as f32, (x + 3 * y) as f32 % 4.0, 1.0, 1.0]);
    for t in fusion.compute_structure_tensors(&fpu, &uneven) {
        assert!(f32::from_bits(t.ixx) >= 0.0 && f32::from_bits(t.iyy) >= 0.0);
    }
}

#[test]
fn a_moving_scene_comes_from_the_reference() {
    let fpu = unit();
    let a = frame(16, 16, |x, y| [(x * 16 + y) as f32 / 256.0, 0.5, 0.25, 1.0]);
    let b = frame(16, 16, |_, _| [1.0, 1.0, 1.0, 1.0]);
    let expected = a.samples.clone();
    let mut mask = MotionMask::new(16, 16);
    mask.weights = vec![0.0f32.to_bits(); 256];
    let out = SkrFusion::new(SkrFusionParams::default()).fuse(&fpu, &vec![a, b], Some(&mask));
    assert_eq!(out.samples, expected);
}

#[test]
fn a_still_mask_changes_nothing() {
    let fpu = unit();
    let make = || {
        vec![
            frame(12, 12, |x, y| [(x + y) as f32 / 24.0, 0.5, 0.1, 1.0]),
            frame(12, 12, |x, y| [(x * y) as f32 / 144.0, 0.4, 0.2, 1.0]),
        ]
    };
    let fusion = SkrFusion::new(SkrFusionParams::default());
    let plain = fusion.fuse(&fpu, &make(), None);
    let masked = fusion.fuse(&fpu, &make(), Some(&MotionMask::new(12, 12)));
    assert_eq!(plain.samples, masked.samples);
}

#[test]
fn output_is_scaled() {
    let fpu = unit();
    let mut params = SkrFusionParams::default();
    params.output_scale = 2.0f32.to_bits();
    let fusion = SkrFusion::new(params);
    let frames = vec![frame(6, 5, |_, _| [0.2; 4]), frame(6, 5, |_, _| [0.2; 4])];
    assert!(fusion.can_fuse(&fpu, &frames));
    let out = fusion.fuse(&fpu, &frames, None);
    assert_eq!((out.width, out.height), (12, 10));
    assert!((sample(&out, 5, 5, 0) - 0.2).abs() < 1e-5);
    assert_eq!(sample(&out, 5, 5, 3), 1.0);
}

#[test]
fn few_frames_need_no_regression() {
    let fpu = unit();
    let fusion = SkrFusion::new(SkrFusionParams::default());
    let none = fusion.fuse(&fpu, &Vec::new(), None);
    assert_eq!((none.width, none.height, none.samples.len()), (0, 0, 0));
    let f = frame(2, 2, |_, _| [0.7; 4]);
    let expected = f.samples.clone();
    assert_eq!(fusion.fuse(&fpu, &vec![f], None).samples, expected);
}
