use pixel_shift::float::{FloatOp, FloatUnit};
use pixel_shift::gpu_fusion::{
    can_plan, compute_tensors_cpu, extract_rgb_data, fusion_bindings, group_count, is_gpu_available,
    plan_fusion, read_buffer, read_output, tensor_bindings, BindingKind, GpuPlan,
};
use pixel_shift::motion_detection::MotionMask;
use pixel_shift::skr_fusion::{SkrFusion, SkrFusionParams};
use pixel_shift::frame::RgbaFrame;

/// The machine's own floating-point instructions.
fn unit() -> FloatUnit<impl Fn(FloatOp) -> u64> {
    fn s(bits: u32) -> f32 {
        f32::from_bits(bits)
    }
    fn d(bits: u64) -> f64 {
        f64::from_bits(bits)
    }
    fn single(v: f32) -> u64 {
        v.to_bits() as u64
    }
    FloatUnit::new(|op: FloatOp| match op {
        FloatOp::Add(a, b) => single(s(a) + s(b)),
        FloatOp::Sub(a, b) => single(s(a) - s(b)),
        FloatOp::Mul(a, b) => single(s(a) * s(b)),
        FloatOp::Div(a, b) => single(s(a) / s(b)),
        FloatOp::Sqrt(a) => single(s(a).sqrt()),
        FloatOp::Exp(a) => single(s(a).exp()),
        FloatOp::Sin(a) => single(s(a).sin()),
        FloatOp::Cos(a) => single(s(a).cos()),
        FloatOp::Atan2(a, b) => single(s(a).atan2(s(b))),
        FloatOp::Powf(a, b) => single(s(a).powf(s(b))),
        FloatOp::Floor(a) => single(s(a).floor()),
        FloatOp::Ceil(a) => single(s(a).ceil()),
        FloatOp::Round(a) => single(s(a).round()),
        FloatOp::WideAdd(a, b) => (d(a) + d(b)).to_bits(),
        FloatOp::WideSub(a, b) => (d(a) - d(b)).to_bits(),
        FloatOp::WideMul(a, b) => (d(a) * d(b)).to_bits(),
        FloatOp::WideDiv(a, b) => (d(a) / d(b)).to_bits(),
        FloatOp::WideSqrt(a) => d(a).sqrt().to_bits(),
        FloatOp::FromU64(a) => single(a as f32),
        FloatOp::FromI32(a) => single(a as f32),
        FloatOp::ToI32(a) => s(a) as i32 as u32 as u64,
        FloatOp::ToU32(a) => s(a) as u32 as u64,
        FloatOp::Widen(a) => (s(a) as f64).to_bits(),
        FloatOp::Narrow(a) => single(d(a) as f32),
        FloatOp::WideFromU64(a) => (a as f64).to_bits(),
    })
}

/// A frame whose samples are given by column and row.
fn frame(width: u32, height: u32, at: impl Fn(u32, u32) -> [f32; 4]) -> RgbaFrame {
    let mut samples = Vec::new();
    for y in 0..height {
        for x in 0..width {
            for v in at(x, y) {
                samples.push(v.to_bits());
            }
        }
    }
    RgbaFrame { width, height, samples }
}

/// One sample of a frame.
fn sample(f: &RgbaFrame, x: u32, y: u32, c: u32) -> f32 {
    f32::from_bits(f.get(x, y, c))
}

#[test]
fn a_graphics_processor_may_be_asked() {
    assert!(is_gpu_available());
}

#[test]
fn buffers_are_bound_as_the_shader_declares_them() {
    assert_eq!(
        tensor_bindings(),
        vec![BindingKind::ReadOnlyStorage, BindingKind::ReadWriteStorage, BindingKind::Uniform]
    );
    assert_eq!(
        fusion_bindings(),
        vec![
            BindingKind::ReadOnlyStorage,
            BindingKind::ReadOnlyStorage,
            BindingKind::ReadOnlyStorage,
            BindingKind::ReadWriteStorage,
            BindingKind::Uniform,
        ]
    );
}

#[test]
fn work_groups_cover_a_side() {
    assert_eq!([0, 1, 8, 9, 64].map(group_count), [0, 1, 1, 2, 8]);
    assert_eq!(group_count(u32::MAX), 536870912);
}

#[test]
fn colors_are_packed_without_alpha() {
    let f = frame(2, 1, |x, _| [x as f32, 0.5, 0.25, 1.0]);
    let words: Vec<f32> = extract_rgb_data(&f).iter().map(|&w| f32::from_bits(w)).collect();
    assert_eq!(words, vec![0.0, 0.5, 0.25, 1.0, 0.5, 0.25]);
}

#[test]
fn tensors_agree_with_those_of_the_regression() {
    let fpu = unit();
    let f = frame(6, 6, |x, y| [(x * y) as f32 * 0.05, 0.2, x as f32 * 0.1, 1.0]);
    let params = SkrFusionParams::default();
    let here = compute_tensors_cpu(&fpu, &f, params.structure_sigma);
    let there = SkrFusion::new(params).compute_structure_tensors(&fpu, &f);
    assert_eq!(here.len(), there.len());
    for (a, b) in here.iter().zip(there.iter()) {
        assert_eq!((a.ixx, a.ixy, a.iyy), (b.ixx, b.ixy, b.iyy));
    }
}

#[test]
fn a_job_holds_everything() {
    let fpu = unit();
    let frames = vec![
        frame(10, 3, |x, _| [x as f32, 0.0, 0.0, 1.0]),
        frame(10, 3, |_, y| [0.0, y as f32, 0.0, 1.0]),
    ];
    let mut params = SkrFusionParams::default();
    params.output_scale = 2.0f32.to_bits();
    assert!(can_plan(&fpu, &frames, &params));
    let mask = MotionMask::new(10, 3);
    match plan_fusion(&fpu, &frames, Some(&mask), &params) {
        GpuPlan::Run(job) => {
            assert_eq!(job.frames.len(), 2 * 30 * 3);
            assert_eq!(job.frames[30 * 3 + 20 * 3 + 1], 2.0f32.to_bits());
            assert_eq!(job.tensors.len(), 90);
            assert_eq!(job.mask, vec![1.0f32.to_bits(); 30]);
            assert_eq!(job.output, vec![0; 20 * 6 * 4]);
            assert_eq!(job.workgroups, (3, 1));
            let sigma = 1.5f32.to_bits();
            let words = vec![20, 6, 10, 3, 2, sigma, 4.0f32.to_bits(), 1.0f32.to_bits(), 1, 0, 0];
            assert_eq!(job.params.words(), words);
            let buffers = job.buffers();
            let bytes: Vec<u8> = words.iter().flat_map(|w| w.to_ne_bytes()).collect();
            assert_eq!(buffers.params, bytes);
            assert_eq!(buffers.frames.len(), job.frames.len() * 4);
            assert_eq!(buffers.output, vec![0; 20 * 6 * 16]);
        }
        GpuPlan::Done(_) => panic!("two frames are to be fused"),
    }
    match plan_fusion(&fpu, &frames, None, &params) {
        GpuPlan::Run(job) => {
            assert_eq!(job.params.motion_compensation, 0);
            assert_eq!(job.mask, vec![1.0f32.to_bits(); 30]);
        }
        GpuPlan::Done(_) => panic!("two frames are to be fused"),
    }
}

#[test]
fn few_frames_need_no_shader() {
    let fpu = unit();
    let params = SkrFusionParams::default();
    match plan_fusion(&fpu, &Vec::new(), None, &params) {
        GpuPlan::Done(out) => assert_eq!((out.width, out.height), (0, 0)),
        GpuPlan::Run(_) => panic!("there is no frame"),
    }
    match plan_fusion(&fpu, &vec![frame(2, 2, |_, _| [0.3; 4])], None, &params) {
        GpuPlan::Done(out) => assert_eq!(out.samples, vec![0.3f32.to_bits(); 16]),
        GpuPlan::Run(_) => panic!("there is one frame"),
    }
}

#[test]
fn output_words_become_an_image() {
    let words: Vec<u32> = (0..30).collect();
    let out = read_output(&words, 2, 3);
    assert_eq!((out.width, out.height), (2, 3));
    assert_eq!(out.samples, (0..24).collect::<Vec<u32>>());
    assert_eq!(sample(&out, 1, 2, 3).to_bits(), 23);
}

#[test]
fn output_bytes_become_an_image() {
    let words: Vec<u32> = (0..24).map(|i| i * 0x0102_0305).collect();
    let bytes: Vec<u8> = words.iter().flat_map(|w| w.to_ne_bytes()).collect();
    let out = read_buffer(&bytes, 3, 2);
    assert_eq!((out.width, out.height), (3, 2));
    assert_eq!(out.samples, words);
    assert_eq!(read_buffer(&[], 0, 7).samples, Vec::new());
}
