use pixel_shift::float::{FloatOp, FloatUnit};
use pixel_shift::alignment::AlignmentShift;
use pixel_shift::cfa_fusion::{
    can_fuse_mosaics, cfa_frame_of, estimate_scale_from_shifts, extract_cfa_frame, fuse_cfa_frames,
    fuse_cfa_frames_with_shifts, get_shift_pattern, nikon_shift_patterns, CfaFrame, FusionError,
    BLUE_OF_GREEN, DOUBLING_SPREAD, LEAST_CONFIDENCE, LEAST_WEIGHT, ONE_AND_A_HALF, RED_OF_GREEN,
};
use pixel_shift::drizzle::{bayer_drizzle, bayer_is, DrizzleChan};
use pixel_shift::frame::RgbaBytes;
use pixel_shift::frame_extraction::{
    cfa_color_of, cfa_pattern_of, get_cfa_color_at, get_cfa_pattern, visualize_cfa_from_image, BLUE_SHARE,
    GREEN_SHARE, RED_SHARE,
};
use pixel_shift::mosaic_merge::{
    can_measure, fuse_measured, luma_proxy, measure_shifts, mosaic_noise_model, shift_pairs,
};
use pixel_shift::noise_model::NoiseModel;
use pixel_shift::progress::MergeStep;
use pixel_shift::raw::{raw_failure, Cfa, RawError, RawRecord, RawSamples};

/// The machine's own floating-point instructions.
fn unit() -> FloatUnit<impl Fn(FloatOp) -> u64> {
    fn s(bits: u32) -> f32 {
        f32::from_bits(bits)
    }
    fn d(bits: u64) -> f64 {
        f64::from_bits(bits)
    }
    fn single(v: f32) -> u64 {
        v.to_bits() as u64
    }
    FloatUnit::new(|op: FloatOp| match op {
        FloatOp::Add(a, b) => single(s(a) + s(b)),
        FloatOp::Sub(a, b) => single(s(a) - s(b)),
        FloatOp::Mul(a, b) => single(s(a) * s(b)),
        FloatOp::Div(a, b) => single(s(a) / s(b)),
        FloatOp::Sqrt(a) => single(s(a).sqrt()),
        FloatOp::Exp(a) => single(s(a).exp()),
        FloatOp::Sin(a) => single(s(a).sin()),
        FloatOp::Cos(a) => single(s(a).cos()),
        FloatOp::Atan2(a, b) => single(s(a).atan2(s(b))),
        FloatOp::Powf(a, b) => single(s(a).powf(s(b))),
        FloatOp::Floor(a) => single(s(a).floor()),
        FloatOp::Ceil(a) => single(s(a).ceil()),
        FloatOp::Round(a) => single(s(a).round()),
        FloatOp::WideAdd(a, b) => (d(a) + d(b)).to_bits(),
        FloatOp::WideSub(a, b) => (d(a) - d(b)).to_bits(),
        FloatOp::WideMul(a, b) => (d(a) * d(b)).to_bits(),
        FloatOp::WideDiv(a, b) => (d(a) / d(b)).to_bits(),
        FloatOp::WideSqrt(a) => d(a).sqrt().to_bits(),
        FloatOp::FromU64(a) => single(a as f32),
        FloatOp::FromI32(a) => single(a as f32),
        FloatOp::ToI32(a) => s(a) as i32 as u32 as u64,
        FloatOp::ToU32(a) => s(a) as u32 as u64,
        FloatOp::Widen(a) => (s(a) as f64).to_bits(),
        FloatOp::Narrow(a) => single(d(a) as f32),
        FloatOp::WideFromU64(a) => (a as f64).to_bits(),
    })
}

/// A raw file in the DNG format: a mosaic of sixteen-bit samples, with a maker note if one is given.
fn raw_file(
    width: u32,
    height: u32,
    pattern: [u8; 4],
    data: &[u16],
    model: &str,
    note: Option<&[u8]>,
) -> Vec<u8> {
    let text = |s: &str| {
        let mut b = s.as_bytes().to_vec();
        b.push(0);
        b
    };
    let long = |v: u32| v.to_le_bytes().to_vec();
    let short = |v: u16| v.to_le_bytes().to_vec();
    let pixels: Vec<u8> = data.iter().flat_map(|v| v.to_le_bytes()).collect();
    let mut fields: Vec<(u16, u16, u32, Vec<u8>)> = vec![
        (254, 4, 1, long(0)),
        (256, 4, 1, long(width)),
        (257, 4, 1, long(height)),
        (258, 3, 1, short(16)),
        (259, 3, 1, short(1)),
        (262, 3, 1, short(32803)),
        (271, 2, 6, text("Nikon")),
        (272, 2, model.len() as u32 + 1, text(model)),
        (273, 4, 1, long(0)),
        (277, 3, 1, short(1)),
        (278, 4, 1, long(height)),
        (279, 4, 1, long(pixels.len() as u32)),
        (33421, 3, 2, vec![2, 0, 2, 0]),
        (33422, 1, 4, pattern.to_vec()),
        (34665, 4, 1, long(0)),
        (50706, 1, 4, vec![1, 4, 0, 0]),
        (50714, 4, 1, long(64)),
        (50717, 4, 1, long(16383)),
    ];
    let note = note.unwrap_or(&[]);
    let head = 8 + 2 + fields.len() * 12 + 4;
    let mut extra: Vec<u8> = Vec::new();
    let exif_at = head as u32;
    let exif_len = 2 + 12 + 4;
    let extra_at = exif_at as usize + exif_len;
    let mut note_bytes = note.to_vec();
    while note_bytes.len() < 5 {
        note_bytes.push(0);
    }
    let note_at = extra_at as u32;
    extra.extend_from_slice(&note_bytes);
    for f in fields.iter_mut() {
        if f.0 == 34665 {
            f.3 = long(exif_at);
        }
        if f.3.len() > 4 {
            let at = extra_at + extra.len();
            extra.extend_from_slice(&f.3);
            f.3 = (at as u32).to_le_bytes().to_vec();
        }
    }
    if extra.len() % 2 == 1 {
        extra.push(0);
    }
    let pixels_at = (extra_at + extra.len()) as u32;
    let mut out = vec![b'I', b'I', 42, 0, 8, 0, 0, 0];
    out.extend_from_slice(&(fields.len() as u16).to_le_bytes());
    for (tag, kind, count, mut value) in fields {
        if tag == 273 {
            value = long(pixels_at);
        }
        value.resize(4, 0);
        out.extend_from_slice(&tag.to_le_bytes());
        out.extend_from_slice(&kind.to_le_bytes());
        out.extend_from_slice(&count.to_le_bytes());
        out.extend_from_slice(&value);
    }
    out.extend_from_slice(&[0; 4]);
    out.extend_from_slice(&1u16.to_le_bytes());
    let note_tag: u16 = if note.is_empty() { 37510 } else { 37500 };
    out.extend_from_slice(&note_tag.to_le_bytes());
    out.extend_from_slice(&7u16.to_le_bytes());
    out.extend_from_slice(&(note_bytes.len() as u32).to_le_bytes());
    out.extend_from_slice(&note_at.to_le_bytes());
    out.extend_from_slice(&[0; 4]);
    out.extend_from_slice(&extra);
    out.extend_from_slice(&pixels);
    out
}

fn pairs(values: &[(f32, f32)]) -> Vec<(u32, u32)> {
    values.iter().map(|s| (s.0.to_bits(), s.1.to_bits())).collect()
}

fn mosaic(width: u32, height: u32, data: Vec<u16>) -> CfaFrame {
    CfaFrame {
        data,
        width,
        height,
        cfa: Cfa::new("RGGB"),
        black_levels: [0.0f32.to_bits(); 4],
        white_level: 1000.0f32.to_bits(),
        wb_coeffs: [1.0f32.to_bits(); 4],
    }
}

#[test]
fn test_drizzle() {
    let fpu = unit();
    let w = 64;
    let h = 64;
    let data: Vec<u16> = (0..w * h).map(|i| if i % 2 == 0 { 10000 } else { 20000 }).collect();
    let frames: Vec<Vec<u16>> = (0..4).map(|_| data.clone()).collect();
    let bl = [0.0f32.to_bits(); 4];
    let shifts = pairs(&[(0.0, 0.0), (1.0, 0.0), (0.0, 1.0), (1.0, 1.0)]);
    let white = vec![65535.0f32.to_bits(); 4];
    let r = bayer_drizzle(&fpu, &frames, w, h, "RGGB", &shifts, &vec![bl; 4], &white, 2);
    assert_eq!(r.width, 128);
    assert_eq!(r.height, 128);
}

#[test]
fn drizzled_samples_land_in_their_channel() {
    let fpu = unit();
    let frames = vec![vec![100u16, 200, 300, 400]];
    let shifts = pairs(&[(-0.5, -0.5)]);
    let levels = vec![[0.0f32.to_bits(); 4]];
    let white = vec![400.0f32.to_bits()];
    let r = bayer_drizzle(&fpu, &frames, 2, 2, "RGGB", &shifts, &levels, &white, 1);
    let at = |x: u32, y: u32, c: u32| f32::from_bits(r.get(x, y, c));
    assert_eq!(at(0, 0, 0), 0.25);
    assert_eq!(at(1, 0, 1), 0.25);
    assert_eq!(at(0, 1, 1), 0.375);
    assert_eq!(at(1, 1, 2), 1.0);
    assert_eq!((at(0, 0, 1), at(1, 1, 0), at(0, 0, 3)), (0.0, 0.0, 1.0));
}

#[test]
fn drizzled_values_are_averaged() {
    let fpu = unit();
    let mut chan = DrizzleChan::new(2, 2);
    chan.add(&fpu, 1, 1, 0.25f32.to_bits());
    chan.add(&fpu, 1, 1, 0.75f32.to_bits());
    chan.add(&fpu, 0, 1, 0.5f32.to_bits());
    let r = chan.normalize(&fpu);
    assert_eq!(r, vec![0.0f32.to_bits(), 0.0f32.to_bits(), 0.5f32.to_bits(), 0.5f32.to_bits()]);
}

#[test]
fn every_mosaic_is_drizzled_as_one_that_starts_with_red() {
    for pattern in ["RGGB", "GBRG"] {
        assert!(bayer_is(pattern, 4, 2, 0));
        assert!(bayer_is(pattern, 5, 2, 1));
        assert!(bayer_is(pattern, 5, 3, 2));
        assert!(bayer_is(pattern, 4, 3, 3));
        assert!(!bayer_is(pattern, 4, 2, 7));
    }
}

#[test]
fn constants_of_the_fusion() {
    assert_eq!(ONE_AND_A_HALF, 1.5f32.to_bits());
    assert_eq!(LEAST_WEIGHT, 0.01f32.to_bits());
    assert_eq!(LEAST_CONFIDENCE, 0.001f32.to_bits());
    assert_eq!(RED_OF_GREEN, 0.8f32.to_bits());
    assert_eq!(BLUE_OF_GREEN, 1.2f32.to_bits());
    assert_eq!(DOUBLING_SPREAD, 0.75f32.to_bits());
    assert_eq!(RED_SHARE, 0.299f32.to_bits());
    assert_eq!(GREEN_SHARE, 0.587f32.to_bits());
    assert_eq!(BLUE_SHARE, 0.114f32.to_bits());
}

#[test]
fn ideal_shifts_of_a_camera() {
    let four = pairs(&[(0.0, 0.0), (1.0, 0.0), (0.0, 1.0), (1.0, 1.0)]);
    assert_eq!(nikon_shift_patterns(4), four);
    let eight = nikon_shift_patterns(8);
    assert_eq!(eight[..4], four[..]);
    assert_eq!(eight[4..], four[..]);
    let sixteen = nikon_shift_patterns(16);
    assert_eq!(sixteen.len(), 16);
    assert_eq!(sixteen[6], (1.0f32.to_bits(), 0.5f32.to_bits()));
    assert_eq!(sixteen[15], (1.5f32.to_bits(), 1.5f32.to_bits()));
    assert_eq!(nikon_shift_patterns(32).len(), 32);
    assert_eq!(nikon_shift_patterns(2), four[..2].to_vec());
    let seven = nikon_shift_patterns(7);
    assert_eq!(seven.len(), 7);
    assert_eq!(seven[..4], four[..]);
    assert_eq!(seven[4..], four[..3]);
    assert_eq!(nikon_shift_patterns(5).len(), 5);
    assert_eq!(nikon_shift_patterns(0), Vec::new());
    assert_eq!(get_shift_pattern(32).1, 2);
    assert_eq!(get_shift_pattern(16).1, 1);
    assert_eq!(get_shift_pattern(5), (four, 1));
}

#[test]
fn scale_follows_the_spread_of_shifts() {
    let fpu = unit();
    assert_eq!(estimate_scale_from_shifts(&fpu, &Vec::new()), 1);
    assert_eq!(estimate_scale_from_shifts(&fpu, &pairs(&[(5.0, 5.0), (5.5, 5.7)])), 1);
    assert_eq!(estimate_scale_from_shifts(&fpu, &pairs(&[(0.0, 0.0), (0.0, -0.75)])), 2);
    let around = pairs(&[(0.0, 0.0), (-0.5, 0.0), (0.5, 0.0)]);
    assert_eq!(estimate_scale_from_shifts(&fpu, &around), 2);
    assert_eq!(estimate_scale_from_shifts(&fpu, &pairs(&[(9.0, 9.0)])), 1);
}

#[test]
fn four_shots_are_fused_at_native_resolution() {
    let fpu = unit();
    let frames: Vec<CfaFrame> = (0..4).map(|_| mosaic(8, 6, vec![500; 48])).collect();
    let out = fuse_cfa_frames(&fpu, &frames).unwrap();
    assert_eq!((out.width, out.height), (8, 6));
    for c in 0..3 {
        assert_eq!(f32::from_bits(out.get(3, 3, c)), 0.5);
    }
    assert_eq!(f32::from_bits(out.get(3, 3, 3)), 1.0);
}

#[test]
fn sixteen_shots_double_the_resolution() {
    let fpu = unit();
    let frames: Vec<CfaFrame> = (0..16).map(|_| mosaic(4, 4, vec![250; 16])).collect();
    let out = fuse_cfa_frames(&fpu, &frames).unwrap();
    assert_eq!((out.width, out.height), (8, 8));
    assert_eq!(f32::from_bits(out.get(5, 5, 1)), 0.25);
}

#[test]
fn missing_colors_are_filled_in() {
    let fpu = unit();
    let frames = vec![mosaic(2, 2, vec![100, 200, 300, 400])];
    let shifts = pairs(&[(0.0, 0.0)]);
    let out = fuse_cfa_frames_with_shifts(&fpu, &frames, &shifts, None).unwrap();
    let at = |x: u32, y: u32, c: u32| f32::from_bits(out.get(x, y, c));
    assert_eq!(at(0, 0, 0), 0.1);
    assert!((at(0, 0, 1) - 0.05).abs() < 1e-6);
    assert!((at(1, 0, 0) - 0.2 * 0.8).abs() < 1e-6);
    assert!((at(1, 0, 2) - 0.2 * 1.2).abs() < 1e-6);
    assert_eq!(at(1, 1, 2), 0.4);
}

#[test]
fn a_noise_model_weighs_samples() {
    let fpu = unit();
    let frames = vec![mosaic(4, 4, vec![500; 16]), mosaic(4, 4, vec![900; 16])];
    let shifts = pairs(&[(0.0, 0.0), (0.0, 0.0)]);
    let plain = fuse_cfa_frames_with_shifts(&fpu, &frames, &shifts, None).unwrap();
    assert!((f32::from_bits(plain.get(1, 0, 1)) - 0.7).abs() < 1e-6);
    let empty = NoiseModel::new();
    let none = fuse_cfa_frames_with_shifts(&fpu, &frames, &shifts, Some(&empty)).unwrap();
    assert_eq!(f32::from_bits(none.get(1, 0, 1)), 0.0);
    let mut same = NoiseModel::new();
    same.histograms[65536 + 127 * 256 + 127] = 1;
    let kept = fuse_cfa_frames_with_shifts(&fpu, &frames, &shifts, Some(&same)).unwrap();
    assert!((f32::from_bits(kept.get(1, 0, 1)) - 0.5).abs() < 1e-6);
}

#[test]
fn a_model_of_the_burst_is_normalized() {
    let fpu = unit();
    let frames = vec![mosaic(8, 8, vec![2560; 64]), mosaic(8, 8, vec![5120; 64])];
    let model = mosaic_noise_model(&fpu, &frames, &pairs(&[(0.0, 0.0), (0.0, 0.0)]));
    assert!(model.normalized);
    for channel in 0..3 {
        assert_eq!(model.confidence(&fpu, 2560, 2560, channel), 1.0f32.to_bits());
        assert_eq!(model.confidence(&fpu, 2560, 5120, channel), 1.0f32.to_bits());
        assert_eq!(model.confidence(&fpu, 2560, 2304, channel), 0.0f32.to_bits());
        assert_eq!(model.confidence(&fpu, 2560, 5376, channel), 0.0f32.to_bits());
        assert_eq!(model.confidence(&fpu, 5120, 2560, channel), 0.0f32.to_bits());
    }
}

#[test]
fn mosaics_of_different_sizes_are_refused() {
    let fpu = unit();
    assert!(matches!(fuse_cfa_frames(&fpu, &Vec::new()), Err(FusionError::NoFrames)));
    assert_eq!(FusionError::NoFrames.message(), "No frames provided");
    let frames = vec![mosaic(4, 4, vec![0; 16]), mosaic(4, 4, vec![0; 16]), mosaic(6, 4, vec![0; 24])];
    let shifts = pairs(&[(0.0, 0.0), (0.0, 0.0), (0.0, 0.0)]);
    match fuse_cfa_frames_with_shifts(&fpu, &frames, &shifts, None) {
        Err(e) => assert_eq!(e.message(), "Frame 2 dimensions 6x4 != 4x4"),
        Ok(_) => panic!("sizes differ"),
    }
}

#[test]
fn mosaics_without_shifts_cannot_be_fused() {
    let fpu = unit();
    let frames = vec![mosaic(4, 4, vec![0; 16]), mosaic(4, 4, vec![0; 16])];
    assert!(!can_fuse_mosaics(&fpu, &frames, &pairs(&[(0.0, 0.0)])));
    assert!(can_fuse_mosaics(&fpu, &frames, &pairs(&[(0.0, 0.0), (0.0, 0.0)])));
}

#[test]
fn filter_patterns_repeat() {
    let bayer = Cfa::new("GBRG");
    assert_eq!((bayer.width, bayer.height), (2, 2));
    let row = |r: usize| [bayer.color_at(r, 0), bayer.color_at(r, 1), bayer.color_at(r, 2)];
    assert_eq!(row(0), [1, 2, 1]);
    assert_eq!(row(1), [0, 1, 0]);
    assert_eq!(row(6), [1, 2, 1]);
    let tall = Cfa::new("RGMYCEBGRGRGRGRB");
    assert_eq!((tall.width, tall.height), (2, 8));
    assert_eq!((tall.color_at(1, 0), tall.color_at(1, 1)), (4, 5));
    assert_eq!((tall.color_at(2, 0), tall.color_at(2, 3)), (3, 3));
    let wide = Cfa::new("GGRGGBGGBGGRBRGRBGGGBGGRGGRGGBRBGBRG");
    assert_eq!((wide.width, wide.height), (6, 6));
    assert_eq!((wide.color_at(0, 2), wide.color_at(6, 8), wide.color_at(2, 0)), (0, 0, 2));
    assert_eq!(Cfa::new("").color_at(9, 9), 0);
}

fn shift(dx: f32, dy: f32) -> AlignmentShift {
    AlignmentShift { dx: dx.to_bits(), dy: dy.to_bits(), quality: 1.0f32.to_bits() }
}

#[test]
fn cells_become_pixels() {
    let data = vec![256, 512, 768, 1024, 65535, 65535, 0, 0, 256, 65535, 65535, 9];
    let luma = luma_proxy(&mosaic(4, 3, data));
    assert_eq!((luma.width, luma.height), (2, 1));
    assert_eq!(luma.pixels, vec![128, 1]);
    let short = luma_proxy(&mosaic(2, 2, vec![1, 2, 3]));
    assert_eq!(short.pixels, vec![128]);
}

#[test]
fn shifts_are_brought_to_sensor_pixels() {
    let r = shift_pairs(&unit(), &vec![shift(1.0, -2.0), shift(0.5, 0.25)]);
    assert_eq!(r[0], ((-2.0f32).to_bits(), 4.0f32.to_bits()));
    assert_eq!(r[1], ((-1.0f32).to_bits(), (-0.5f32).to_bits()));
}

/// A mosaic of gray cells.
fn cells(width: u32, height: u32, value: impl Fn(u32, u32) -> u16) -> CfaFrame {
    let mut data = Vec::new();
    for y in 0..2 * height {
        for x in 0..2 * width {
            data.push(value(x / 2, y / 2));
        }
    }
    mosaic(2 * width, 2 * height, data)
}

#[test]
fn shifts_of_mosaics_are_measured_on_their_cells() {
    let fpu = unit();
    let scene = |x: u32, y: u32| ((x * x * 7 + y * y * 5 + x * y * 3) % 61 * 900) as u16;
    let a = cells(40, 40, |x, y| scene(x + 2, y + 2));
    let b = cells(40, 40, |x, y| scene(x + 2, y + 2));
    let told = std::cell::RefCell::new(Vec::new());
    let progress = |step: MergeStep| told.borrow_mut().push(step.text());
    assert!(can_measure(&vec![cells(40, 40, |_, _| 0), cells(40, 40, |_, _| 0)]));
    let shifts = measure_shifts(&fpu, &vec![a, b], &progress).ok().unwrap();
    assert_eq!(shifts.len(), 2);
    assert_eq!(shifts[0].quality, 1.0f32.to_bits());
    assert!(f32::from_bits(shifts[1].dx).abs() < 0.01);
    assert!(f32::from_bits(shifts[1].dy).abs() < 0.01);
    assert_eq!(told.into_inner(), vec!["Measuring actual frame displacements..."]);
}

#[test]
fn mosaics_that_cannot_be_measured_are_told() {
    assert!(can_measure(&Vec::new()));
    assert!(can_measure(&vec![cells(1, 1, |_, _| 0)]));
    assert!(!can_measure(&vec![cells(4, 1, |_, _| 0), cells(4, 1, |_, _| 0)]));
    assert!(!can_measure(&vec![cells(8, 8, |_, _| 0), cells(8, 7, |_, _| 0)]));
    assert!(!can_measure(&vec![mosaic(100000, 100000, Vec::new())]));
}

#[test]
fn measured_mosaics_are_fused_with_their_noise() {
    let fpu = unit();
    let frames = vec![mosaic(8, 8, vec![500; 64]), mosaic(8, 8, vec![500; 64])];
    let shifts = vec![shift(0.0, 0.0), shift(0.0, 0.0)];
    let told = std::cell::RefCell::new(Vec::new());
    let progress = |step: MergeStep| told.borrow_mut().push(step.text());
    let out = fuse_measured(&fpu, &frames, &shifts, &progress).ok().unwrap();
    let pairs = shift_pairs(&fpu, &shifts);
    let model = mosaic_noise_model(&fpu, &frames, &pairs);
    let expected = fuse_cfa_frames_with_shifts(&fpu, &frames, &pairs, Some(&model)).ok().unwrap();
    assert_eq!((out.width, out.height), (8, 8));
    assert_eq!(out.samples, expected.samples);
    assert_eq!(
        told.into_inner(),
        vec![
            "Fusing 2 Bayer frames (8x8) with measured shifts...",
            "Building noise model...",
            "Fusing 2 Bayer frames with confidence-weighted fusion...",
        ]
    );
    let odd = vec![mosaic(8, 8, vec![500; 64]), mosaic(8, 6, vec![500; 48])];
    let refusal = fuse_measured(&fpu, &odd, &shifts, &|_| ()).err().unwrap();
    assert_eq!(refusal.message(), "Frame 1 dimensions 8x6 != 8x8");
}

#[test]
fn mosaics_are_extracted_from_raw_files() {
    let fpu = unit();
    let data: Vec<u16> = (0..24).map(|i| i * 100).collect();
    let file = raw_file(6, 4, [1, 2, 0, 1], &data, "NIKON Z 8", None);
    let frame = extract_cfa_frame(&fpu, &file).ok().unwrap();
    assert_eq!((frame.width, frame.height), (6, 4));
    assert_eq!(frame.data, data);
    assert_eq!(frame.cfa.name, "GBRG");
    assert_eq!(frame.cfa.color_at(0, 1), 2);
    assert_eq!(frame.black_levels, [64.0f32.to_bits(); 4]);
    assert_eq!(frame.white_level, 16383.0f32.to_bits());
    assert_eq!(get_cfa_pattern(&file).ok().unwrap(), "GBRG");
    assert_eq!(get_cfa_color_at(&file, 0, 1).ok().unwrap(), 0);
    assert_eq!(get_cfa_color_at(&file, 1, 0).ok().unwrap(), 2);
}

#[test]
fn what_is_no_raw_file_is_refused() {
    let fpu = unit();
    let junk = b"this is not a raw file".to_vec();
    match get_cfa_pattern(&junk).err().unwrap() {
        RawError::NoDecoder(text) => assert!(text.contains("No decoder found")),
        RawError::Undecodable(_) => panic!("there is no decoder"),
    }
    assert!(get_cfa_color_at(&junk, 0, 0).is_err());
    let message = extract_cfa_frame(&fpu, &junk).err().unwrap().message();
    assert!(message.starts_with("Failed to get decoder: "));
}

#[test]
fn what_a_decoder_gives_up_is_told_apart() {
    let fpu = unit();
    let mut file = raw_file(6, 4, [0, 1, 1, 2], &[100; 24], "NIKON Z 8", None);
    file.truncate(file.len() - 30);
    let message = extract_cfa_frame(&fpu, &file).err().unwrap().message();
    assert!(message.starts_with("Failed to decode raw image: "));
    let text = || String::from("said");
    assert_eq!(raw_failure(text(), Ok(())).message(), "Failed to decode raw image: said");
    let search = Err(String::from("found none"));
    assert_eq!(raw_failure(text(), search).message(), "Failed to get decoder: found none");
}

fn record(samples: RawSamples, black: Vec<(u32, u32)>, white: Vec<u32>) -> RawRecord {
    RawRecord {
        model: String::from("Z 6III"),
        cfa_name: String::from("RGGB"),
        width: 2,
        height: 2,
        samples,
        black_levels: black,
        white_levels: white,
        wb_coeffs: [1, 2, 3, 4],
    }
}

#[test]
fn levels_of_a_record() {
    let fpu = unit();
    let four = record(RawSamples::Integer(vec![1, 2, 3, 4]), vec![(3, 2), (8, 1), (9, 3), (1, 4), (7, 1)], vec![255, 9]);
    let frame = cfa_frame_of(&fpu, four);
    let levels: Vec<f32> = frame.black_levels.iter().map(|&b| f32::from_bits(b)).collect();
    assert_eq!(levels, vec![1.5, 8.0, 3.0, 0.25]);
    assert_eq!(frame.white_level, 255.0f32.to_bits());
    assert_eq!(frame.wb_coeffs, [1, 2, 3, 4]);
    let two = cfa_frame_of(&fpu, record(RawSamples::Integer(Vec::new()), vec![(3, 2), (8, 1)], Vec::new()));
    assert_eq!(two.black_levels, [0.0f32.to_bits(); 4]);
    assert_eq!(two.white_level, 65535.0f32.to_bits());
}

#[test]
fn values_become_counts() {
    let fpu = unit();
    let values = [0.0f32, 0.5, 1.0, 7.0, -1.0].iter().map(|v| v.to_bits()).collect();
    let frame = cfa_frame_of(&fpu, record(RawSamples::Float(values), vec![(5, 1)], vec![1]));
    assert_eq!(frame.data, vec![0, 32767, 65535, 65535, 0]);
    assert_eq!(frame.black_levels, [5.0f32.to_bits(); 4]);
}

#[test]
fn records_tell_their_pattern() {
    let raw = record(RawSamples::Integer(Vec::new()), Vec::new(), Vec::new());
    assert_eq!(cfa_pattern_of(&raw), "RGGB");
    assert_eq!(cfa_color_of(&raw, 1, 1), 2);
    assert_eq!(cfa_color_of(&raw, 1, 0), 1);
}

#[test]
fn filters_are_shown_in_their_color() {
    let fpu = unit();
    let image = RgbaBytes { width: 2, height: 2, bytes: vec![100, 50, 20, 7].repeat(4) };
    let lum = (100.0f32 * 0.299 + 50.0f32 * 0.587 + 20.0f32 * 0.114) as u8;
    let out = visualize_cfa_from_image(&fpu, &image, "RGGB");
    assert_eq!(
        out.bytes,
        vec![lum, 0, 0, 255, 0, lum, 0, 255, 0, lum, 0, 255, 0, 0, lum, 255]
    );
    let gray = visualize_cfa_from_image(&fpu, &image, "GBRG");
    assert_eq!(gray.bytes, vec![lum, lum, lum, 255].repeat(4));
}

#[test]
fn every_offset_of_a_cell_is_visited() {
    for (count, step, side) in [(4, 1.0f32, 2), (8, 1.0, 2), (16, 0.5, 4), (32, 0.5, 4)] {
        let shifts = nikon_shift_patterns(count);
        for down in 0..side {
            for right in 0..side {
                let offset = ((right as f32 * step).to_bits(), (down as f32 * step).to_bits());
                assert!(shifts.contains(&offset));
            }
        }
    }
}

#[test]
fn fused_colors_stay_in_range() {
    let fpu = unit();
    let mut frame = mosaic(4, 4, vec![65535, 0, 900, 10, 3, 65535, 7, 0, 1, 2, 3, 4, 5, 6, 7, 8]);
    frame.black_levels = [50.0f32.to_bits(); 4];
    let out = fuse_cfa_frames_with_shifts(&fpu, &vec![frame], &pairs(&[(0.25, 0.75)]), None);
    let out = out.ok().unwrap();
    assert!(out.samples.iter().all(|&v| (0.0..=1.0).contains(&f32::from_bits(v))));
    assert_eq!(f32::from_bits(out.get(0, 0, 0)), 1.0);
}

#[test]
fn bursts_of_other_sizes_are_fused() {
    let fpu = unit();
    let frames: Vec<CfaFrame> = (0..5).map(|_| mosaic(4, 4, vec![250; 16])).collect();
    let out = fuse_cfa_frames(&fpu, &frames).ok().unwrap();
    assert_eq!((out.width, out.height), (8, 8));
    assert_eq!(f32::from_bits(out.get(4, 4, 1)), 0.25);
}
