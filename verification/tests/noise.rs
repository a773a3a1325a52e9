use pixel_shift::float::{FloatOp, FloatUnit};
use pixel_shift::noise_model::{cfa_channel_at, hval, NoiseModel};

/// The machine's own floating-point instructions.
fn unit() -> FloatUnit<impl Fn(FloatOp) -> u64> {
    fn s(bits: u32) -> f32 {
        f32::from_bits(bits)
    }
    fn d(bits: u64) -> f64 {
        f64::from_bits(bits)
    }
    fn single(v: f32) -> u64 {
        v.to_bits() as u64
    }
    FloatUnit::new(|op: FloatOp| match op {
        FloatOp::Add(a, b) => single(s(a) + s(b)),
        FloatOp::Sub(a, b) => single(s(a) - s(b)),
        FloatOp::Mul(a, b) => single(s(a) * s(b)),
        FloatOp::Div(a, b) => single(s(a) / s(b)),
        FloatOp::Sqrt(a) => single(s(a).sqrt()),
        FloatOp::Exp(a) => single(s(a).exp()),
        FloatOp::Sin(a) => single(s(a).sin()),
        FloatOp::Cos(a) => single(s(a).cos()),
        FloatOp::Atan2(a, b) => single(s(a).atan2(s(b))),
        FloatOp::Powf(a, b) => single(s(a).powf(s(b))),
        FloatOp::Floor(a) => single(s(a).floor()),
        FloatOp::Ceil(a) => single(s(a).ceil()),
        FloatOp::Round(a) => single(s(a).round()),
        FloatOp::WideAdd(a, b) => (d(a) + d(b)).to_bits(),
        FloatOp::WideSub(a, b) => (d(a) - d(b)).to_bits(),
        FloatOp::WideMul(a, b) => (d(a) * d(b)).to_bits(),
        FloatOp::WideDiv(a, b) => (d(a) / d(b)).to_bits(),
        FloatOp::WideSqrt(a) => d(a).sqrt().to_bits(),
        FloatOp::FromU64(a) => single(a as f32),
        FloatOp::FromI32(a) => single(a as f32),
        FloatOp::ToI32(a) => s(a) as i32 as u32 as u64,
        FloatOp::ToU32(a) => s(a) as u32 as u64,
        FloatOp::Widen(a) => (s(a) as f64).to_bits(),
        FloatOp::Narrow(a) => single(d(a) as f32),
        FloatOp::WideFromU64(a) => (a as f64).to_bits(),
    })
}

fn pairs(values: &[(f32, f32)]) -> Vec<(u32, u32)> {
    values.iter().map(|s| (s.0.to_bits(), s.1.to_bits())).collect()
}

#[test]
fn test_hval() {
    assert_eq!(hval(0), 0);
    assert_eq!(hval(65535), 255);
    assert_eq!(hval(32768), 128);
}

#[test]
fn test_cfa_channel() {
    assert_eq!(cfa_channel_at("RGGB", 0, 0), 0);
    assert_eq!(cfa_channel_at("RGGB", 1, 0), 1);
    assert_eq!(cfa_channel_at("RGGB", 0, 1), 1);
    assert_eq!(cfa_channel_at("RGGB", 1, 1), 2);
}

#[test]
fn test_noise_model_basic() {
    let fpu = unit();
    let mut model = NoiseModel::new();
    let frames: Vec<Vec<u16>> =
        vec![vec![10000u16, 20000, 30000, 40000], vec![10050u16, 19950, 30010, 39980]];
    let shifts = pairs(&[(0.0, 0.0), (0.0, 0.0)]);
    model.build(&fpu, &frames, 2, 2, &shifts, false, None);
    model.normalize(&fpu, 1.0f32.to_bits());

    let conf = f32::from_bits(model.confidence(&fpu, 10000, 10000, 1));
    assert!(conf > 0.5);
}

#[test]
fn channels_of_the_other_patterns() {
    let cell = |p: &str| {
        [cfa_channel_at(p, 0, 0), cfa_channel_at(p, 1, 0), cfa_channel_at(p, 0, 1), cfa_channel_at(p, 1, 1)]
    };
    assert_eq!(cell("BGGR"), [2, 1, 1, 0]);
    assert_eq!(cell("GRBG"), [1, 0, 2, 1]);
    assert_eq!(cell("GBRG"), [1, 2, 0, 1]);
    assert_eq!(cell("XTRANS"), [1, 1, 1, 1]);
    assert_eq!(cfa_channel_at("RGGB", 7, 5), 2);
}

#[test]
fn every_pixel_is_counted() {
    let fpu = unit();
    let mut model = NoiseModel::new();
    let frame = || vec![0u16, 256, 512, 768];
    let still = pairs(&[(0.0, 0.0), (0.0, 0.0)]);
    model.build(&fpu, &vec![frame(), frame()], 2, 2, &still, false, None);
    for k in 0..4 {
        assert_eq!(model.histograms[65536 + k * 256 + k], 1);
    }
    assert_eq!(model.histograms.iter().sum::<u32>(), 4);
    assert!(!model.normalized);
}

#[test]
fn pairs_are_counted_where_the_shift_maps_them() {
    let fpu = unit();
    let mut model = NoiseModel::new();
    let burst = || {
        let a: Vec<u16> = (0..64).map(|i| i * 256).collect();
        let b: Vec<u16> = (0..64).map(|i| (i + 100) * 256).collect();
        vec![a, b]
    };
    let moved = pairs(&[(0.0, 0.0), (-1.0, 0.0)]);
    model.build(&fpu, &burst(), 8, 8, &moved, true, Some("RGGB"));
    assert_eq!(model.histograms[101], 1);
    assert_eq!(model.histograms[65536 + 256 + 102], 1);
    assert_eq!(model.histograms[2 * 65536 + 9 * 256 + 110], 1);
    assert_eq!(model.histograms.iter().map(|&c| c as u64).sum::<u64>(), 56);
    model.histograms[101] = u32::MAX;
    model.build(&fpu, &burst(), 8, 8, &moved, true, Some("RGGB"));
    assert_eq!(model.histograms[101], u32::MAX);
    assert_eq!(model.histograms[65536 + 256 + 102], 2);
}

#[test]
fn pairs_beyond_the_border_are_not_counted() {
    let fpu = unit();
    let mut model = NoiseModel::new();
    let frames = vec![vec![1u16; 64], vec![2u16; 64]];
    model.build(&fpu, &frames, 8, 8, &pairs(&[(0.0, 0.0), (50.0, 0.0)]), false, None);
    assert!(model.histograms.iter().all(|&c| c == 0));
}

#[test]
fn one_frame_builds_nothing() {
    let fpu = unit();
    let mut model = NoiseModel::new();
    model.build(&fpu, &vec![vec![1u16; 16]], 4, 4, &Vec::new(), false, None);
    assert!(model.histograms.iter().all(|&c| c == 0));
    assert!(!model.normalized);
}

#[test]
fn a_lone_diagonal_stays_alone() {
    let fpu = unit();
    let mut model = NoiseModel::new();
    let frames = vec![vec![10000u16; 4], vec![10050u16; 4]];
    model.build(&fpu, &frames, 2, 2, &pairs(&[(0.0, 0.0), (0.0, 0.0)]), false, None);
    model.normalize(&fpu, 1.0f32.to_bits());
    assert!(model.normalized);
    let row = 65536 + 39 * 256;
    for j in 0..256 {
        assert_eq!(model.histograms[row + j], if j == 39 { 65535 } else { 0 });
    }
    assert_eq!(model.histograms.iter().map(|&c| c as u64).sum::<u64>(), 65535);
    assert_eq!(model.confidence(&fpu, 10000, 65535, 1), 0.0f32.to_bits());
    assert_eq!(model.confidence(&fpu, 0, 0, 1), 0.0f32.to_bits());
}

#[test]
fn rows_are_divided_by_their_diagonal() {
    let fpu = unit();
    let mut model = NoiseModel::new();
    model.histograms[5 * 256 + 2] = 2;
    model.histograms[5 * 256 + 3] = 1;
    model.histograms[5 * 256 + 5] = 4;
    model.histograms[5 * 256 + 8] = 1;
    model.normalize(&fpu, 2.0f32.to_bits());
    let at = |j: usize| model.histograms[5 * 256 + j];
    assert_eq!([at(1), at(2), at(3), at(4)], [0, 16383, 16383, 16383]);
    assert_eq!([at(5), at(6), at(8), at(9)], [65535, 4095, 4095, 0]);
    let mut off = NoiseModel::new();
    off.histograms[7 * 256 + 9] = 3;
    off.normalize(&fpu, 1.0f32.to_bits());
    assert_eq!(off.histograms[7 * 256 + 7], 65535);
    assert_eq!(off.histograms[7 * 256 + 9], 65535);
    assert_eq!(off.histograms[7 * 256 + 10], 0);
}

#[test]
fn confidences_are_fractions_of_their_row() {
    let fpu = unit();
    let mut model = NoiseModel::new();
    for (j, count) in [(0, 3), (7, 5), (200, 9), (255, 4)] {
        model.histograms[2 * 65536 + 12 * 256 + j] = count;
    }
    let row = |model: &NoiseModel| -> Vec<f32> {
        (0..256u16).map(|j| f32::from_bits(model.confidence(&fpu, 12 * 256, j * 256, 5))).collect()
    };
    let before = row(&model);
    assert!((before.iter().sum::<f32>() - 1.0).abs() < 1e-5);
    assert!(before.iter().all(|v| (0.0..=1.0).contains(v)));
    let here = model.confidence(&fpu, 12 * 256 + 200, 7 * 256 + 33, 2);
    assert_eq!(here, model.confidence(&fpu, 12 * 256, 7 * 256, 9));
    model.normalize(&fpu, 0.5f32.to_bits());
    assert!(row(&model).iter().all(|v| (0.0..=1.0).contains(v)));
}

#[test]
fn an_unnormalized_model_gives_shares() {
    let fpu = unit();
    let mut model = NoiseModel::new();
    model.histograms[2 * 65536 + 3] = 3;
    model.histograms[2 * 65536 + 4] = 1;
    assert_eq!(model.confidence(&fpu, 0, 3 * 256, 9), 0.75f32.to_bits());
    assert_eq!(model.confidence(&fpu, 256, 0, 2), 0.0f32.to_bits());
}

#[test]
fn histograms_are_shown_in_gray() {
    let fpu = unit();
    let mut model = NoiseModel::new();
    model.histograms[65536 + 2 * 256 + 5] = 10;
    model.histograms[65536 + 2 * 256 + 6] = 5;
    let img = model.to_visualization(&fpu, 1);
    assert_eq!((img.width, img.height, img.bytes.len()), (256, 256, 196608));
    let at = |x: usize, y: usize| img.bytes[(y * 256 + x) * 3 + 1];
    assert_eq!((at(5, 2), at(6, 2), at(7, 2)), (255, 127, 0));
    assert!(model.to_visualization(&fpu, 0).bytes.iter().all(|&b| b == 0));
}

#[test]
fn two_builds_add_up() {
    let fpu = unit();
    let burst = |a: u16, b: u16| vec![vec![a; 64], vec![b; 64]];
    let still = pairs(&[(0.0, 0.0), (0.0, 0.0)]);
    let mut both = NoiseModel::new();
    both.build(&fpu, &burst(256, 512), 8, 8, &still, false, None);
    both.build(&fpu, &burst(256, 768), 8, 8, &still, false, None);
    let mut first = NoiseModel::new();
    first.build(&fpu, &burst(256, 512), 8, 8, &still, false, None);
    let mut second = NoiseModel::new();
    second.build(&fpu, &burst(256, 768), 8, 8, &still, false, None);
    let sums: Vec<u32> =
        first.histograms.iter().zip(second.histograms.iter()).map(|(a, b)| a + b).collect();
    assert_eq!(both.histograms, sums);
    assert_eq!(both.histograms[65536 + 256 + 2], 64);
}
