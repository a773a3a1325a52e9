use pixel_shift::float::{FloatOp, FloatUnit};
use base64::Engine;
use pixel_shift::alignment::AlignmentShift;
use pixel_shift::basic_merge::MergeMethod;
use pixel_shift::frame::{GrayFrame, RgbBytes};
use pixel_shift::pipeline::{
    check_dimensions, check_request, data_url, keep_result, output_path, parse_mode, preview_url,
    request_save, take_result, MergeMode, PixelShiftMergeResult,
};
use pixel_shift::progress::MergeStep;
use pixel_shift::skr_fusion::SkrFusion;
use pixel_shift::skr_merge::{
    align_to_first, finish_skr, prepare_skr, skr_settings, GpuOutcome,
};
use pixel_shift::text::number_text;
use pixel_shift::frame::RgbaFrame;

/// The machine's own floating-point instructions.
fn unit() -> FloatUnit<impl Fn(FloatOp) -> u64> {
    fn s(bits: u32) -> f32 {
        f32::from_bits(bits)
    }
    fn d(bits: u64) -> f64 {
        f64::from_bits(bits)
    }
    fn single(v: f32) -> u64 {
        v.to_bits() as u64
    }
    FloatUnit::new(|op: FloatOp| match op {
        FloatOp::Add(a, b) => single(s(a) + s(b)),
        FloatOp::Sub(a, b) => single(s(a) - s(b)),
        FloatOp::Mul(a, b) => single(s(a) * s(b)),
        FloatOp::Div(a, b) => single(s(a) / s(b)),
        FloatOp::Sqrt(a) => single(s(a).sqrt()),
        FloatOp::Exp(a) => single(s(a).exp()),
        FloatOp::Sin(a) => single(s(a).sin()),
        FloatOp::Cos(a) => single(s(a).cos()),
        FloatOp::Atan2(a, b) => single(s(a).atan2(s(b))),
        FloatOp::Powf(a, b) => single(s(a).powf(s(b))),
        FloatOp::Floor(a) => single(s(a).floor()),
        FloatOp::Ceil(a) => single(s(a).ceil()),
        FloatOp::Round(a) => single(s(a).round()),
        FloatOp::WideAdd(a, b) => (d(a) + d(b)).to_bits(),
        FloatOp::WideSub(a, b) => (d(a) - d(b)).to_bits(),
        FloatOp::WideMul(a, b) => (d(a) * d(b)).to_bits(),
        FloatOp::WideDiv(a, b) => (d(a) / d(b)).to_bits(),
        FloatOp::WideSqrt(a) => d(a).sqrt().to_bits(),
        FloatOp::FromU64(a) => single(a as f32),
        FloatOp::FromI32(a) => single(a as f32),
        FloatOp::ToI32(a) => s(a) as i32 as u32 as u64,
        FloatOp::ToU32(a) => s(a) as u32 as u64,
        FloatOp::Widen(a) => (s(a) as f64).to_bits(),
        FloatOp::Narrow(a) => single(d(a) as f32),
        FloatOp::WideFromU64(a) => (a as f64).to_bits(),
    })
}

/// A frame whose samples are given by column and row.
fn frame(width: u32, height: u32, at: impl Fn(u32, u32) -> [f32; 4]) -> RgbaFrame {
    let mut samples = Vec::new();
    for y in 0..height {
        for x in 0..width {
            for v in at(x, y) {
                samples.push(v.to_bits());
            }
        }
    }
    RgbaFrame { width, height, samples }
}

/// One sample of a frame.
fn sample(f: &RgbaFrame, x: u32, y: u32, c: u32) -> f32 {
    f32::from_bits(f.get(x, y, c))
}

fn texts(v: &[&str]) -> Vec<String> {
    v.iter().map(|s| s.to_string()).collect()
}

#[test]
fn requests_need_two_frames() {
    let r = check_request(&texts(&["/a/x.NEF"]), &vec![true], "median");
    assert_eq!(r, Err(String::from("Please select at least two pixel-shift frames to merge.")));
}

#[test]
fn requests_need_raw_files() {
    let paths = texts(&["/a/x.NEF", "/a/y.jpg", "/a/z.png"]);
    let r = check_request(&paths, &vec![true, false, false], "nonsense");
    let message = "File 'y.jpg' is not a RAW file. Pixel-shift merging requires RAW (NEF) files.";
    assert_eq!(r, Err(message.to_string()));
}

#[test]
fn requests_name_a_method_in_any_case() {
    let paths = texts(&["/a/x.NEF", "/a/y.NEF"]);
    let ask = |m: &str| check_request(&paths, &vec![true, true], m);
    assert_eq!(ask("average"), Ok(MergeMode::Frames(MergeMethod::Average)));
    assert_eq!(ask("MEDIAN"), Ok(MergeMode::Frames(MergeMethod::Median)));
    assert_eq!(ask("Skr"), Ok(MergeMode::Frames(MergeMethod::SKR)));
    assert_eq!(ask("S\u{212a}R"), Ok(MergeMode::Frames(MergeMethod::SKR)));
    assert_eq!(ask("CFA"), Ok(MergeMode::Cfa));
    let message = "Unknown merge method: 'Mean'. Supported methods: average, median, skr, cfa";
    assert_eq!(ask("Mean"), Err(message.to_string()));
    assert_eq!(parse_mode("CFA"), None);
}

#[test]
fn mosaics_are_recorded_as_a_median() {
    assert_eq!(MergeMode::Cfa.merge_method(), MergeMethod::Median);
    let image = frame(1, 1, |_, _| [0.0; 4]);
    let paths = texts(&["a", "b", "c"]);
    let r = PixelShiftMergeResult::new(image, paths, MergeMode::Frames(MergeMethod::SKR));
    assert_eq!((r.frame_count, r.merge_method), (3, MergeMethod::SKR));
    assert_eq!(r.source_paths, texts(&["a", "b", "c"]));
}

#[test]
fn sizes_have_to_match() {
    let paths = texts(&["/a/x.NEF", "/a/y.NEF", "/b/z.NEF"]);
    assert_eq!(check_dimensions(&paths, &vec![(6000, 4000); 3]), Ok(()));
    assert_eq!(check_dimensions(&Vec::new(), &Vec::new()), Ok(()));
    let r = check_dimensions(&paths, &vec![(6000, 4000), (6000, 4000), (4000, 6010)]);
    let message = "Dimension mismatch: 'z.NEF' is 4000x6010, expected 6000x4000 like 'x.NEF'.";
    assert_eq!(r, Err(message.to_string()));
}

#[test]
fn numbers_are_written_in_decimal() {
    assert_eq!(number_text(0), "0");
    assert_eq!(number_text(1234567890), "1234567890");
    assert_eq!(number_text(u64::MAX), u64::MAX.to_string());
}

fn shift(dx: f32, dy: f32) -> AlignmentShift {
    AlignmentShift { dx: dx.to_bits(), dy: dy.to_bits(), quality: 1.0f32.to_bits() }
}

#[test]
fn frames_are_moved_onto_the_first() {
    let fpu = unit();
    let frames = vec![
        frame(4, 1, |x, _| [x as f32, 0.0, 0.0, 1.0]),
        frame(4, 1, |x, _| [x as f32 * 10.0, 0.0, 0.0, 1.0]),
    ];
    let aligned = align_to_first(&fpu, &frames, &vec![shift(9.0, 9.0), shift(1.0, 0.0)]);
    let row = |f: &RgbaFrame| (0..4).map(|x| sample(f, x, 0, 0)).collect::<Vec<f32>>();
    assert_eq!(row(&aligned[0]), vec![0.0, 1.0, 2.0, 3.0]);
    assert_eq!(row(&aligned[1]), vec![10.0, 20.0, 30.0, 30.0]);
}

#[test]
fn a_graphics_processor_is_believed_or_replaced() {
    let fpu = unit();
    let params = skr_settings();
    assert_eq!(params.kernel_sigma, 1.5f32.to_bits());
    let make = || vec![frame(8, 8, |_, _| [0.25; 4]), frame(8, 8, |_, _| [0.25; 4])];
    let picture = frame(1, 1, |_, _| [9.0; 4]);
    let told = std::cell::RefCell::new(Vec::new());
    let progress = |step: MergeStep| told.borrow_mut().push(step.text());
    let taken = finish_skr(&fpu, GpuOutcome::Fused(picture), &make(), None, params, &progress);
    assert_eq!((taken.width, sample(&taken, 0, 0, 0)), (1, 9.0));
    let expected = SkrFusion::new(params).fuse(&fpu, &make(), None);
    for outcome in [GpuOutcome::Absent, GpuOutcome::Failed] {
        let out = finish_skr(&fpu, outcome, &make(), None, params, &progress);
        assert_eq!(out.samples, expected.samples);
    }
    assert_eq!(told.into_inner(), vec!["Running CPU fusion..."; 2]);
}

fn brightness(frame: &RgbaFrame) -> GrayFrame {
    let pixels = frame.samples.chunks(4).map(|p| (f32::from_bits(p[0]) * 255.0) as u8).collect();
    GrayFrame { width: frame.width, height: frame.height, pixels }
}

#[test]
fn bursts_are_prepared_for_a_regression() {
    let fpu = unit();
    let scene = |x: u32, y: u32| ((x * x * 7 + y * y * 5 + x * y * 3) % 61) as f32 / 64.0;
    let make = || vec![frame(24, 24, |x, y| [scene(x, y); 4]), frame(24, 24, |x, y| [scene(x, y); 4])];
    let lumas = || make().iter().map(brightness).collect::<Vec<GrayFrame>>();
    let told = std::cell::RefCell::new(Vec::new());
    let progress = |step: MergeStep| told.borrow_mut().push(step.text());
    let burst = prepare_skr(&fpu, &make(), &lumas(), true, &progress).ok().unwrap();
    assert_eq!((burst.shifts.len(), burst.frames.len()), (2, 2));
    assert_eq!(burst.frames[0].samples, make()[0].samples);
    let mask = burst.mask.unwrap();
    assert_eq!((mask.width, mask.height, mask.weights.len()), (24, 24, 576));
    assert_eq!(
        told.take(),
        vec![
            "Aligning frames with sub-pixel precision...",
            "Detecting subject motion...",
            "Fusing frames with steering kernel regression...",
        ]
    );
    assert!(prepare_skr(&fpu, &make(), &lumas(), false, &progress).ok().unwrap().mask.is_none());
    let nothing = prepare_skr(&fpu, &Vec::new(), &Vec::new(), true, &progress).err().unwrap();
    assert_eq!(nothing.message(), "No frames to align");
}

#[test]
fn results_are_taken_once() {
    let image = frame(1, 1, |_, _| [0.5; 4]);
    let mode = MergeMode::Frames(MergeMethod::Average);
    let mut kept = Some(PixelShiftMergeResult::new(image, texts(&["a", "b"]), mode));
    let taken = take_result(&mut kept).ok().unwrap();
    assert_eq!((taken.frame_count, taken.merge_method), (2, MergeMethod::Average));
    assert!(kept.is_none());
    let message = "No pixel-shift merge result found in memory. It might have already been saved.";
    assert_eq!(take_result(&mut kept).err().unwrap(), message);
}

#[test]
fn a_failed_preview_leaves_what_was_kept() {
    let made = |names: &[&str]| {
        let image = frame(1, 1, |_, _| [0.5; 4]);
        PixelShiftMergeResult::new(image, texts(names), MergeMode::Frames(MergeMethod::Average))
    };
    let mut kept = None;
    let failed = Err(String::from("no preview"));
    assert_eq!(keep_result(&mut kept, made(&["a", "b"]), failed).err().unwrap(), "no preview");
    assert!(kept.is_none());
    let url = keep_result(&mut kept, made(&["a", "b"]), Ok(String::from("data:")));
    assert_eq!(url.ok().unwrap(), "data:");
    let failed = Err(String::from("no preview"));
    assert!(keep_result(&mut kept, made(&["a", "b", "c"]), failed).is_err());
    assert_eq!(kept.as_ref().unwrap().frame_count, 2);
    assert!(keep_result(&mut kept, made(&["a", "b", "c"]), Ok(String::new())).is_ok());
    assert_eq!(kept.as_ref().unwrap().frame_count, 3);
}

#[test]
fn results_are_saved_once_beside_the_first_frame() {
    let image = frame(1, 1, |_, _| [0.5; 4]);
    let mode = MergeMode::Frames(MergeMethod::Median);
    let mut kept = Some(PixelShiftMergeResult::new(image, texts(&["a", "b"]), mode));
    let (result, path) = request_save(&mut kept, "/d/DSC_0001.NEF").ok().unwrap();
    assert_eq!(result.frame_count, 2);
    assert!(path == "/d/DSC_0001_pixelshift.tiff" || path == "/d\\DSC_0001_pixelshift.tiff");
    assert!(kept.is_none());
    let message = "No pixel-shift merge result found in memory. It might have already been saved.";
    assert_eq!(request_save(&mut kept, "/d/DSC_0001.NEF").err().unwrap(), message);
}

#[test]
fn steps_are_told_in_words() {
    assert_eq!(MergeStep::Loading(16).text(), "Loading 16 frames...");
    let name = || String::from("DSC_1.NEF");
    assert_eq!(
        MergeStep::Extracting(name()).text(),
        "Extracting raw Bayer data from 'DSC_1.NEF'..."
    );
    assert_eq!(MergeStep::Processing(name()).text(), "Processing 'DSC_1.NEF'...");
    assert_eq!(
        MergeStep::Merging(4, MergeMethod::SKR).text(),
        "Merging 4 frames using SKR method..."
    );
    assert_eq!(MergeStep::RunningGpu.text(), "Running GPU-accelerated fusion...");
    assert_eq!(MergeStep::Previewing.text(), "Creating preview...");
    assert_eq!(MergeStep::Scanning.text(), "Scanning for pixel-shift frames...");
}

#[test]
fn previews_are_data_addresses() {
    let img = RgbBytes { width: 2, height: 1, bytes: vec![255, 0, 0, 0, 0, 255] };
    let url = preview_url(&img).unwrap();
    let head = "data:image/png;base64,";
    assert!(url.starts_with(head));
    let png = base64::engine::general_purpose::STANDARD.decode(&url[head.len()..]).unwrap();
    let back = image::load_from_memory(&png).unwrap().to_rgb8();
    assert_eq!((back.width(), back.height()), (2, 1));
    assert_eq!(back.into_raw(), img.bytes);
}

#[test]
fn an_empty_preview_is_refused() {
    let img = RgbBytes { width: 0, height: 0, bytes: Vec::new() };
    assert!(preview_url(&img).unwrap_err().starts_with("Failed to encode preview: "));
}

#[test]
fn bytes_are_written_in_base_64() {
    assert_eq!(data_url(&b"".to_vec()), "data:image/png;base64,");
    assert_eq!(data_url(&b"f".to_vec()), "data:image/png;base64,Zg==");
    assert_eq!(data_url(&b"fo".to_vec()), "data:image/png;base64,Zm8=");
    assert_eq!(data_url(&b"foobar".to_vec()), "data:image/png;base64,Zm9vYmFy");
    assert_eq!(data_url(&vec![251, 255, 191]), "data:image/png;base64,+/+/");
}

#[test]
fn results_are_saved_beside_the_first_frame() {
    let out = output_path("/photos/DSC_0001.NEF");
    assert!(out == "/photos/DSC_0001_pixelshift.tiff" || out == "/photos\\DSC_0001_pixelshift.tiff");
    assert_eq!(output_path("DSC_0001.NEF"), "DSC_0001_pixelshift.tiff");
    assert_eq!(output_path("/a.b.c"), "/a.b_pixelshift.tiff");
}
