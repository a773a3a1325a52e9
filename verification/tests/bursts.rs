use pixel_shift::metadata::{
    are_sequential_filenames, burst_probes, detect_pixel_shift_burst, detect_pixel_shift_from_bytes,
    directories, file_stems, group_bursts, heuristic_scan_for_pixel_shift, parse_nikon_maker_notes,
    parse_nikon_maker_notes_raw, pixel_shift_info, probe_places, sequential_stems, PixelShiftInfo,
    PixelShiftPattern,
};

/// A raw file in the DNG format: a mosaic of sixteen-bit samples, with a maker note if one is given.
fn raw_file(
    width: u32,
    height: u32,
    pattern: [u8; 4],
    data: &[u16],
    model: &str,
    note: Option<&[u8]>,
) -> Vec<u8> {
    let text = |s: &str| {
        let mut b = s.as_bytes().to_vec();
        b.push(0);
        b
    };
    let long = |v: u32| v.to_le_bytes().to_vec();
    let short = |v: u16| v.to_le_bytes().to_vec();
    let pixels: Vec<u8> = data.iter().flat_map(|v| v.to_le_bytes()).collect();
    let mut fields: Vec<(u16, u16, u32, Vec<u8>)> = vec![
        (254, 4, 1, long(0)),
        (256, 4, 1, long(width)),
        (257, 4, 1, long(height)),
        (258, 3, 1, short(16)),
        (259, 3, 1, short(1)),
        (262, 3, 1, short(32803)),
        (271, 2, 6, text("Nikon")),
        (272, 2, model.len() as u32 + 1, text(model)),
        (273, 4, 1, long(0)),
        (277, 3, 1, short(1)),
        (278, 4, 1, long(height)),
        (279, 4, 1, long(pixels.len() as u32)),
        (33421, 3, 2, vec![2, 0, 2, 0]),
        (33422, 1, 4, pattern.to_vec()),
        (34665, 4, 1, long(0)),
        (50706, 1, 4, vec![1, 4, 0, 0]),
        (50714, 4, 1, long(64)),
        (50717, 4, 1, long(16383)),
    ];
    let note = note.unwrap_or(&[]);
    let head = 8 + 2 + fields.len() * 12 + 4;
    let mut extra: Vec<u8> = Vec::new();
    let exif_at = head as u32;
    let exif_len = 2 + 12 + 4;
    let extra_at = exif_at as usize + exif_len;
    let mut note_bytes = note.to_vec();
    while note_bytes.len() < 5 {
        note_bytes.push(0);
    }
    let note_at = extra_at as u32;
    extra.extend_from_slice(&note_bytes);
    for f in fields.iter_mut() {
        if f.0 == 34665 {
            f.3 = long(exif_at);
        }
        if f.3.len() > 4 {
            let at = extra_at + extra.len();
            extra.extend_from_slice(&f.3);
            f.3 = (at as u32).to_le_bytes().to_vec();
        }
    }
    if extra.len() % 2 == 1 {
        extra.push(0);
    }
    let pixels_at = (extra_at + extra.len()) as u32;
    let mut out = vec![b'I', b'I', 42, 0, 8, 0, 0, 0];
    out.extend_from_slice(&(fields.len() as u16).to_le_bytes());
    for (tag, kind, count, mut value) in fields {
        if tag == 273 {
            value = long(pixels_at);
        }
        value.resize(4, 0);
        out.extend_from_slice(&tag.to_le_bytes());
        out.extend_from_slice(&kind.to_le_bytes());
        out.extend_from_slice(&count.to_le_bytes());
        out.extend_from_slice(&value);
    }
    out.extend_from_slice(&[0; 4]);
    out.extend_from_slice(&1u16.to_le_bytes());
    let note_tag: u16 = if note.is_empty() { 37510 } else { 37500 };
    out.extend_from_slice(&note_tag.to_le_bytes());
    out.extend_from_slice(&7u16.to_le_bytes());
    out.extend_from_slice(&(note_bytes.len() as u32).to_le_bytes());
    out.extend_from_slice(&note_at.to_le_bytes());
    out.extend_from_slice(&[0; 4]);
    out.extend_from_slice(&extra);
    out.extend_from_slice(&pixels);
    out
}

#[test]
fn test_sequential_filenames() {
    assert!(are_sequential_filenames("/path/DSC_1234.NEF", "/path/DSC_1235.NEF"));
    assert!(are_sequential_filenames("/path/IMG_0001.NEF", "/path/IMG_0002.NEF"));
    assert!(!are_sequential_filenames("/path/DSC_1234.NEF", "/path/DSC_1240.NEF"));
    assert!(!are_sequential_filenames("/path/foo.NEF", "/path/bar.NEF"));
}

#[test]
fn test_pixel_shift_pattern() {
    assert_eq!(PixelShiftPattern::from_frame_count(4), Some(PixelShiftPattern::FourShot));
    assert_eq!(PixelShiftPattern::from_frame_count(8), Some(PixelShiftPattern::EightShot));
    assert_eq!(PixelShiftPattern::from_frame_count(16), Some(PixelShiftPattern::SixteenShot));
    assert_eq!(PixelShiftPattern::from_frame_count(32), Some(PixelShiftPattern::ThirtyTwoShot));
    assert_eq!(PixelShiftPattern::from_frame_count(3), None);
}

#[test]
fn numbers_are_compared_with_what_precedes_them() {
    assert!(sequential_stems("DSC_0009", "DSC_0010"));
    assert!(sequential_stems("DSC_0010", "DSC_0009"));
    assert!(!sequential_stems("DSC_0010", "DSC_0010"));
    assert!(!sequential_stems("DSC_1", "IMG_2"));
    assert!(sequential_stems("7", "008"));
    assert!(!sequential_stems("a99999999999", "a99999999998"));
    assert!(!sequential_stems("a4294967295", "a4294967296"));
    assert!(sequential_stems("a4294967295", "a4294967294"));
    assert!(!sequential_stems("", ""));
}

fn texts(v: &[&str]) -> Vec<String> {
    v.iter().map(|s| s.to_string()).collect()
}

fn nothing_known(n: usize) -> Vec<Option<PixelShiftInfo>> {
    (0..n).map(|_| None).collect()
}

fn confirmed(model: &str) -> Option<PixelShiftInfo> {
    Some(PixelShiftInfo {
        is_pixel_shift: true,
        sequence_number: None,
        total_frames: Some(4),
        pattern: Some(PixelShiftPattern::FourShot),
        camera_model: Some(model.to_string()),
    })
}

#[test]
fn directories_and_stems_of_paths() {
    let paths = texts(&["/a/b/DSC_1.NEF", "c.d.raw", "/top.NEF", "x/.hidden"]);
    assert_eq!(directories(&paths), texts(&["/a/b", "", "/", "x"]));
    assert_eq!(file_stems(&paths), texts(&["DSC_1", "c.d", "top", ".hidden"]));
}

#[test]
fn runs_of_numbered_files_are_bursts() {
    let paths = texts(&[
        "/b/IMG_7.NEF",
        "/a/DSC_0003.NEF",
        "/a/DSC_0001.NEF",
        "/a/DSC_0002.NEF",
        "/a/DSC_0009.NEF",
        "/a/DSC_0010.NEF",
        "/b/IMG_9.NEF",
    ]);
    let mut infos = nothing_known(7);
    infos[2] = confirmed("Z 8");
    infos[4] = confirmed("Z f");
    infos[5] = confirmed("unread");
    let groups = detect_pixel_shift_burst(&paths, &infos);
    assert_eq!(groups.len(), 2);
    assert_eq!(groups[0].paths, texts(&["/a/DSC_0001.NEF", "/a/DSC_0002.NEF", "/a/DSC_0003.NEF"]));
    assert_eq!(groups[0].frame_count, 3);
    assert!(groups[0].is_confirmed);
    assert_eq!(groups[0].camera_model.as_deref(), Some("Z 8"));
    assert_eq!(groups[1].paths, texts(&["/a/DSC_0009.NEF", "/a/DSC_0010.NEF"]));
    assert!(groups[1].is_confirmed);
    assert_eq!(groups[1].camera_model.as_deref(), Some("Z f"));
    assert_eq!(burst_probes(&paths), vec![2, 4]);
}

#[test]
fn a_single_first_file_confirms_nothing() {
    let paths = texts(&["/a/DSC_0001.NEF", "/a/DSC_0005.NEF", "/a/DSC_0006.NEF"]);
    let mut infos = nothing_known(3);
    infos[0] = confirmed("Z 8");
    let groups = detect_pixel_shift_burst(&paths, &infos);
    assert_eq!(groups.len(), 1);
    assert_eq!(groups[0].frame_count, 2);
    assert!(!groups[0].is_confirmed);
}

#[test]
fn whole_directories_come_next() {
    let paths = texts(&["/b/y.NEF", "/a/z.NEF", "/b/x.NEF"]);
    let groups = detect_pixel_shift_burst(&paths, &nothing_known(3));
    assert_eq!(groups.len(), 1);
    assert_eq!(groups[0].paths, texts(&["/b/y.NEF", "/b/x.NEF"]));
    assert!(!groups[0].is_confirmed);
}

#[test]
fn all_files_together_come_last() {
    let paths = texts(&["/b/y.NEF", "/a/z.NEF", "/c/x.NEF"]);
    let groups = detect_pixel_shift_burst(&paths, &nothing_known(3));
    assert_eq!(groups.len(), 1);
    assert_eq!(groups[0].paths, paths);
    assert_eq!(groups[0].frame_count, 3);
}

#[test]
fn one_file_is_no_burst() {
    assert_eq!(detect_pixel_shift_burst(&texts(&["/a/DSC_1.NEF"]), &nothing_known(1)).len(), 0);
    assert_eq!(detect_pixel_shift_burst(&Vec::new(), &Vec::new()).len(), 0);
}

#[test]
fn only_probed_files_are_asked() {
    let paths = texts(&["p2", "p1", "q5", "q6"]);
    let dirs = texts(&["d", "d", "e", "e"]);
    let stems = texts(&["p2", "p1", "q5", "q6"]);
    assert_eq!(probe_places(&paths, &dirs, &stems), vec![1, 2]);
    let mut infos = nothing_known(4);
    infos[0] = confirmed("ignored");
    infos[2] = confirmed("asked");
    let groups = group_bursts(&paths, &dirs, &stems, &infos);
    assert_eq!(groups.len(), 2);
    assert_eq!(groups[0].paths, texts(&["p1", "p2"]));
    assert!(!groups[0].is_confirmed);
    assert_eq!(groups[1].camera_model.as_deref(), Some("asked"));
}

/// A maker note with a marker and what stands behind it.
fn note(prefix: &[u8], active: u8, shots: u8, number: u8) -> Vec<u8> {
    let mut v = prefix.to_vec();
    v.extend_from_slice(b"PixelShift");
    v.push(0);
    v.extend_from_slice(&[active, shots, number]);
    v.extend_from_slice(&[0; 12]);
    v
}

#[test]
fn markers_are_read() {
    let data = note(b"xx", 1, 16, 3);
    let info = heuristic_scan_for_pixel_shift(&data, Some(String::from("Z f"))).unwrap();
    assert!(info.is_pixel_shift);
    assert_eq!(info.sequence_number, Some(3));
    assert_eq!(info.total_frames, Some(16));
    assert_eq!(info.pattern, Some(PixelShiftPattern::SixteenShot));
    assert_eq!(info.camera_model.as_deref(), Some("Z f"));
    let idle = heuristic_scan_for_pixel_shift(&note(b"", 0, 5, 0), None).unwrap();
    assert!(!idle.is_pixel_shift);
    assert_eq!((idle.sequence_number, idle.total_frames, idle.pattern), (Some(0), None, None));
    let first = heuristic_scan_for_pixel_shift(&note(b"", 1, 4, 0), None).unwrap();
    assert_eq!((first.sequence_number, first.total_frames), (Some(0), Some(4)));
    assert!(heuristic_scan_for_pixel_shift(&note(b"", 0, 0, 9), None).is_none());
    assert!(heuristic_scan_for_pixel_shift(&note(b"", 1, 4, 0)[..20], None).is_none());
}

#[test]
fn the_other_marker_is_read_too() {
    let mut data = note(b"", 0, 0, 0);
    data.extend_from_slice(b"..NIKON PIXEL SHIFT");
    let info = heuristic_scan_for_pixel_shift(&data, None).unwrap();
    assert!(info.is_pixel_shift);
    assert_eq!(info.total_frames, None);
    assert!(parse_nikon_maker_notes_raw(b"NIKON PIXEL SHIF", None).is_none());
}

#[test]
fn headers_are_skipped() {
    let data = note(b"Nikon\0", 1, 4, 1);
    assert_eq!(parse_nikon_maker_notes(&data, None).unwrap().total_frames, Some(4));
    let cut = b"Nikon\0ixelShift".to_vec();
    assert!(parse_nikon_maker_notes(&cut, None).is_none());
}

#[test]
fn notes_decide_with_or_without_header() {
    let model = || String::from("NIKON Z 8");
    let with = Some(note(b"Nikon\0", 1, 32, 7));
    let info = pixel_shift_info(model(), &with).unwrap();
    assert_eq!(info.pattern, Some(PixelShiftPattern::ThirtyTwoShot));
    assert_eq!(info.camera_model.as_deref(), Some("NIKON Z 8"));
    let long = Some(note(&[9; 80], 1, 8, 0));
    assert_eq!(pixel_shift_info(model(), &long).unwrap().total_frames, Some(8));
    let short = Some(note(b"", 1, 8, 0));
    assert!(pixel_shift_info(model(), &short).is_none());
    assert!(pixel_shift_info(model(), &None).is_none());
    assert_eq!(pixel_shift_info(String::new(), &with).unwrap().camera_model, None);
}

#[test]
fn raw_files_are_asked_for_their_note() {
    let note = note(b"Nikon\0", 1, 4, 2);
    let file = raw_file(6, 4, [0, 1, 1, 2], &[100; 24], "NIKON Z 8", Some(&note));
    let info = detect_pixel_shift_from_bytes(&file).unwrap();
    assert!(info.is_pixel_shift);
    assert_eq!(info.sequence_number, Some(2));
    assert_eq!(info.pattern, Some(PixelShiftPattern::FourShot));
    assert_eq!(info.camera_model.as_deref(), Some("NIKON Z 8"));
    let plain = raw_file(6, 4, [0, 1, 1, 2], &[100; 24], "NIKON Z 8", None);
    assert!(detect_pixel_shift_from_bytes(&plain).is_none());
    assert!(detect_pixel_shift_from_bytes(&b"no raw file".to_vec()).is_none());
}
