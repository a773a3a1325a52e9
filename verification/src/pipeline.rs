//! What stands around a merge: checking a request, and handing out its result.

use crate::basic_merge::MergeMethod;
use crate::cfa_fusion::{size_letters, size_text};
use crate::frame::{RgbBytes, RgbaFrame};
use crate::paths::{
    behind_last, dir_of, find_parent, find_stem, has_parent, has_stem, is_dots, is_plain_name,
    is_tidy, join, joins_to, joins_with, lemma_behind_last, name_of, name_or_empty, names, or_empty,
    starts_component, stem_of, text_view, tidy_paths_are_read_as_written,
};
use crate::text::same_text;
use base64::Engine;
use vstd::prelude::*;
use vstd::string::*;
use vstd::utf8::is_ascii_chars;

verus! {

/// The result of a merge.
pub struct PixelShiftMergeResult {
    /// The merged image.
    pub image: RgbaFrame,
    /// Paths of the frames.
    pub source_paths: Vec<String>,
    /// Number of frames.
    pub frame_count: usize,
    /// How they were merged.
    pub merge_method: MergeMethod,
}

/// What a merge is asked to do.
pub struct PixelShiftMergeParams {
    /// Paths of the frames.
    pub paths: Vec<String>,
    /// How to merge them.
    pub method: MergeMethod,
    /// Whether moving subjects are to be masked.
    pub motion_compensation: bool,
}

/// What kind of frames a merge works on.
#[derive(Debug, Clone, Copy, PartialEq, Eq, Structural)]
pub enum MergeMode {
    /// Raw mosaics, before demosaicing.
    Cfa,
    /// Developed frames, with the given method.
    Frames(MergeMethod),
}

impl MergeMode {
    /// The method that is recorded with the result; a merge of mosaics counts as a median.
    pub open spec fn recorded(self) -> MergeMethod {
        match self {
            MergeMode::Cfa => MergeMethod::Median,
            MergeMode::Frames(method) => method,
        }
    }

    /// The method that is recorded with the result.
    pub fn merge_method(&self) -> (r: MergeMethod)
        ensures
            r == self.recorded(),
    {
        match self {
            MergeMode::Cfa => MergeMethod::Median,
            MergeMode::Frames(method) => *method,
        }
    }
}

impl PixelShiftMergeResult {
    /// The result of merging the frames at the given paths.
    pub fn new(image: RgbaFrame, source_paths: Vec<String>, mode: MergeMode) -> (r: Self)
        ensures
            r.image == image,
            r.source_paths == source_paths,
            r.frame_count == source_paths@.len(),
            r.merge_method == mode.recorded(),
    {
        let frame_count = source_paths.len();
        PixelShiftMergeResult { image, source_paths, frame_count, merge_method: mode.merge_method() }
    }
}

/// What is said where there is no result to be saved.
pub open spec fn nothing_kept_message() -> Seq<char> {
    "No pixel-shift merge result found in memory. It might have already been saved."@
}

/// Take the result that is kept, to save it. It can be taken once.
pub fn take_result(kept: &mut Option<PixelShiftMergeResult>) -> (r: Result<
    PixelShiftMergeResult,
    String,
>)
    ensures
        *final(kept) == None::<PixelShiftMergeResult>,
        match *old(kept) {
            Some(result) => r == Ok::<PixelShiftMergeResult, String>(result),
            None => r matches Err(e) && e@ == nothing_kept_message(),
        },
{
    match kept.take() {
        Some(result) => Ok(result),
        None => Err(
            "No pixel-shift merge result found in memory. It might have already been saved.".to_owned(),
        ),
    }
}

/// What is kept once the preview of a result was made or failed.
pub open spec fn is_kept(
    before: Option<PixelShiftMergeResult>,
    result: PixelShiftMergeResult,
    preview: Result<String, String>,
    kept: Option<PixelShiftMergeResult>,
) -> bool {
    kept == match preview {
        Ok(_) => Some(result),
        Err(_) => before,
    }
}

/// Keep a result once its preview is made. Where that failed, what was kept before stays.
pub fn keep_result(
    kept: &mut Option<PixelShiftMergeResult>,
    result: PixelShiftMergeResult,
    preview: Result<String, String>,
) -> (r: Result<String, String>)
    ensures
        r == preview,
        is_kept(*old(kept), result, preview, *final(kept)),
{
    match preview {
        Ok(url) => {
            *kept = Some(result);
            Ok(url)
        },
        Err(message) => Err(message),
    }
}

/// A result that is kept is the one that is saved next, and a failure between the two changes
/// nothing.
pub proof fn kept_results_are_saved(
    before: Option<PixelShiftMergeResult>,
    result: PixelShiftMergeResult,
    preview: Result<String, String>,
    kept: Option<PixelShiftMergeResult>,
    first_path: Seq<char>,
    r: Result<(PixelShiftMergeResult, String), String>,
    after: Option<PixelShiftMergeResult>,
)
    requires
        is_kept(before, result, preview, kept),
        is_save(kept, first_path, r, after),
    ensures
        preview is Ok ==> r is Ok && r->Ok_0.0 == result,
        preview is Err && before is Some ==> r is Ok && r->Ok_0.0 == before->0,
        preview is Err && before is None ==> r is Err && r->Err_0@ == nothing_kept_message(),
{
}

/// The mode that a method in lower case names.
pub open spec fn mode_of(lowered: Seq<char>) -> Option<MergeMode> {
    if lowered == "average"@ {
        Some(MergeMode::Frames(MergeMethod::Average))
    } else if lowered == "median"@ {
        Some(MergeMode::Frames(MergeMethod::Median))
    } else if lowered == "skr"@ {
        Some(MergeMode::Frames(MergeMethod::SKR))
    } else if lowered == "cfa"@ {
        Some(MergeMode::Cfa)
    } else {
        None
    }
}

/// The mode that a method in lower case names.
pub fn parse_mode(lowered: &str) -> (r: Option<MergeMode>)
    ensures
        r == mode_of(lowered@),
{
    if same_text(lowered, "average") {
        Some(MergeMode::Frames(MergeMethod::Average))
    } else if same_text(lowered, "median") {
        Some(MergeMode::Frames(MergeMethod::Median))
    } else if same_text(lowered, "skr") {
        Some(MergeMode::Frames(MergeMethod::SKR))
    } else if same_text(lowered, "cfa") {
        Some(MergeMode::Cfa)
    } else {
        None
    }
}

/// A letter from A to Z in lower case, any other character as it is.
pub open spec fn ascii_lower(c: char) -> char {
    if 'A' <= c <= 'Z' {
        (c as u32 + 32) as char
    } else {
        c
    }
}

/// The text that [`lowercase`] gives.
pub uninterp spec fn lowercase_of(s: Seq<char>) -> Seq<char>;

/// A text in lower case, with `str::to_lowercase`.
///
/// Believed of it: the result depends on the text alone, and of a text of ASCII characters just the
/// letters from A to Z change. What becomes of other characters follows the tables of Unicode, and
/// only has a name here.
#[verifier::external_body]
fn lowercase(s: &str) -> (r: String)
    ensures
        r@ == lowercase_of(s@),
        is_ascii_chars(s@) ==> r@ == ascii_lowered(s@),
{
    s.to_lowercase()
}

/// A text with the letters from A to Z in lower case.
pub open spec fn ascii_lowered(s: Seq<char>) -> Seq<char> {
    Seq::new(s.len(), |i: int| ascii_lower(s[i]))
}

/// The mode that a method names, whatever its case.
pub open spec fn mode_named(method: Seq<char>) -> Option<MergeMode> {
    if is_ascii_chars(method) {
        mode_of(ascii_lowered(method))
    } else {
        mode_of(lowercase_of(method))
    }
}

/// What is said of a file that is no raw file.
pub open spec fn not_raw_message(name: Seq<char>) -> Seq<char> {
    "File '"@ + name + "' is not a RAW file. Pixel-shift merging requires RAW (NEF) files."@
}

/// What is said of a method that is not known.
pub open spec fn unknown_method_message(method: Seq<char>) -> Seq<char> {
    "Unknown merge method: '"@ + method
        + "'. Supported methods: average, median, skr, cfa"@
}

/// What is said of too few frames.
pub open spec fn too_few_message() -> Seq<char> {
    "Please select at least two pixel-shift frames to merge."@
}

/// Whether `message` says that the file at `path` is no raw file.
pub open spec fn refuses_file(path: Seq<char>, message: Seq<char>) -> bool {
    exists|name: Seq<char>| #[trigger] names(path, name) && message == not_raw_message(name)
}

/// Check a request: there have to be two and more frames, all of them raw files, and the method has
/// to be known, whatever its case. The first thing that is wrong is said.
pub fn check_request(
    paths: &Vec<String>,
    is_raw: &Vec<bool>,
    method: &str,
) -> (r: Result<MergeMode, String>)
    requires
        is_raw@.len() == paths@.len(),
    ensures
        paths@.len() < 2 ==> (r matches Err(e) && e@ == too_few_message()),
        paths@.len() >= 2 ==> match r {
            Ok(mode) => is_raw@ == Seq::new(paths@.len(), |i: int| true) && mode_named(method@)
                == Some(mode),
            Err(e) => {
                ||| exists|i: int|
                    #![trigger is_raw@[i]]
                    0 <= i < paths@.len() && !is_raw@[i] && (forall|j: int|
                        0 <= j < i ==> is_raw@[j]) && refuses_file(paths@[i]@, e@)
                ||| is_raw@ == Seq::new(paths@.len(), |i: int| true) && mode_named(method@) is None
                    && e@ == unknown_method_message(method@)
            },
        },
{
    if paths.len() < 2 {
        return Err("Please select at least two pixel-shift frames to merge.".to_owned());
    }
    let mut i: usize = 0;
    while i < paths.len()
        invariant
            i <= paths@.len(),
            is_raw@.len() == paths@.len(),
            paths@.len() >= 2,
            forall|j: int| 0 <= j < i ==> is_raw@[j],
        decreases paths@.len() - i,
    {
        if !is_raw[i] {
            let name = name_or_empty(paths[i].as_str());
            assert(names(paths@[i as int]@, name@));
            return Err(
                "File '".to_owned().concat(name.as_str()).concat(
                    "' is not a RAW file. Pixel-shift merging requires RAW (NEF) files.",
                ),
            );
        }
        i = i + 1;
    }
    assert(is_raw@ =~= Seq::new(paths@.len(), |i: int| true));
    let lowered = lowercase(method);
    match parse_mode(lowered.as_str()) {
        Some(mode) => Ok(mode),
        None => Err(
            "Unknown merge method: '".to_owned().concat(method).concat(
                "'. Supported methods: average, median, skr, cfa",
            ),
        ),
    }
}

/// What is said of a frame of another size than the first.
pub open spec fn mismatch_message(
    name: Seq<char>,
    size: (u32, u32),
    first_name: Seq<char>,
    first: (u32, u32),
) -> Seq<char> {
    "Dimension mismatch: '"@ + name + "' is "@ + size_letters(size.0, size.1) + ", expected "@
        + size_letters(first.0, first.1) + " like '"@ + first_name + "'."@
}

/// Whether `message` says that the file at `path` has another size than the first.
pub open spec fn reports_mismatch(
    path: Seq<char>,
    size: (u32, u32),
    first_path: Seq<char>,
    first: (u32, u32),
    message: Seq<char>,
) -> bool {
    exists|name: Seq<char>, first_name: Seq<char>| #[trigger]
        names(path, name) && #[trigger] names(first_path, first_name) && message
            == mismatch_message(name, size, first_name, first)
}

/// Check that all frames have the size of the first. The first one that has not is named.
pub fn check_dimensions(paths: &Vec<String>, sizes: &Vec<(u32, u32)>) -> (r: Result<(), String>)
    requires
        sizes@.len() == paths@.len(),
    ensures
        r is Ok <==> forall|i: int| 0 <= i < sizes@.len() ==> #[trigger] sizes@[i] == sizes@[0],
        r matches Err(e) ==> exists|i: int|
            #![trigger sizes@[i]]
            0 < i < sizes@.len() && sizes@[i] != sizes@[0] && (forall|j: int|
                0 <= j < i ==> #[trigger] sizes@[j] == sizes@[0]) && reports_mismatch(
                paths@[i]@,
                sizes@[i],
                paths@[0]@,
                sizes@[0],
                e@,
            ),
{
    if paths.len() == 0 {
        return Ok(());
    }
    let (width, height) = sizes[0];
    let mut i: usize = 1;
    while i < paths.len()
        invariant
            1 <= i <= paths@.len(),
            sizes@.len() == paths@.len(),
            (width, height) == sizes@[0],
            forall|j: int| 0 <= j < i ==> #[trigger] sizes@[j] == sizes@[0],
        decreases paths@.len() - i,
    {
        let (w, h) = sizes[i];
        if w != width || h != height {
            let name = name_or_empty(paths[i].as_str());
            let first_name = name_or_empty(paths[0].as_str());
            assert(names(paths@[i as int]@, name@));
            assert(names(paths@[0]@, first_name@));
            let message = "Dimension mismatch: '".to_owned().concat(name.as_str()).concat(
                "' is ",
            ).concat(size_text(w, h).as_str()).concat(", expected ").concat(
                size_text(width, height).as_str(),
            ).concat(" like '").concat(first_name.as_str()).concat("'.");
            assert(sizes@[i as int] != sizes@[0]);
            return Err(message);
        }
        i = i + 1;
    }
    Ok(())
}

/// The character of a number of six bits: upper case letters, lower case letters, digits, plus and
/// slash.
pub open spec fn sextet(n: int) -> char {
    if n < 26 {
        (n + 'A' as int) as char
    } else if n < 52 {
        (n - 26 + 'a' as int) as char
    } else if n < 62 {
        (n - 52 + '0' as int) as char
    } else if n == 62 {
        '+'
    } else {
        '/'
    }
}

/// Four characters for three bytes.
pub open spec fn quartet(a: u8, b: u8, c: u8) -> Seq<char> {
    let v = a * 65536 + b * 256 + c;
    seq![sextet(v / 262144), sextet(v / 4096 % 64), sextet(v / 64 % 64), sextet(v % 64)]
}

/// Bytes in base 64: four characters for each three bytes, the last ones filled up with equals
/// signs.
pub open spec fn base64_of(b: Seq<u8>) -> Seq<char>
    decreases b.len(),
{
    if b.len() == 0 {
        Seq::empty()
    } else if b.len() == 1 {
        quartet(b[0], 0, 0).take(2) + seq!['=', '=']
    } else if b.len() == 2 {
        quartet(b[0], b[1], 0).take(3) + seq!['=']
    } else {
        quartet(b[0], b[1], b[2]) + base64_of(b.skip(3))
    }
}

/// Bytes in base 64, with the `STANDARD` engine of `base64`.
///
/// Believed of it: the standard alphabet, with padding.
#[verifier::external_body]
fn base64_text(bytes: &Vec<u8>) -> (r: String)
    ensures
        r@ == base64_of(bytes@),
{
    base64::engine::general_purpose::STANDARD.encode(bytes)
}

/// The file, or the words of the failure, that [`encode_png`] gives.
pub uninterp spec fn png_of(width: u32, height: u32, rgb: Seq<u8>) -> Result<Seq<u8>, Seq<char>>;

/// A file or a failure as plain values.
pub open spec fn encoded(r: Result<Vec<u8>, String>) -> Result<Seq<u8>, Seq<char>> {
    match r {
        Ok(bytes) => Ok(bytes@),
        Err(text) => Err(text@),
    }
}

/// An image as a PNG file, with `image::write_buffer_with_format`.
///
/// Believed of it: the file depends on the image alone. How the encoder packs an image, and which
/// sizes it turns down, only has a name here. It panics unless there are three bytes per pixel.
#[verifier::external_body]
fn encode_png(img: &RgbBytes) -> (r: Result<Vec<u8>, String>)
    requires
        img.wf(),
    ensures
        encoded(r) == png_of(img.width, img.height, img.bytes@),
{
    let mut cursor = std::io::Cursor::new(Vec::new());
    let color = image::ExtendedColorType::Rgb8;
    let format = image::ImageFormat::Png;
    image::write_buffer_with_format(&mut cursor, &img.bytes, img.width, img.height, color, format)
        .map(|_| cursor.into_inner())
        .map_err(|e| e.to_string())
}

/// A PNG file as a data address.
pub fn data_url(png: &Vec<u8>) -> (r: String)
    ensures
        r@ == "data:image/png;base64,"@ + base64_of(png@),
{
    "data:image/png;base64,".to_owned().concat(base64_text(png).as_str())
}

/// The preview of a result, as the data address of a PNG file.
pub fn preview_url(img: &RgbBytes) -> (r: Result<String, String>)
    requires
        img.wf(),
    ensures
        match png_of(img.width, img.height, img.bytes@) {
            Ok(png) => r matches Ok(url) && url@ == "data:image/png;base64,"@ + base64_of(png),
            Err(text) => r matches Err(e) && e@ == "Failed to encode preview: "@ + text,
        },
{
    match encode_png(img) {
        Ok(png) => Ok(data_url(&png)),
        Err(text) => Err("Failed to encode preview: ".to_owned().concat(text.as_str())),
    }
}

/// The name of the file that a result is saved to, by the stem of the first frame.
pub open spec fn saved_name(stem: Seq<char>) -> Seq<char> {
    stem + "_pixelshift.tiff"@
}

/// Whether `out` is the file in `dir` with the given name, with either way to part them.
pub open spec fn is_file_in(dir: Seq<char>, name: Seq<char>, out: Seq<char>) -> bool {
    if dir.len() == 0 {
        out == name
    } else if dir == seq!['/'] {
        out == dir + name
    } else {
        out == dir + seq!['/'] + name || out == dir + seq!['\\'] + name
    }
}

proof fn lemma_dir_is_tidy(path: Seq<char>)
    requires
        is_tidy(path),
    ensures
        dir_of(path).len() == 0 || dir_of(path) == seq!['/'] || is_tidy(dir_of(path)),
{
    let k = behind_last(path, '/');
    lemma_behind_last(path, '/');
    let dir = dir_of(path);
    if k == 1 {
        assert(dir =~= seq!['/']);
    } else if k > 1 {
        assert(path[k - 1] == '/');
        assert(dir.last() == path[k - 2]);
        assert(path[k - 2] != '/') by {
            if path[k - 2] == '/' {
                assert(path[k - 1] != '/');
            }
        }
        assert forall|i: int| 0 <= i < dir.len() implies #[trigger] dir[i] != '\\' && dir[i]
            != ':' by {
            assert(path[i] != '\\');
        }
        assert forall|i: int| 1 <= i < dir.len() && dir[i - 1] == '/' implies #[trigger] dir[i]
            != '/' by {
            assert(path[i - 1] == '/');
            assert(path[i] != '/');
        }
        assert forall|i: int| #[trigger] starts_component(dir, i) implies !is_dots(dir, i) by {
            assert(starts_component(path, i));
            if is_dots(dir, i) {
                assert(is_dots(path, i));
            }
        }
    }
}

proof fn lemma_saved_name(path: Seq<char>)
    requires
        is_tidy(path),
    ensures
        is_plain_name(saved_name(stem_of(name_of(path)))),
{
    let name = name_of(path);
    let stem = stem_of(name);
    let saved = saved_name(stem);
    reveal_strlit("_pixelshift.tiff");
    lemma_behind_last(path, '/');
    lemma_behind_last(name, '.');
    let k = behind_last(path, '/');
    assert forall|i: int| 0 <= i < saved.len() implies #[trigger] saved[i] != '/' && saved[i]
        != '\\' && saved[i] != ':' by {
        if i < stem.len() {
            assert(saved[i] == path[k + i]);
            assert(path[k + i] != '/');
        }
    }
    assert(saved.last() == 'f');
    assert(saved.len() >= 16);
    assert forall|i: int| #[trigger] starts_component(saved, i) implies !is_dots(saved, i) by {
        assert(i == 0);
    }
}

/// A directory, and the current one where there is none.
pub open spec fn or_here(dir: Option<Seq<char>>) -> Seq<char> {
    match dir {
        Some(d) => d,
        None => "."@,
    }
}

/// Whether `out` is the path that a result is saved to: beside the first frame, under its stem.
pub open spec fn is_saved_path(first_path: Seq<char>, out: Seq<char>) -> bool {
    &&& exists|dir: Option<Seq<char>>, stem: Option<Seq<char>>| #[trigger]
        has_parent(first_path, dir) && #[trigger] has_stem(first_path, stem) && joins_to(
            or_here(dir),
            saved_name(or_empty(stem)),
            out,
        )
    &&& is_tidy(first_path) ==> is_file_in(
        dir_of(first_path),
        saved_name(stem_of(name_of(first_path))),
        out,
    )
}

/// The path that a result is saved to: beside the first frame, under its stem.
pub fn output_path(first_path: &str) -> (out: String)
    ensures
        is_saved_path(first_path@, out@),
{
    let found_stem = find_stem(first_path);
    let ghost stem_found = text_view(found_stem);
    let stem = match found_stem {
        Some(stem) => stem,
        None => String::new(),
    };
    let found_parent = find_parent(first_path);
    let ghost parent_found = text_view(found_parent);
    let parent = match found_parent {
        Some(dir) => dir,
        None => ".".to_owned(),
    };
    proof {
        assert(stem@ =~= or_empty(stem_found));
        assert(parent@ == or_here(parent_found));
        assert(has_parent(first_path@, parent_found) && has_stem(first_path@, stem_found));
    }
    let name = stem.concat("_pixelshift.tiff");
    let out = join(parent.as_str(), name.as_str());
    proof {
        if is_tidy(first_path@) {
            lemma_dir_is_tidy(first_path@);
            lemma_saved_name(first_path@);
        }
    }
    out
}

/// Whether asking to save what is kept, beside the first frame, gave `r` and left `after`.
pub open spec fn is_save(
    kept: Option<PixelShiftMergeResult>,
    first_path: Seq<char>,
    r: Result<(PixelShiftMergeResult, String), String>,
    after: Option<PixelShiftMergeResult>,
) -> bool {
    &&& after == None::<PixelShiftMergeResult>
    &&& match kept {
        Some(result) => r matches Ok((taken, out)) && taken == result && is_saved_path(
            first_path,
            out@,
        ),
        None => r matches Err(e) && e@ == nothing_kept_message(),
    }
}

/// Ask to save the result that is kept: it is handed out with the path to save it to.
pub fn request_save(kept: &mut Option<PixelShiftMergeResult>, first_path: &str) -> (r: Result<
    (PixelShiftMergeResult, String),
    String,
>)
    ensures
        is_save(*old(kept), first_path@, r, *final(kept)),
{
    match take_result(kept) {
        Ok(result) => Ok((result, output_path(first_path))),
        Err(message) => Err(message),
    }
}

/// A result is saved once, beside the first frame and under its stem: asking again is refused, and
/// leaves nothing either.
pub proof fn results_are_saved_once(
    result: PixelShiftMergeResult,
    first_path: Seq<char>,
    r: Result<(PixelShiftMergeResult, String), String>,
    after: Option<PixelShiftMergeResult>,
    again: Result<(PixelShiftMergeResult, String), String>,
    end: Option<PixelShiftMergeResult>,
)
    requires
        is_save(Some(result), first_path, r, after),
        is_save(after, first_path, again, end),
    ensures
        r matches Ok((taken, out)) && taken == result && is_saved_path(first_path, out@),
        is_tidy(first_path) ==> is_file_in(
            dir_of(first_path),
            saved_name(stem_of(name_of(first_path))),
            r->Ok_0.1@,
        ),
        again matches Err(e) && e@ == nothing_kept_message(),
        end == None::<PixelShiftMergeResult>,
{
}

/// The path that a result is saved to, on a system that parts a directory from a name in it by
/// `separator`.
pub proof fn saved_path_has_the_separator(first_path: Seq<char>, out: Seq<char>, separator: char)
    requires
        is_tidy(first_path),
        joins_with(separator),
        is_saved_path(first_path, out),
    ensures
        out == (if dir_of(first_path).len() == 0 || dir_of(first_path) == seq!['/'] {
            dir_of(first_path) + saved_name(stem_of(name_of(first_path)))
        } else {
            dir_of(first_path) + seq![separator] + saved_name(stem_of(name_of(first_path)))
        }),
{
    let dir = dir_of(first_path);
    let name = saved_name(stem_of(name_of(first_path)));
    let (d, s) = choose|d: Option<Seq<char>>, s: Option<Seq<char>>| #[trigger]
        has_parent(first_path, d) && #[trigger] has_stem(first_path, s) && joins_to(
            or_here(d),
            saved_name(or_empty(s)),
            out,
        );
    tidy_paths_are_read_as_written(first_path, d, s, None);
    lemma_dir_is_tidy(first_path);
    lemma_saved_name(first_path);
    assert(joins_to(dir, name, out));
    assert(dir.len() == 0 ==> out =~= dir + name);
}

/// Methods that differ in the case of their letters name the same mode.
pub proof fn methods_have_no_case(a: Seq<char>, b: Seq<char>)
    requires
        is_ascii_chars(a),
        is_ascii_chars(b),
        ascii_lowered(a) == ascii_lowered(b),
    ensures
        mode_named(a) == mode_named(b),
{
}

/// The text of some bytes in base 64 has four characters for each three bytes begun.
pub proof fn base64_length(b: Seq<u8>)
    ensures
        base64_of(b).len() == (b.len() + 2) / 3 * 4,
    decreases b.len(),
{
    if b.len() > 2 {
        base64_length(b.skip(3));
    }
}

} // verus!
