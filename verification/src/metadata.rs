//! Pixel-shift metadata of raw files, and bursts of files.

use crate::order::{arranged, arranged_is_ascending, arranged_keeps_items, lemma_put_in_at};
use crate::paths::{
    dir_of, find_parent, find_stem, has_parent, has_stem, is_tidy, name_of, or_empty, stem_of,
    text_view,
};
use crate::raw::{decode_file, decodes_to, RawError, RawRecord};
use crate::text::{letters, lex_is_total, lex_is_transitive, lex_leq, same_letters, text_leq};
use vstd::prelude::*;
use vstd::slice::slice_subrange;
use vstd::string::*;
use vstd::utf8::*;

verus! {

/// Pixel-shift patterns, by their number of shots.
#[derive(Debug, Clone, Copy, PartialEq, Eq, Structural)]
pub enum PixelShiftPattern {
    /// Four shots: the sensor shifts by one pixel in four directions.
    FourShot,
    /// Eight shots.
    EightShot,
    /// Sixteen shots.
    SixteenShot,
    /// Thirty-two shots.
    ThirtyTwoShot,
}

impl PixelShiftPattern {
    /// The pattern with the given number of frames, if there is one.
    pub open spec fn of_count(count: u16) -> Option<PixelShiftPattern> {
        if count == 4 {
            Some(PixelShiftPattern::FourShot)
        } else if count == 8 {
            Some(PixelShiftPattern::EightShot)
        } else if count == 16 {
            Some(PixelShiftPattern::SixteenShot)
        } else if count == 32 {
            Some(PixelShiftPattern::ThirtyTwoShot)
        } else {
            None
        }
    }

    /// The pattern with the given number of frames, if there is one.
    pub fn from_frame_count(count: u16) -> (r: Option<PixelShiftPattern>)
        ensures
            r == PixelShiftPattern::of_count(count),
    {
        match count {
            4 => Some(PixelShiftPattern::FourShot),
            8 => Some(PixelShiftPattern::EightShot),
            16 => Some(PixelShiftPattern::SixteenShot),
            32 => Some(PixelShiftPattern::ThirtyTwoShot),
            _ => None,
        }
    }
}

/// What a maker note says of pixel shift.
#[derive(Debug, Clone, Copy)]
pub struct ShiftFacts {
    /// Whether the frame is part of a pixel-shift burst.
    pub is_pixel_shift: bool,
    /// Number of the frame within the burst, from 0 on.
    pub sequence_number: Option<u16>,
    /// Number of frames in the burst: 4, 8, 16 or 32.
    pub total_frames: Option<u16>,
    /// Pattern of the burst.
    pub pattern: Option<PixelShiftPattern>,
}

/// What is known of a pixel-shift frame.
pub struct PixelShiftInfo {
    /// Whether the frame is part of a pixel-shift burst.
    pub is_pixel_shift: bool,
    /// Number of the frame within the burst, from 0 on.
    pub sequence_number: Option<u16>,
    /// Number of frames in the burst: 4, 8, 16 or 32.
    pub total_frames: Option<u16>,
    /// Pattern of the burst.
    pub pattern: Option<PixelShiftPattern>,
    /// Camera model that captured the frame.
    pub camera_model: Option<String>,
}

impl PixelShiftInfo {
    /// What the maker note said.
    pub open spec fn facts(self) -> ShiftFacts {
        ShiftFacts {
            is_pixel_shift: self.is_pixel_shift,
            sequence_number: self.sequence_number,
            total_frames: self.total_frames,
            pattern: self.pattern,
        }
    }
}

/// The first place from `from` on where `needle` stands in `data`.
pub open spec fn find_from(data: Seq<u8>, needle: Seq<u8>, from: int) -> Option<int>
    decreases data.len() + 1 - from,
{
    if from < 0 || from + needle.len() > data.len() {
        None
    } else if data.subrange(from, from + needle.len()) == needle {
        Some(from)
    } else {
        find_from(data, needle, from + 1)
    }
}

/// The number if a burst can have that many frames.
pub open spec fn if_burst_size(n: u8) -> Option<u16> {
    if PixelShiftPattern::of_count(n as u16) is Some {
        Some(n as u16)
    } else {
        None
    }
}

/// What stands behind the marker "PixelShift" at `pos`: whether it is active, the number of shots
/// and the number of the frame. None where the note ends too early, or is neither active nor counts
/// shots.
pub open spec fn marked_facts(data: Seq<u8>, pos: int) -> Option<ShiftFacts> {
    if pos + 20 < data.len() && (data[pos + 11] == 1 || data[pos + 12] > 0) {
        Some(
            ShiftFacts {
                is_pixel_shift: data[pos + 11] == 1,
                sequence_number: Some(data[pos + 13] as u16),
                total_frames: if_burst_size(data[pos + 12]),
                pattern: PixelShiftPattern::of_count(data[pos + 12] as u16),
            },
        )
    } else {
        None
    }
}

/// What a maker note says of pixel shift: by the first marker "PixelShift" if something stands
/// behind it, else by the marker "NIKON PIXEL SHIFT".
pub open spec fn scan(data: Seq<u8>) -> Option<ShiftFacts> {
    let marked = match find_from(data, encode_utf8("PixelShift"@), 0) {
        Some(pos) => marked_facts(data, pos),
        None => None,
    };
    match marked {
        Some(facts) => Some(facts),
        None => if find_from(data, encode_utf8("NIKON PIXEL SHIFT"@), 0) is Some {
            Some(
                ShiftFacts {
                    is_pixel_shift: true,
                    sequence_number: None,
                    total_frames: None,
                    pattern: None,
                },
            )
        } else {
            None
        },
    }
}

/// A number of frames that a maker note gives is one that a burst can have, and comes with its
/// pattern.
pub proof fn scanned_counts_are_burst_sizes(data: Seq<u8>)
    requires
        scan(data) is Some,
    ensures
        scan(data)->0.total_frames matches Some(n) ==> n == 4 || n == 8 || n == 16 || n == 32,
        scan(data)->0.total_frames is Some <==> scan(data)->0.pattern is Some,
{
}

/// Whether `needle` stands in `data` at `i`.
fn stands_at(data: &[u8], needle: &[u8], i: usize) -> (r: bool)
    requires
        i + needle@.len() <= data@.len(),
    ensures
        r == (data@.subrange(i as int, i + needle@.len()) == needle@),
{
    assert(data.len() == data@.len());
    let mut k: usize = 0;
    while k < needle.len()
        invariant
            k <= needle@.len(),
            i + needle@.len() <= data@.len() <= usize::MAX,
            forall|j: int| 0 <= j < k ==> data@[i + j] == needle@[j],
        decreases needle@.len() - k,
    {
        if data[i + k] != needle[k] {
            assert(data@.subrange(i as int, i + needle@.len())[k as int] != needle@[k as int]);
            return false;
        }
        k = k + 1;
    }
    assert(data@.subrange(i as int, i + needle@.len()) =~= needle@);
    true
}

/// The first place where `needle` stands in `data`.
fn find_bytes(data: &[u8], needle: &[u8]) -> (r: Option<usize>)
    ensures
        r is Some <==> find_from(data@, needle@, 0) is Some,
        r matches Some(i) ==> find_from(data@, needle@, 0) == Some(i as int) && i + needle@.len()
            <= data@.len(),
{
    if needle.len() > data.len() {
        return None;
    }
    let last: usize = data.len() - needle.len();
    let mut i: usize = 0;
    while i < last
        invariant
            i <= last,
            last + needle@.len() == data@.len(),
            find_from(data@, needle@, 0) == find_from(data@, needle@, i as int),
        decreases last - i,
    {
        if stands_at(data, needle, i) {
            return Some(i);
        }
        i = i + 1;
    }
    if stands_at(data, needle, last) {
        Some(last)
    } else {
        assert(find_from(data@, needle@, last + 1) is None);
        None
    }
}

/// Look for pixel-shift markers in a maker note.
fn scan_facts(data: &[u8]) -> (r: Option<ShiftFacts>)
    ensures
        r == scan(data@),
{
    match find_bytes(data, "PixelShift".as_bytes()) {
        Some(pos) => {
            assert(data.len() == data@.len());
            if data.len() > 20 && pos < data.len() - 20 {
                let active: bool = data[pos + 11] == 1;
                let shot_count: u8 = data[pos + 12];
                let seq_num: u8 = data[pos + 13];
                if active || shot_count > 0 {
                    let pattern = PixelShiftPattern::from_frame_count(shot_count as u16);
                    let total_frames: Option<u16> = match pattern {
                        Some(_) => Some(shot_count as u16),
                        None => None,
                    };
                    return Some(
                        ShiftFacts {
                            is_pixel_shift: active,
                            sequence_number: Some(seq_num as u16),
                            total_frames,
                            pattern,
                        },
                    );
                }
            }
        },
        None => {},
    }
    match find_bytes(data, "NIKON PIXEL SHIFT".as_bytes()) {
        Some(_) => Some(
            ShiftFacts {
                is_pixel_shift: true,
                sequence_number: None,
                total_frames: None,
                pattern: None,
            },
        ),
        None => None,
    }
}

/// Look for pixel-shift markers in a maker note.
pub fn heuristic_scan_for_pixel_shift(
    data: &[u8],
    camera_model: Option<String>,
) -> (r: Option<PixelShiftInfo>)
    ensures
        r is Some <==> scan(data@) is Some,
        r matches Some(info) ==> Some(info.facts()) == scan(data@) && info.camera_model
            == camera_model,
{
    match scan_facts(data) {
        Some(facts) => Some(
            PixelShiftInfo {
                is_pixel_shift: facts.is_pixel_shift,
                sequence_number: facts.sequence_number,
                total_frames: facts.total_frames,
                pattern: facts.pattern,
                camera_model,
            },
        ),
        None => None,
    }
}

/// Whether a maker note starts with the name of its maker.
pub open spec fn has_header(note: Seq<u8>) -> bool {
    note.len() > 6 && note.subrange(0, 5) == encode_utf8("Nikon"@)
}

/// What a maker note says of pixel shift: behind its header if it has one; a note without header is
/// read from its start if it is long enough.
pub open spec fn note_facts(note: Option<Seq<u8>>) -> Option<ShiftFacts> {
    match note {
        Some(data) => if has_header(data) {
            scan(data.subrange(6, data.len() as int))
        } else if data.len() > 100 {
            scan(data)
        } else {
            None
        },
        None => None,
    }
}

/// Parse a maker note with a header of six bytes.
pub fn parse_nikon_maker_notes(data: &[u8], camera_model: Option<String>) -> (r: Option<
    PixelShiftInfo,
>)
    requires
        data@.len() >= 6,
    ensures
        r is Some <==> scan(data@.subrange(6, data@.len() as int)) is Some,
        r matches Some(info) ==> Some(info.facts()) == scan(
            data@.subrange(6, data@.len() as int),
        ) && info.camera_model == camera_model,
{
    heuristic_scan_for_pixel_shift(slice_subrange(data, 6, data.len()), camera_model)
}

/// Parse a maker note without header.
pub fn parse_nikon_maker_notes_raw(data: &[u8], camera_model: Option<String>) -> (r: Option<
    PixelShiftInfo,
>)
    ensures
        r is Some <==> scan(data@) is Some,
        r matches Some(info) ==> Some(info.facts()) == scan(data@) && info.camera_model
            == camera_model,
{
    heuristic_scan_for_pixel_shift(data, camera_model)
}

/// The maker note that [`maker_note`] finds in a file.
pub uninterp spec fn maker_note_of(file_bytes: Seq<u8>) -> Option<Seq<u8>>;

/// The bytes, if there are any.
pub open spec fn bytes_view(v: Option<Vec<u8>>) -> Option<Seq<u8>> {
    match v {
        Some(bytes) => Some(bytes@),
        None => None,
    }
}

/// The maker note of a file: `exif::Reader::read_from_container` reads the file, and
/// `exif::Exif::get_field` finds the note among the fields of its primary image.
///
/// Believed of them: the note depends on the bytes alone. Which bytes hold which note is the file
/// format's affair, and the result only has a name here.
#[verifier::external_body]
fn maker_note(file_bytes: &Vec<u8>) -> (r: Option<Vec<u8>>)
    ensures
        bytes_view(r) == maker_note_of(file_bytes@),
{
    let mut cursor = std::io::Cursor::new(file_bytes);
    let exif = exif::Reader::new().read_from_container(&mut cursor).ok()?;
    match &exif.get_field(exif::Tag::MakerNote, exif::In::PRIMARY)?.value {
        exif::Value::Undefined(data, _) => Some(data.clone()),
        _ => None,
    }
}

/// Whether `r` is what is known of a frame by its camera model, empty where it is not known, and
/// its maker note.
pub open spec fn is_info_of(
    model: Seq<char>,
    note: Option<Seq<u8>>,
    r: Option<PixelShiftInfo>,
) -> bool {
    &&& r is Some <==> note_facts(note) is Some
    &&& r matches Some(info) ==> {
        &&& Some(info.facts()) == note_facts(note)
        &&& text_view(info.camera_model) == (if model.len() == 0 {
            None
        } else {
            Some(model)
        })
    }
}

/// What is known of a frame by its camera model, empty where it is not known, and its maker note.
pub fn pixel_shift_info(model: String, note: &Option<Vec<u8>>) -> (r: Option<PixelShiftInfo>)
    ensures
        is_info_of(model@, bytes_view(*note), r),
{
    let camera_model: Option<String> = if model.as_str().is_empty() {
        None
    } else {
        Some(model)
    };
    match note {
        Some(data) => {
            let bytes: &[u8] = data.as_slice();
            let header = "Nikon".as_bytes();
            proof {
                reveal_strlit("Nikon");
                is_ascii_chars_encode_utf8("Nikon"@);
            }
            if bytes.len() > 6 && stands_at(bytes, header, 0) {
                parse_nikon_maker_notes(bytes, camera_model)
            } else if bytes.len() > 100 {
                parse_nikon_maker_notes_raw(bytes, camera_model)
            } else {
                None
            }
        },
        None => None,
    }
}

/// Whether `r` is what is known of a file with the given maker note where reading it came out as
/// `outcome`; nothing is known where that failed.
pub open spec fn is_detected(
    outcome: Result<RawRecord, RawError>,
    note: Option<Seq<u8>>,
    r: Option<PixelShiftInfo>,
) -> bool {
    match outcome {
        Ok(raw) => is_info_of(raw.model@, note, r),
        Err(_) => r is None,
    }
}

/// What is known of a raw file: the camera model as the raw decoder finds it, and what the maker
/// note says. Nothing where the decoder gives up or the note says nothing of pixel shift.
pub fn detect_pixel_shift_from_bytes(file_bytes: &Vec<u8>) -> (r: Option<PixelShiftInfo>)
    ensures
        exists|outcome: Result<RawRecord, RawError>| #[trigger]
            decodes_to(file_bytes, outcome) && is_detected(
                outcome,
                maker_note_of(file_bytes@),
                r,
            ),
        note_facts(maker_note_of(file_bytes@)) is None ==> r is None,
{
    let outcome = decode_file(file_bytes);
    let ghost found = outcome;
    let r = match outcome {
        Ok(raw) => {
            let note = maker_note(file_bytes);
            pixel_shift_info(raw.model, &note)
        },
        Err(_) => None,
    };
    assert(decodes_to(file_bytes, found) && is_detected(found, maker_note_of(file_bytes@), r));
    r
}

/// Whether a character is a decimal digit.
pub open spec fn is_digit(c: char) -> bool {
    '0' <= c <= '9'
}

/// Where the digits at the end of a text start.
pub open spec fn digits_start(s: Seq<char>) -> int
    decreases s.len(),
{
    if s.len() > 0 && is_digit(s.last()) {
        digits_start(s.drop_last())
    } else {
        s.len() as int
    }
}

/// The number that a text of digits stands for.
pub open spec fn decimal(s: Seq<char>) -> int
    decreases s.len(),
{
    if s.len() == 0 {
        0
    } else {
        decimal(s.drop_last()) * 10 + (s.last() as int - '0' as int)
    }
}

/// The number at the end of a text, with what stands before it. None where there is no digit or the
/// number is larger than thirty-two bits hold.
pub open spec fn trailing_number(s: Seq<char>) -> Option<(Seq<char>, int)> {
    let k = digits_start(s);
    let number = decimal(s.skip(k));
    if k < s.len() && number <= u32::MAX {
        Some((s.take(k), number))
    } else {
        None
    }
}

/// Whether two stems are numbered one after the other, in either direction, and are otherwise the
/// same.
pub open spec fn are_sequential(a: Seq<char>, b: Seq<char>) -> bool {
    match (trailing_number(a), trailing_number(b)) {
        (Some((p, m)), Some((q, n))) => p == q && (m + 1 == n || n + 1 == m),
        _ => false,
    }
}

proof fn lemma_decimal_grows(s: Seq<char>, n: int)
    requires
        0 <= n <= s.len(),
        forall|i: int| 0 <= i < s.len() ==> is_digit(#[trigger] s[i]),
    ensures
        0 <= decimal(s.take(n)) <= decimal(s),
    decreases s.len() - n,
{
    lemma_decimal_sign(s.take(n));
    if n < s.len() {
        lemma_decimal_grows(s, n + 1);
        assert(s.take(n + 1).drop_last() =~= s.take(n));
        assert(is_digit(s[n]));
    } else {
        assert(s.take(n) =~= s);
    }
}

proof fn lemma_decimal_sign(s: Seq<char>)
    requires
        forall|i: int| 0 <= i < s.len() ==> is_digit(#[trigger] s[i]),
    ensures
        0 <= decimal(s),
    decreases s.len(),
{
    if s.len() > 0 {
        assert(is_digit(s[s.len() - 1]));
        let d = s.drop_last();
        assert forall|i: int| 0 <= i < d.len() implies is_digit(#[trigger] d[i]) by {
            assert(is_digit(s[i]));
        }
        lemma_decimal_sign(d);
    }
}

proof fn lemma_digits_start(s: Seq<char>)
    ensures
        0 <= digits_start(s) <= s.len(),
        forall|i: int| digits_start(s) <= i < s.len() ==> is_digit(#[trigger] s[i]),
    decreases s.len(),
{
    if s.len() > 0 && is_digit(s.last()) {
        lemma_digits_start(s.drop_last());
        assert forall|i: int| digits_start(s) <= i < s.len() implies is_digit(#[trigger] s[i]) by {
            if i < s.len() - 1 {
                assert(is_digit(s.drop_last()[i]));
            }
        }
    }
}

/// The number at the end of a text, with the length of what stands before it.
fn extract_trailing_number(s: &Vec<char>) -> (r: Option<(usize, u32)>)
    ensures
        r is Some <==> trailing_number(s@) is Some,
        r matches Some((k, n)) ==> k <= s@.len() && trailing_number(s@) == Some(
            (s@.take(k as int), n as int),
        ),
{
    let mut k: usize = s.len();
    assert(s@.take(k as int) =~= s@);
    while k > 0 && s[k - 1] >= '0' && s[k - 1] <= '9'
        invariant
            k <= s@.len(),
            digits_start(s@.take(k as int)) == digits_start(s@),
        decreases k,
    {
        assert(s@.take(k as int).drop_last() =~= s@.take(k - 1));
        k = k - 1;
    }
    if k == s.len() {
        return None;
    }
    proof {
        lemma_digits_start(s@);
    }
    let ghost digits = s@.skip(k as int);
    assert(digits.take(0) =~= Seq::<char>::empty());
    let mut number: u64 = 0;
    let mut i: usize = k;
    while i < s.len()
        invariant
            k <= i <= s@.len(),
            k == digits_start(s@),
            k < s@.len(),
            digits == s@.skip(k as int),
            forall|j: int| k <= j < s@.len() ==> is_digit(#[trigger] s@[j]),
            number == decimal(digits.take(i - k)),
            number <= u32::MAX,
        decreases s@.len() - i,
    {
        let c: char = s[i];
        assert(is_digit(s@[i as int]));
        assert(digits.take(i + 1 - k).drop_last() =~= digits.take(i - k));
        assert(digits.take(i + 1 - k).last() == c);
        let d: u64 = c as u64 - '0' as u64;
        number = number * 10 + d;
        if number > u32::MAX as u64 {
            proof {
                assert forall|j: int| 0 <= j < digits.len() implies is_digit(
                    #[trigger] digits[j],
                ) by {
                    assert(is_digit(s@[k + j]));
                }
                lemma_decimal_grows(digits, i + 1 - k);
            }
            return None;
        }
        i = i + 1;
    }
    assert(digits.take(s@.len() - k) =~= digits);
    Some((k, number as u32))
}

/// Whether two stems are numbered one after the other.
fn sequential_letters(a: &Vec<char>, b: &Vec<char>) -> (r: bool)
    ensures
        r == are_sequential(a@, b@),
{
    match (extract_trailing_number(a), extract_trailing_number(b)) {
        (Some((j, m)), Some((k, n))) => {
            if j != k || !(m as u64 + 1 == n as u64 || n as u64 + 1 == m as u64) {
                proof {
                    if j != k {
                        assert(a@.take(j as int).len() != b@.take(k as int).len());
                    }
                }
                return false;
            }
            let mut i: usize = 0;
            while i < j
                invariant
                    i <= j,
                    j == k,
                    j <= a@.len(),
                    k <= b@.len(),
                    trailing_number(a@) == Some((a@.take(j as int), m as int)),
                    trailing_number(b@) == Some((b@.take(k as int), n as int)),
                    forall|t: int| 0 <= t < i ==> a@[t] == b@[t],
                decreases j - i,
            {
                if a[i] != b[i] {
                    assert(a@.take(j as int)[i as int] != b@.take(k as int)[i as int]);
                    return false;
                }
                i = i + 1;
            }
            assert(a@.take(j as int) =~= b@.take(k as int));
            true
        },
        _ => false,
    }
}

/// Whether two stems are numbered one after the other, in either direction.
pub fn sequential_stems(stem1: &str, stem2: &str) -> (r: bool)
    ensures
        r == are_sequential(stem1@, stem2@),
{
    sequential_letters(&letters(stem1), &letters(stem2))
}

/// Whether a text is the stem of the file name of a path, empty where it has none.
pub open spec fn is_stem(path: Seq<char>, stem: Seq<char>) -> bool {
    &&& exists|found: Option<Seq<char>>| #[trigger] has_stem(path, found) && stem == or_empty(found)
    &&& is_tidy(path) ==> stem == stem_of(name_of(path))
}

/// The stem of a path, empty where it has none.
fn stem_or_empty(path: &str) -> (r: String)
    ensures
        is_stem(path@, r@),
{
    let found = find_stem(path);
    let ghost answer = text_view(found);
    assert(has_stem(path@, answer));
    match found {
        Some(stem) => stem,
        None => {
            let stem = String::new();
            assert(stem@ =~= or_empty(answer));
            stem
        },
    }
}

/// Whether `r` tells if the stems that two paths were found to have are numbered one after the
/// other.
pub open spec fn tells_sequence(path1: Seq<char>, path2: Seq<char>, r: bool) -> bool {
    exists|a: Seq<char>, b: Seq<char>| #[trigger]
        is_stem(path1, a) && #[trigger] is_stem(path2, b) && r == are_sequential(a, b)
}

/// Whether two files are numbered one after the other, as DSC_1234.NEF and DSC_1235.NEF are.
pub fn are_sequential_filenames(path1: &str, path2: &str) -> (r: bool)
    ensures
        tells_sequence(path1@, path2@, r),
        is_tidy(path1@) && is_tidy(path2@) ==> r == are_sequential(
            stem_of(name_of(path1@)),
            stem_of(name_of(path2@)),
        ),
{
    let stem1 = stem_or_empty(path1);
    let stem2 = stem_or_empty(path2);
    assert(is_stem(path1@, stem1@) && is_stem(path2@, stem2@));
    sequential_stems(stem1.as_str(), stem2.as_str())
}

/// Two paths are sequential in either order, or in none.
pub proof fn filenames_are_sequential_either_way(path1: Seq<char>, path2: Seq<char>, r: bool)
    requires
        tells_sequence(path1, path2, r),
    ensures
        tells_sequence(path2, path1, r),
{
    let (a, b) = choose|a: Seq<char>, b: Seq<char>| #[trigger]
        is_stem(path1, a) && #[trigger] is_stem(path2, b) && r == are_sequential(a, b);
    assert(is_stem(path2, b) && is_stem(path1, a));
    sequential_either_way(a, b);
}

/// Only the stems matter: paths that are all found to have stem `a` or `b` are answered alike,
/// whatever their directories and extensions, and none is sequential with one of its own stem.
pub proof fn only_stems_are_compared(
    path1: Seq<char>,
    path2: Seq<char>,
    a: Seq<char>,
    b: Seq<char>,
    r: bool,
)
    requires
        forall|s: Seq<char>| #[trigger] is_stem(path1, s) ==> s == a,
        forall|s: Seq<char>| #[trigger] is_stem(path2, s) ==> s == b,
        tells_sequence(path1, path2, r),
    ensures
        r == are_sequential(a, b),
        a == b ==> !r,
{
    never_sequential_with_itself(a);
}

/// Being sequential does not depend on the order of the two.
pub proof fn sequential_either_way(a: Seq<char>, b: Seq<char>)
    ensures
        are_sequential(a, b) == are_sequential(b, a),
{
}

/// No stem is sequential with itself.
pub proof fn never_sequential_with_itself(a: Seq<char>)
    ensures
        !are_sequential(a, a),
{
}

/// A detected group of frames that form a burst.
pub struct PixelShiftBurstGroup {
    /// File paths belonging to the burst.
    pub paths: Vec<String>,
    /// Number of frames.
    pub frame_count: usize,
    /// Whether the metadata of the first frame confirms pixel shift.
    pub is_confirmed: bool,
    /// Camera model, if known.
    pub camera_model: Option<String>,
}

/// A group as plain texts.
pub struct GroupView {
    /// File paths.
    pub paths: Seq<Seq<char>>,
    /// Number of frames.
    pub frame_count: usize,
    /// Whether the burst is confirmed.
    pub is_confirmed: bool,
    /// Camera model.
    pub camera_model: Option<Seq<char>>,
}

/// The characters of each text.
pub open spec fn texts(v: Seq<String>) -> Seq<Seq<char>> {
    Seq::new(v.len(), |i: int| v[i]@)
}

/// The characters of each text.
pub open spec fn char_texts(v: Seq<Vec<char>>) -> Seq<Seq<char>> {
    Seq::new(v.len(), |i: int| v[i]@)
}

impl PixelShiftBurstGroup {
    /// The group as plain texts.
    pub open spec fn plain(self) -> GroupView {
        GroupView {
            paths: texts(self.paths@),
            frame_count: self.frame_count,
            is_confirmed: self.is_confirmed,
            camera_model: text_view(self.camera_model),
        }
    }
}

/// The groups as plain texts.
pub open spec fn plain_groups(groups: Seq<PixelShiftBurstGroup>) -> Seq<GroupView> {
    Seq::new(groups.len(), |i: int| groups[i].plain())
}

/// What is known of the file at the start of a burst.
pub struct Claim {
    /// Whether it says that it is part of a pixel-shift burst.
    pub is_pixel_shift: bool,
    /// Its camera model.
    pub camera_model: Option<Seq<char>>,
}

/// Files with their directories, stems, and what their metadata says.
pub struct Listing {
    /// Paths in the order given.
    pub paths: Seq<Seq<char>>,
    /// Directory of each path.
    pub dirs: Seq<Seq<char>>,
    /// Stem of each file name.
    pub stems: Seq<Seq<char>>,
    /// What is known of each file.
    pub claims: Seq<Claim>,
}

/// A burst: the places of its files in the listing, in its order.
pub struct Burst {
    /// Places of the files.
    pub members: Seq<usize>,
    /// Whether the metadata of the first file confirms it.
    pub is_confirmed: bool,
    /// Camera model of the first file.
    pub camera_model: Option<Seq<char>>,
}

/// The first file of each burst.
pub open spec fn starts_of(bursts: Seq<Burst>) -> Seq<usize> {
    Seq::new(bursts.len(), |i: int| bursts[i].members[0])
}

/// The order of places by their texts.
pub open spec fn by_text(keys: Seq<Seq<char>>) -> spec_fn(usize, usize) -> bool {
    |a: usize, b: usize| lex_leq(keys[a as int], keys[b as int])
}

/// The places among the first `n` that are the first with their text.
pub open spec fn firsts(keys: Seq<Seq<char>>, n: nat) -> Seq<usize>
    decreases n,
{
    if n == 0 {
        Seq::empty()
    } else {
        let before = firsts(keys, (n - 1) as nat);
        if exists|j: int| 0 <= j < n - 1 && #[trigger] keys[j] == keys[n - 1] {
            before
        } else {
            before.push((n - 1) as usize)
        }
    }
}

/// The places among the first `n` that have the given text.
pub open spec fn members(keys: Seq<Seq<char>>, key: Seq<char>, n: nat) -> Seq<usize>
    decreases n,
{
    if n == 0 {
        Seq::empty()
    } else {
        let before = members(keys, key, (n - 1) as nat);
        if keys[n - 1] == key {
            before.push((n - 1) as usize)
        } else {
            before
        }
    }
}

impl Listing {
    /// One place of each directory, in the order of the directories' names.
    pub open spec fn dir_order(self) -> Seq<usize> {
        arranged(firsts(self.dirs, self.dirs.len()), by_text(self.dirs))
    }

    /// The files of the directory of file `i`, in the order given.
    pub open spec fn in_dir(self, i: usize) -> Seq<usize> {
        members(self.dirs, self.dirs[i as int], self.dirs.len())
    }

    /// The files of the directory of file `i`, in the order of their paths.
    pub open spec fn in_order(self, i: usize) -> Seq<usize> {
        arranged(self.in_dir(i), by_text(self.paths))
    }

    /// The list cut wherever two neighbours are not numbered one after the other.
    pub open spec fn runs(self, s: Seq<usize>) -> Seq<Seq<usize>>
        decreases s.len(),
    {
        if s.len() == 0 {
            Seq::empty()
        } else {
            let before = self.runs(s.drop_last());
            if s.len() >= 2 && are_sequential(
                self.stems[s[s.len() - 2] as int],
                self.stems[s.last() as int],
            ) {
                before.drop_last().push(before.last().push(s.last()))
            } else {
                before.push(seq![s.last()])
            }
        }
    }

    /// The runs of two and more files as bursts, each held against the metadata of its first file.
    pub open spec fn bursts_of(self, runs: Seq<Seq<usize>>) -> Seq<Burst>
        decreases runs.len(),
    {
        if runs.len() == 0 {
            Seq::empty()
        } else {
            let before = self.bursts_of(runs.drop_last());
            let run = runs.last();
            if run.len() < 2 {
                before
            } else {
                let claim = self.claims[run[0] as int];
                before.push(
                    Burst {
                        members: run,
                        is_confirmed: claim.is_pixel_shift,
                        camera_model: claim.camera_model,
                    },
                )
            }
        }
    }

    /// The bursts of the first `k` directories.
    pub open spec fn numbered(self, k: nat) -> Seq<Burst>
        decreases k,
    {
        if k == 0 {
            Seq::empty()
        } else {
            self.numbered((k - 1) as nat) + self.bursts_of(
                self.runs(self.in_order(self.dir_order()[k - 1])),
            )
        }
    }

    /// The first `k` directories as bursts, as far as they hold two and more files.
    pub open spec fn whole_dirs(self, k: nat) -> Seq<Burst>
        decreases k,
    {
        if k == 0 {
            Seq::empty()
        } else {
            let before = self.whole_dirs((k - 1) as nat);
            let files = self.in_dir(self.dir_order()[k - 1]);
            if files.len() >= 2 {
                before.push(Burst { members: files, is_confirmed: false, camera_model: None })
            } else {
                before
            }
        }
    }

    /// All files as one burst, if there are two and more.
    pub open spec fn everything(self) -> Seq<Burst> {
        if self.paths.len() >= 2 {
            seq![
                Burst {
                    members: Seq::new(self.paths.len(), |i: int| i as usize),
                    is_confirmed: false,
                    camera_model: None,
                },
            ]
        } else {
            Seq::empty()
        }
    }

    /// The bursts of a listing: runs of numbered files; where there is none, whole directories; and
    /// where no directory holds two files, all files together.
    pub open spec fn bursts(self) -> Seq<Burst> {
        let n = self.dir_order().len();
        if self.numbered(n).len() > 0 {
            self.numbered(n)
        } else if self.whole_dirs(n).len() > 0 {
            self.whole_dirs(n)
        } else {
            self.everything()
        }
    }

    /// A burst as plain texts.
    pub open spec fn shown(self, b: Burst) -> GroupView {
        GroupView {
            paths: Seq::new(b.members.len(), |k: int| self.paths[b.members[k] as int]),
            frame_count: b.members.len() as usize,
            is_confirmed: b.is_confirmed,
            camera_model: b.camera_model,
        }
    }

    /// All bursts as plain texts.
    pub open spec fn shown_all(self, bursts: Seq<Burst>) -> Seq<GroupView> {
        Seq::new(bursts.len(), |i: int| self.shown(bursts[i]))
    }

    /// The files whose metadata decides about bursts: the first of each run of numbered files.
    pub open spec fn probes(self) -> Seq<usize> {
        starts_of(self.numbered(self.dir_order().len()))
    }

    /// Whether a burst says what the metadata of its first file does.
    pub open spec fn follows_first(self, b: Burst) -> bool {
        let claim = self.claims[b.members[0] as int];
        b.is_confirmed == claim.is_pixel_shift && b.camera_model == claim.camera_model
    }

    /// Whether everything is there for each path.
    pub open spec fn wf(self) -> bool {
        &&& self.dirs.len() == self.paths.len()
        &&& self.stems.len() == self.paths.len()
        &&& self.claims.len() == self.paths.len()
        &&& self.paths.len() <= usize::MAX
    }
}

/// What is known of each file, as plain texts; nothing is claimed of a file without metadata.
pub open spec fn claims_of(infos: Seq<Option<PixelShiftInfo>>) -> Seq<Claim> {
    Seq::new(
        infos.len(),
        |i: int|
            match infos[i] {
                Some(info) => Claim {
                    is_pixel_shift: info.is_pixel_shift,
                    camera_model: text_view(info.camera_model),
                },
                None => Claim { is_pixel_shift: false, camera_model: None },
            },
    )
}

pub(crate) proof fn lemma_members(keys: Seq<Seq<char>>, key: Seq<char>, n: nat)
    requires
        n <= keys.len() <= usize::MAX,
    ensures
        forall|i: int|
            0 <= i < members(keys, key, n).len() ==> {
                &&& (#[trigger] members(keys, key, n)[i]) < n
                &&& keys[members(keys, key, n)[i] as int] == key
            },
        forall|i: int, j: int|
            0 <= i < j < members(keys, key, n).len() ==> #[trigger] members(keys, key, n)[i]
                < #[trigger] members(keys, key, n)[j],
        forall|p: usize|
            p < n && keys[p as int] == key ==> #[trigger] members(keys, key, n).contains(p),
    decreases n,
{
    if n > 0 {
        lemma_members(keys, key, (n - 1) as nat);
        let before = members(keys, key, (n - 1) as nat);
        assert forall|p: usize| p < n && keys[p as int] == key implies #[trigger] members(
            keys,
            key,
            n,
        ).contains(p) by {
            if p < n - 1 {
                assert(before.contains(p));
                let i = choose|i: int| 0 <= i < before.len() && before[i] == p;
                assert(members(keys, key, n)[i] == p);
            } else {
                assert(members(keys, key, n)[before.len() as int] == p);
            }
        }
    }
}

proof fn lemma_firsts(keys: Seq<Seq<char>>, n: nat)
    requires
        n <= keys.len() <= usize::MAX,
    ensures
        forall|i: int|
            0 <= i < firsts(keys, n).len() ==> (#[trigger] firsts(keys, n)[i]) < n,
        n > 0 ==> firsts(keys, n).len() > 0,
    decreases n,
{
    if n > 0 {
        lemma_firsts(keys, (n - 1) as nat);
        let before = firsts(keys, (n - 1) as nat);
        assert forall|i: int| 0 <= i < firsts(keys, n).len() implies (#[trigger] firsts(keys, n)[i])
            < n by {
            if i < before.len() {
                assert(before[i] < n - 1);
                assert(firsts(keys, n)[i] == before[i]);
            }
        }
    }
}

/// The places of a listing are places of paths.
proof fn lemma_places(l: Listing)
    requires
        l.wf(),
    ensures
        forall|k: int|
            0 <= k < l.dir_order().len() ==> (#[trigger] l.dir_order()[k]) < l.paths.len(),
        forall|i: usize, k: int|
            i < l.paths.len() && 0 <= k < l.in_dir(i).len() ==> (#[trigger] l.in_dir(i)[k])
                < l.paths.len(),
        forall|i: usize| #[trigger] l.in_order(i).len() == l.in_dir(i).len(),
        forall|i: usize, k: int|
            i < l.paths.len() && 0 <= k < l.in_order(i).len() ==> (#[trigger] l.in_order(i)[k])
                < l.paths.len(),
        forall|i: usize| i < l.paths.len() ==> (#[trigger] l.in_order(i)).len() > 0,
        l.dir_order().len() <= l.paths.len(),
{
    lemma_firsts(l.dirs, l.dirs.len());
    lemma_firsts_count(l.dirs, l.dirs.len());
    arranged_keeps_items(firsts(l.dirs, l.dirs.len()), by_text(l.dirs));
    assert forall|i: usize|
        #[trigger] l.in_order(i).len() == l.in_dir(i).len() && (i < l.paths.len() ==> l.in_order(
            i,
        ).len() > 0) by {
        arranged_keeps_items(l.in_dir(i), by_text(l.paths));
        if i < l.paths.len() {
            lemma_members(l.dirs, l.dirs[i as int], l.dirs.len());
            assert(l.in_dir(i).contains(i));
        }
    }
    assert forall|i: usize, k: int| i < l.paths.len() && 0 <= k < l.in_dir(i).len() implies (
    #[trigger] l.in_dir(i)[k]) < l.paths.len() by {
        lemma_members(l.dirs, l.dirs[i as int], l.dirs.len());
    }
    assert forall|i: usize, k: int| i < l.paths.len() && 0 <= k < l.in_order(i).len() implies (
    #[trigger] l.in_order(i)[k]) < l.paths.len() by {
        arranged_keeps_items(l.in_dir(i), by_text(l.paths));
        lemma_members(l.dirs, l.dirs[i as int], l.dirs.len());
        assert(l.in_dir(i).contains(l.in_order(i)[k]));
    }
}

proof fn lemma_firsts_count(keys: Seq<Seq<char>>, n: nat)
    ensures
        firsts(keys, n).len() <= n,
    decreases n,
{
    if n > 0 {
        lemma_firsts_count(keys, (n - 1) as nat);
    }
}

/// The characters of each text.
fn all_letters(v: &Vec<String>) -> (r: Vec<Vec<char>>)
    ensures
        char_texts(r@) == texts(v@),
        r@.len() == v@.len(),
{
    let mut r: Vec<Vec<char>> = Vec::with_capacity(v.len());
    let mut i: usize = 0;
    while i < v.len()
        invariant
            i <= v@.len(),
            r@.len() == i,
            forall|k: int| 0 <= k < i ==> (#[trigger] r@[k])@ == v@[k]@,
        decreases v@.len() - i,
    {
        r.push(letters(v[i].as_str()));
        i = i + 1;
    }
    assert(char_texts(r@) =~= texts(v@));
    r
}

/// Arrange places by their texts.
fn sort_by_text(items: &Vec<usize>, keys: &Vec<Vec<char>>) -> (r: Vec<usize>)
    requires
        forall|i: int| 0 <= i < items@.len() ==> (#[trigger] items@[i]) < keys@.len(),
    ensures
        r@ == arranged(items@, by_text(char_texts(keys@))),
{
    let ghost leq = by_text(char_texts(keys@));
    let mut r: Vec<usize> = Vec::with_capacity(items.len());
    let mut i: usize = 0;
    assert(items@.take(0) =~= Seq::<usize>::empty());
    while i < items.len()
        invariant
            i <= items@.len(),
            leq == by_text(char_texts(keys@)),
            forall|k: int| 0 <= k < items@.len() ==> (#[trigger] items@[k]) < keys@.len(),
            r@ == arranged(items@.take(i as int), leq),
            r@.len() == i,
            forall|k: int| 0 <= k < r@.len() ==> (#[trigger] r@[k]) < keys@.len(),
        decreases items@.len() - i,
    {
        let a: usize = items[i];
        let mut j: usize = r.len();
        while j > 0 && !text_leq(&keys[r[j - 1]], &keys[a])
            invariant
                j <= r@.len(),
                a < keys@.len(),
                leq == by_text(char_texts(keys@)),
                forall|k: int| 0 <= k < r@.len() ==> (#[trigger] r@[k]) < keys@.len(),
                forall|k: int| j <= k < r@.len() ==> !#[trigger] leq(r@[k], a),
            decreases j,
        {
            j = j - 1;
        }
        proof {
            lemma_put_in_at(r@, a, leq, j as int);
            assert(items@.take(i + 1).drop_last() =~= items@.take(i as int));
            assert(r@.insert(j as int, a) =~= r@.take(j as int).push(a) + r@.skip(j as int));
        }
        r.insert(j, a);
        i = i + 1;
    }
    assert(items@.take(i as int) =~= items@);
    r
}

/// The places that are the first with their text.
fn list_firsts(keys: &Vec<Vec<char>>) -> (r: Vec<usize>)
    ensures
        r@ == firsts(char_texts(keys@), keys@.len()),
{
    let ghost t = char_texts(keys@);
    let mut r: Vec<usize> = Vec::new();
    let mut i: usize = 0;
    while i < keys.len()
        invariant
            i <= keys@.len(),
            t == char_texts(keys@),
            r@ == firsts(t, i as nat),
        decreases keys@.len() - i,
    {
        let mut seen: bool = false;
        let mut j: usize = 0;
        while j < i
            invariant
                j <= i < keys@.len(),
                t == char_texts(keys@),
                seen == exists|k: int| 0 <= k < j && #[trigger] t[k] == t[i as int],
            decreases i - j,
        {
            if same_letters(&keys[j], &keys[i]) {
                seen = true;
                assert(t[j as int] == t[i as int]);
            }
            j = j + 1;
        }
        if !seen {
            r.push(i);
        }
        i = i + 1;
    }
    r
}

/// The places that have the given text.
fn list_members(keys: &Vec<Vec<char>>, key: &Vec<char>) -> (r: Vec<usize>)
    ensures
        r@ == members(char_texts(keys@), key@, keys@.len()),
{
    let ghost t = char_texts(keys@);
    let mut r: Vec<usize> = Vec::new();
    let mut i: usize = 0;
    while i < keys.len()
        invariant
            i <= keys@.len(),
            t == char_texts(keys@),
            r@ == members(t, key@, i as nat),
        decreases keys@.len() - i,
    {
        if same_letters(&keys[i], key) {
            r.push(i);
        }
        i = i + 1;
    }
    r
}

/// Runs of places as sequences.
pub open spec fn run_views(runs: Seq<Vec<usize>>) -> Seq<Seq<usize>> {
    Seq::new(runs.len(), |i: int| runs[i]@)
}

pub(crate) proof fn lemma_runs(l: Listing, s: Seq<usize>)
    ensures
        s.len() > 0 ==> l.runs(s).len() > 0 && l.runs(s).last().len() > 0,
        forall|i: int| 0 <= i < l.runs(s).len() ==> (#[trigger] l.runs(s)[i]).len() > 0,
        forall|i: int, k: int|
            0 <= i < l.runs(s).len() && 0 <= k < l.runs(s)[i].len() ==> s.contains(
                #[trigger] l.runs(s)[i][k],
            ),
        l.runs(s).len() <= s.len(),
    decreases s.len(),
{
    if s.len() > 0 {
        let d = s.drop_last();
        lemma_runs(l, d);
        assert forall|i: int, k: int|
            0 <= i < l.runs(s).len() && 0 <= k < l.runs(s)[i].len() implies s.contains(
            #[trigger] l.runs(s)[i][k],
        ) by {
            let x = l.runs(s)[i][k];
            if x == s.last() {
                assert(s[s.len() - 1] == x);
            } else {
                assert(d.contains(l.runs(d)[i][k]));
                let j = choose|j: int| 0 <= j < d.len() && d[j] == x;
                assert(s[j] == x);
            }
        }
    }
}

/// Cut a list wherever two neighbours are not numbered one after the other.
fn split_runs(stems: &Vec<Vec<char>>, s: &Vec<usize>, Ghost(l): Ghost<Listing>) -> (r: Vec<Vec<usize>>)
    requires
        l.stems == char_texts(stems@),
        forall|i: int| 0 <= i < s@.len() ==> (#[trigger] s@[i]) < stems@.len(),
    ensures
        run_views(r@) == l.runs(s@),
        r@.len() == l.runs(s@).len(),
{
    let mut r: Vec<Vec<usize>> = Vec::new();
    let mut i: usize = 0;
    assert(s@.take(0) =~= Seq::<usize>::empty());
    assert(run_views(r@) =~= l.runs(s@.take(0)));
    while i < s.len()
        invariant
            i <= s@.len(),
            l.stems == char_texts(stems@),
            forall|k: int| 0 <= k < s@.len() ==> (#[trigger] s@[k]) < stems@.len(),
            run_views(r@) == l.runs(s@.take(i as int)),
            r@.len() == l.runs(s@.take(i as int)).len(),
        decreases s@.len() - i,
    {
        let ghost before = l.runs(s@.take(i as int));
        proof {
            assert(s@.take(i + 1).drop_last() =~= s@.take(i as int));
            lemma_runs(l, s@.take(i as int));
        }
        if i > 0 && sequential_letters(&stems[s[i - 1]], &stems[s[i]]) {
            let ghost old_runs = r@;
            match r.pop() {
                Some(mut last) => {
                    assert(last@ == run_views(old_runs)[old_runs.len() - 1]);
                    last.push(s[i]);
                    r.push(last);
                    assert forall|k: int| 0 <= k < r@.len() implies #[trigger] run_views(r@)[k]
                        == before.drop_last().push(before.last().push(s@[i as int]))[k] by {
                        if k < r@.len() - 1 {
                            assert(run_views(old_runs)[k] == before[k]);
                        }
                    }
                    assert(run_views(r@) =~= before.drop_last().push(
                        before.last().push(s@[i as int]),
                    ));
                },
                None => {},
            }
        } else {
            let ghost old_runs = r@;
            let mut run: Vec<usize> = Vec::new();
            run.push(s[i]);
            r.push(run);
            assert forall|k: int| 0 <= k < r@.len() implies #[trigger] run_views(r@)[k]
                == before.push(seq![s@[i as int]])[k] by {
                if k < r@.len() - 1 {
                    assert(run_views(old_runs)[k] == before[k]);
                } else {
                    assert(run_views(r@)[k] =~= seq![s@[i as int]]);
                }
            }
            assert(run_views(r@) =~= before.push(seq![s@[i as int]]));
        }
        i = i + 1;
    }
    assert(s@.take(i as int) =~= s@);
    r
}

/// A copy of a text, if there is one.
fn copy_text(s: &Option<String>) -> (r: Option<String>)
    ensures
        text_view(r) == text_view(*s),
{
    match s {
        Some(t) => Some(t.clone()),
        None => None,
    }
}

/// The group of the files at the given places.
fn make_group(
    paths: &Vec<String>,
    places: &Vec<usize>,
    is_confirmed: bool,
    camera_model: Option<String>,
    Ghost(l): Ghost<Listing>,
) -> (g: PixelShiftBurstGroup)
    requires
        l.paths == texts(paths@),
        forall|i: int| 0 <= i < places@.len() ==> (#[trigger] places@[i]) < paths@.len(),
    ensures
        g.plain() == l.shown(
            (Burst { members: places@, is_confirmed, camera_model: text_view(camera_model) }),
        ),
{
    let mut chosen: Vec<String> = Vec::with_capacity(places.len());
    let mut i: usize = 0;
    while i < places.len()
        invariant
            i <= places@.len(),
            l.paths == texts(paths@),
            forall|k: int| 0 <= k < places@.len() ==> (#[trigger] places@[k]) < paths@.len(),
            chosen@.len() == i,
            forall|k: int|
                0 <= k < i ==> (#[trigger] chosen@[k])@ == l.paths[places@[k] as int],
        decreases places@.len() - i,
    {
        chosen.push(paths[places[i]].clone());
        i = i + 1;
    }
    let ghost b = Burst { members: places@, is_confirmed, camera_model: text_view(camera_model) };
    assert(texts(chosen@) =~= l.shown(b).paths);
    PixelShiftBurstGroup { paths: chosen, frame_count: places.len(), is_confirmed, camera_model }
}

/// The listing of some files.
pub open spec fn listing_of(
    paths: Seq<Seq<char>>,
    dirs: Seq<Seq<char>>,
    stems: Seq<Seq<char>>,
    infos: Seq<Option<PixelShiftInfo>>,
) -> Listing {
    Listing { paths, dirs, stems, claims: claims_of(infos) }
}

/// Append the bursts of one directory.
fn add_bursts(
    groups: &mut Vec<PixelShiftBurstGroup>,
    paths: &Vec<String>,
    infos: &Vec<Option<PixelShiftInfo>>,
    runs: &Vec<Vec<usize>>,
    Ghost(l): Ghost<Listing>,
    Ghost(start): Ghost<Seq<Burst>>,
)
    requires
        l.paths == texts(paths@),
        l.claims == claims_of(infos@),
        infos@.len() == paths@.len(),
        plain_groups(old(groups)@) == l.shown_all(start),
        forall|i: int, k: int|
            0 <= i < runs@.len() && 0 <= k < runs@[i]@.len() ==> (#[trigger] runs@[i]@[k])
                < paths@.len(),
    ensures
        plain_groups(final(groups)@) == l.shown_all(start + l.bursts_of(run_views(runs@))),
{
    let ghost all = run_views(runs@);
    let mut i: usize = 0;
    assert(all.take(0) =~= Seq::<Seq<usize>>::empty());
    assert(start + l.bursts_of(all.take(0)) =~= start);
    while i < runs.len()
        invariant
            i <= runs@.len(),
            all == run_views(runs@),
            l.paths == texts(paths@),
            l.claims == claims_of(infos@),
            infos@.len() == paths@.len(),
            plain_groups(groups@) == l.shown_all(start + l.bursts_of(all.take(i as int))),
            forall|j: int, k: int|
                0 <= j < runs@.len() && 0 <= k < runs@[j]@.len() ==> (#[trigger] runs@[j]@[k])
                    < paths@.len(),
        decreases runs@.len() - i,
    {
        let run = &runs[i];
        let ghost before = start + l.bursts_of(all.take(i as int));
        let ghost after = start + l.bursts_of(all.take(i + 1));
        let ghost old_groups = groups@;
        proof {
            assert(all.take(i + 1).drop_last() =~= all.take(i as int));
            assert(all.take(i + 1).last() == run@);
            assert(plain_groups(old_groups).len() == before.len());
        }
        if run.len() >= 2 {
            let mut is_confirmed: bool = false;
            let mut camera_model: Option<String> = None;
            match &infos[run[0]] {
                Some(info) => {
                    is_confirmed = info.is_pixel_shift;
                    camera_model = copy_text(&info.camera_model);
                },
                None => {},
            }
            let ghost b = Burst {
                members: run@,
                is_confirmed,
                camera_model: text_view(camera_model),
            };
            assert(l.claims[run@[0] as int] == claims_of(infos@)[run@[0] as int]);
            assert(after =~= before.push(b));
            let group = make_group(paths, run, is_confirmed, camera_model, Ghost(l));
            groups.push(group);
            assert forall|k: int| 0 <= k < groups@.len() implies #[trigger] plain_groups(groups@)[k]
                == l.shown_all(after)[k] by {
                if k < groups@.len() - 1 {
                    assert(plain_groups(old_groups)[k] == l.shown_all(before)[k]);
                }
            }
            assert(plain_groups(groups@) =~= l.shown_all(after));
        } else {
            assert(after =~= before);
        }
        i = i + 1;
    }
    assert(all.take(i as int) =~= all);
}

/// Group files into bursts, given their directories, the stems of their names, and what is known of
/// them. Of each run of numbered files only what is known of the first one matters.
pub fn group_bursts(
    paths: &Vec<String>,
    dirs: &Vec<String>,
    stems: &Vec<String>,
    infos: &Vec<Option<PixelShiftInfo>>,
) -> (groups: Vec<PixelShiftBurstGroup>)
    requires
        dirs@.len() == paths@.len(),
        stems@.len() == paths@.len(),
        infos@.len() == paths@.len(),
    ensures
        ({
            let l = listing_of(texts(paths@), texts(dirs@), texts(stems@), infos@);
            plain_groups(groups@) == l.shown_all(l.bursts())
        }),
{
    let ghost l = listing_of(texts(paths@), texts(dirs@), texts(stems@), infos@);
    assert(paths.len() == paths@.len());
    proof {
        lemma_places(l);
    }
    let path_letters = all_letters(paths);
    let dir_letters = all_letters(dirs);
    let stem_letters = all_letters(stems);
    let first_in_dir = list_firsts(&dir_letters);
    proof {
        lemma_firsts(l.dirs, l.dirs.len());
    }
    let order = sort_by_text(&first_in_dir, &dir_letters);

    // Runs of numbered files.
    let mut groups: Vec<PixelShiftBurstGroup> = Vec::new();
    let mut k: usize = 0;
    assert(plain_groups(groups@) =~= l.shown_all(l.numbered(0)));
    while k < order.len()
        invariant
            k <= order@.len(),
            l.wf(),
            l == listing_of(texts(paths@), texts(dirs@), texts(stems@), infos@),
            order@ == l.dir_order(),
            char_texts(path_letters@) == l.paths,
            char_texts(dir_letters@) == l.dirs,
            char_texts(stem_letters@) == l.stems,
            plain_groups(groups@) == l.shown_all(l.numbered(k as nat)),
        decreases order@.len() - k,
    {
        proof {
            lemma_places(l);
        }
        let rep: usize = order[k];
        assert(rep < l.paths.len());
        let files = list_members(&dir_letters, &dir_letters[rep]);
        assert(files@ == l.in_dir(rep));
        assert forall|i: int| 0 <= i < files@.len() implies (#[trigger] files@[i])
            < path_letters@.len() by {
            assert(l.in_dir(rep)[i] < l.paths.len());
        }
        let sorted = sort_by_text(&files, &path_letters);
        assert(sorted@ == l.in_order(rep));
        assert forall|i: int| 0 <= i < sorted@.len() implies (#[trigger] sorted@[i])
            < stem_letters@.len() by {
            assert(l.in_order(rep)[i] < l.paths.len());
        }
        let runs = split_runs(&stem_letters, &sorted, Ghost(l));
        proof {
            lemma_runs(l, sorted@);
            assert forall|i: int, j: int|
                0 <= i < runs@.len() && 0 <= j < runs@[i]@.len() implies (#[trigger] runs@[i]@[j])
                < paths@.len() by {
                assert(runs@[i]@ == l.runs(sorted@)[i]);
                assert(sorted@.contains(l.runs(sorted@)[i][j]));
                let t = choose|t: int| 0 <= t < sorted@.len() && sorted@[t] == runs@[i]@[j];
                assert(l.in_order(rep)[t] < l.paths.len());
            }
        }
        add_bursts(&mut groups, paths, infos, &runs, Ghost(l), Ghost(l.numbered(k as nat)));
        k = k + 1;
    }
    if groups.len() > 0 {
        assert(plain_groups(groups@).len() > 0);
        return groups;
    }
    assert(l.numbered(order@.len()).len() == 0) by {
        assert(l.shown_all(l.numbered(order@.len())).len() == 0);
    }

    // Whole directories.
    let mut k: usize = 0;
    assert(plain_groups(groups@) =~= l.shown_all(l.whole_dirs(0)));
    while k < order.len()
        invariant
            k <= order@.len(),
            l.wf(),
            l == listing_of(texts(paths@), texts(dirs@), texts(stems@), infos@),
            order@ == l.dir_order(),
            char_texts(dir_letters@) == l.dirs,
            plain_groups(groups@) == l.shown_all(l.whole_dirs(k as nat)),
        decreases order@.len() - k,
    {
        proof {
            lemma_places(l);
        }
        let rep: usize = order[k];
        assert(rep < l.paths.len());
        let files = list_members(&dir_letters, &dir_letters[rep]);
        assert(files@ == l.in_dir(rep));
        let ghost before = l.whole_dirs(k as nat);
        let ghost after = l.whole_dirs((k + 1) as nat);
        let ghost old_groups = groups@;
        assert(plain_groups(old_groups).len() == before.len());
        if files.len() >= 2 {
            assert forall|i: int| 0 <= i < files@.len() implies (#[trigger] files@[i])
                < paths@.len() by {
                assert(l.in_dir(rep)[i] < l.paths.len());
            }
            let group = make_group(paths, &files, false, None, Ghost(l));
            groups.push(group);
            assert forall|j: int| 0 <= j < groups@.len() implies #[trigger] plain_groups(groups@)[j]
                == l.shown_all(after)[j] by {
                if j < groups@.len() - 1 {
                    assert(plain_groups(old_groups)[j] == l.shown_all(before)[j]);
                }
            }
            assert(plain_groups(groups@) =~= l.shown_all(after));
        }
        k = k + 1;
    }
    if groups.len() > 0 {
        assert(plain_groups(groups@).len() > 0);
        return groups;
    }
    assert(l.whole_dirs(order@.len()).len() == 0) by {
        assert(l.shown_all(l.whole_dirs(order@.len())).len() == 0);
    }

    // All files together.
    if paths.len() >= 2 {
        let mut all: Vec<usize> = Vec::with_capacity(paths.len());
        let mut i: usize = 0;
        while i < paths.len()
            invariant
                i <= paths@.len(),
                all@ == Seq::new(i as nat, |t: int| t as usize),
            decreases paths@.len() - i,
        {
            all.push(i);
            assert(all@ =~= Seq::new((i + 1) as nat, |t: int| t as usize));
            i = i + 1;
        }
        let group = make_group(paths, &all, false, None, Ghost(l));
        groups.push(group);
        assert(plain_groups(groups@) =~= l.shown_all(l.everything()));
    } else {
        assert(plain_groups(groups@) =~= l.shown_all(l.everything()));
    }
    groups
}

/// The listing of files whose metadata was not read yet.
pub open spec fn unread(
    paths: Seq<Seq<char>>,
    dirs: Seq<Seq<char>>,
    stems: Seq<Seq<char>>,
) -> Listing {
    Listing {
        paths,
        dirs,
        stems,
        claims: Seq::new(
            paths.len(),
            |i: int| Claim { is_pixel_shift: false, camera_model: None },
        ),
    }
}

/// Append the first file of each run of two and more files.
fn add_starts(places: &mut Vec<usize>, runs: &Vec<Vec<usize>>, Ghost(l): Ghost<Listing>)
    ensures
        final(places)@ == old(places)@ + starts_of(l.bursts_of(run_views(runs@))),
{
    let ghost start = places@;
    let ghost all = run_views(runs@);
    let mut i: usize = 0;
    assert(all.take(0) =~= Seq::<Seq<usize>>::empty());
    assert(places@ =~= start + starts_of(l.bursts_of(all.take(0))));
    while i < runs.len()
        invariant
            i <= runs@.len(),
            all == run_views(runs@),
            places@ == start + starts_of(l.bursts_of(all.take(i as int))),
        decreases runs@.len() - i,
    {
        let run = &runs[i];
        let ghost before = l.bursts_of(all.take(i as int));
        let ghost after = l.bursts_of(all.take(i + 1));
        proof {
            assert(all.take(i + 1).drop_last() =~= all.take(i as int));
            assert(all.take(i + 1).last() == run@);
        }
        if run.len() >= 2 {
            assert(after.drop_last() =~= before);
            places.push(run[0]);
            assert(places@ =~= start + starts_of(after));
        }
        i = i + 1;
    }
    assert(all.take(i as int) =~= all);
}

/// The places of the files whose metadata decides about bursts, given the directories and the stems
/// of the names: the first file of each run of numbered files.
pub fn probe_places(
    paths: &Vec<String>,
    dirs: &Vec<String>,
    stems: &Vec<String>,
) -> (places: Vec<usize>)
    requires
        dirs@.len() == paths@.len(),
        stems@.len() == paths@.len(),
    ensures
        places@ == unread(texts(paths@), texts(dirs@), texts(stems@)).probes(),
        forall|k: int| 0 <= k < places@.len() ==> (#[trigger] places@[k]) < paths@.len(),
{
    let ghost l = unread(texts(paths@), texts(dirs@), texts(stems@));
    assert(paths.len() == paths@.len());
    proof {
        lemma_places(l);
        lemma_firsts(l.dirs, l.dirs.len());
    }
    let path_letters = all_letters(paths);
    let dir_letters = all_letters(dirs);
    let stem_letters = all_letters(stems);
    let first_in_dir = list_firsts(&dir_letters);
    let order = sort_by_text(&first_in_dir, &dir_letters);
    let mut places: Vec<usize> = Vec::with_capacity(order.len());
    let mut k: usize = 0;
    assert(places@ =~= starts_of(l.numbered(0)));
    while k < order.len()
        invariant
            k <= order@.len(),
            l.wf(),
            l.paths.len() == paths@.len(),
            order@ == l.dir_order(),
            char_texts(path_letters@) == l.paths,
            char_texts(dir_letters@) == l.dirs,
            char_texts(stem_letters@) == l.stems,
            places@ == starts_of(l.numbered(k as nat)),
        decreases order@.len() - k,
    {
        proof {
            lemma_places(l);
        }
        let rep: usize = order[k];
        assert(rep < l.paths.len());
        let files = list_members(&dir_letters, &dir_letters[rep]);
        assert(files@ == l.in_dir(rep));
        assert forall|i: int| 0 <= i < files@.len() implies (#[trigger] files@[i])
            < path_letters@.len() by {
            assert(l.in_dir(rep)[i] < l.paths.len());
        }
        let sorted = sort_by_text(&files, &path_letters);
        assert(sorted@ == l.in_order(rep));
        assert forall|i: int| 0 <= i < sorted@.len() implies (#[trigger] sorted@[i])
            < stem_letters@.len() by {
            assert(l.in_order(rep)[i] < l.paths.len());
        }
        let runs = split_runs(&stem_letters, &sorted, Ghost(l));
        add_starts(&mut places, &runs, Ghost(l));
        assert(places@ =~= starts_of(l.numbered((k + 1) as nat)));
        k = k + 1;
    }
    proof {
        let n = order@.len();
        lemma_numbered(l, n);
        lemma_places(l);
        assert forall|i: int| 0 <= i < places@.len() implies (#[trigger] places@[i])
            < paths@.len() by {
            let b = l.numbered(n)[i];
            let j = choose|j: int|
                0 <= j < n && (#[trigger] l.runs(l.in_order(l.dir_order()[j]))).contains(b.members);
            let s = l.in_order(l.dir_order()[j]);
            let t = choose|t: int| 0 <= t < l.runs(s).len() && l.runs(s)[t] == b.members;
            lemma_runs(l, s);
            assert(s.contains(l.runs(s)[t][0]));
            let u = choose|u: int| 0 <= u < s.len() && s[u] == b.members[0];
            assert(l.in_order(l.dir_order()[j])[u] < l.paths.len());
        }
    }
    places
}

/// Whether a text is the directory of a path, empty where it has none.
pub open spec fn is_dir(path: Seq<char>, dir: Seq<char>) -> bool {
    &&& exists|found: Option<Seq<char>>| #[trigger] has_parent(path, found) && dir == or_empty(found)
    &&& is_tidy(path) ==> dir == dir_of(path)
}

/// Whether `dirs` are the directories of the paths.
pub open spec fn are_dirs(paths: Seq<Seq<char>>, dirs: Seq<Seq<char>>) -> bool {
    &&& dirs.len() == paths.len()
    &&& forall|i: int| 0 <= i < paths.len() ==> is_dir(paths[i], #[trigger] dirs[i])
}

/// Whether `stems` are the stems of the file names.
pub open spec fn are_stems(paths: Seq<Seq<char>>, stems: Seq<Seq<char>>) -> bool {
    &&& stems.len() == paths.len()
    &&& forall|i: int| 0 <= i < paths.len() ==> is_stem(paths[i], #[trigger] stems[i])
}

/// The directory of a path, empty where it has none.
fn dir_or_empty(path: &str) -> (r: String)
    ensures
        is_dir(path@, r@),
{
    let found = find_parent(path);
    let ghost answer = text_view(found);
    assert(has_parent(path@, answer));
    match found {
        Some(dir) => dir,
        None => {
            let dir = String::new();
            assert(dir@ =~= or_empty(answer));
            dir
        },
    }
}

/// The directory of each path, empty where it has none.
pub fn directories(paths: &Vec<String>) -> (dirs: Vec<String>)
    ensures
        are_dirs(texts(paths@), texts(dirs@)),
        dirs@.len() == paths@.len(),
{
    let mut dirs: Vec<String> = Vec::with_capacity(paths.len());
    let mut i: usize = 0;
    while i < paths.len()
        invariant
            i <= paths@.len(),
            dirs@.len() == i,
            forall|k: int| 0 <= k < i ==> is_dir(paths@[k]@, (#[trigger] dirs@[k])@),
        decreases paths@.len() - i,
    {
        dirs.push(dir_or_empty(paths[i].as_str()));
        i = i + 1;
    }
    assert forall|k: int| 0 <= k < paths@.len() implies is_dir(
        texts(paths@)[k],
        #[trigger] texts(dirs@)[k],
    ) by {
        assert(is_dir(paths@[k]@, dirs@[k]@));
    }
    dirs
}

/// The stem of each file name, empty where there is none.
pub fn file_stems(paths: &Vec<String>) -> (stems: Vec<String>)
    ensures
        are_stems(texts(paths@), texts(stems@)),
        stems@.len() == paths@.len(),
{
    let mut stems: Vec<String> = Vec::with_capacity(paths.len());
    let mut i: usize = 0;
    while i < paths.len()
        invariant
            i <= paths@.len(),
            stems@.len() == i,
            forall|k: int| 0 <= k < i ==> is_stem(paths@[k]@, (#[trigger] stems@[k])@),
        decreases paths@.len() - i,
    {
        stems.push(stem_or_empty(paths[i].as_str()));
        i = i + 1;
    }
    assert forall|k: int| 0 <= k < paths@.len() implies is_stem(
        texts(paths@)[k],
        #[trigger] texts(stems@)[k],
    ) by {
        assert(is_stem(paths@[k]@, stems@[k]@));
    }
    stems
}

/// The places of the files whose metadata is to be read before [`detect_pixel_shift_burst`] is
/// asked.
pub fn burst_probes(paths: &Vec<String>) -> (places: Vec<usize>)
    ensures
        exists|dirs: Seq<Seq<char>>, stems: Seq<Seq<char>>|
            are_dirs(texts(paths@), dirs) && are_stems(texts(paths@), stems) && places@ == (
            #[trigger] unread(texts(paths@), dirs, stems)).probes(),
        forall|k: int| 0 <= k < places@.len() ==> (#[trigger] places@[k]) < paths@.len(),
{
    let dirs = directories(paths);
    let stems = file_stems(paths);
    probe_places(paths, &dirs, &stems)
}

/// Detect bursts among files, given what is known of each of them.
///
/// Files of one directory whose names are numbered one after the other form a burst. Where there
/// is none, each directory with two and more files does; and where there is no such directory, all
/// files together.
pub fn detect_pixel_shift_burst(
    paths: &Vec<String>,
    infos: &Vec<Option<PixelShiftInfo>>,
) -> (groups: Vec<PixelShiftBurstGroup>)
    requires
        infos@.len() == paths@.len(),
    ensures
        exists|dirs: Seq<Seq<char>>, stems: Seq<Seq<char>>|
            {
                let l = #[trigger] listing_of(texts(paths@), dirs, stems, infos@);
                &&& are_dirs(texts(paths@), dirs)
                &&& are_stems(texts(paths@), stems)
                &&& plain_groups(groups@) == l.shown_all(l.bursts())
            },
        paths@.len() >= 2 ==> groups@.len() > 0,
        paths@.len() < 2 ==> groups@.len() == 0,
{
    let dirs = directories(paths);
    let stems = file_stems(paths);
    let groups = group_bursts(paths, &dirs, &stems, infos);
    proof {
        let l = listing_of(texts(paths@), texts(dirs@), texts(stems@), infos@);
        assert(paths.len() == paths@.len());
        assert(plain_groups(groups@).len() == l.bursts().len());
        two_files_make_a_burst(l);
    }
    groups
}

proof fn lemma_bursts_of(l: Listing, runs: Seq<Seq<usize>>)
    ensures
        forall|i: int|
            0 <= i < l.bursts_of(runs).len() ==> {
                &&& (#[trigger] l.bursts_of(runs)[i]).members.len() >= 2
                &&& runs.contains(l.bursts_of(runs)[i].members)
            },
        (forall|i: int| 0 <= i < runs.len() ==> (#[trigger] runs[i]).len() < 2) ==> l.bursts_of(
            runs,
        ).len() == 0,
    decreases runs.len(),
{
    if runs.len() > 0 {
        let d = runs.drop_last();
        lemma_bursts_of(l, d);
        assert forall|i: int| 0 <= i < l.bursts_of(runs).len() implies {
            &&& (#[trigger] l.bursts_of(runs)[i]).members.len() >= 2
            &&& runs.contains(l.bursts_of(runs)[i].members)
        } by {
            let b = l.bursts_of(runs)[i];
            if i < l.bursts_of(d).len() {
                assert(b == l.bursts_of(d)[i]);
                let k = choose|k: int| 0 <= k < d.len() && d[k] == b.members;
                assert(runs[k] == b.members);
            } else {
                assert(runs[runs.len() - 1] == b.members);
            }
        }
        if forall|i: int| 0 <= i < runs.len() ==> (#[trigger] runs[i]).len() < 2 {
            assert forall|i: int| 0 <= i < d.len() implies (#[trigger] d[i]).len() < 2 by {
                assert(runs[i].len() < 2);
            }
            assert(runs[runs.len() - 1].len() < 2);
        }
    }
}

proof fn lemma_numbered(l: Listing, k: nat)
    requires
        k <= l.dir_order().len(),
    ensures
        forall|i: int|
            0 <= i < l.numbered(k).len() ==> (#[trigger] l.numbered(k)[i]).members.len() >= 2,
        forall|i: int|
            0 <= i < l.numbered(k).len() ==> exists|j: int|
                0 <= j < k && (#[trigger] l.runs(l.in_order(l.dir_order()[j]))).contains(
                    (#[trigger] l.numbered(k)[i]).members,
                ),
    decreases k,
{
    if k > 0 {
        lemma_numbered(l, (k - 1) as nat);
        let before = l.numbered((k - 1) as nat);
        let runs = l.runs(l.in_order(l.dir_order()[k - 1]));
        lemma_bursts_of(l, runs);
        assert forall|i: int| 0 <= i < l.numbered(k).len() implies (#[trigger] l.numbered(
            k,
        )[i]).members.len() >= 2 && exists|j: int|
            0 <= j < k && (#[trigger] l.runs(l.in_order(l.dir_order()[j]))).contains(
                l.numbered(k)[i].members,
            ) by {
            if i < before.len() {
                assert(l.numbered(k)[i] == before[i]);
            } else {
                assert(l.numbered(k)[i] == l.bursts_of(runs)[i - before.len()]);
                assert(l.runs(l.in_order(l.dir_order()[k - 1])).contains(
                    l.numbered(k)[i].members,
                ));
            }
        }
    }
}

proof fn lemma_whole_dirs(l: Listing, k: nat)
    ensures
        forall|i: int|
            0 <= i < l.whole_dirs(k).len() ==> (#[trigger] l.whole_dirs(k)[i]).members.len() >= 2,
    decreases k,
{
    if k > 0 {
        lemma_whole_dirs(l, (k - 1) as nat);
        let before = l.whole_dirs((k - 1) as nat);
        assert forall|i: int| 0 <= i < l.whole_dirs(k).len() implies (#[trigger] l.whole_dirs(
            k,
        )[i]).members.len() >= 2 by {
            if i < before.len() {
                assert(l.whole_dirs(k)[i] == before[i]);
            }
        }
    }
}

/// Every burst has two and more files.
pub proof fn bursts_have_two_files(l: Listing, i: int)
    requires
        0 <= i < l.bursts().len(),
    ensures
        l.bursts()[i].members.len() >= 2,
{
    lemma_numbered(l, l.dir_order().len());
    lemma_whole_dirs(l, l.dir_order().len());
}

/// Two and more files always make at least one burst, and fewer make none.
pub proof fn two_files_make_a_burst(l: Listing)
    requires
        l.wf(),
    ensures
        l.bursts().len() > 0 <==> l.paths.len() >= 2,
{
    let n = l.dir_order().len();
    if l.paths.len() < 2 {
        lemma_few_files(l, n);
    }
}

proof fn lemma_few_files(l: Listing, k: nat)
    requires
        l.wf(),
        l.paths.len() < 2,
        k <= l.dir_order().len(),
    ensures
        l.numbered(k).len() == 0,
        l.whole_dirs(k).len() == 0,
    decreases k,
{
    if k > 0 {
        lemma_few_files(l, (k - 1) as nat);
        lemma_places(l);
        let rep = l.dir_order()[k - 1];
        lemma_member_count(l.dirs, l.dirs[rep as int], l.dirs.len());
        let s = l.in_order(rep);
        assert(s.len() <= 1);
        lemma_run_lengths(l, s);
        lemma_bursts_of(l, l.runs(s));
    }
}

proof fn lemma_member_count(keys: Seq<Seq<char>>, key: Seq<char>, n: nat)
    ensures
        members(keys, key, n).len() <= n,
    decreases n,
{
    if n > 0 {
        lemma_member_count(keys, key, (n - 1) as nat);
    }
}

proof fn lemma_run_lengths(l: Listing, s: Seq<usize>)
    ensures
        forall|i: int| 0 <= i < l.runs(s).len() ==> (#[trigger] l.runs(s)[i]).len() <= s.len(),
    decreases s.len(),
{
    if s.len() > 0 {
        lemma_run_lengths(l, s.drop_last());
        lemma_runs(l, s.drop_last());
    }
}

/// The runs of a list, one behind the other.
pub open spec fn joined(runs: Seq<Seq<usize>>) -> Seq<usize>
    decreases runs.len(),
{
    if runs.len() == 0 {
        Seq::empty()
    } else {
        joined(runs.drop_last()) + runs.last()
    }
}

/// Cutting a list into runs loses nothing and changes no order: the runs one behind the other are
/// the list.
pub proof fn runs_join_to_the_list(l: Listing, s: Seq<usize>)
    ensures
        joined(l.runs(s)) == s,
    decreases s.len(),
{
    if s.len() > 0 {
        let d = s.drop_last();
        runs_join_to_the_list(l, d);
        lemma_runs(l, d);
        let before = l.runs(d);
        if s.len() >= 2 && are_sequential(
            l.stems[s[s.len() - 2] as int],
            l.stems[s.last() as int],
        ) {
            let longer = before.last().push(s.last());
            assert(before.drop_last().push(longer).drop_last() =~= before.drop_last());
            assert(joined(before.drop_last()) + longer =~= (joined(before.drop_last())
                + before.last()).push(s.last()));
        } else {
            assert(before.push(seq![s.last()]).drop_last() =~= before);
            assert(joined(before) + seq![s.last()] =~= d.push(s.last()));
        }
        assert(d.push(s.last()) =~= s);
    }
}

/// Within a run each file is numbered next to the one before it.
pub proof fn runs_are_sequential(l: Listing, s: Seq<usize>, i: int, k: int)
    requires
        0 <= i < l.runs(s).len(),
        0 < k < l.runs(s)[i].len(),
    ensures
        are_sequential(
            l.stems[l.runs(s)[i][k - 1] as int],
            l.stems[l.runs(s)[i][k] as int],
        ),
    decreases s.len(),
{
    let d = s.drop_last();
    let before = l.runs(d);
    lemma_runs(l, d);
    lemma_last_run(l, d);
    let linked = s.len() >= 2 && are_sequential(
        l.stems[s[s.len() - 2] as int],
        l.stems[s.last() as int],
    );
    if linked {
        if i < before.len() - 1 {
            runs_are_sequential(l, d, i, k);
        } else if k < before.last().len() {
            runs_are_sequential(l, d, i, k);
        } else {
            assert(l.runs(s)[i][k - 1] == before.last().last());
        }
    } else if i < before.len() {
        runs_are_sequential(l, d, i, k);
    }
}

pub(crate) proof fn lemma_last_run(l: Listing, s: Seq<usize>)
    ensures
        s.len() > 0 ==> l.runs(s).last().last() == s.last(),
    decreases s.len(),
{
    if s.len() > 0 {
        lemma_runs(l, s.drop_last());
    }
}

/// The files of a directory are the paths that stand in it, each of them once.
pub proof fn directory_holds_its_files(l: Listing, i: usize, p: usize)
    requires
        l.wf(),
        i < l.paths.len(),
        p < l.paths.len(),
    ensures
        l.in_dir(i).contains(p) <==> l.dirs[p as int] == l.dirs[i as int],
        forall|j: int, k: int|
            0 <= j < k < l.in_dir(i).len() ==> #[trigger] l.in_dir(i)[j] < #[trigger] l.in_dir(i)[k],
{
    lemma_members(l.dirs, l.dirs[i as int], l.dirs.len());
    if l.in_dir(i).contains(p) {
        let k = choose|k: int| 0 <= k < l.in_dir(i).len() && l.in_dir(i)[k] == p;
        assert(l.dirs[l.in_dir(i)[k] as int] == l.dirs[i as int]);
    }
}

/// The files of a directory are arranged by their paths.
pub proof fn files_are_in_order(l: Listing, i: usize, j: int, k: int)
    requires
        0 <= j <= k < l.in_order(i).len(),
    ensures
        l.in_order(i).to_multiset() == l.in_dir(i).to_multiset(),
        lex_leq(l.paths[l.in_order(i)[j] as int], l.paths[l.in_order(i)[k] as int]),
{
    let leq = by_text(l.paths);
    assert forall|a: usize, b: usize| #[trigger] leq(a, b) || leq(b, a) by {
        lex_is_total(l.paths[a as int], l.paths[b as int]);
    }
    assert forall|a: usize, b: usize, c: usize| #[trigger] leq(a, b) && #[trigger] leq(
        b,
        c,
    ) implies leq(a, c) by {
        lex_is_transitive(l.paths[a as int], l.paths[b as int], l.paths[c as int]);
    }
    arranged_is_ascending(l.in_dir(i), leq);
    assert(leq(l.in_order(i)[j], l.in_order(i)[k]));
}

proof fn lemma_same_runs(a: Listing, b: Listing, s: Seq<usize>)
    requires
        a.stems == b.stems,
    ensures
        a.runs(s) == b.runs(s),
    decreases s.len(),
{
    if s.len() > 0 {
        lemma_same_runs(a, b, s.drop_last());
    }
}

proof fn lemma_same_bursts_of(a: Listing, b: Listing, runs: Seq<Seq<usize>>)
    requires
        forall|i: int|
            0 <= i < a.bursts_of(runs).len() ==> a.claims[(#[trigger] a.bursts_of(
                runs,
            )[i]).members[0] as int] == b.claims[a.bursts_of(runs)[i].members[0] as int],
    ensures
        a.bursts_of(runs) == b.bursts_of(runs),
    decreases runs.len(),
{
    if runs.len() > 0 {
        let before = a.bursts_of(runs.drop_last());
        assert forall|i: int| 0 <= i < before.len() implies a.claims[(
        #[trigger] before[i]).members[0] as int] == b.claims[before[i].members[0] as int] by {
            assert(a.bursts_of(runs)[i] == before[i]);
        }
        lemma_same_bursts_of(a, b, runs.drop_last());
        if runs.last().len() >= 2 {
            assert(a.bursts_of(runs)[before.len() as int].members == runs.last());
        }
    }
}

/// Whether two listings know the same of the first file of each burst.
pub open spec fn agree_on(a: Listing, b: Listing, bursts: Seq<Burst>) -> bool {
    forall|i: int|
        0 <= i < bursts.len() ==> a.claims[(#[trigger] bursts[i]).members[0] as int]
            == b.claims[bursts[i].members[0] as int]
}

proof fn lemma_same_numbered(a: Listing, b: Listing, k: nat)
    requires
        a.paths == b.paths,
        a.dirs == b.dirs,
        a.stems == b.stems,
        agree_on(a, b, a.numbered(k)),
    ensures
        a.numbered(k) == b.numbered(k),
        a.whole_dirs(k) == b.whole_dirs(k),
    decreases k,
{
    if k > 0 {
        let before = a.numbered((k - 1) as nat);
        let s = a.in_order(a.dir_order()[k - 1]);
        let here = a.bursts_of(a.runs(s));
        assert forall|i: int| 0 <= i < before.len() implies a.claims[(
        #[trigger] before[i]).members[0] as int] == b.claims[before[i].members[0] as int] by {
            assert(a.numbered(k)[i] == before[i]);
        }
        assert forall|i: int| 0 <= i < here.len() implies a.claims[(
        #[trigger] here[i]).members[0] as int] == b.claims[here[i].members[0] as int] by {
            assert(a.numbered(k)[before.len() + i] == here[i]);
        }
        lemma_same_numbered(a, b, (k - 1) as nat);
        lemma_same_runs(a, b, s);
        lemma_same_bursts_of(a, b, a.runs(s));
    }
}

/// Only the metadata of the probed files matters: listings of the same files that know the same of
/// those have the same bursts.
pub proof fn only_probes_matter(a: Listing, b: Listing)
    requires
        a.paths == b.paths,
        a.dirs == b.dirs,
        a.stems == b.stems,
        forall|j: int|
            0 <= j < a.probes().len() ==> a.claims[#[trigger] a.probes()[j] as int]
                == b.claims[a.probes()[j] as int],
    ensures
        a.bursts() == b.bursts(),
{
    let n = a.dir_order().len();
    assert forall|i: int| 0 <= i < a.numbered(n).len() implies a.claims[(#[trigger] a.numbered(
        n,
    )[i]).members[0] as int] == b.claims[a.numbered(n)[i].members[0] as int] by {
        assert(a.probes()[i] == a.numbered(n)[i].members[0]);
    }
    lemma_same_numbered(a, b, n);
}

proof fn lemma_bursts_claim(l: Listing, runs: Seq<Seq<usize>>, i: int)
    requires
        0 <= i < l.bursts_of(runs).len(),
    ensures
        l.follows_first(l.bursts_of(runs)[i]),
    decreases runs.len(),
{
    let before = l.bursts_of(runs.drop_last());
    if i < before.len() {
        lemma_bursts_claim(l, runs.drop_last(), i);
        assert(l.bursts_of(runs)[i] == before[i]);
    }
}

proof fn lemma_numbered_claim(l: Listing, k: nat, i: int)
    requires
        0 <= i < l.numbered(k).len(),
    ensures
        l.follows_first(l.numbered(k)[i]),
    decreases k,
{
    let before = l.numbered((k - 1) as nat);
    if i < before.len() {
        lemma_numbered_claim(l, (k - 1) as nat, i);
        assert(l.numbered(k)[i] == before[i]);
    } else {
        let runs = l.runs(l.in_order(l.dir_order()[k - 1]));
        lemma_bursts_claim(l, runs, i - before.len());
        assert(l.numbered(k)[i] == l.bursts_of(runs)[i - before.len()]);
    }
}

/// Where files are numbered one after the other, each burst is confirmed by the metadata of its own
/// first file, and has its camera model.
pub proof fn first_file_confirms_its_burst(l: Listing, i: int)
    requires
        l.numbered(l.dir_order().len()).len() > 0,
        0 <= i < l.bursts().len(),
    ensures
        l.follows_first(l.bursts()[i]),
{
    lemma_numbered_claim(l, l.dir_order().len(), i);
}

} // verus!
