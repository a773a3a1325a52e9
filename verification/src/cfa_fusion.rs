//! Fusing raw mosaics, without demosaicing.
//!
//! All samples of all frames are mapped into one output grid. Each output pixel collects the red,
//! green and blue measurements of the sensor positions around it.

use crate::exact::{
    exact_add, exact_coarse_mul, exact_div, exact_from, exact_mul, exact_sub, fits, is_exact, lemma_compare,
    lemma_constants, lemma_finer, lemma_is_finite, stands_for,
};
use crate::float::{
    clamp, clamp_stays_within, le, lt, max, min, units, FloatOp, FloatUnit, HALF, ONE, WORD_MAX, ZERO,
};
use crate::frame::{
    lemma_index_pixel, lemma_pixel_index, lemma_pixel_product, pixel_index, RgbaFrame,
};
use crate::noise_model::NoiseModel;
use crate::order::{ranked, ranked_is_sorted, sort_samples};
use crate::raw::{
    decode_file, decodes_to, is_pattern, pattern_color, Cfa, RawError, RawRecord, RawSamples,
};
use crate::skr_fusion::{held, hold, lemma_parts, Color};
use crate::text::{number_letters, number_text};
use vstd::arithmetic::power2::pow2;
use vstd::prelude::*;
use vstd::string::*;

verus! {

/// One and a half in single precision.
pub const ONE_AND_A_HALF: u32 = 0x3fc0_0000;

/// The smallest bilinear weight that counts, 0.01.
pub const LEAST_WEIGHT: u32 = 0x3c23_d70a;

/// The smallest confidence that counts, 0.001.
pub const LEAST_CONFIDENCE: u32 = 0x3a83_126f;

/// What a missing red is of green, 0.8.
pub const RED_OF_GREEN: u32 = 0x3f4c_cccd;

/// What a missing blue is of green, 1.2.
pub const BLUE_OF_GREEN: u32 = 0x3f99_999a;

/// The spread of shifts from which on the output is doubled, 0.75 pixels.
pub const DOUBLING_SPREAD: u32 = 0x3f40_0000;

/// Raw mosaic of a single pixel-shift frame.
pub struct CfaFrame {
    /// Sensor counts, row after row.
    pub data: Vec<u16>,
    /// Samples per row.
    pub width: u32,
    /// Number of rows.
    pub height: u32,
    /// Color filter array.
    pub cfa: Cfa,
    /// Black levels of the four filter positions.
    pub black_levels: [u32; 4],
    /// White level.
    pub white_level: u32,
    /// White balance coefficients.
    pub wb_coeffs: [u32; 4],
}

/// A sample as a sensor count: a value from 0 to 1 is spread over the range of counts.
pub open spec fn count_of<F: Fn(FloatOp) -> u64>(fpu: &FloatUnit<F>, v: u32) -> u16 {
    fpu.to_u16(fpu.mul(clamp(v, ZERO, ONE), WORD_MAX))
}

/// The counts of all samples.
pub open spec fn counts_of<F: Fn(FloatOp) -> u64>(
    fpu: &FloatUnit<F>,
    samples: RawSamples,
) -> Seq<u16> {
    match samples {
        RawSamples::Integer(d) => d@,
        RawSamples::Float(d) => Seq::new(d@.len(), |i: int| count_of(fpu, d@[i])),
    }
}

/// A black level as a value.
pub open spec fn level_value<F: Fn(FloatOp) -> u64>(fpu: &FloatUnit<F>, level: (u32, u32)) -> u32 {
    fpu.div(fpu.from_u64(level.0 as u64), fpu.from_u64(level.1 as u64))
}

/// The black level of filter position `i`: its own of four or more, the only one, or none.
pub open spec fn black_of<F: Fn(FloatOp) -> u64>(
    fpu: &FloatUnit<F>,
    levels: Seq<(u32, u32)>,
    i: int,
) -> u32 {
    if levels.len() >= 4 {
        level_value(fpu, levels[i])
    } else if levels.len() == 1 {
        level_value(fpu, levels[0])
    } else {
        ZERO
    }
}

/// The white level: the first one, or the largest count.
pub open spec fn white_of<F: Fn(FloatOp) -> u64>(fpu: &FloatUnit<F>, levels: Seq<u32>) -> u32 {
    if levels.len() > 0 {
        fpu.from_u64(levels[0] as u64)
    } else {
        fpu.from_u64(65535)
    }
}

/// Whether `frame` holds what the record says.
pub open spec fn is_frame_of<F: Fn(FloatOp) -> u64>(
    fpu: &FloatUnit<F>,
    raw: RawRecord,
    frame: CfaFrame,
) -> bool {
    &&& frame.data@ == counts_of(fpu, raw.samples)
    &&& frame.width == raw.width
    &&& frame.height == raw.height
    &&& frame.cfa.wf()
    &&& frame.cfa.name@ == raw.cfa_name@
    &&& forall|i: int|
        0 <= i < 4 ==> #[trigger] frame.black_levels@[i] == black_of(fpu, raw.black_levels@, i)
    &&& frame.white_level == white_of(fpu, raw.white_levels@)
    &&& frame.wb_coeffs@ == raw.wb_coeffs@
}

/// The mosaic of a decoded raw file.
pub fn cfa_frame_of<F: Fn(FloatOp) -> u64>(fpu: &FloatUnit<F>, raw: RawRecord) -> (frame: CfaFrame)
    requires
        is_pattern(raw.cfa_name@),
    ensures
        is_frame_of(fpu, raw, frame),
{
    let ghost counts = counts_of(fpu, raw.samples);
    let cfa = Cfa::new(raw.cfa_name.as_str());
    let levels = &raw.black_levels;
    let black_levels: [u32; 4] = if levels.len() >= 4 {
        [
            rational(fpu, levels[0]),
            rational(fpu, levels[1]),
            rational(fpu, levels[2]),
            rational(fpu, levels[3]),
        ]
    } else if levels.len() == 1 {
        let v = rational(fpu, levels[0]);
        [v, v, v, v]
    } else {
        [ZERO, ZERO, ZERO, ZERO]
    };
    let white_level = if raw.white_levels.len() > 0 {
        fpu.from_u64(raw.white_levels[0] as u64)
    } else {
        fpu.from_u64(65535)
    };
    let data: Vec<u16> = match raw.samples {
        RawSamples::Integer(d) => d,
        RawSamples::Float(d) => {
            let mut data: Vec<u16> = Vec::with_capacity(d.len());
            let mut i: usize = 0;
            while i < d.len()
                invariant
                    i <= d@.len(),
                    counts == counts_of(fpu, RawSamples::Float(d)),
                    data@ == counts.take(i as int),
                decreases d@.len() - i,
            {
                data.push(fpu.to_u16(fpu.mul(clamp(d[i], ZERO, ONE), WORD_MAX)));
                assert(data@ =~= counts.take(i + 1));
                i = i + 1;
            }
            assert(data@ =~= counts);
            data
        },
    };
    CfaFrame {
        data,
        width: raw.width,
        height: raw.height,
        cfa,
        black_levels,
        white_level,
        wb_coeffs: raw.wb_coeffs,
    }
}

/// A black level as a value.
fn rational<F: Fn(FloatOp) -> u64>(fpu: &FloatUnit<F>, level: (u32, u32)) -> (r: u32)
    ensures
        r == level_value(fpu, level),
{
    fpu.div(fpu.from_u64(level.0 as u64), fpu.from_u64(level.1 as u64))
}

/// Whether `r` is what is extracted where reading a file came out as `outcome`: the mosaic that was
/// found, or why there is none.
pub open spec fn is_extracted<F: Fn(FloatOp) -> u64>(
    fpu: &FloatUnit<F>,
    outcome: Result<RawRecord, RawError>,
    r: Result<CfaFrame, RawError>,
) -> bool {
    match outcome {
        Ok(raw) => is_pattern(raw.cfa_name@) && (r matches Ok(frame) && is_frame_of(
            fpu,
            raw,
            frame,
        )),
        Err(e) => r == Err::<CfaFrame, RawError>(e),
    }
}

/// Extract the mosaic of a raw file without demosaicing.
///
/// What the decoder finds in the bytes is its own affair; the frame holds what it found, and it
/// fails where the decoder does.
pub fn extract_cfa_frame<F: Fn(FloatOp) -> u64>(
    fpu: &FloatUnit<F>,
    file_bytes: &Vec<u8>,
) -> (r: Result<CfaFrame, RawError>)
    ensures
        exists|outcome: Result<RawRecord, RawError>| #[trigger]
            decodes_to(file_bytes, outcome) && is_extracted(fpu, outcome, r),
        r matches Ok(frame) ==> frame.cfa.wf(),
{
    let outcome = decode_file(file_bytes);
    let ghost found = outcome;
    let r = match outcome {
        Ok(raw) => Ok(cfa_frame_of(fpu, raw)),
        Err(e) => Err(e),
    };
    assert(decodes_to(file_bytes, found) && is_extracted(fpu, found, r));
    r
}

/// `n` halves in single precision, for `n` up to 3.
pub open spec fn halves(n: int) -> u32 {
    if n == 0 {
        ZERO
    } else if n == 1 {
        HALF
    } else if n == 2 {
        ONE
    } else {
        ONE_AND_A_HALF
    }
}

/// The number of different positions that the camera visits.
pub open spec fn unique_positions(frame_count: int) -> int {
    if frame_count == 16 || frame_count == 32 {
        16
    } else {
        4
    }
}

/// How many times it visits them all.
pub open spec fn rounds(frame_count: int) -> int {
    if frame_count == 8 || frame_count == 32 {
        2
    } else {
        1
    }
}

/// Position `i` of a round: whole pixels of the cell of two by two, or half pixels of the same
/// cell, row after row.
pub open spec fn ideal_shift(unique: int, i: int) -> (u32, u32) {
    if unique == 16 {
        (halves(i % 4), halves(i / 4))
    } else {
        (halves(2 * (i % 2)), halves(2 * (i / 2)))
    }
}

/// `n` halves in single precision.
fn half_steps(n: u32) -> (r: u32)
    ensures
        r == halves(n as int),
{
    match n {
        0 => ZERO,
        1 => HALF,
        2 => ONE,
        _ => ONE_AND_A_HALF,
    }
}

/// The offsets that a camera visits for the given number of frames, and how many times.
///
/// Four shots visit the four pixels of a cell, eight do so twice; sixteen visit the cell in steps
/// of half a pixel, thirty-two do so twice. Any other number visits the four pixels, and what is
/// returned for it is one round.
pub fn get_shift_pattern(frame_count: usize) -> (r: (Vec<(u32, u32)>, usize))
    ensures
        r.0@.len() == unique_positions(frame_count as int),
        forall|i: int|
            0 <= i < r.0@.len() ==> #[trigger] r.0@[i] == ideal_shift(
                unique_positions(frame_count as int),
                i,
            ),
        r.1 == rounds(frame_count as int),
{
    let mut unique: Vec<(u32, u32)> = Vec::new();
    if frame_count == 16 || frame_count == 32 {
        let mut i: u32 = 0;
        while i < 16
            invariant
                i <= 16,
                unique@.len() == i,
                forall|k: int| 0 <= k < i ==> #[trigger] unique@[k] == ideal_shift(16, k),
            decreases 16 - i,
        {
            unique.push((half_steps(i % 4), half_steps(i / 4)));
            i = i + 1;
        }
    } else {
        let mut i: u32 = 0;
        while i < 4
            invariant
                i <= 4,
                unique@.len() == i,
                forall|k: int| 0 <= k < i ==> #[trigger] unique@[k] == ideal_shift(4, k),
            decreases 4 - i,
        {
            unique.push((half_steps(2 * (i % 2)), half_steps(2 * (i / 2))));
            i = i + 1;
        }
    }
    let repeats: usize = if frame_count == 8 || frame_count == 32 {
        2
    } else {
        1
    };
    (unique, repeats)
}

/// The ideal offsets of a burst, one per frame in its order: the camera visits its positions round
/// after round.
pub open spec fn ideal_shifts(frame_count: int) -> Seq<(u32, u32)> {
    Seq::new(
        frame_count as nat,
        |i: int| ideal_shift(unique_positions(frame_count), i % unique_positions(frame_count)),
    )
}

/// The ideal pixel-shift offsets for the given number of frames, one for every frame.
pub fn nikon_shift_patterns(frame_count: usize) -> (all: Vec<(u32, u32)>)
    ensures
        all@ == ideal_shifts(frame_count as int),
        all@.len() == frame_count,
{
    let (unique, _) = get_shift_pattern(frame_count);
    let ghost goal = ideal_shifts(frame_count as int);
    let mut all: Vec<(u32, u32)> = Vec::with_capacity(frame_count);
    let mut k: usize = 0;
    while k < frame_count
        invariant
            k <= frame_count,
            goal.len() == frame_count,
            unique@.len() == unique_positions(frame_count as int),
            forall|i: int|
                0 <= i < unique@.len() ==> #[trigger] unique@[i] == ideal_shift(
                    unique_positions(frame_count as int),
                    i,
                ),
            goal == ideal_shifts(frame_count as int),
            all@ == goal.take(k as int),
        decreases frame_count - k,
    {
        all.push(unique[k % unique.len()]);
        assert(all@ =~= goal.take(k + 1));
        k = k + 1;
    }
    assert(all@ =~= goal);
    all
}

/// The value of a shift along one axis.
pub open spec fn along(shift: (u32, u32), vertical: bool) -> u32 {
    if vertical {
        shift.1
    } else {
        shift.0
    }
}

/// The largest of the first `n` shifts along one axis.
pub open spec fn farthest(shifts: Seq<(u32, u32)>, vertical: bool, n: nat) -> u32
    decreases n,
{
    if n <= 1 {
        along(shifts[0], vertical)
    } else {
        max(farthest(shifts, vertical, (n - 1) as nat), along(shifts[n - 1], vertical))
    }
}

/// The smallest of the first `n` shifts along one axis.
pub open spec fn nearest(shifts: Seq<(u32, u32)>, vertical: bool, n: nat) -> u32
    decreases n,
{
    if n <= 1 {
        along(shifts[0], vertical)
    } else {
        min(nearest(shifts, vertical, (n - 1) as nat), along(shifts[n - 1], vertical))
    }
}

/// How much the shifts cover along one axis: the largest without the smallest.
pub open spec fn spread<F: Fn(FloatOp) -> u64>(
    fpu: &FloatUnit<F>,
    shifts: Seq<(u32, u32)>,
    vertical: bool,
) -> u32 {
    fpu.sub(farthest(shifts, vertical, shifts.len()), nearest(shifts, vertical, shifts.len()))
}

/// The factor by which the output is larger than a frame.
pub open spec fn scale_of<F: Fn(FloatOp) -> u64>(
    fpu: &FloatUnit<F>,
    shifts: Seq<(u32, u32)>,
) -> u32 {
    if shifts.len() > 0 && le(
        DOUBLING_SPREAD,
        max(spread(fpu, shifts, false), spread(fpu, shifts, true)),
    ) {
        2
    } else {
        1
    }
}

/// The super-resolution scale for measured shifts: 2 if they cover at least 0.75 pixels in any
/// direction, 1 otherwise.
pub fn estimate_scale_from_shifts<F: Fn(FloatOp) -> u64>(
    fpu: &FloatUnit<F>,
    shifts: &Vec<(u32, u32)>,
) -> (scale: u32)
    ensures
        scale == scale_of(fpu, shifts@),
{
    if shifts.len() == 0 {
        return 1;
    }
    let (mut left, mut top): (u32, u32) = shifts[0];
    let (mut right, mut bottom): (u32, u32) = shifts[0];
    let mut i: usize = 1;
    while i < shifts.len()
        invariant
            1 <= i <= shifts@.len(),
            left == nearest(shifts@, false, i as nat),
            top == nearest(shifts@, true, i as nat),
            right == farthest(shifts@, false, i as nat),
            bottom == farthest(shifts@, true, i as nat),
        decreases shifts@.len() - i,
    {
        let (dx, dy): (u32, u32) = shifts[i];
        left = min(left, dx);
        top = min(top, dy);
        right = max(right, dx);
        bottom = max(bottom, dy);
        i = i + 1;
    }
    if le(DOUBLING_SPREAD, max(fpu.sub(right, left), fpu.sub(bottom, top))) {
        2
    } else {
        1
    }
}

/// The median of some values: zero of none.
pub open spec fn median_value<F: Fn(FloatOp) -> u64>(fpu: &FloatUnit<F>, s: Seq<u32>) -> u32 {
    let r = ranked(s);
    let mid = s.len() as int / 2;
    if s.len() == 0 {
        ZERO
    } else if s.len() % 2 == 0 {
        fpu.mul(fpu.add(r[mid - 1], r[mid]), HALF)
    } else {
        r[mid]
    }
}

/// The median of some values, which stay as they are.
pub fn median<F: Fn(FloatOp) -> u64>(fpu: &FloatUnit<F>, vals: &Vec<u32>) -> (r: u32)
    ensures
        r == median_value(fpu, vals@),
{
    proof {
        ranked_is_sorted(vals@);
    }
    if vals.len() == 0 {
        return ZERO;
    }
    let mut s = vals.clone();
    sort_samples(&mut s);
    let mid = s.len() / 2;
    if s.len() % 2 == 0 {
        fpu.mul(fpu.add(s[mid - 1], s[mid]), HALF)
    } else {
        s[mid]
    }
}

/// Why mosaics could not be fused.
#[derive(Debug, Clone, Copy, PartialEq, Eq, Structural)]
pub enum FusionError {
    /// There is no frame.
    NoFrames,
    /// A frame has another size than the first one.
    Dimensions {
        /// Index of the frame.
        frame: usize,
        /// Its samples per row.
        width: u32,
        /// Its number of rows.
        height: u32,
        /// Samples per row of the first frame.
        expected_width: u32,
        /// Number of rows of the first frame.
        expected_height: u32,
    },
}

/// A size in words, such as "6000x4000".
pub open spec fn size_letters(width: u32, height: u32) -> Seq<char> {
    number_letters(width as nat) + "x"@ + number_letters(height as nat)
}

/// A size in words, such as "6000x4000".
pub fn size_text(width: u32, height: u32) -> (r: String)
    ensures
        r@ == size_letters(width, height),
{
    number_text(width as u64).concat("x").concat(number_text(height as u64).as_str())
}

impl FusionError {
    /// What went wrong, in words.
    pub fn message(&self) -> (r: String)
        ensures
            r@ == match *self {
                FusionError::NoFrames => "No frames provided"@,
                FusionError::Dimensions {
                    frame,
                    width,
                    height,
                    expected_width,
                    expected_height,
                } => "Frame "@ + number_letters(frame as nat) + " dimensions "@ + size_letters(
                    width,
                    height,
                ) + " != "@ + size_letters(expected_width, expected_height),
            },
    {
        match self {
            FusionError::NoFrames => "No frames provided".to_owned(),
            FusionError::Dimensions { frame, width, height, expected_width, expected_height } => {
                "Frame ".to_owned().concat(number_text(*frame as u64).as_str()).concat(
                    " dimensions ",
                ).concat(size_text(*width, *height).as_str()).concat(" != ").concat(
                    size_text(*expected_width, *expected_height).as_str(),
                )
            },
        }
    }
}

/// What one color channel of an output pixel has collected.
#[derive(Clone, Copy)]
pub struct ChannelSum {
    /// Sum of the weighted values.
    pub sum: u32,
    /// Sum of the weights.
    pub weight: u32,
    /// Last count that the first frame gave.
    pub reference: Option<u16>,
}

/// What an output pixel has collected.
#[derive(Clone, Copy)]
pub struct PixelSums {
    /// Red.
    pub red: ChannelSum,
    /// Green.
    pub green: ChannelSum,
    /// Blue.
    pub blue: ChannelSum,
}

/// A color of a filter array, of which green has two kinds.
#[derive(Clone, Copy, PartialEq, Eq, Structural)]
pub enum Band {
    /// Red.
    Red,
    /// Green, of either kind.
    Green,
    /// Blue.
    Blue,
    /// Any other color.
    Other,
}

/// The band of a color.
pub open spec fn band_of(color: int) -> Band {
    if color == 0 {
        Band::Red
    } else if color == 1 || color == 3 {
        Band::Green
    } else if color == 2 {
        Band::Blue
    } else {
        Band::Other
    }
}

/// The band of a color.
fn sort_color(color: usize) -> (r: Band)
    ensures
        r == band_of(color as int),
{
    match color {
        0 => Band::Red,
        1 | 3 => Band::Green,
        2 => Band::Blue,
        _ => Band::Other,
    }
}

impl Band {
    /// The filter position whose black level goes with the band.
    pub open spec fn black_index(self) -> int {
        match self {
            Band::Red => 0,
            Band::Blue => 3,
            _ => 1,
        }
    }

    /// The channel of the noise model.
    pub open spec fn noise_channel(self) -> int {
        match self {
            Band::Red => 0,
            Band::Blue => 2,
            _ => 1,
        }
    }
}

impl PixelSums {
    /// Nothing collected.
    pub open spec fn empty() -> PixelSums {
        let none = ChannelSum { sum: ZERO, weight: ZERO, reference: None };
        PixelSums { red: none, green: none, blue: none }
    }

    /// The count of the first frame for a band.
    pub open spec fn reference(self, band: Band) -> Option<u16> {
        match band {
            Band::Red => self.red.reference,
            Band::Green => self.green.reference,
            Band::Blue => self.blue.reference,
            Band::Other => None,
        }
    }
}

/// What a channel has collected after one more value, which a `first` frame leaves as reference.
pub open spec fn collected<F: Fn(FloatOp) -> u64>(
    fpu: &FloatUnit<F>,
    c: ChannelSum,
    value: u32,
    confidence: u32,
    first: bool,
) -> ChannelSum {
    ChannelSum {
        sum: fpu.add(c.sum, fpu.mul(value, confidence)),
        weight: fpu.add(c.weight, confidence),
        reference: if first {
            Some(fpu.to_u16(fpu.mul(value, WORD_MAX)))
        } else {
            c.reference
        },
    }
}

/// A count of a frame as a value from 0 to 1; zero where it is missing.
pub open spec fn normalized<F: Fn(FloatOp) -> u64>(
    fpu: &FloatUnit<F>,
    frame: CfaFrame,
    i: int,
) -> u32 {
    if 0 <= i < frame.data@.len() {
        clamp(
            fpu.div(fpu.from_u64(frame.data@[i] as u64), max(frame.white_level, ONE)),
            ZERO,
            ONE,
        )
    } else {
        ZERO
    }
}

/// A value with the black level of its band taken off.
pub open spec fn corrected<F: Fn(FloatOp) -> u64>(
    fpu: &FloatUnit<F>,
    frame: CfaFrame,
    band: Band,
    v: u32,
) -> u32 {
    let black = frame.black_levels@[band.black_index()];
    clamp(
        fpu.div(
            fpu.sub(fpu.mul(v, frame.white_level), black),
            max(fpu.sub(frame.white_level, black), ONE),
        ),
        ZERO,
        ONE,
    )
}

/// How much the noise model trusts a value: fully without a model. The value is compared with that
/// of the first frame where it gave one.
pub open spec fn noise_confidence<F: Fn(FloatOp) -> u64>(
    fpu: &FloatUnit<F>,
    model: Option<&NoiseModel>,
    sums: PixelSums,
    band: Band,
    value: u32,
    first: bool,
) -> u32 {
    match model {
        Some(m) => {
            let count = fpu.to_u16(fpu.mul(value, WORD_MAX));
            let reference = match sums.reference(band) {
                Some(r) => if first {
                    count
                } else {
                    r
                },
                None => count,
            };
            m.confidence_of(fpu, reference, count, band.noise_channel())
        },
        None => ONE,
    }
}

/// What an output pixel has collected after the sample of `frame` at corner `k` (0 to 3, row after
/// row) of the cell around (`sx`, `sy`).
pub open spec fn with_corner<F: Fn(FloatOp) -> u64>(
    fpu: &FloatUnit<F>,
    model: Option<&NoiseModel>,
    pattern: Seq<char>,
    frame: CfaFrame,
    first: bool,
    sx: u32,
    sy: u32,
    k: int,
    sums: PixelSums,
) -> PixelSums {
    let x0 = fpu.to_i32(fpu.floor(sx));
    let y0 = fpu.to_i32(fpu.floor(sy));
    let fx = fpu.sub(sx, fpu.from_i32(x0));
    let fy = fpu.sub(sy, fpu.from_i32(y0));
    let wx = if k % 2 == 0 {
        fpu.sub(ONE, fx)
    } else {
        fx
    };
    let wy = if k / 2 == 0 {
        fpu.sub(ONE, fy)
    } else {
        fy
    };
    let w = fpu.mul(wx, wy);
    let px = held(x0 + k % 2, frame.width as int);
    let py = held(y0 + k / 2, frame.height as int);
    let band = band_of(pattern_color(pattern, py, px));
    let v = normalized(fpu, frame, pixel_index(px, py, frame.width as int));
    let value = corrected(fpu, frame, band, v);
    let confidence = fpu.mul(w, noise_confidence(fpu, model, sums, band, value, first));
    if lt(w, LEAST_WEIGHT) || lt(confidence, LEAST_CONFIDENCE) {
        sums
    } else {
        match band {
            Band::Red => PixelSums {
                red: collected(fpu, sums.red, value, confidence, first),
                ..sums
            },
            Band::Green => PixelSums {
                green: collected(fpu, sums.green, value, confidence, first),
                ..sums
            },
            Band::Blue => PixelSums {
                blue: collected(fpu, sums.blue, value, confidence, first),
                ..sums
            },
            Band::Other => sums,
        }
    }
}

/// What an output pixel has collected after all four corners of a frame.
pub open spec fn with_frame<F: Fn(FloatOp) -> u64>(
    fpu: &FloatUnit<F>,
    model: Option<&NoiseModel>,
    pattern: Seq<char>,
    frame: CfaFrame,
    first: bool,
    sx: u32,
    sy: u32,
    sums: PixelSums,
) -> PixelSums {
    let s0 = with_corner(fpu, model, pattern, frame, first, sx, sy, 0, sums);
    let s1 = with_corner(fpu, model, pattern, frame, first, sx, sy, 1, s0);
    let s2 = with_corner(fpu, model, pattern, frame, first, sx, sy, 2, s1);
    with_corner(fpu, model, pattern, frame, first, sx, sy, 3, s2)
}

/// What the output pixel at the sensor position (`x`, `y`) has collected after the first `n`
/// frames.
pub open spec fn gathered<F: Fn(FloatOp) -> u64>(
    fpu: &FloatUnit<F>,
    model: Option<&NoiseModel>,
    frames: Seq<CfaFrame>,
    shifts: Seq<(u32, u32)>,
    x: u32,
    y: u32,
    n: nat,
) -> PixelSums
    decreases n,
{
    if n == 0 {
        PixelSums::empty()
    } else {
        with_frame(
            fpu,
            model,
            frames[0].cfa.name@,
            frames[n - 1],
            n == 1,
            fpu.sub(x, shifts[n - 1].0),
            fpu.sub(y, shifts[n - 1].1),
            gathered(fpu, model, frames, shifts, x, y, (n - 1) as nat),
        )
    }
}

/// The weighted mean of a channel, zero where nothing was collected.
pub open spec fn mean_value<F: Fn(FloatOp) -> u64>(fpu: &FloatUnit<F>, c: ChannelSum) -> u32 {
    if lt(ZERO, c.weight) {
        fpu.div(c.sum, c.weight)
    } else {
        ZERO
    }
}

/// The color of an output pixel: the means of its channels, with what is missing filled in from
/// the others, held between 0 and 1.
pub open spec fn resolved<F: Fn(FloatOp) -> u64>(fpu: &FloatUnit<F>, sums: PixelSums) -> Color {
    let green = mean_value(fpu, sums.green);
    let r = if lt(ZERO, sums.red.weight) {
        mean_value(fpu, sums.red)
    } else {
        fpu.mul(green, RED_OF_GREEN)
    };
    let b = if lt(ZERO, sums.blue.weight) {
        mean_value(fpu, sums.blue)
    } else {
        fpu.mul(green, BLUE_OF_GREEN)
    };
    let g = if lt(ZERO, sums.green.weight) {
        green
    } else {
        fpu.mul(fpu.add(r, b), HALF)
    };
    Color { red: clamp(r, ZERO, ONE), green: clamp(g, ZERO, ONE), blue: clamp(b, ZERO, ONE) }
}

/// The color of the output pixel at column `x` of row `y`.
pub open spec fn fused_at<F: Fn(FloatOp) -> u64>(
    fpu: &FloatUnit<F>,
    model: Option<&NoiseModel>,
    frames: Seq<CfaFrame>,
    shifts: Seq<(u32, u32)>,
    scale: u32,
    x: int,
    y: int,
) -> Color {
    resolved(
        fpu,
        gathered(
            fpu,
            model,
            frames,
            shifts,
            fpu.div(fpu.from_u64(x as u64), fpu.from_u64(scale as u64)),
            fpu.div(fpu.from_u64(y as u64), fpu.from_u64(scale as u64)),
            frames.len(),
        ),
    )
}

/// Whether `out` is the fusion of the frames at the given scale.
pub open spec fn is_fused<F: Fn(FloatOp) -> u64>(
    fpu: &FloatUnit<F>,
    model: Option<&NoiseModel>,
    frames: Seq<CfaFrame>,
    shifts: Seq<(u32, u32)>,
    scale: u32,
    out: RgbaFrame,
) -> bool {
    &&& out.wf()
    &&& out.width == frames[0].width * scale
    &&& out.height == frames[0].height * scale
    &&& forall|x: int, y: int, c: int|
        0 <= x < out.width && 0 <= y < out.height && 0 <= c < 4 ==> #[trigger] out.at(x, y, c)
            == fused_at(fpu, model, frames, shifts, scale, x, y).channel(c)
}

/// Whether frame `i` has the size of the first one.
pub open spec fn fits_first(frames: Seq<CfaFrame>, i: int) -> bool {
    frames[i].width == frames[0].width && frames[i].height == frames[0].height
}

/// Whether all frames have one size.
pub open spec fn one_size(frames: Seq<CfaFrame>) -> bool {
    forall|i: int| 0 <= i < frames.len() ==> #[trigger] fits_first(frames, i)
}

/// Whether `e` is the reason why the frames cannot be fused: there is none, or the first one that
/// does not fit is named.
pub open spec fn is_refusal(frames: Seq<CfaFrame>, e: FusionError) -> bool {
    match e {
        FusionError::NoFrames => frames.len() == 0,
        FusionError::Dimensions { frame, width, height, expected_width, expected_height } => {
            &&& 0 < frame < frames.len()
            &&& !fits_first(frames, frame as int)
            &&& forall|i: int| 0 <= i < frame ==> #[trigger] fits_first(frames, i)
            &&& width == frames[frame as int].width
            &&& height == frames[frame as int].height
            &&& expected_width == frames[0].width
            &&& expected_height == frames[0].height
        },
    }
}

/// Whether the output of a fusion at the given scale can be counted, and every frame has a shift.
pub open spec fn fusible(frames: Seq<CfaFrame>, shifts: Seq<(u32, u32)>, scale: int) -> bool {
    let (width, height) = (frames[0].width, frames[0].height);
    &&& frames[0].cfa.wf()
    &&& width * scale <= u32::MAX
    &&& height * scale <= u32::MAX
    &&& (width * scale) * (height * scale) <= u32::MAX
    &&& (width * scale) * (height * scale) * 4 <= usize::MAX
    &&& width > 0 && height > 0 ==> shifts.len() >= frames.len()
}

/// Add one value to a channel.
fn collect<F: Fn(FloatOp) -> u64>(
    fpu: &FloatUnit<F>,
    c: ChannelSum,
    value: u32,
    confidence: u32,
    first: bool,
) -> (r: ChannelSum)
    ensures
        r == collected(fpu, c, value, confidence, first),
{
    ChannelSum {
        sum: fpu.add(c.sum, fpu.mul(value, confidence)),
        weight: fpu.add(c.weight, confidence),
        reference: if first {
            Some(fpu.to_u16(fpu.mul(value, WORD_MAX)))
        } else {
            c.reference
        },
    }
}

/// Add one corner to an output pixel.
fn add_corner<F: Fn(FloatOp) -> u64>(
    fpu: &FloatUnit<F>,
    model: Option<&NoiseModel>,
    cfa: &Cfa,
    frame: &CfaFrame,
    first: bool,
    sx: u32,
    sy: u32,
    k: u32,
    sums: PixelSums,
) -> (r: PixelSums)
    requires
        cfa.wf(),
        model matches Some(m) ==> m.wf(),
        frame.width > 0,
        frame.height > 0,
        frame.width * frame.height <= u32::MAX,
        k < 4,
    ensures
        r == with_corner(fpu, model, cfa.name@, *frame, first, sx, sy, k as int, sums),
{
    let x0 = fpu.to_i32(fpu.floor(sx));
    let y0 = fpu.to_i32(fpu.floor(sy));
    let fx = fpu.sub(sx, fpu.from_i32(x0));
    let fy = fpu.sub(sy, fpu.from_i32(y0));
    let wx = if k % 2 == 0 {
        fpu.sub(ONE, fx)
    } else {
        fx
    };
    let wy = if k / 2 == 0 {
        fpu.sub(ONE, fy)
    } else {
        fy
    };
    let w = fpu.mul(wx, wy);
    if lt(w, LEAST_WEIGHT) {
        return sums;
    }
    let px = hold(x0 as i64 + (k % 2) as i64, frame.width);
    let py = hold(y0 as i64 + (k / 2) as i64, frame.height);
    let band = sort_color(cfa.color_at(py as usize, px as usize));
    proof {
        lemma_pixel_index(px as int, py as int, frame.width as int, frame.height as int);
    }
    let i: usize = (py * frame.width + px) as usize;
    let v = if i < frame.data.len() {
        clamp(
            fpu.div(fpu.from_u64(frame.data[i] as u64), max(frame.white_level, ONE)),
            ZERO,
            ONE,
        )
    } else {
        ZERO
    };
    let black: u32 = match band {
        Band::Red => frame.black_levels[0],
        Band::Blue => frame.black_levels[3],
        _ => frame.black_levels[1],
    };
    let value = clamp(
        fpu.div(
            fpu.sub(fpu.mul(v, frame.white_level), black),
            max(fpu.sub(frame.white_level, black), ONE),
        ),
        ZERO,
        ONE,
    );
    let noise = match model {
        Some(m) => {
            let count = fpu.to_u16(fpu.mul(value, WORD_MAX));
            let earlier: Option<u16> = match band {
                Band::Red => sums.red.reference,
                Band::Green => sums.green.reference,
                Band::Blue => sums.blue.reference,
                Band::Other => None,
            };
            let reference: u16 = match earlier {
                Some(r) => if first {
                    count
                } else {
                    r
                },
                None => count,
            };
            let channel: usize = match band {
                Band::Red => 0,
                Band::Blue => 2,
                _ => 1,
            };
            m.confidence(fpu, reference, count, channel)
        },
        None => ONE,
    };
    let confidence = fpu.mul(w, noise);
    if lt(confidence, LEAST_CONFIDENCE) {
        return sums;
    }
    match band {
        Band::Red => PixelSums {
            red: collect(fpu, sums.red, value, confidence, first),
            green: sums.green,
            blue: sums.blue,
        },
        Band::Green => PixelSums {
            red: sums.red,
            green: collect(fpu, sums.green, value, confidence, first),
            blue: sums.blue,
        },
        Band::Blue => PixelSums {
            red: sums.red,
            green: sums.green,
            blue: collect(fpu, sums.blue, value, confidence, first),
        },
        Band::Other => sums,
    }
}

/// The weighted mean of a channel.
fn mean<F: Fn(FloatOp) -> u64>(fpu: &FloatUnit<F>, c: ChannelSum) -> (r: u32)
    ensures
        r == mean_value(fpu, c),
{
    if lt(ZERO, c.weight) {
        fpu.div(c.sum, c.weight)
    } else {
        ZERO
    }
}

/// The color of an output pixel.
fn resolve<F: Fn(FloatOp) -> u64>(fpu: &FloatUnit<F>, sums: PixelSums) -> (color: Color)
    ensures
        color == resolved(fpu, sums),
{
    let green = mean(fpu, sums.green);
    let r = if lt(ZERO, sums.red.weight) {
        mean(fpu, sums.red)
    } else {
        fpu.mul(green, RED_OF_GREEN)
    };
    let b = if lt(ZERO, sums.blue.weight) {
        mean(fpu, sums.blue)
    } else {
        fpu.mul(green, BLUE_OF_GREEN)
    };
    let g = if lt(ZERO, sums.green.weight) {
        green
    } else {
        fpu.mul(fpu.add(r, b), HALF)
    };
    Color { red: clamp(r, ZERO, ONE), green: clamp(g, ZERO, ONE), blue: clamp(b, ZERO, ONE) }
}

/// Look for a reason not to fuse the frames.
fn find_refusal(frames: &Vec<CfaFrame>) -> (r: Option<FusionError>)
    ensures
        r is None <==> frames@.len() > 0 && one_size(frames@),
        r matches Some(e) ==> is_refusal(frames@, e),
{
    if frames.len() == 0 {
        return Some(FusionError::NoFrames);
    }
    let width = frames[0].width;
    let height = frames[0].height;
    let mut i: usize = 1;
    assert(fits_first(frames@, 0));
    while i < frames.len()
        invariant
            1 <= i <= frames@.len(),
            width == frames@[0].width,
            height == frames@[0].height,
            forall|k: int| 0 <= k < i ==> #[trigger] fits_first(frames@, k),
        decreases frames@.len() - i,
    {
        if frames[i].width != width || frames[i].height != height {
            assert(!fits_first(frames@, i as int));
            return Some(
                FusionError::Dimensions {
                    frame: i,
                    width: frames[i].width,
                    height: frames[i].height,
                    expected_width: width,
                    expected_height: height,
                },
            );
        }
        assert(fits_first(frames@, i as int));
        i = i + 1;
    }
    None
}

/// Fuse frames of one size at the given scale.
fn fuse_at_scale<F: Fn(FloatOp) -> u64>(
    fpu: &FloatUnit<F>,
    frames: &Vec<CfaFrame>,
    shifts: &Vec<(u32, u32)>,
    noise_model: Option<&NoiseModel>,
    scale: u32,
) -> (out: RgbaFrame)
    requires
        frames@.len() > 0,
        one_size(frames@),
        scale == 1 || scale == 2,
        fusible(frames@, shifts@, scale as int),
        noise_model matches Some(m) ==> m.wf(),
    ensures
        is_fused(fpu, noise_model, frames@, shifts@, scale, out),
{
    let width = frames[0].width;
    let height = frames[0].height;
    let out_w: u32 = width * scale;
    let out_h: u32 = height * scale;
    proof {
        assert(width * height <= (width * scale) * (height * scale)) by (nonlinear_arith)
            requires
                scale == 1 || scale == 2,
                0 <= width,
                0 <= height,
        ;
    }
    let cfa = &frames[0].cfa;
    let factor = fpu.from_u64(scale as u64);
    let count: usize = (out_w * out_h) as usize;
    let mut samples: Vec<u32> = Vec::with_capacity(count * 4);
    let mut i: usize = 0;
    while i < count
        invariant
            i <= count,
            count == out_w * out_h,
            out_w == width * scale,
            out_h == height * scale,
            width * height <= u32::MAX,
            frames@.len() > 0,
            one_size(frames@),
            width == frames@[0].width,
            height == frames@[0].height,
            *cfa == frames@[0].cfa,
            cfa.wf(),
            factor == fpu.from_u64(scale as u64),
            width > 0 && height > 0 ==> shifts@.len() >= frames@.len(),
            noise_model matches Some(m) ==> m.wf(),
            samples@.len() == i * 4,
            forall|k: int, c: int|
                0 <= k < i && 0 <= c < 4 ==> #[trigger] samples@[k * 4 + c] == fused_at(
                    fpu,
                    noise_model,
                    frames@,
                    shifts@,
                    scale,
                    k % (out_w as int),
                    k / (out_w as int),
                ).channel(c),
        decreases count - i,
    {
        proof {
            lemma_index_pixel(i as int, out_w as int, out_h as int);
            assert(width > 0 && height > 0) by (nonlinear_arith)
                requires
                    0 < width * scale,
                    0 < height * scale,
                    0 <= width,
                    0 <= height,
            ;
        }
        let sensor_x = fpu.div(fpu.from_u64((i % out_w as usize) as u64), factor);
        let sensor_y = fpu.div(fpu.from_u64((i / out_w as usize) as u64), factor);
        let none = ChannelSum { sum: ZERO, weight: ZERO, reference: None };
        let mut sums = PixelSums { red: none, green: none, blue: none };
        let mut f: usize = 0;
        while f < frames.len()
            invariant
                f <= frames@.len(),
                one_size(frames@),
                width == frames@[0].width,
                height == frames@[0].height,
                width > 0,
                height > 0,
                width * height <= u32::MAX,
                *cfa == frames@[0].cfa,
                cfa.wf(),
                shifts@.len() >= frames@.len(),
                noise_model matches Some(m) ==> m.wf(),
                sums == gathered(
                    fpu,
                    noise_model,
                    frames@,
                    shifts@,
                    sensor_x,
                    sensor_y,
                    f as nat,
                ),
            decreases frames@.len() - f,
        {
            let frame = &frames[f];
            assert(fits_first(frames@, f as int));
            let first: bool = f == 0;
            let sx = fpu.sub(sensor_x, shifts[f].0);
            let sy = fpu.sub(sensor_y, shifts[f].1);
            sums = add_corner(fpu, noise_model, cfa, frame, first, sx, sy, 0, sums);
            sums = add_corner(fpu, noise_model, cfa, frame, first, sx, sy, 1, sums);
            sums = add_corner(fpu, noise_model, cfa, frame, first, sx, sy, 2, sums);
            sums = add_corner(fpu, noise_model, cfa, frame, first, sx, sy, 3, sums);
            f = f + 1;
        }
        let color = resolve(fpu, sums);
        let ghost before = samples@;
        samples.push(color.red);
        samples.push(color.green);
        samples.push(color.blue);
        samples.push(ONE);
        assert forall|k: int, c: int| 0 <= k < i + 1 && 0 <= c < 4 implies #[trigger] samples@[k * 4
            + c] == fused_at(
            fpu,
            noise_model,
            frames@,
            shifts@,
            scale,
            k % (out_w as int),
            k / (out_w as int),
        ).channel(c) by {
            if k < i {
                assert(samples@[k * 4 + c] == before[k * 4 + c]);
            }
        }
        i = i + 1;
    }
    let out = RgbaFrame { width: out_w, height: out_h, samples };
    assert forall|x: int, y: int, c: int|
        0 <= x < out.width && 0 <= y < out.height && 0 <= c < 4 implies #[trigger] out.at(x, y, c)
        == fused_at(fpu, noise_model, frames@, shifts@, scale, x, y).channel(c) by {
        lemma_pixel_index(x, y, out_w as int, out_h as int);
    }
    out
}

/// Whether mosaics can be fused with measured shifts by [`fuse_cfa_frames_with_shifts`].
pub fn can_fuse_mosaics<F: Fn(FloatOp) -> u64>(
    fpu: &FloatUnit<F>,
    frames: &Vec<CfaFrame>,
    shifts: &Vec<(u32, u32)>,
) -> (r: bool)
    requires
        frames@.len() > 0 ==> frames@[0].cfa.wf(),
    ensures
        r == (frames@.len() > 0 && one_size(frames@) ==> fusible(
            frames@,
            shifts@,
            scale_of(fpu, shifts@) as int,
        )),
{
    match find_refusal(frames) {
        Some(_) => true,
        None => {
            let scale: u64 = estimate_scale_from_shifts(fpu, shifts) as u64;
            let width: u64 = frames[0].width as u64;
            let height: u64 = frames[0].height as u64;
            assert(0 <= width * scale <= 2 * width && 0 <= height * scale <= 2 * height)
                by (nonlinear_arith)
                requires
                    scale == 1 || scale == 2,
                    0 <= width,
                    0 <= height,
            ;
            if width * scale > u32::MAX as u64 || height * scale > u32::MAX as u64 {
                return false;
            }
            let (out_w, out_h): (u64, u64) = (width * scale, height * scale);
            proof {
                lemma_pixel_product(out_w as u32, out_h as u32);
            }
            let pixels: u64 = out_w * out_h;
            pixels <= u32::MAX as u64 && pixels * 4 <= usize::MAX as u64 && (width == 0 || height
                == 0 || shifts.len() >= frames.len())
        },
    }
}

/// Fuse mosaics with measured shifts, one pair per frame in sensor pixels. A noise model weighs
/// each sample by how well it agrees with the first frame.
pub fn fuse_cfa_frames_with_shifts<F: Fn(FloatOp) -> u64>(
    fpu: &FloatUnit<F>,
    frames: &Vec<CfaFrame>,
    shifts: &Vec<(u32, u32)>,
    noise_model: Option<&NoiseModel>,
) -> (r: Result<RgbaFrame, FusionError>)
    requires
        frames@.len() > 0 && one_size(frames@) ==> fusible(
            frames@,
            shifts@,
            scale_of(fpu, shifts@) as int,
        ),
        noise_model matches Some(m) ==> m.wf(),
    ensures
        r is Ok <==> frames@.len() > 0 && one_size(frames@),
        r matches Err(e) ==> is_refusal(frames@, e),
        r matches Ok(out) ==> is_fused(
            fpu,
            noise_model,
            frames@,
            shifts@,
            scale_of(fpu, shifts@),
            out,
        ),
{
    match find_refusal(frames) {
        Some(e) => Err(e),
        None => {
            let scale = estimate_scale_from_shifts(fpu, shifts);
            Ok(fuse_at_scale(fpu, frames, shifts, noise_model, scale))
        },
    }
}

/// The scale at which a burst with ideal offsets is fused: native resolution for four and eight
/// shots, twice that for sixteen and thirty-two; by the spread of the offsets for other numbers.
pub open spec fn ideal_scale<F: Fn(FloatOp) -> u64>(fpu: &FloatUnit<F>, frame_count: int) -> u32 {
    if frame_count == 4 || frame_count == 8 {
        1
    } else if frame_count == 16 || frame_count == 32 {
        2
    } else {
        scale_of(fpu, ideal_shifts(frame_count))
    }
}

/// Fuse mosaics with the ideal offsets of the camera.
///
/// Four or eight shots fill the gaps of the mosaic at native resolution; sixteen or thirty-two
/// give twice the resolution.
pub fn fuse_cfa_frames<F: Fn(FloatOp) -> u64>(
    fpu: &FloatUnit<F>,
    frames: &Vec<CfaFrame>,
) -> (r: Result<RgbaFrame, FusionError>)
    requires
        frames@.len() > 0 && one_size(frames@) ==> fusible(
            frames@,
            ideal_shifts(frames@.len() as int),
            ideal_scale(fpu, frames@.len() as int) as int,
        ),
    ensures
        r is Ok <==> frames@.len() > 0 && one_size(frames@),
        r matches Err(e) ==> is_refusal(frames@, e),
        r matches Ok(out) ==> is_fused(
            fpu,
            None,
            frames@,
            ideal_shifts(frames@.len() as int),
            ideal_scale(fpu, frames@.len() as int),
            out,
        ),
{
    let shifts = nikon_shift_patterns(frames.len());
    match find_refusal(frames) {
        Some(e) => Err(e),
        None => {
            let count = frames.len();
            let scale: u32 = if count == 4 || count == 8 {
                1
            } else if count == 16 || count == 32 {
                2
            } else {
                estimate_scale_from_shifts(fpu, &shifts)
            };
            Ok(fuse_at_scale(fpu, frames, &shifts, None, scale))
        },
    }
}

/// A full burst visits each offset: with four or eight shots every pixel of the cell, with sixteen
/// or thirty-two every half pixel of it.
pub proof fn burst_visits_every_offset(frame_count: int, right: int, down: int)
    requires
        frame_count == 4 || frame_count == 8 || frame_count == 16 || frame_count == 32,
        0 <= right < 4,
        0 <= down < 4,
        frame_count <= 8 ==> right % 2 == 0 && down % 2 == 0,
    ensures
        ideal_shifts(frame_count).len() == frame_count,
        ideal_shifts(frame_count).contains((halves(right), halves(down))),
{
    let i = if frame_count <= 8 {
        right / 2 + down
    } else {
        right + 4 * down
    };
    assert(ideal_shifts(frame_count)[i] == (halves(right), halves(down)));
}

/// The second round of a burst repeats the first.
pub proof fn second_round_repeats_first(frame_count: int, i: int)
    requires
        frame_count == 8 || frame_count == 32,
        0 <= i < frame_count / 2,
    ensures
        ideal_shifts(frame_count)[i + frame_count / 2] == ideal_shifts(frame_count)[i],
{
}

/// Each sample of an output pixel lies between 0 and 1 wherever it is a number.
pub proof fn fused_color_is_in_range<F: Fn(FloatOp) -> u64>(
    fpu: &FloatUnit<F>,
    sums: PixelSums,
    c: int,
)
    requires
        0 <= c < 4,
        !crate::float::is_nan(resolved(fpu, sums).channel(c)),
    ensures
        le(ZERO, resolved(fpu, sums).channel(c)),
        le(resolved(fpu, sums).channel(c), ONE),
{
}

/// The letter of a Bayer pattern at column `col` of row `row`.
pub open spec fn bayer_letter(name: Seq<char>, col: int, row: int) -> char {
    name[(row % 2) * 2 + col % 2]
}

/// The place of a line of `len` places that lies nearest to `v`.
pub open spec fn nearest_place(v: int, len: int) -> int {
    if v < 0 {
        0
    } else if v < len {
        v
    } else {
        len - 1
    }
}

/// The band of a letter.
pub open spec fn letter_band(letter: char) -> Band {
    if letter == 'R' {
        Band::Red
    } else if letter == 'B' {
        Band::Blue
    } else {
        Band::Green
    }
}

/// What one of the four pixels around a position, which lies `px` and `py` parts from the first
/// pixel, gives to the light of a letter: as many of the `w` by `w` parts of an area as it is near,
/// each with its value. A pixel of another letter gives nothing.
pub open spec fn corner_light(
    name: Seq<char>,
    width: int,
    height: int,
    letter: char,
    value: spec_fn(int, int) -> int,
    w: int,
    px: int,
    py: int,
    right: bool,
    low: bool,
) -> (int, int) {
    let col = nearest_place(px / w + if right {
        1int
    } else {
        0
    }, width);
    let row = nearest_place(py / w + if low {
        1int
    } else {
        0
    }, height);
    let near = corner_share(w, px, py, right, low);
    if bayer_letter(name, col, row) == letter {
        (value(col, row) * near, near)
    } else {
        (0, 0)
    }
}

/// What a frame gives to the light of a letter at a position: the values of the four pixels around
/// it, and the parts they make.
pub open spec fn frame_light(
    name: Seq<char>,
    width: int,
    height: int,
    letter: char,
    value: spec_fn(int, int) -> int,
    w: int,
    px: int,
    py: int,
) -> (int, int) {
    let a = corner_light(name, width, height, letter, value, w, px, py, false, false);
    let b = corner_light(name, width, height, letter, value, w, px, py, true, false);
    let c = corner_light(name, width, height, letter, value, w, px, py, false, true);
    let d = corner_light(name, width, height, letter, value, w, px, py, true, true);
    (a.0 + b.0 + c.0 + d.0, a.1 + b.1 + c.1 + d.1)
}

/// What the first `n` frames give to the light of a letter at the sensor position of `x` and `y`
/// parts: each is read where its shift, also in parts, leaves the position.
pub open spec fn burst_light(
    name: Seq<char>,
    width: int,
    height: int,
    letter: char,
    values: spec_fn(int, int, int) -> int,
    moves: Seq<(int, int)>,
    w: int,
    x: int,
    y: int,
    n: nat,
) -> (int, int)
    decreases n,
{
    if n == 0 {
        (0, 0)
    } else {
        let before = burst_light(
            name,
            width,
            height,
            letter,
            values,
            moves,
            w,
            x,
            y,
            (n - 1) as nat,
        );
        let own = frame_light(
            name,
            width,
            height,
            letter,
            |col: int, row: int| values(n - 1, col, row),
            w,
            x - moves[n - 1].0,
            y - moves[n - 1].1,
        );
        (before.0 + own.0, before.1 + own.1)
    }
}

/// Whether `values` are the values of all samples, black levels taken off, in parts of which `2^k`
/// make full light.
pub open spec fn are_values<F: Fn(FloatOp) -> u64>(
    fpu: &FloatUnit<F>,
    frames: Seq<CfaFrame>,
    values: spec_fn(int, int, int) -> int,
    k: nat,
) -> bool {
    forall|f: int, col: int, row: int|
        0 <= f < frames.len() && 0 <= col < frames[0].width && 0 <= row < frames[0].height ==> {
            let v = #[trigger] values(f, col, row);
            let band = letter_band(bayer_letter(frames[0].cfa.name@, col, row));
            let i = row * frames[0].width + col;
            0 <= v <= pow2(k) && stands_for(
                corrected(fpu, frames[f], band, normalized(fpu, frames[f], i)),
                v,
                k,
            )
        }
}

/// Whether mosaics of one size have a pattern of red, green and blue letters, two by two.
pub open spec fn are_bayer(frames: Seq<CfaFrame>) -> bool {
    &&& frames.len() > 0
    &&& one_size(frames)
    &&& frames[0].width > 0
    &&& frames[0].height > 0
    &&& frames[0].cfa.name@.len() == 4
    &&& forall|i: int|
        0 <= i < 4 ==> #[trigger] frames[0].cfa.name@[i] == 'R' || frames[0].cfa.name@[i] == 'G'
            || frames[0].cfa.name@[i] == 'B'
}

/// Whether a channel has collected `light.0` parts of value, `2^(k + 2 * s)` of which make full light,
/// with a weight of `light.1` parts.
pub open spec fn has_collected(c: ChannelSum, light: (int, int), k: nat, s: nat) -> bool {
    stands_for(c.sum, light.0, k + 2 * s) && stands_for(c.weight, light.1, 2 * s)
}

/// Whether an output pixel has collected the light of all three letters.
pub open spec fn has_gathered(
    sums: PixelSums,
    red: (int, int),
    green: (int, int),
    blue: (int, int),
    k: nat,
    s: nat,
) -> bool {
    &&& has_collected(sums.red, red, k, s)
    &&& has_collected(sums.green, green, k, s)
    &&& has_collected(sums.blue, blue, k, s)
}

/// Whether the light stays within `n` times the parts of an area, of values up to `2^k`.
pub open spec fn is_bounded(light: (int, int), k: nat, s: nat, n: int) -> bool {
    &&& 0 <= light.1 <= n * (pow2(s) * pow2(s))
    &&& 0 <= light.0 <= light.1 * pow2(k)
}

proof fn lemma_collects<F: Fn(FloatOp) -> u64>(
    fpu: &FloatUnit<F>,
    c: ChannelSum,
    light: (int, int),
    value: u32,
    v: int,
    confidence: u32,
    near: int,
    first: bool,
    k: nat,
    s: nat,
)
    requires
        is_exact(fpu),
        has_collected(c, light, k, s),
        stands_for(value, v, k),
        stands_for(confidence, near, 2 * s),
        k + 2 * s <= 149,
        fits(v * near),
        fits(light.0 + v * near),
        fits(light.1 + near),
    ensures
        has_collected(
            collected(fpu, c, value, confidence, first),
            (light.0 + v * near, light.1 + near),
            k,
            s,
        ),
{
    exact_mul(fpu, value, confidence, v, near, k, 2 * s);
    exact_add(fpu, c.sum, fpu.mul(value, confidence), light.0, v * near, k + 2 * s);
    exact_add(fpu, c.weight, confidence, light.1, near, 2 * s);
}

proof fn lemma_least(w: u32, near: int, s: nat)
    requires
        stands_for(w, near, 2 * s),
        s <= 3,
        0 <= near,
    ensures
        lt(w, LEAST_WEIGHT) == (near == 0),
        near > 0 ==> !lt(w, LEAST_CONFIDENCE),
{
    assert(stands_for(LEAST_WEIGHT, 10737418, 30) && stands_for(LEAST_CONFIDENCE, 8589935, 33)) by {
        reveal(stands_for);
        assert(units(LEAST_WEIGHT as int) == 10737418 * pow2(119));
        assert(units(LEAST_CONFIDENCE as int) == 8589935 * pow2(116));
    }
    vstd::arithmetic::power2::lemma2_to64();
    vstd::arithmetic::power2::lemma2_to64_rest();
    let (p, q) = (pow2((30 - 2 * s) as nat) as int, pow2((33 - 2 * s) as nat) as int);
    lemma_finer(w, near, 2 * s, (30 - 2 * s) as nat);
    lemma_finer(w, near, 2 * s, (33 - 2 * s) as nat);
    assert(p >= 0x100_0000 && q >= 0x800_0000) by {
        assert(s == 0 || s == 1 || s == 2 || s == 3);
        assert(pow2(24) == 0x100_0000 && pow2(27) == 0x800_0000);
    }
    assert(near > 0 ==> near * p >= p && near * q >= q) by (nonlinear_arith)
        requires
            p > 0,
            q > 0,
    ;
    assert(near == 0 ==> near * p == 0) by (nonlinear_arith);
    lemma_compare(w, LEAST_WEIGHT, near * p, 10737418, 30);
    lemma_compare(w, LEAST_CONFIDENCE, near * q, 8589935, 33);
}

proof fn lemma_bounds(light: (int, int), v: int, near: int, k: nat, s: nat, n: int, most: int)
    requires
        is_bounded(light, k, s, n),
        0 <= v <= pow2(k),
        0 <= near <= pow2(s) * pow2(s),
        n + 1 <= most,
        most * (pow2(s) * pow2(s)) * pow2(k) <= 0x100_0000,
    ensures
        is_bounded((light.0 + v * near, light.1 + near), k, s, n + 1),
        is_bounded(light, k, s, n + 1),
        fits(v * near),
        fits(light.0 + v * near),
        fits(light.1 + near),
{
    let p = pow2(k) as int;
    let a = pow2(s) * pow2(s);
    vstd::arithmetic::power2::lemma_pow2_pos(k);
    assert(0 <= v * near <= near * p) by (nonlinear_arith)
        requires
            0 <= v <= p,
            0 <= near,
    ;
    assert(light.1 * p + near * p == (light.1 + near) * p) by (nonlinear_arith);
    assert(n * a + a == (n + 1) * a) by (nonlinear_arith);
    assert((n + 1) * a <= most * a) by (nonlinear_arith)
        requires
            n + 1 <= most,
            0 <= a,
    ;
    let full = most * a;
    assert((light.1 + near) * p <= full * p && light.1 + near <= (light.1 + near) * p)
        by (nonlinear_arith)
        requires
            0 <= light.1 + near <= full,
            p >= 1,
    ;
    assert(0 <= light.1 * p) by (nonlinear_arith)
        requires
            0 <= light.1,
            p >= 1,
    ;
}

/// What is read of a burst, and where.
pub struct Reading {
    /// Value of each frame's sample at a column of a row.
    pub values: spec_fn(int, int, int) -> int,
    /// Horizontal and vertical shift of each frame, in parts of a pixel.
    pub moves: Seq<(int, int)>,
    /// Column of the position, in parts of a pixel.
    pub x: int,
    /// Row of the position, in parts of a pixel.
    pub y: int,
    /// Values come in parts, of which this power of two makes full light.
    pub k: nat,
    /// Positions come in parts, of which this power of two makes a pixel.
    pub s: nat,
}

/// What the first `n` frames give to the light of a letter.
pub open spec fn light_of(frames: Seq<CfaFrame>, reading: Reading, letter: char, n: nat) -> (
    int,
    int,
) {
    burst_light(
        frames[0].cfa.name@,
        frames[0].width as int,
        frames[0].height as int,
        letter,
        reading.values,
        reading.moves,
        pow2(reading.s) as int,
        reading.x,
        reading.y,
        n,
    )
}

/// Whether shifts and values are as a reading tells, and all sums over the frames fit the digits.
pub open spec fn is_read<F: Fn(FloatOp) -> u64>(
    fpu: &FloatUnit<F>,
    frames: Seq<CfaFrame>,
    shifts: Seq<(u32, u32)>,
    reading: Reading,
) -> bool {
    let w = pow2(reading.s) as int;
    &&& are_bayer(frames)
    &&& are_values(fpu, frames, reading.values, reading.k)
    &&& reading.s <= 3
    &&& reading.k <= 24
    &&& 4 * frames.len() * (w * w) * pow2(reading.k) <= 0x100_0000
    &&& fits(reading.x)
    &&& fits(reading.y)
    &&& reading.moves.len() >= frames.len()
    &&& forall|f: int|
        0 <= f < frames.len() ==> {
            &&& stands_for(shifts[f].0, (#[trigger] reading.moves[f]).0, reading.s)
            &&& stands_for(shifts[f].1, reading.moves[f].1, reading.s)
            &&& fits(reading.x - reading.moves[f].0)
            &&& fits(reading.y - reading.moves[f].1)
        }
}

/// How near a corner of the cell around a position is, in parts of an area.
pub open spec fn corner_share(w: int, px: int, py: int, right: bool, low: bool) -> int {
    (if right {
        px % w
    } else {
        w - px % w
    }) * (if low {
        py % w
    } else {
        w - py % w
    })
}

pub(crate) proof fn lemma_corner_share<F: Fn(FloatOp) -> u64>(
    fpu: &FloatUnit<F>,
    sx: u32,
    sy: u32,
    px: int,
    py: int,
    s: nat,
    corner: int,
) -> (confidence: u32)
    requires
        is_exact(fpu),
        s <= 3,
        0 <= corner < 4,
        stands_for(sx, px, s),
        stands_for(sy, py, s),
        fits(px),
        fits(py),
    ensures
        ({
            let w = pow2(s) as int;
            let x0 = fpu.to_i32(fpu.floor(sx));
            let y0 = fpu.to_i32(fpu.floor(sy));
            let fx = fpu.sub(sx, fpu.from_i32(x0));
            let fy = fpu.sub(sy, fpu.from_i32(y0));
            let weight = fpu.mul(
                if corner % 2 == 0 {
                    fpu.sub(ONE, fx)
                } else {
                    fx
                },
                if corner / 2 == 0 {
                    fpu.sub(ONE, fy)
                } else {
                    fy
                },
            );
            let near = corner_share(w, px, py, corner % 2 == 1, corner / 2 == 1);
            &&& x0 == px / w
            &&& y0 == py / w
            &&& 0 <= near <= w * w
            &&& confidence == fpu.mul(weight, ONE)
            &&& stands_for(weight, near, 2 * s)
            &&& stands_for(confidence, near, 2 * s)
            &&& lt(weight, LEAST_WEIGHT) == (near == 0)
            &&& near > 0 ==> !lt(confidence, LEAST_CONFIDENCE)
        }),
{
    let w = pow2(s) as int;
    vstd::arithmetic::power2::lemma2_to64();
    vstd::arithmetic::power2::lemma_pow2_pos(s);
    assert(1 <= w <= 8) by {
        assert(s == 0 || s == 1 || s == 2 || s == 3);
    }
    lemma_parts(fpu, sx, px, s);
    lemma_parts(fpu, sy, py, s);
    lemma_constants();
    lemma_finer(ONE, 1, 0, s);
    let (x0, y0) = (fpu.to_i32(fpu.floor(sx)), fpu.to_i32(fpu.floor(sy)));
    let fx = fpu.sub(sx, fpu.from_i32(x0));
    let fy = fpu.sub(sy, fpu.from_i32(y0));
    let (i, j) = (px % w, py % w);
    exact_sub(fpu, ONE, fx, w, i, s);
    exact_sub(fpu, ONE, fy, w, j, s);
    let (wx, nx) = if corner % 2 == 0 {
        (fpu.sub(ONE, fx), w - i)
    } else {
        (fx, i)
    };
    let (wy, ny) = if corner / 2 == 0 {
        (fpu.sub(ONE, fy), w - j)
    } else {
        (fy, j)
    };
    let near = nx * ny;
    assert(0 <= near <= w * w) by (nonlinear_arith)
        requires
            near == nx * ny,
            0 <= nx <= w,
            0 <= ny <= w,
    ;
    assert(w * w <= 64) by (nonlinear_arith)
        requires
            1 <= w <= 8,
    ;
    exact_mul(fpu, wx, wy, nx, ny, s, s);
    let weight = fpu.mul(wx, wy);
    exact_mul(fpu, weight, ONE, near, 1, 2 * s, 0);
    lemma_least(weight, near, s);
    lemma_least(fpu.mul(weight, ONE), near, s);
    fpu.mul(weight, ONE)
}

#[verifier::rlimit(40)]
proof fn lemma_corner<F: Fn(FloatOp) -> u64>(
    fpu: &FloatUnit<F>,
    frames: Seq<CfaFrame>,
    shifts: Seq<(u32, u32)>,
    reading: Reading,
    f: int,
    sx: u32,
    sy: u32,
    corner: int,
    sums: PixelSums,
    red: (int, int),
    green: (int, int),
    blue: (int, int),
    n: int,
)
    requires
        is_exact(fpu),
        is_read(fpu, frames, shifts, reading),
        0 <= f < frames.len(),
        0 <= corner < 4,
        stands_for(sx, reading.x - reading.moves[f].0, reading.s),
        stands_for(sy, reading.y - reading.moves[f].1, reading.s),
        has_gathered(sums, red, green, blue, reading.k, reading.s),
        is_bounded(red, reading.k, reading.s, n),
        is_bounded(green, reading.k, reading.s, n),
        is_bounded(blue, reading.k, reading.s, n),
        n + 1 <= 4 * frames.len(),
    ensures
        ({
            let value = |col: int, row: int| (reading.values)(f, col, row);
            let own = |letter: char|
                corner_light(
                    frames[0].cfa.name@,
                    frames[0].width as int,
                    frames[0].height as int,
                    letter,
                    value,
                    pow2(reading.s) as int,
                    reading.x - reading.moves[f].0,
                    reading.y - reading.moves[f].1,
                    corner % 2 == 1,
                    corner / 2 == 1,
                );
            let r = (red.0 + own('R').0, red.1 + own('R').1);
            let g = (green.0 + own('G').0, green.1 + own('G').1);
            let b = (blue.0 + own('B').0, blue.1 + own('B').1);
            &&& has_gathered(
                with_corner(
                    fpu,
                    None,
                    frames[0].cfa.name@,
                    frames[f],
                    f == 0,
                    sx,
                    sy,
                    corner,
                    sums,
                ),
                r,
                g,
                b,
                reading.k,
                reading.s,
            )
            &&& is_bounded(r, reading.k, reading.s, n + 1)
            &&& is_bounded(g, reading.k, reading.s, n + 1)
            &&& is_bounded(b, reading.k, reading.s, n + 1)
        }),
{
    let (k, s) = (reading.k, reading.s);
    let w = pow2(s) as int;
    let (px, py) = (reading.x - reading.moves[f].0, reading.y - reading.moves[f].1);
    let frame = frames[f];
    let name = frames[0].cfa.name@;
    assert(fits_first(frames, f));
    let confidence = lemma_corner_share(fpu, sx, sy, px, py, s, corner);
    let near = corner_share(w, px, py, corner % 2 == 1, corner / 2 == 1);
    let col = nearest_place(px / w + corner % 2, frames[0].width as int);
    let row = nearest_place(py / w + corner / 2, frames[0].height as int);
    let v = (reading.values)(f, col, row);
    let band = letter_band(bayer_letter(name, col, row));
    lemma_site_band(frames, col, row);
    let value = corrected(fpu, frame, band, normalized(fpu, frame, row * frames[0].width + col));
    assert(0 <= v <= pow2(k) && stands_for(value, v, k));
    let most = 4 * frames.len() as int;
    lemma_bounds(red, v, near, k, s, n, most);
    lemma_bounds(green, v, near, k, s, n, most);
    lemma_bounds(blue, v, near, k, s, n, most);
    let after = with_corner(fpu, None, name, frame, f == 0, sx, sy, corner, sums);
    assert(after == if near == 0 {
        sums
    } else {
        match band {
            Band::Red => PixelSums {
                red: collected(fpu, sums.red, value, confidence, f == 0),
                ..sums
            },
            Band::Green => PixelSums {
                green: collected(fpu, sums.green, value, confidence, f == 0),
                ..sums
            },
            _ => PixelSums { blue: collected(fpu, sums.blue, value, confidence, f == 0), ..sums },
        }
    });
    assert(near == 0 ==> v * near == 0) by (nonlinear_arith);
    if near > 0 {
        if band == Band::Red {
            lemma_collects(fpu, sums.red, red, value, v, confidence, near, f == 0, k, s);
        } else if band == Band::Green {
            lemma_collects(fpu, sums.green, green, value, v, confidence, near, f == 0, k, s);
        } else {
            lemma_collects(fpu, sums.blue, blue, value, v, confidence, near, f == 0, k, s);
        }
    }
}

pub(crate) proof fn lemma_site_band(frames: Seq<CfaFrame>, col: int, row: int)
    requires
        are_bayer(frames),
        0 <= col,
        0 <= row,
    ensures
        ({
            let name = frames[0].cfa.name@;
            let letter = bayer_letter(name, col, row);
            &&& letter_band(letter) == band_of(pattern_color(name, row, col))
            &&& letter == 'R' || letter == 'G' || letter == 'B'
            &&& letter_band(letter) == Band::Red <==> letter == 'R'
            &&& letter_band(letter) == Band::Green <==> letter == 'G'
            &&& letter_band(letter) == Band::Blue <==> letter == 'B'
        }),
{
    let name = frames[0].cfa.name@;
    let i = (row % 2) * 2 + col % 2;
    assert(0 <= i < 4);
    assert(name[i] == 'R' || name[i] == 'G' || name[i] == 'B');
}

proof fn lemma_frame<F: Fn(FloatOp) -> u64>(
    fpu: &FloatUnit<F>,
    frames: Seq<CfaFrame>,
    shifts: Seq<(u32, u32)>,
    reading: Reading,
    f: int,
    sx: u32,
    sy: u32,
    sums: PixelSums,
    red: (int, int),
    green: (int, int),
    blue: (int, int),
)
    requires
        is_exact(fpu),
        is_read(fpu, frames, shifts, reading),
        0 <= f < frames.len(),
        stands_for(sx, reading.x - reading.moves[f].0, reading.s),
        stands_for(sy, reading.y - reading.moves[f].1, reading.s),
        has_gathered(sums, red, green, blue, reading.k, reading.s),
        is_bounded(red, reading.k, reading.s, 4 * f),
        is_bounded(green, reading.k, reading.s, 4 * f),
        is_bounded(blue, reading.k, reading.s, 4 * f),
    ensures
        ({
            let value = |col: int, row: int| (reading.values)(f, col, row);
            let own = |letter: char|
                frame_light(
                    frames[0].cfa.name@,
                    frames[0].width as int,
                    frames[0].height as int,
                    letter,
                    value,
                    pow2(reading.s) as int,
                    reading.x - reading.moves[f].0,
                    reading.y - reading.moves[f].1,
                );
            let r = (red.0 + own('R').0, red.1 + own('R').1);
            let g = (green.0 + own('G').0, green.1 + own('G').1);
            let b = (blue.0 + own('B').0, blue.1 + own('B').1);
            &&& has_gathered(
                with_frame(fpu, None, frames[0].cfa.name@, frames[f], f == 0, sx, sy, sums),
                r,
                g,
                b,
                reading.k,
                reading.s,
            )
            &&& is_bounded(r, reading.k, reading.s, 4 * f + 4)
            &&& is_bounded(g, reading.k, reading.s, 4 * f + 4)
            &&& is_bounded(b, reading.k, reading.s, 4 * f + 4)
        }),
{
    let name = frames[0].cfa.name@;
    let value = |col: int, row: int| (reading.values)(f, col, row);
    let own = |letter: char, right: bool, low: bool|
        corner_light(
            name,
            frames[0].width as int,
            frames[0].height as int,
            letter,
            value,
            pow2(reading.s) as int,
            reading.x - reading.moves[f].0,
            reading.y - reading.moves[f].1,
            right,
            low,
        );
    let plus = |a: (int, int), b: (int, int)| (a.0 + b.0, a.1 + b.1);
    let s0 = with_corner(fpu, None, name, frames[f], f == 0, sx, sy, 0, sums);
    lemma_corner(fpu, frames, shifts, reading, f, sx, sy, 0, sums, red, green, blue, 4 * f);
    let (r0, g0, b0) = (
        plus(red, own('R', false, false)),
        plus(green, own('G', false, false)),
        plus(blue, own('B', false, false)),
    );
    let s1 = with_corner(fpu, None, name, frames[f], f == 0, sx, sy, 1, s0);
    lemma_corner(fpu, frames, shifts, reading, f, sx, sy, 1, s0, r0, g0, b0, 4 * f + 1);
    let (r1, g1, b1) = (
        plus(r0, own('R', true, false)),
        plus(g0, own('G', true, false)),
        plus(b0, own('B', true, false)),
    );
    let s2 = with_corner(fpu, None, name, frames[f], f == 0, sx, sy, 2, s1);
    lemma_corner(fpu, frames, shifts, reading, f, sx, sy, 2, s1, r1, g1, b1, 4 * f + 2);
    let (r2, g2, b2) = (
        plus(r1, own('R', false, true)),
        plus(g1, own('G', false, true)),
        plus(b1, own('B', false, true)),
    );
    lemma_corner(fpu, frames, shifts, reading, f, sx, sy, 3, s2, r2, g2, b2, 4 * f + 3);
}

proof fn lemma_gathers<F: Fn(FloatOp) -> u64>(
    fpu: &FloatUnit<F>,
    frames: Seq<CfaFrame>,
    shifts: Seq<(u32, u32)>,
    reading: Reading,
    x: u32,
    y: u32,
    n: nat,
)
    requires
        is_exact(fpu),
        is_read(fpu, frames, shifts, reading),
        n <= frames.len(),
        stands_for(x, reading.x, reading.s),
        stands_for(y, reading.y, reading.s),
    ensures
        has_gathered(
            gathered(fpu, None, frames, shifts, x, y, n),
            light_of(frames, reading, 'R', n),
            light_of(frames, reading, 'G', n),
            light_of(frames, reading, 'B', n),
            reading.k,
            reading.s,
        ),
        is_bounded(light_of(frames, reading, 'R', n), reading.k, reading.s, 4 * n as int),
        is_bounded(light_of(frames, reading, 'G', n), reading.k, reading.s, 4 * n as int),
        is_bounded(light_of(frames, reading, 'B', n), reading.k, reading.s, 4 * n as int),
    decreases n,
{
    if n == 0 {
        lemma_constants();
        assert(0 * (pow2(reading.s) * pow2(reading.s)) == 0 && 0 * pow2(reading.k) == 0);
    } else {
        let f = n - 1;
        lemma_gathers(fpu, frames, shifts, reading, x, y, f as nat);
        exact_sub(fpu, x, shifts[f].0, reading.x, reading.moves[f].0, reading.s);
        exact_sub(fpu, y, shifts[f].1, reading.y, reading.moves[f].1, reading.s);
        lemma_frame(
            fpu,
            frames,
            shifts,
            reading,
            f,
            fpu.sub(x, shifts[f].0),
            fpu.sub(y, shifts[f].1),
            gathered(fpu, None, frames, shifts, x, y, f as nat),
            light_of(frames, reading, 'R', f as nat),
            light_of(frames, reading, 'G', f as nat),
            light_of(frames, reading, 'B', f as nat),
        );
    }
}

/// Whether the output pixel at column `x` of row `y` lies at the position of a reading.
pub open spec fn is_read_at(reading: Reading, scale: u32, x: int, y: int) -> bool {
    &&& x * pow2(reading.s) == reading.x * scale
    &&& y * pow2(reading.s) == reading.y * scale
}

pub(crate) proof fn lemma_reads_at<F: Fn(FloatOp) -> u64>(
    fpu: &FloatUnit<F>,
    reading: Reading,
    scale: u32,
    x: int,
    part: int,
)
    requires
        is_exact(fpu),
        scale == 1 || scale == 2,
        0 <= x,
        fits(x),
        fits(part),
        x * pow2(reading.s) == part * scale,
        reading.s <= 3,
    ensures
        stands_for(
            fpu.div(fpu.from_u64(x as u64), fpu.from_u64(scale as u64)),
            part,
            reading.s,
        ),
{
    exact_from(fpu, x);
    exact_from(fpu, scale as int);
    lemma_finer(fpu.from_u64(x as u64), x, 0, reading.s);
    exact_div(
        fpu,
        fpu.from_u64(x as u64),
        fpu.from_u64(scale as u64),
        part,
        scale as int,
        0,
        reading.s,
    );
}

proof fn lemma_mean<F: Fn(FloatOp) -> u64>(
    fpu: &FloatUnit<F>,
    c: ChannelSum,
    light: (int, int),
    mean: int,
    k: nat,
    s: nat,
    n: int,
)
    requires
        is_exact(fpu),
        has_collected(c, light, k, s),
        is_bounded(light, k, s, n),
        s <= 3,
        k <= 24,
        light.0 == mean * light.1,
    ensures
        lt(ZERO, c.weight) == (light.1 > 0),
        light.1 > 0 ==> {
            &&& stands_for(mean_value(fpu, c), mean, k)
            &&& clamp(mean_value(fpu, c), ZERO, ONE) == mean_value(fpu, c)
        },
{
    lemma_constants();
    lemma_compare(ZERO, c.weight, 0, light.1, 2 * s);
    if light.1 > 0 {
        let p = pow2(k) as int;
        vstd::arithmetic::power2::lemma2_to64();
        assert(p <= 0x100_0000) by {
            if k < 24 {
                vstd::arithmetic::power2::lemma_pow2_strictly_increases(k, 24);
            }
        }
        assert(0 <= mean <= p) by (nonlinear_arith)
            requires
                0 <= mean * light.1 <= light.1 * p,
                light.1 > 0,
        ;
        exact_div(fpu, c.sum, c.weight, mean, light.1, 2 * s, k);
        lemma_finer(ONE, 1, 0, k);
        let m = fpu.div(c.sum, c.weight);
        lemma_compare(ZERO, m, 0, mean, k);
        lemma_compare(m, ONE, mean, p, k);
        lemma_compare(ZERO, ONE, 0, p, k);
        clamp_stays_within(m, ZERO, ONE);
    }
}

/// Each color of an output pixel is the mean of what all frames show of it: every frame is read at the
/// position of the pixel less its own shift, columns by the horizontal and rows by the vertical
/// shift, and its four pixels there count by how near they are, each for the color of its filter.
pub proof fn colors_are_the_means_of_what_frames_show<F: Fn(FloatOp) -> u64>(
    fpu: &FloatUnit<F>,
    frames: Seq<CfaFrame>,
    shifts: Seq<(u32, u32)>,
    scale: u32,
    out: RgbaFrame,
    reading: Reading,
    x: int,
    y: int,
    red: int,
    green: int,
    blue: int,
)
    requires
        is_exact(fpu),
        is_read(fpu, frames, shifts, reading),
        is_fused(fpu, None, frames, shifts, scale, out),
        scale == 1 || scale == 2,
        0 <= x < out.width,
        0 <= y < out.height,
        fits(x),
        fits(y),
        is_read_at(reading, scale, x, y),
        light_of(frames, reading, 'R', frames.len()).0 == red * light_of(
            frames,
            reading,
            'R',
            frames.len(),
        ).1,
        light_of(frames, reading, 'G', frames.len()).0 == green * light_of(
            frames,
            reading,
            'G',
            frames.len(),
        ).1,
        light_of(frames, reading, 'B', frames.len()).0 == blue * light_of(
            frames,
            reading,
            'B',
            frames.len(),
        ).1,
    ensures
        light_of(frames, reading, 'R', frames.len()).1 > 0 ==> stands_for(
            out.at(x, y, 0),
            red,
            reading.k,
        ),
        light_of(frames, reading, 'G', frames.len()).1 > 0 ==> stands_for(
            out.at(x, y, 1),
            green,
            reading.k,
        ),
        light_of(frames, reading, 'B', frames.len()).1 > 0 ==> stands_for(
            out.at(x, y, 2),
            blue,
            reading.k,
        ),
        // A color that no frame shows is filled in from those that are shown.
        light_of(frames, reading, 'R', frames.len()).1 == 0 && light_of(
            frames,
            reading,
            'G',
            frames.len(),
        ).1 > 0 ==> out.at(x, y, 0) == clamp(fpu.mul(out.at(x, y, 1), 0x3f4c_cccd), ZERO, ONE),
        light_of(frames, reading, 'B', frames.len()).1 == 0 && light_of(
            frames,
            reading,
            'G',
            frames.len(),
        ).1 > 0 ==> out.at(x, y, 2) == clamp(fpu.mul(out.at(x, y, 1), 0x3f99_999a), ZERO, ONE),
        light_of(frames, reading, 'G', frames.len()).1 == 0 && light_of(
            frames,
            reading,
            'R',
            frames.len(),
        ).1 > 0 && light_of(frames, reading, 'B', frames.len()).1 > 0 ==> out.at(x, y, 1) == clamp(
            fpu.mul(fpu.add(out.at(x, y, 0), out.at(x, y, 2)), HALF),
            ZERO,
            ONE,
        ),
        out.at(x, y, 3) == ONE,
{
    lemma_reads_at(fpu, reading, scale, x, reading.x);
    lemma_reads_at(fpu, reading, scale, y, reading.y);
    let px = fpu.div(fpu.from_u64(x as u64), fpu.from_u64(scale as u64));
    let py = fpu.div(fpu.from_u64(y as u64), fpu.from_u64(scale as u64));
    let n = frames.len();
    lemma_gathers(fpu, frames, shifts, reading, px, py, n);
    let sums = gathered(fpu, None, frames, shifts, px, py, n);
    let (k, s) = (reading.k, reading.s);
    let r = light_of(frames, reading, 'R', n);
    let g = light_of(frames, reading, 'G', n);
    let b = light_of(frames, reading, 'B', n);
    lemma_mean(fpu, sums.red, r, red, k, s, 4 * n as int);
    lemma_mean(fpu, sums.green, g, green, k, s, 4 * n as int);
    lemma_mean(fpu, sums.blue, b, blue, k, s, 4 * n as int);
    assert(fused_at(fpu, None, frames, shifts, scale, x, y) == resolved(fpu, sums));
}

/// The value of a sample tells how far its count lies on the way from the black level of its filter to
/// the white level. Red goes by the first black level, green by the second and blue by the last. The
/// white level is a power of two here, and the value is `q` of `2^t` parts.
pub proof fn values_lie_between_black_and_white<F: Fn(FloatOp) -> u64>(
    fpu: &FloatUnit<F>,
    frame: CfaFrame,
    letter: char,
    i: int,
    white: nat,
    black: int,
    q: int,
    t: nat,
)
    requires
        is_exact(fpu),
        letter == 'R' || letter == 'G' || letter == 'B',
        0 <= i < frame.data@.len(),
        white <= 16,
        t <= 24,
        stands_for(frame.white_level, pow2(white) as int, 0),
        stands_for(
            frame.black_levels@[if letter == 'R' {
                0
            } else if letter == 'G' {
                1
            } else {
                3
            }],
            black,
            0,
        ),
        0 <= black < pow2(white),
        black <= frame.data@[i] <= pow2(white),
        (frame.data@[i] - black) * pow2(t) == q * (pow2(white) - black),
    ensures
        stands_for(
            corrected(fpu, frame, letter_band(letter), normalized(fpu, frame, i)),
            q,
            t,
        ),
{
    let d = frame.data@[i] as int;
    let w = pow2(white) as int;
    let p = pow2(t) as int;
    vstd::arithmetic::power2::lemma2_to64();
    assert(1 <= w <= 0x1_0000) by {
        vstd::arithmetic::power2::lemma_pow2_pos(white);
        if white < 16 {
            vstd::arithmetic::power2::lemma_pow2_strictly_increases(white, 16);
        }
    }
    assert(1 <= p <= 0x100_0000) by {
        vstd::arithmetic::power2::lemma_pow2_pos(t);
        if t < 24 {
            vstd::arithmetic::power2::lemma_pow2_strictly_increases(t, 24);
        }
    }
    lemma_constants();
    lemma_is_finite(frame.white_level, w, 0);
    lemma_compare(frame.white_level, ONE, w, 1, 0);
    exact_from(fpu, d);
    lemma_finer(fpu.from_u64(d as u64), d, 0, white);
    exact_div(fpu, fpu.from_u64(d as u64), frame.white_level, d, w, 0, white);
    let v = fpu.div(fpu.from_u64(d as u64), frame.white_level);
    lemma_finer(ONE, 1, 0, white);
    lemma_compare(ZERO, v, 0, d, white);
    lemma_compare(v, ONE, d, w, white);
    lemma_compare(ZERO, ONE, 0, 1, 0);
    clamp_stays_within(v, ZERO, ONE);
    assert(normalized(fpu, frame, i) == v);
    let dark = frame.black_levels@[letter_band(letter).black_index()];
    exact_coarse_mul(fpu, v, frame.white_level, d, w, white, 0, d, white);
    let back = fpu.mul(v, frame.white_level);
    exact_sub(fpu, back, dark, d, black, 0);
    exact_sub(fpu, frame.white_level, dark, w, black, 0);
    let (above, range) = (fpu.sub(back, dark), fpu.sub(frame.white_level, dark));
    lemma_is_finite(range, w - black, 0);
    lemma_compare(range, ONE, w - black, 1, 0);
    lemma_finer(above, d - black, 0, t);
    assert(0 <= q <= p) by (nonlinear_arith)
        requires
            (d - black) * p == q * (w - black),
            0 <= d - black <= w - black,
            0 < w - black,
            0 < p,
    ;
    exact_div(fpu, above, range, q, w - black, 0, t);
    let value = fpu.div(above, range);
    lemma_finer(ONE, 1, 0, t);
    lemma_compare(ZERO, value, 0, q, t);
    lemma_compare(value, ONE, q, p, t);
    clamp_stays_within(value, ZERO, ONE);
}

/// The value of a shift along one axis, in numbers.
spec fn part_along(shift: (int, int), vertical: bool) -> int {
    if vertical {
        shift.1
    } else {
        shift.0
    }
}

proof fn lemma_extremes(
    shifts: Seq<(u32, u32)>,
    moves: Seq<(int, int)>,
    k: nat,
    vertical: bool,
    n: nat,
) -> (ends: (int, int))
    requires
        1 <= n <= shifts.len(),
        moves.len() == shifts.len(),
        forall|i: int|
            0 <= i < shifts.len() ==> stands_for((#[trigger] shifts[i]).0, moves[i].0, k) && stands_for(
                shifts[i].1,
                moves[i].1,
                k,
            ),
    ensures
        0 <= ends.0 < n,
        0 <= ends.1 < n,
        farthest(shifts, vertical, n) == along(shifts[ends.0], vertical),
        nearest(shifts, vertical, n) == along(shifts[ends.1], vertical),
        forall|i: int|
            0 <= i < n ==> part_along(moves[ends.1], vertical) <= part_along(
                #[trigger] moves[i],
                vertical,
            ) <= part_along(moves[ends.0], vertical),
    decreases n,
{
    if n == 1 {
        (0, 0)
    } else {
        let before = lemma_extremes(shifts, moves, k, vertical, (n - 1) as nat);
        let last = n - 1;
        let (far, near) = (along(shifts[before.0], vertical), along(shifts[before.1], vertical));
        let own = along(shifts[last], vertical);
        let (f, m, o) = (
            part_along(moves[before.0], vertical),
            part_along(moves[before.1], vertical),
            part_along(moves[last], vertical),
        );
        assert(stands_for(far, f, k) && stands_for(near, m, k) && stands_for(own, o, k));
        lemma_compare(far, own, f, o, k);
        lemma_compare(own, near, o, m, k);
        lemma_is_finite(far, f, k);
        lemma_is_finite(near, m, k);
        (
            if f < o {
                last
            } else {
                before.0
            },
            if o < m {
                last
            } else {
                before.1
            },
        )
    }
}

/// Whether two shifts lie three quarters of a pixel apart in some direction, in parts of which `2^k`
/// make a pixel.
pub open spec fn lie_apart(a: (int, int), b: (int, int), k: nat) -> bool {
    4 * (a.0 - b.0) >= 3 * pow2(k) || 4 * (a.1 - b.1) >= 3 * pow2(k)
}

/// The output is made twice as dense exactly if some two frames lie three quarters of a pixel apart,
/// in either direction.
pub proof fn frames_apart_double_the_scale<F: Fn(FloatOp) -> u64>(
    fpu: &FloatUnit<F>,
    shifts: Seq<(u32, u32)>,
    moves: Seq<(int, int)>,
    k: nat,
)
    requires
        is_exact(fpu),
        shifts.len() > 0,
        moves.len() == shifts.len(),
        forall|i: int|
            0 <= i < shifts.len() ==> {
                &&& stands_for((#[trigger] shifts[i]).0, moves[i].0, k)
                &&& stands_for(shifts[i].1, moves[i].1, k)
                &&& -0x80_0000 <= moves[i].0 <= 0x80_0000
                &&& -0x80_0000 <= moves[i].1 <= 0x80_0000
            },
        k <= 140,
    ensures
        scale_of(fpu, shifts) == 2 <==> exists|i: int, j: int|
            0 <= i < moves.len() && 0 <= j < moves.len() && lie_apart(
                #[trigger] moves[i],
                #[trigger] moves[j],
                k,
            ),
        scale_of(fpu, shifts) == 1 || scale_of(fpu, shifts) == 2,
{
    let n = shifts.len();
    let (r, l) = lemma_extremes(shifts, moves, k, false, n);
    let (b, t) = lemma_extremes(shifts, moves, k, true, n);
    assert(stands_for(shifts[r].0, moves[r].0, k) && stands_for(shifts[l].0, moves[l].0, k));
    assert(stands_for(shifts[b].1, moves[b].1, k) && stands_for(shifts[t].1, moves[t].1, k));
    let (across, down) = (moves[r].0 - moves[l].0, moves[b].1 - moves[t].1);
    exact_sub(fpu, shifts[r].0, shifts[l].0, moves[r].0, moves[l].0, k);
    exact_sub(fpu, shifts[b].1, shifts[t].1, moves[b].1, moves[t].1, k);
    let (x, y) = (spread(fpu, shifts, false), spread(fpu, shifts, true));
    assert(stands_for(x, across, k) && stands_for(y, down, k));
    lemma_compare(x, y, across, down, k);
    lemma_is_finite(x, across, k);
    let (most, widest) = if across < down {
        (y, down)
    } else {
        (x, across)
    };
    assert(max(x, y) == most);
    assert(stands_for(DOUBLING_SPREAD, 3, 2)) by {
        reveal(stands_for);
        vstd::arithmetic::power2::lemma2_to64();
        vstd::arithmetic::power2::lemma_pow2_adds(22, 125);
        assert(units(DOUBLING_SPREAD as int) == 0xc0_0000 * pow2(125));
        assert(pow2(147) == 0x40_0000 * pow2(125));
    }
    lemma_finer(DOUBLING_SPREAD, 3, 2, k);
    vstd::arithmetic::power2::lemma2_to64();
    lemma_finer(most, widest, k, 2);
    lemma_compare(DOUBLING_SPREAD, most, (3 * pow2(k)) as int, widest * 4, k + 2);
    assert(scale_of(fpu, shifts) == 2 <==> 4 * widest >= 3 * pow2(k));
    if 4 * widest >= 3 * pow2(k) {
        if across < down {
            assert(lie_apart(moves[b], moves[t], k));
        } else {
            assert(lie_apart(moves[r], moves[l], k));
        }
    }
    assert forall|i: int, j: int|
        0 <= i < moves.len() && 0 <= j < moves.len() && lie_apart(
            #[trigger] moves[i],
            #[trigger] moves[j],
            k,
        ) implies 4 * widest >= 3 * pow2(k) by {
        assert(part_along(moves[i], false) <= part_along(moves[r], false));
        assert(part_along(moves[l], false) <= part_along(moves[j], false));
        assert(part_along(moves[i], true) <= part_along(moves[b], true));
        assert(part_along(moves[t], true) <= part_along(moves[j], true));
    }
}

} // verus!
