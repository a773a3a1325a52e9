//! A noise model from pairs of matching pixels.
//!
//! A two-dimensional histogram per color channel counts how often two values were found at one
//! place of the scene. It tells how likely two values of different frames show the same content.

use crate::exact::{exact_from, exact_sub, exact_whole, is_exact, stands_for};
use crate::float::{clamp, le, lt, FloatOp, FloatUnit, BYTE_MAX, ONE, WORD_MAX, ZERO};
use crate::frame::{lemma_index_pixel, lemma_pixel_index, pixel_index, RgbBytes};
use crate::grid::{grid_between, make_grid, Grid};
use crate::text::same_text;
use vstd::prelude::*;

verus! {

/// The number of bins on each axis of a histogram: one for each value of the upper eight bits.
pub const BINS: usize = 256;

/// The number of rows of all histograms: one per channel and reference bin.
pub const ROWS: usize = 768;

/// The number of counters in all histograms.
pub const COUNTERS: usize = 196608;

/// The joint histograms of the three color channels.
pub struct NoiseModel {
    /// The counters: channel after channel, in each one row of bins per reference bin.
    pub histograms: Vec<u32>,
    /// Whether the counters were turned into probabilities.
    pub normalized: bool,
}

/// The row of a channel and a reference bin.
pub open spec fn row_index(channel: int, reference: int) -> int {
    channel * 256 + reference
}

/// The place of a counter.
pub open spec fn bin_index(channel: int, reference: int, sample: int) -> int {
    row_index(channel, reference) * 256 + sample
}

/// The bin of a value: its upper eight bits.
pub fn hval(v: u16) -> (r: usize)
    ensures
        r == v as int / 256,
        r < BINS,
{
    assert(v >> 8 & 255 == v / 256) by (bit_vector);
    (v >> 8 & 255) as usize
}

/// The color channel of a Bayer pattern at column `x` of row `y`: 0 for red, 1 for green, 2 for
/// blue; green for any other pattern.
pub open spec fn channel_of(pattern: Seq<char>, x: int, y: int) -> int {
    let (right, low) = (x % 2 == 1, y % 2 == 1);
    if pattern == "RGGB"@ {
        if right == low {
            if low {
                2
            } else {
                0
            }
        } else {
            1
        }
    } else if pattern == "BGGR"@ {
        if right == low {
            if low {
                0
            } else {
                2
            }
        } else {
            1
        }
    } else if pattern == "GRBG"@ {
        if right == low {
            1
        } else if low {
            2
        } else {
            0
        }
    } else if pattern == "GBRG"@ {
        if right == low {
            1
        } else if low {
            0
        } else {
            2
        }
    } else {
        1
    }
}

/// The color channel of a Bayer pattern at column `x` of row `y`: 0 for red, 1 for green, 2 for
/// blue.
pub fn cfa_channel_at(cfa: &str, x: usize, y: usize) -> (channel: usize)
    ensures
        channel == channel_of(cfa@, x as int, y as int),
        channel < 3,
{
    let right: bool = x % 2 == 1;
    let low: bool = y % 2 == 1;
    if same_text(cfa, "RGGB") {
        if right != low {
            1
        } else if low {
            2
        } else {
            0
        }
    } else if same_text(cfa, "BGGR") {
        if right != low {
            1
        } else if low {
            0
        } else {
            2
        }
    } else if same_text(cfa, "GRBG") {
        if right == low {
            1
        } else if low {
            2
        } else {
            0
        }
    } else if same_text(cfa, "GBRG") {
        if right == low {
            1
        } else if low {
            0
        } else {
            2
        }
    } else {
        1
    }
}

/// The channel that a sample at column `x` of row `y` is counted in: green where the frames hold no
/// mosaic or the pattern is not known.
pub open spec fn counted_channel(
    is_cfa: bool,
    pattern: Option<Seq<char>>,
    x: int,
    y: int,
) -> int {
    match pattern {
        Some(p) => if is_cfa {
            channel_of(p, x, y)
        } else {
            1
        },
        None => 1,
    }
}

/// Aligned frames of raw samples that a model is built from.
pub struct Burst {
    /// The samples of each frame, row after row.
    pub frames: Seq<Seq<u16>>,
    /// Pixels per row.
    pub width: int,
    /// Number of rows.
    pub height: int,
    /// Horizontal and vertical shift of each frame.
    pub shifts: Seq<(u32, u32)>,
    /// Whether the frames hold a color filter mosaic.
    pub is_cfa: bool,
    /// Pattern of the mosaic, where it is known.
    pub pattern: Option<Seq<char>>,
}

/// The place of the counter for the pair of the first frame's sample at (`x`, `y`) and the sample
/// of frame `f` that the shift maps it to; none where either is missing.
pub open spec fn pair_bin<F: Fn(FloatOp) -> u64>(
    fpu: &FloatUnit<F>,
    burst: Burst,
    f: int,
    x: int,
    y: int,
) -> Option<int> {
    let ox = fpu.to_i32(fpu.round(fpu.sub(fpu.from_i32(x as i32), burst.shifts[f].0)));
    let oy = fpu.to_i32(fpu.round(fpu.sub(fpu.from_i32(y as i32), burst.shifts[f].1)));
    let here = pixel_index(x, y, burst.width);
    let there = pixel_index(ox as int, oy as int, burst.width);
    if 0 <= ox < burst.width && 0 <= oy < burst.height && here < burst.frames[0].len() && there
        < burst.frames[f].len() {
        Some(
            bin_index(
                counted_channel(burst.is_cfa, burst.pattern, x, y),
                burst.frames[0][here] as int / 256,
                burst.frames[f][there] as int / 256,
            ),
        )
    } else {
        None
    }
}

/// The positions that are counted: every pixel.
pub open spec fn sample_grid(width: u32, height: u32) -> Grid {
    grid_between(0, countable(width), 0, countable(height), 1)
}

/// The length of a side whose positions can be told by a signed number; none of it otherwise.
pub open spec fn countable(side: u32) -> u32 {
    if side <= i32::MAX {
        side
    } else {
        0
    }
}

/// How many of the first `k` positions of frame `f` are counted at place `bin`.
pub open spec fn tally<F: Fn(FloatOp) -> u64>(
    fpu: &FloatUnit<F>,
    burst: Burst,
    g: Grid,
    f: int,
    bin: int,
    k: nat,
) -> nat
    decreases k,
{
    if k == 0 {
        0
    } else {
        let before = tally(fpu, burst, g, f, bin, (k - 1) as nat);
        if pair_bin(fpu, burst, f, g.column(k - 1), g.row(k - 1)) == Some(bin) {
            before + 1
        } else {
            before
        }
    }
}

/// How many pairs of the first frame with the frames before `n` are counted at place `bin`.
pub open spec fn pairs_at<F: Fn(FloatOp) -> u64>(
    fpu: &FloatUnit<F>,
    burst: Burst,
    g: Grid,
    bin: int,
    n: nat,
) -> nat
    decreases n,
{
    if n <= 1 {
        0
    } else {
        pairs_at(fpu, burst, g, bin, (n - 1) as nat) + tally(
            fpu,
            burst,
            g,
            n - 1,
            bin,
            g.area() as nat,
        )
    }
}

/// Whether counting the pairs of a burst made `after` of the counters `before`.
pub open spec fn is_counted<F: Fn(FloatOp) -> u64>(
    fpu: &FloatUnit<F>,
    burst: Burst,
    width: u32,
    height: u32,
    before: Seq<u32>,
    after: Seq<u32>,
) -> bool {
    forall|i: int|
        0 <= i < COUNTERS ==> #[trigger] after[i] == saturated(
            before[i] + pairs_at(fpu, burst, sample_grid(width, height), i, burst.frames.len()),
        )
}

/// A count that stays at the largest one that a counter holds.
pub open spec fn saturated(n: int) -> int {
    if n > u32::MAX {
        u32::MAX as int
    } else {
        n
    }
}

/// The largest of the first `n` values.
pub open spec fn peak(s: Seq<u32>, n: int) -> u32
    decreases n,
{
    if n <= 0 {
        0
    } else {
        let before = peak(s, n - 1);
        if before < s[n - 1] {
            s[n - 1]
        } else {
            before
        }
    }
}

/// The sum of the first `n` values.
pub open spec fn total(s: Seq<u32>, n: int) -> int
    decreases n,
{
    if n <= 0 {
        0
    } else {
        total(s, n - 1) + s[n - 1]
    }
}

/// One row of a histogram.
pub open spec fn row_at(histograms: Seq<u32>, row: int) -> Seq<u32> {
    histograms.subrange(row * 256, row * 256 + 256)
}

/// The largest value from place `j` on.
pub open spec fn peak_from(s: Seq<u32>, j: int) -> u32
    decreases s.len() - j,
{
    if j >= s.len() || j < 0 {
        0
    } else {
        let behind = peak_from(s, j + 1);
        if behind < s[j] {
            s[j]
        } else {
            behind
        }
    }
}

/// The larger of two counters.
pub open spec fn larger(a: u32, b: u32) -> u32 {
    if a < b {
        b
    } else {
        a
    }
}

/// Counter `j` of a row after it was accumulated from both ends towards the diagonal at `center`:
/// the largest one on its way from the nearer end, and on the diagonal the largest of all.
pub open spec fn accumulated(line: Seq<u32>, center: int, j: int) -> u32 {
    if j < center {
        peak(line, j + 1)
    } else if j > center {
        peak_from(line, j)
    } else {
        larger(peak(line, j + 1), peak_from(line, j))
    }
}

/// What a counter of `value` is normalized to in a row with `top` on the diagonal.
pub open spec fn normalized_value<F: Fn(FloatOp) -> u64>(
    fpu: &FloatUnit<F>,
    value: u32,
    top: u32,
    hist_exp: u32,
) -> u32 {
    let diagonal = fpu.from_u64(top as u64);
    if lt(ZERO, diagonal) {
        fpu.to_u32(
            fpu.mul(
                clamp(
                    fpu.powf(fpu.div(fpu.from_u64(value as u64), diagonal), hist_exp),
                    ZERO,
                    ONE,
                ),
                WORD_MAX,
            ),
        )
    } else {
        value
    }
}

/// Counter `j` of a row of all histograms after they were normalized.
pub open spec fn normalized_at<F: Fn(FloatOp) -> u64>(
    fpu: &FloatUnit<F>,
    histograms: Seq<u32>,
    row: int,
    j: int,
    hist_exp: u32,
) -> u32 {
    let line = row_at(histograms, row);
    normalized_value(
        fpu,
        accumulated(line, row % 256, j),
        accumulated(line, row % 256, row % 256),
        hist_exp,
    )
}

/// Whether `after` is `before` after it was normalized.
pub open spec fn is_normalized<F: Fn(FloatOp) -> u64>(
    fpu: &FloatUnit<F>,
    before: Seq<u32>,
    hist_exp: u32,
    after: NoiseModel,
) -> bool {
    &&& after.wf()
    &&& after.normalized
    &&& forall|row: int, j: int|
        0 <= row < ROWS && 0 <= j < 256 ==> #[trigger] after.histograms@[row * 256 + j]
            == normalized_at(fpu, before, row, j, hist_exp)
}

impl NoiseModel {
    /// Whether all counters are there.
    pub open spec fn wf(&self) -> bool {
        self.histograms@.len() == COUNTERS
    }

    /// The counter of a channel and two bins.
    pub open spec fn at(&self, channel: int, reference: int, sample: int) -> u32 {
        self.histograms@[bin_index(channel, reference, sample)]
    }

    /// An empty model.
    pub fn new() -> (r: Self)
        ensures
            r.wf(),
            !r.normalized,
            forall|i: int| 0 <= i < COUNTERS ==> #[trigger] r.histograms@[i] == 0,
    {
        let mut histograms: Vec<u32> = Vec::new();
        histograms.resize(COUNTERS, 0);
        NoiseModel { histograms, normalized: false }
    }

    /// Count the pairs of aligned frames.
    ///
    /// Each pixel of the first frame is mapped to every other frame by that frame's shift, and the
    /// counter of the two values is raised. Fewer than two frames change nothing.
    pub fn build<F: Fn(FloatOp) -> u64>(
        &mut self,
        fpu: &FloatUnit<F>,
        frames: &Vec<Vec<u16>>,
        width: u32,
        height: u32,
        shifts: &Vec<(u32, u32)>,
        is_cfa: bool,
        cfa_pattern: Option<&str>,
    )
        requires
            old(self).wf(),
            frames@.len() >= 2 ==> shifts@.len() >= frames@.len(),
        ensures
            final(self).wf(),
            final(self).normalized == old(self).normalized,
            is_counted(
                fpu,
                burst_of(frames@, width, height, shifts@, is_cfa, cfa_pattern),
                width,
                height,
                old(self).histograms@,
                final(self).histograms@,
            ),
    {
        let ghost burst = burst_of(frames@, width, height, shifts@, is_cfa, cfa_pattern);
        let ghost start = self.histograms@;
        let x_end: u32 = if width <= 0x7fff_ffff {
            width
        } else {
            0
        };
        let y_end: u32 = if height <= 0x7fff_ffff {
            height
        } else {
            0
        };
        let g = make_grid(0, x_end, 0, y_end, 1);
        let count = g.size();
        if frames.len() < 2 {
            return;
        }
        let mut f: usize = 1;
        while f < frames.len()
            invariant
                1 <= f <= frames@.len(),
                self.wf(),
                self.normalized == old(self).normalized,
                burst == burst_of(frames@, width, height, shifts@, is_cfa, cfa_pattern),
                g == sample_grid(width, height),
                g.within(x_end as int, y_end as int),
                x_end > 0 ==> x_end == width <= i32::MAX,
                y_end > 0 ==> y_end == height <= i32::MAX,
                shifts@.len() >= frames@.len(),
                count == g.area(),
                start.len() == COUNTERS,
                forall|i: int|
                    0 <= i < COUNTERS ==> #[trigger] self.histograms@[i] == saturated(
                        start[i] + pairs_at(fpu, burst, g, i, f as nat),
                    ),
            decreases frames@.len() - f,
        {
            let ghost before = self.histograms@;
            let (dx, dy) = shifts[f];
            let mut k: u64 = 0;
            while k < count
                invariant
                    k <= count,
                    1 <= f < frames@.len(),
                    self.wf(),
                    self.normalized == old(self).normalized,
                    burst == burst_of(frames@, width, height, shifts@, is_cfa, cfa_pattern),
                    g.within(x_end as int, y_end as int),
                    x_end > 0 ==> x_end == width <= i32::MAX,
                    y_end > 0 ==> y_end == height <= i32::MAX,
                    shifts@.len() >= frames@.len(),
                    (dx, dy) == shifts@[f as int],
                    count == g.area(),
                    before.len() == COUNTERS,
                    forall|i: int|
                        0 <= i < COUNTERS ==> #[trigger] self.histograms@[i] == saturated(
                            before[i] + tally(fpu, burst, g, f as int, i, k as nat),
                        ),
                decreases count - k,
            {
                let (x, y) = g.position(k, x_end, y_end);
                match Self::find_pair(
                    fpu,
                    &frames[0],
                    &frames[f],
                    width,
                    height,
                    x,
                    y,
                    dx,
                    dy,
                    is_cfa,
                    cfa_pattern,
                    Ghost(burst),
                    Ghost(f as int),
                ) {
                    Some(bin) => {
                        let raised: u32 = self.histograms[bin].saturating_add(1);
                        self.histograms.set(bin, raised);
                    },
                    None => {},
                }
                k = k + 1;
            }
            f = f + 1;
        }
    }

    /// The place of the counter for one pair.
    fn find_pair<F: Fn(FloatOp) -> u64>(
        fpu: &FloatUnit<F>,
        ref_data: &Vec<u16>,
        other_data: &Vec<u16>,
        width: u32,
        height: u32,
        x: u32,
        y: u32,
        dx: u32,
        dy: u32,
        is_cfa: bool,
        cfa_pattern: Option<&str>,
        Ghost(burst): Ghost<Burst>,
        Ghost(f): Ghost<int>,
    ) -> (r: Option<usize>)
        requires
            width <= i32::MAX,
            height <= i32::MAX,
            x < width,
            y < height,
            burst.width == width,
            burst.height == height,
            burst.frames[0] == ref_data@,
            burst.frames[f] == other_data@,
            burst.shifts[f] == (dx, dy),
            burst.is_cfa == is_cfa,
            burst.pattern == pattern_of(cfa_pattern),
        ensures
            r is Some <==> pair_bin(fpu, burst, f, x as int, y as int) is Some,
            r matches Some(bin) ==> bin < COUNTERS && pair_bin(fpu, burst, f, x as int, y as int)
                == Some(bin as int),
    {
        proof {
            lemma_pixel_index(x as int, y as int, width as int, height as int);
            lemma_side_product(width, height);
        }
        let ref_idx: u64 = y as u64 * width as u64 + x as u64;
        let ox = fpu.to_i32(fpu.round(fpu.sub(fpu.from_i32(x as i32), dx)));
        let oy = fpu.to_i32(fpu.round(fpu.sub(fpu.from_i32(y as i32), dy)));
        if ox < 0 || oy < 0 || ox >= width as i32 || oy >= height as i32 {
            return None;
        }
        proof {
            lemma_pixel_index(ox as int, oy as int, width as int, height as int);
        }
        let other_idx: u64 = oy as u64 * width as u64 + ox as u64;
        if ref_idx >= ref_data.len() as u64 || other_idx >= other_data.len() as u64 {
            return None;
        }
        let channel: usize = match cfa_pattern {
            Some(cfa) => if is_cfa {
                cfa_channel_at(cfa, x as usize, y as usize)
            } else {
                1
            },
            None => 1,
        };
        let b1 = hval(ref_data[ref_idx as usize]);
        let b2 = hval(other_data[other_idx as usize]);
        Some((channel * 256 + b1) * 256 + b2)
    }

    /// Turn the counters into probabilities.
    ///
    /// Each row is accumulated from both ends towards the diagonal, divided by its value on the
    /// diagonal, and raised to `hist_exp`.
    pub fn normalize<F: Fn(FloatOp) -> u64>(&mut self, fpu: &FloatUnit<F>, hist_exp: u32)
        requires
            old(self).wf(),
        ensures
            is_normalized(fpu, old(self).histograms@, hist_exp, *final(self)),
    {
        let ghost start = self.histograms@;
        let mut row: usize = 0;
        while row < ROWS
            invariant
                row <= ROWS,
                self.wf(),
                start.len() == COUNTERS,
                forall|i: int|
                    row * 256 <= i < COUNTERS ==> #[trigger] self.histograms@[i] == start[i],
                forall|r: int, j: int|
                    0 <= r < row && 0 <= j < 256 ==> #[trigger] self.histograms@[r * 256 + j]
                        == normalized_at(fpu, start, r, j, hist_exp),
            decreases ROWS - row,
        {
            let ghost before = self.histograms@;
            let ghost line = row_at(start, row as int);
            proof {
                assert(row_at(before, row as int) =~= line);
            }
            self.accumulate_row(row);
            let center: usize = row % 256;
            let top: u32 = self.histograms[row * 256 + center];
            let diag = fpu.from_u64(top as u64);
            let ghost risen = self.histograms@;
            let mut j: usize = 0;
            while j < 256
                invariant
                    j <= 256,
                    row < ROWS,
                    center == row % 256,
                    line == row_at(start, row as int),
                    self.wf(),
                    risen.len() == COUNTERS,
                    diag == fpu.from_u64(top as u64),
                    top == accumulated(line, center as int, center as int),
                    forall|i: int|
                        0 <= i < COUNTERS && !(row * 256 <= i < row * 256 + j)
                            ==> #[trigger] self.histograms@[i] == risen[i],
                    forall|i: int|
                        row * 256 <= i < row * 256 + 256 ==> #[trigger] risen[i] == accumulated(
                            line,
                            center as int,
                            i - row * 256,
                        ),
                    forall|i: int|
                        row * 256 <= i < row * 256 + j ==> #[trigger] self.histograms@[i]
                            == normalized_at(fpu, start, row as int, i - row * 256, hist_exp),
                decreases 256 - j,
            {
                if lt(ZERO, diag) {
                    let ratio = fpu.div(
                        fpu.from_u64(self.histograms[row * 256 + j] as u64),
                        diag,
                    );
                    let value = fpu.to_u32(
                        fpu.mul(clamp(fpu.powf(ratio, hist_exp), ZERO, ONE), WORD_MAX),
                    );
                    self.histograms.set(row * 256 + j, value);
                }
                j = j + 1;
            }
            row = row + 1;
        }
        self.normalized = true;
    }

    /// Accumulate a row from both ends towards the diagonal.
    fn accumulate_row(&mut self, row: usize)
        requires
            old(self).wf(),
            row < ROWS,
        ensures
            final(self).wf(),
            final(self).normalized == old(self).normalized,
            forall|i: int|
                0 <= i < COUNTERS && !(row * 256 <= i < row * 256 + 256)
                    ==> #[trigger] final(self).histograms@[i] == old(self).histograms@[i],
            forall|i: int|
                row * 256 <= i < row * 256 + 256 ==> #[trigger] final(self).histograms@[i]
                    == accumulated(
                    row_at(old(self).histograms@, row as int),
                    row as int % 256,
                    i - row * 256,
                ),
    {
        let ghost start = self.histograms@;
        let ghost line = row_at(start, row as int);
        let base: usize = row * 256;
        let center: usize = row % 256;
        proof {
            reveal_with_fuel(peak, 2);
            reveal_with_fuel(peak_from, 2);
        }
        let mut j: usize = 1;
        while j <= center
            invariant
                1 <= j <= center + 1,
                center < 256,
                row < ROWS,
                base == row * 256,
                self.wf(),
                self.normalized == old(self).normalized,
                start.len() == COUNTERS,
                line == row_at(start, row as int),
                forall|i: int|
                    0 <= i < COUNTERS && !(base <= i < base + j) ==> #[trigger] self.histograms@[i]
                        == start[i],
                forall|i: int|
                    base <= i < base + j ==> #[trigger] self.histograms@[i] == peak(
                        line,
                        i - base + 1,
                    ),
            decreases center + 1 - j,
        {
            let prev: u32 = self.histograms[base + j - 1];
            let cur: u32 = self.histograms[base + j];
            assert(cur == line[j as int]);
            if cur < prev {
                self.histograms.set(base + j, prev);
            }
            j = j + 1;
        }
        let ghost risen = self.histograms@;
        let mut k: usize = 255;
        while k > center
            invariant
                center <= k <= 255,
                row < ROWS,
                base == row * 256,
                self.wf(),
                self.normalized == old(self).normalized,
                start.len() == COUNTERS,
                risen.len() == COUNTERS,
                line == row_at(start, row as int),
                line.len() == 256,
                forall|i: int|
                    0 <= i < COUNTERS && !(base <= i < base + 256) ==> #[trigger] self.histograms@[i]
                        == start[i],
                forall|i: int|
                    base <= i <= base + center ==> #[trigger] risen[i] == peak(line, i - base + 1),
                forall|i: int|
                    base + center < i < base + 256 ==> #[trigger] risen[i] == line[i - base],
                forall|i: int|
                    base <= i < base + k && i <= base + center ==> #[trigger] self.histograms@[i]
                        == peak(line, i - base + 1),
                forall|i: int|
                    base + center < i < base + k ==> #[trigger] self.histograms@[i] == line[i
                        - base],
                forall|i: int|
                    base + k <= i < base + 256 && i > base + center
                        ==> #[trigger] self.histograms@[i] == peak_from(line, i - base),
                k == center ==> self.histograms@[base + center] == accumulated(
                    line,
                    center as int,
                    center as int,
                ),
            decreases k,
        {
            let next: u32 = self.histograms[base + k];
            let cur: u32 = self.histograms[base + k - 1];
            proof {
                assert(next == peak_from(line, k as int));
                if k - 1 == center {
                    assert(cur == peak(line, k as int));
                    assert(line[k - 1] <= peak(line, k as int));
                } else {
                    assert(cur == line[k - 1]);
                }
            }
            if cur < next {
                self.histograms.set(base + k - 1, next);
            }
            k = k - 1;
        }
    }

    /// How likely it is that two values show the same content, from 0 to 1.
    ///
    /// Before the model is normalized this is the share of the pair among all pairs of the
    /// reference value.
    pub fn confidence<F: Fn(FloatOp) -> u64>(
        &self,
        fpu: &FloatUnit<F>,
        ref_val: u16,
        sample_val: u16,
        channel: usize,
    ) -> (r: u32)
        requires
            self.wf(),
        ensures
            r == self.confidence_of(fpu, ref_val, sample_val, channel as int),
    {
        let c: usize = if channel < 2 {
            channel
        } else {
            2
        };
        let b1 = hval(ref_val);
        let b2 = hval(sample_val);
        let row: usize = c * 256 + b1;
        let raw = fpu.from_u64(self.histograms[row * 256 + b2] as u64);
        if self.normalized {
            return fpu.div(raw, WORD_MAX);
        }
        let ghost line = row_at(self.histograms@, row as int);
        let mut row_sum: u64 = 0;
        let mut j: usize = 0;
        while j < 256
            invariant
                j <= 256,
                row < ROWS,
                self.wf(),
                line == row_at(self.histograms@, row as int),
                row_sum == total(line, j as int),
                row_sum <= u32::MAX * j,
            decreases 256 - j,
        {
            row_sum = row_sum + self.histograms[row * 256 + j] as u64;
            j = j + 1;
        }
        if row_sum > 0 {
            fpu.narrow(fpu.wide_div(fpu.widen(raw), fpu.wide_from_u64(row_sum)))
        } else {
            ZERO
        }
    }

    /// What [`NoiseModel::confidence`] returns.
    pub open spec fn confidence_of<F: Fn(FloatOp) -> u64>(
        &self,
        fpu: &FloatUnit<F>,
        ref_val: u16,
        sample_val: u16,
        channel: int,
    ) -> u32 {
        let c = if channel < 2 {
            channel
        } else {
            2
        };
        let reference = ref_val as int / 256;
        let raw = fpu.from_u64(self.at(c, reference, sample_val as int / 256) as u64);
        let row_sum = total(row_at(self.histograms@, row_index(c, reference)), 256);
        if self.normalized {
            fpu.div(raw, WORD_MAX)
        } else if row_sum > 0 {
            fpu.narrow(fpu.wide_div(fpu.widen(raw), fpu.wide_from_u64(row_sum as u64)))
        } else {
            ZERO
        }
    }

    /// The gray level of a counter: white for the largest of the channel.
    pub open spec fn gray_of<F: Fn(FloatOp) -> u64>(
        &self,
        fpu: &FloatUnit<F>,
        channel: int,
        reference: int,
        sample: int,
    ) -> u8 {
        let top = peak(self.histograms@.subrange(channel * 65536, channel * 65536 + 65536), 65536);
        fpu.to_u8(
            fpu.mul(
                fpu.div(
                    fpu.from_u64(self.at(channel, reference, sample) as u64),
                    fpu.from_u64(top as u64),
                ),
                BYTE_MAX,
            ),
        )
    }

    /// The histogram of one channel as a gray image, one row per reference bin.
    pub fn to_visualization<F: Fn(FloatOp) -> u64>(
        &self,
        fpu: &FloatUnit<F>,
        channel: usize,
    ) -> (img: RgbBytes)
        requires
            self.wf(),
        ensures
            img.wf(),
            img.width == 256,
            img.height == 256,
            forall|x: int, y: int, c: int|
                0 <= x < 256 && 0 <= y < 256 && 0 <= c < 3 ==> #[trigger] img.at(x, y, c)
                    == self.gray_of(
                    fpu,
                    if channel < 2 {
                        channel as int
                    } else {
                        2
                    },
                    y,
                    x,
                ),
    {
        let c: usize = if channel < 2 {
            channel
        } else {
            2
        };
        let base: usize = c * 65536;
        let ghost plane = self.histograms@.subrange(base as int, base + 65536);
        let mut max_val: u32 = 0;
        let mut i: usize = 0;
        while i < 65536
            invariant
                i <= 65536,
                base <= 131072,
                self.wf(),
                plane == self.histograms@.subrange(base as int, base + 65536),
                max_val == peak(plane, i as int),
            decreases 65536 - i,
        {
            let v: u32 = self.histograms[base + i];
            if max_val < v {
                max_val = v;
            }
            i = i + 1;
        }
        let top = fpu.from_u64(max_val as u64);
        let mut bytes: Vec<u8> = Vec::with_capacity(196608);
        let mut k: usize = 0;
        while k < 65536
            invariant
                k <= 65536,
                c < 3,
                base == c * 65536,
                self.wf(),
                plane == self.histograms@.subrange(base as int, base + 65536),
                max_val == peak(plane, 65536),
                top == fpu.from_u64(max_val as u64),
                bytes@.len() == k * 3,
                forall|n: int, m: int|
                    0 <= n < k && 0 <= m < 3 ==> #[trigger] bytes@[n * 3 + m] == self.gray_of(
                        fpu,
                        c as int,
                        n / 256,
                        n % 256,
                    ),
            decreases 65536 - k,
        {
            let v = fpu.to_u8(
                fpu.mul(
                    fpu.div(fpu.from_u64(self.histograms[base + k] as u64), top),
                    BYTE_MAX,
                ),
            );
            assert(bin_index(c as int, k as int / 256, k as int % 256) == base + k);
            let ghost before = bytes@;
            bytes.push(v);
            bytes.push(v);
            bytes.push(v);
            assert forall|n: int, m: int| 0 <= n < k + 1 && 0 <= m < 3 implies #[trigger] bytes@[n * 3
                + m] == self.gray_of(fpu, c as int, n / 256, n % 256) by {
                if n < k {
                    assert(bytes@[n * 3 + m] == before[n * 3 + m]);
                }
            }
            k = k + 1;
        }
        let img = RgbBytes { width: 256, height: 256, bytes };
        assert forall|x: int, y: int, m: int|
            0 <= x < 256 && 0 <= y < 256 && 0 <= m < 3 implies #[trigger] img.at(x, y, m)
            == self.gray_of(fpu, c as int, y, x) by {
            lemma_pixel_index(x, y, 256, 256);
        }
        img
    }
}

/// The pattern as characters.
pub open spec fn pattern_of(pattern: Option<&str>) -> Option<Seq<char>> {
    match pattern {
        Some(p) => Some(p@),
        None => None,
    }
}

/// The burst that a model is built from.
pub open spec fn burst_of(
    frames: Seq<Vec<u16>>,
    width: u32,
    height: u32,
    shifts: Seq<(u32, u32)>,
    is_cfa: bool,
    pattern: Option<&str>,
) -> Burst {
    Burst {
        frames: Seq::new(frames.len(), |f: int| frames[f]@),
        width: width as int,
        height: height as int,
        shifts,
        is_cfa,
        pattern: pattern_of(pattern),
    }
}

proof fn lemma_side_product(width: u32, height: u32)
    requires
        width <= i32::MAX,
        height <= i32::MAX,
    ensures
        0 <= width * height <= 0x7fff_ffff * 0x7fff_ffff,
{
    assert(0 <= width * height <= 0x7fff_ffff * 0x7fff_ffff) by (nonlinear_arith)
        requires
            0 <= width <= 0x7fff_ffff,
            0 <= height <= 0x7fff_ffff,
    ;
}

proof fn lemma_peak_grows(s: Seq<u32>, m: int, n: int)
    requires
        m <= n,
    ensures
        peak(s, m) <= peak(s, n),
    decreases n - m,
{
    if m < n {
        lemma_peak_grows(s, m, n - 1);
    }
}

proof fn lemma_peak_from_shrinks(s: Seq<u32>, i: int, j: int)
    requires
        0 <= i <= j,
    ensures
        peak_from(s, j) <= peak_from(s, i),
    decreases j - i,
{
    if i < j {
        lemma_peak_from_shrinks(s, i + 1, j);
    }
}

proof fn lemma_peak_of(s: Seq<u32>, n: int, i: int)
    requires
        0 <= i < n <= s.len(),
    ensures
        s[i] <= peak(s, n),
        s[i] <= peak_from(s, i),
    decreases n,
{
    if i < n - 1 {
        lemma_peak_of(s, n - 1, i);
    }
}

/// An accumulated row rises towards the diagonal: of two counters on one side of it, the nearer one
/// is not smaller, and none exceeds the one on the diagonal.
pub proof fn rows_rise_to_the_diagonal(line: Seq<u32>, center: int, i: int, j: int)
    requires
        0 <= i <= j < line.len(),
        0 <= center < line.len(),
    ensures
        j <= center ==> accumulated(line, center, i) <= accumulated(line, center, j),
        center <= i ==> accumulated(line, center, j) <= accumulated(line, center, i),
        line[i] <= accumulated(line, center, i) <= accumulated(line, center, center),
{
    lemma_peak_grows(line, i + 1, j + 1);
    lemma_peak_from_shrinks(line, i, j);
    lemma_peak_of(line, i + 1, i);
    if i <= center {
        lemma_peak_grows(line, i + 1, center + 1);
    } else {
        lemma_peak_from_shrinks(line, center, i);
    }
}

/// A value that was only ever paired with its own bin stays apart from all others: their
/// accumulated counters are zero.
pub proof fn lone_diagonal_stays_alone(line: Seq<u32>, center: int, j: int)
    requires
        0 <= center < line.len(),
        0 <= j < line.len(),
        forall|i: int| 0 <= i < line.len() && i != center ==> line[i] == 0,
    ensures
        accumulated(line, center, j) == if j == center {
            line[center]
        } else {
            0
        },
{
    lemma_peak_zero(line, center, j + 1);
    lemma_peak_zero_from(line, center, j);
}

proof fn lemma_peak_zero(line: Seq<u32>, center: int, n: int)
    requires
        n <= line.len(),
        forall|i: int| 0 <= i < line.len() && i != center ==> line[i] == 0,
    ensures
        peak(line, n) == if 0 <= center < n {
            line[center]
        } else {
            0
        },
    decreases n,
{
    if n > 0 {
        lemma_peak_zero(line, center, n - 1);
    }
}

proof fn lemma_peak_zero_from(line: Seq<u32>, center: int, j: int)
    requires
        0 <= j,
        center < line.len(),
        forall|i: int| 0 <= i < line.len() && i != center ==> line[i] == 0,
    ensures
        peak_from(line, j) == if j <= center {
            line[center]
        } else {
            0
        },
    decreases line.len() - j,
{
    if j < line.len() {
        lemma_peak_zero_from(line, center, j + 1);
    }
}

/// The channel that a number of a channel stands for.
pub open spec fn channel_index(channel: int) -> int {
    if channel < 2 {
        channel
    } else {
        2
    }
}

/// A confidence depends on the bins of the two values and on the channel alone.
pub proof fn only_bins_matter<F: Fn(FloatOp) -> u64>(
    fpu: &FloatUnit<F>,
    model: NoiseModel,
    ref_a: u16,
    ref_b: u16,
    sample_a: u16,
    sample_b: u16,
    channel_a: nat,
    channel_b: nat,
)
    requires
        ref_a as int / 256 == ref_b as int / 256,
        sample_a as int / 256 == sample_b as int / 256,
        channel_index(channel_a as int) == channel_index(channel_b as int),
    ensures
        model.confidence_of(fpu, ref_a, sample_a, channel_a as int) == model.confidence_of(
            fpu,
            ref_b,
            sample_b,
            channel_b as int,
        ),
{
}

/// The share of `part` in `whole`, as a unit computes it.
pub open spec fn share<F: Fn(FloatOp) -> u64>(fpu: &FloatUnit<F>, part: u32, whole: u64) -> u32 {
    fpu.narrow(fpu.wide_div(fpu.widen(fpu.from_u64(part as u64)), fpu.wide_from_u64(whole)))
}

/// Whether a value lies from 0 to 1.
pub open spec fn is_fraction(v: u32) -> bool {
    le(ZERO, v) && le(v, ONE)
}

/// Whether a unit rounds as shares need it: a part of a whole is a fraction of it, numbers of
/// sixteen bits are fractions of the largest one and are made of fractions, and a positive integer
/// is a positive value.
pub open spec fn rounds_shares<F: Fn(FloatOp) -> u64>(fpu: &FloatUnit<F>) -> bool {
    &&& forall|part: u32, whole: u64|
        0 < whole && part <= whole ==> is_fraction(#[trigger] share(fpu, part, whole))
    &&& forall|n: u32|
        n <= 65535 ==> is_fraction(#[trigger] fpu.div(fpu.from_u64(n as u64), WORD_MAX))
    &&& forall|v: u32| fpu.to_u32(#[trigger] fpu.mul(clamp(v, ZERO, ONE), WORD_MAX)) <= 65535
    &&& forall|n: u32| n > 0 ==> lt(ZERO, #[trigger] fpu.from_u64(n as u64))
}

proof fn lemma_part_of_total(s: Seq<u32>, n: int, i: int)
    requires
        0 <= i < n,
    ensures
        s[i] <= total(s, n),
        total(s, n) >= 0,
    decreases n,
{
    if n > 1 && i < n - 1 {
        lemma_part_of_total(s, n - 1, i);
    } else {
        lemma_total_bound(s, n - 1);
    }
}

proof fn lemma_total_bound(s: Seq<u32>, n: int)
    requires
        0 <= n,
    ensures
        0 <= total(s, n) <= n * u32::MAX,
    decreases n,
{
    if n > 0 {
        lemma_total_bound(s, n - 1);
    }
}

/// Before a model is normalized, every confidence lies from 0 to 1, given a unit that rounds
/// shares.
pub proof fn counted_confidence_is_a_fraction<F: Fn(FloatOp) -> u64>(
    fpu: &FloatUnit<F>,
    model: NoiseModel,
    ref_val: u16,
    sample_val: u16,
    channel: nat,
)
    requires
        model.wf(),
        !model.normalized,
        rounds_shares(fpu),
    ensures
        is_fraction(model.confidence_of(fpu, ref_val, sample_val, channel as int)),
{
    let c = channel_index(channel as int);
    let row = row_index(c, ref_val as int / 256);
    let line = row_at(model.histograms@, row);
    let j = sample_val as int / 256;
    lemma_part_of_total(line, 256, j);
    lemma_total_bound(line, 256);
    let part = model.at(c, ref_val as int / 256, j);
    assert(part == line[j]);
    if total(line, 256) > 0 {
        assert(is_fraction(share(fpu, part, total(line, 256) as u64)));
    }
}

/// After a model was normalized, every confidence lies from 0 to 1, given a unit that rounds
/// shares.
pub proof fn normalized_confidence_is_a_fraction<F: Fn(FloatOp) -> u64>(
    fpu: &FloatUnit<F>,
    before: Seq<u32>,
    hist_exp: u32,
    after: NoiseModel,
    ref_val: u16,
    sample_val: u16,
    channel: nat,
)
    requires
        before.len() == COUNTERS,
        is_normalized(fpu, before, hist_exp, after),
        rounds_shares(fpu),
    ensures
        is_fraction(after.confidence_of(fpu, ref_val, sample_val, channel as int)),
{
    let c = channel_index(channel as int);
    let row = row_index(c, ref_val as int / 256);
    let j = sample_val as int / 256;
    let line = row_at(before, row);
    let center = row % 256;
    rows_rise_to_the_diagonal(line, center, j, j);
    let value = after.histograms@[row * 256 + j];
    assert(value == normalized_at(fpu, before, row, j, hist_exp));
    let top = accumulated(line, center, center);
    if top > 0 {
        assert(lt(ZERO, fpu.from_u64(top as u64)));
    }
    assert(value <= 65535);
    assert(is_fraction(fpu.div(fpu.from_u64(value as u64), WORD_MAX)));
}

/// The worth of the confidences of the first `n` sample bins.
pub open spec fn worth_of_row<F: Fn(FloatOp) -> u64>(
    fpu: &FloatUnit<F>,
    model: NoiseModel,
    ref_val: u16,
    channel: nat,
    worth: spec_fn(u32) -> int,
    n: int,
) -> int
    decreases n,
{
    if n <= 0 {
        0
    } else {
        worth_of_row(fpu, model, ref_val, channel, worth, n - 1) + worth(
            model.confidence_of(fpu, ref_val, ((n - 1) * 256) as u16, channel as int),
        )
    }
}

/// Whether a unit divides to within `error`, where `worth` measures a value in parts of which
/// `scale` make 1.
pub open spec fn divides_within<F: Fn(FloatOp) -> u64>(
    fpu: &FloatUnit<F>,
    worth: spec_fn(u32) -> int,
    scale: int,
    error: int,
) -> bool {
    forall|part: u32, whole: u64|
        0 < whole && part <= whole ==> -error * whole <= worth(#[trigger] share(fpu, part, whole))
            * whole - part * scale <= error * whole
}

/// Before a model is normalized, the confidences of all sample bins with one reference bin sum to 1
/// within 256 times the error of one division; where the row is empty they are all zero.
pub proof fn counted_confidences_sum_to_one<F: Fn(FloatOp) -> u64>(
    fpu: &FloatUnit<F>,
    model: NoiseModel,
    ref_val: u16,
    channel: nat,
    worth: spec_fn(u32) -> int,
    scale: int,
    error: int,
)
    requires
        model.wf(),
        !model.normalized,
        divides_within(fpu, worth, scale, error),
    ensures
        ({
            let row = row_index(channel_index(channel as int), ref_val as int / 256);
            if total(row_at(model.histograms@, row), 256) > 0 {
                -256 * error <= worth_of_row(fpu, model, ref_val, channel, worth, 256) - scale <= 256
                    * error
            } else {
                forall|s: u16| #[trigger]
                    model.confidence_of(fpu, ref_val, s, channel as int) == ZERO
            }
        }),
{
    let row = row_index(channel_index(channel as int), ref_val as int / 256);
    let line = row_at(model.histograms@, row);
    let whole = total(line, 256);
    lemma_total_bound(line, 256);
    if whole > 0 {
        lemma_worth_of_row(fpu, model, ref_val, channel, worth, scale, error, 256);
        let sum = worth_of_row(fpu, model, ref_val, channel, worth, 256);
        assert(-256 * error <= sum - scale <= 256 * error) by (nonlinear_arith)
            requires
                -256 * error * whole <= sum * whole - whole * scale <= 256 * error * whole,
                whole > 0,
        ;
    }
}

proof fn lemma_worth_of_row<F: Fn(FloatOp) -> u64>(
    fpu: &FloatUnit<F>,
    model: NoiseModel,
    ref_val: u16,
    channel: nat,
    worth: spec_fn(u32) -> int,
    scale: int,
    error: int,
    n: int,
)
    requires
        model.wf(),
        !model.normalized,
        divides_within(fpu, worth, scale, error),
        0 <= n <= 256,
        total(
            row_at(
                model.histograms@,
                row_index(channel_index(channel as int), ref_val as int / 256),
            ),
            256,
        ) > 0,
    ensures
        ({
            let row = row_index(channel_index(channel as int), ref_val as int / 256);
            let line = row_at(model.histograms@, row);
            let whole = total(line, 256);
            let sum = worth_of_row(fpu, model, ref_val, channel, worth, n);
            -n * error * whole <= sum * whole - total(line, n) * scale <= n * error * whole
        }),
    decreases n,
{
    let c = channel_index(channel as int);
    let row = row_index(c, ref_val as int / 256);
    let line = row_at(model.histograms@, row);
    let whole = total(line, 256);
    if n > 0 {
        lemma_worth_of_row(fpu, model, ref_val, channel, worth, scale, error, n - 1);
        lemma_part_of_total(line, 256, n - 1);
        lemma_total_bound(line, 256);
        let part = line[n - 1];
        let sample = ((n - 1) * 256) as u16;
        assert(sample as int / 256 == n - 1);
        assert(model.at(c, ref_val as int / 256, n - 1) == part);
        let w = worth(share(fpu, part, whole as u64));
        assert(w == worth(model.confidence_of(fpu, ref_val, sample, channel as int)));
        let before = worth_of_row(fpu, model, ref_val, channel, worth, n - 1);
        let t = total(line, n - 1);
        assert(-n * error * whole <= (before + w) * whole - (t + part) * scale <= n * error * whole)
            by (nonlinear_arith)
            requires
                -(n - 1) * error * whole <= before * whole - t * scale <= (n - 1) * error * whole,
                -error * whole <= w * whole - part * scale <= error * whole,
        ;
    } else {
        assert(-n * error * whole == 0 && n * error * whole == 0 && 0 * whole == 0 && 0 * scale == 0)
            by (nonlinear_arith)
            requires
                n == 0,
        ;
    }
}

/// Building never lowers a counter.
pub proof fn building_only_adds<F: Fn(FloatOp) -> u64>(
    fpu: &FloatUnit<F>,
    burst: Burst,
    g: Grid,
    count: u32,
    bin: int,
)
    ensures
        count <= saturated(count + pairs_at(fpu, burst, g, bin, burst.frames.len())) <= u32::MAX,
{
}

/// Two builds in a row count the pairs of both bursts.
pub proof fn builds_add_up<F: Fn(FloatOp) -> u64>(
    fpu: &FloatUnit<F>,
    first: Burst,
    second: Burst,
    g: Grid,
    h: Grid,
    count: u32,
    bin: int,
)
    ensures
        saturated(
            saturated(count + pairs_at(fpu, first, g, bin, first.frames.len())) + pairs_at(
                fpu,
                second,
                h,
                bin,
                second.frames.len(),
            ),
        ) == saturated(
            count + pairs_at(fpu, first, g, bin, first.frames.len()) + pairs_at(
                fpu,
                second,
                h,
                bin,
                second.frames.len(),
            ),
        ),
{
}

/// How many pixels of the cell of two by two pixels at (`x`, `y`) are counted in a channel.
pub open spec fn cell_count(pattern: Seq<char>, x: int, y: int, channel: int) -> int {
    (if channel_of(pattern, x, y) == channel {
        1int
    } else {
        0
    }) + (if channel_of(pattern, x + 1, y) == channel {
        1int
    } else {
        0
    }) + (if channel_of(pattern, x, y + 1) == channel {
        1int
    } else {
        0
    }) + (if channel_of(pattern, x + 1, y + 1) == channel {
        1int
    } else {
        0
    })
}

/// In each of the four Bayer patterns every cell of two by two pixels holds one red, two green and
/// one blue sample, wherever it starts.
pub proof fn bayer_cell_is_complete(pattern: Seq<char>, x: int, y: int)
    requires
        pattern == "RGGB"@ || pattern == "BGGR"@ || pattern == "GRBG"@ || pattern == "GBRG"@,
        0 <= x,
        0 <= y,
    ensures
        cell_count(pattern, x, y, 0) == 1,
        cell_count(pattern, x, y, 1) == 2,
        cell_count(pattern, x, y, 2) == 1,
{
}

/// The channel of a letter of a Bayer pattern: 0 for red, 2 for blue, 1 for green.
pub open spec fn letter_channel(letter: char) -> int {
    if letter == 'R' {
        0
    } else if letter == 'B' {
        2
    } else {
        1
    }
}

/// Whether a pattern is one of the four Bayer patterns.
pub open spec fn is_bayer(pattern: Seq<char>) -> bool {
    pattern == "RGGB"@ || pattern == "BGGR"@ || pattern == "GRBG"@ || pattern == "GBRG"@
}

/// The counter of the pixel at column `x` of row `y` for a frame that lies `right` columns and `down`
/// rows away: its channel, the upper eight bits of the first frame there, and those of the frame at
/// the place that shows the same; none where the frame does not reach that place.
pub open spec fn matching_bin(
    burst: Burst,
    f: int,
    right: int,
    down: int,
    x: int,
    y: int,
) -> Option<int> {
    let (u, v) = (x - right, y - down);
    let (here, there) = (y * burst.width + x, v * burst.width + u);
    if 0 <= u < burst.width && 0 <= v < burst.height && here < burst.frames[0].len() && there
        < burst.frames[f].len() {
        let channel = match burst.pattern {
            Some(p) => if burst.is_cfa && is_bayer(p) {
                letter_channel(p[(y % 2) * 2 + x % 2])
            } else {
                1
            },
            None => 1,
        };
        Some(
            channel * 65536 + (burst.frames[0][here] as int / 256) * 256 + burst.frames[f][there] as int
                / 256,
        )
    } else {
        None
    }
}

/// How many of the first `k` pixels, row after row, have `bin` as their counter for frame `f`.
pub open spec fn matching(
    burst: Burst,
    f: int,
    right: int,
    down: int,
    bin: int,
    k: nat,
) -> nat
    decreases k,
{
    if k == 0 {
        0
    } else {
        let before = matching(burst, f, right, down, bin, (k - 1) as nat);
        if matching_bin(burst, f, right, down, (k - 1) % burst.width, (k - 1) / burst.width) == Some(
            bin,
        ) {
            before + 1
        } else {
            before
        }
    }
}

/// How many pixels have `bin` as their counter, over all frames behind the first and before `n`. Each
/// frame lies as many columns right and rows down as `moves` tells.
pub open spec fn matching_frames(
    burst: Burst,
    moves: Seq<(int, int)>,
    bin: int,
    n: nat,
) -> nat
    decreases n,
{
    if n <= 1 {
        0
    } else {
        matching_frames(burst, moves, bin, (n - 1) as nat) + matching(
            burst,
            n - 1,
            moves[n - 1].0,
            moves[n - 1].1,
            bin,
            (burst.width * burst.height) as nat,
        )
    }
}

/// Whether the shifts of a burst are by whole pixels, as `moves` tells, and its pixels can be told
/// by single-precision numbers.
pub open spec fn moves_by_pixels(burst: Burst, width: u32, height: u32, moves: Seq<(int, int)>) -> bool {
    &&& burst.width == width
    &&& burst.height == height
    &&& width <= 0x80_0000
    &&& height <= 0x80_0000
    &&& moves.len() >= burst.frames.len()
    &&& forall|f: int|
        0 <= f < burst.frames.len() ==> {
            &&& stands_for(burst.shifts[f].0, (#[trigger] moves[f]).0, 0)
            &&& stands_for(burst.shifts[f].1, moves[f].1, 0)
            &&& -0x80_0000 <= moves[f].0 <= 0x80_0000
            &&& -0x80_0000 <= moves[f].1 <= 0x80_0000
        }
}

proof fn lemma_matching_bin<F: Fn(FloatOp) -> u64>(
    fpu: &FloatUnit<F>,
    burst: Burst,
    width: u32,
    height: u32,
    moves: Seq<(int, int)>,
    f: int,
    x: int,
    y: int,
)
    requires
        is_exact(fpu),
        moves_by_pixels(burst, width, height, moves),
        0 <= f < burst.frames.len(),
        0 <= x < width,
        0 <= y < height,
    ensures
        pair_bin(fpu, burst, f, x, y) == matching_bin(burst, f, moves[f].0, moves[f].1, x, y),
{
    let (right, down) = moves[f];
    exact_from(fpu, x);
    exact_from(fpu, y);
    let ax = fpu.from_i32(x as i32);
    let ay = fpu.from_i32(y as i32);
    exact_sub(fpu, ax, burst.shifts[f].0, x, right, 0);
    exact_sub(fpu, ay, burst.shifts[f].1, y, down, 0);
    exact_whole(fpu, fpu.sub(ax, burst.shifts[f].0), x - right);
    exact_whole(fpu, fpu.sub(ay, burst.shifts[f].1), y - down);
    exact_whole(fpu, fpu.round(fpu.sub(ax, burst.shifts[f].0)), x - right);
    exact_whole(fpu, fpu.round(fpu.sub(ay, burst.shifts[f].1)), y - down);
    reveal_strlit("RGGB");
    reveal_strlit("BGGR");
    reveal_strlit("GRBG");
    reveal_strlit("GBRG");
}

proof fn lemma_matching<F: Fn(FloatOp) -> u64>(
    fpu: &FloatUnit<F>,
    burst: Burst,
    width: u32,
    height: u32,
    moves: Seq<(int, int)>,
    f: int,
    bin: int,
    k: nat,
)
    requires
        is_exact(fpu),
        moves_by_pixels(burst, width, height, moves),
        0 <= f < burst.frames.len(),
        k <= width * height,
    ensures
        tally(fpu, burst, sample_grid(width, height), f, bin, k) == matching(
            burst,
            f,
            moves[f].0,
            moves[f].1,
            bin,
            k,
        ),
    decreases k,
{
    if k > 0 {
        lemma_matching(fpu, burst, width, height, moves, f, bin, (k - 1) as nat);
        lemma_index_pixel(k - 1, width as int, height as int);
        let g = sample_grid(width, height);
        let (x, y) = ((k - 1) % (width as int), (k - 1) / (width as int));
        lemma_matching_bin(fpu, burst, width, height, moves, f, x, y);
        assert(g.nx == width && g.ny == height && g.step == 1);
        assert(g.column(k - 1) == x && g.row(k - 1) == y);
    }
}

proof fn lemma_matching_frames<F: Fn(FloatOp) -> u64>(
    fpu: &FloatUnit<F>,
    burst: Burst,
    width: u32,
    height: u32,
    moves: Seq<(int, int)>,
    bin: int,
    n: nat,
)
    requires
        is_exact(fpu),
        moves_by_pixels(burst, width, height, moves),
        n <= burst.frames.len(),
    ensures
        pairs_at(fpu, burst, sample_grid(width, height), bin, n) == matching_frames(
            burst,
            moves,
            bin,
            n,
        ),
    decreases n,
{
    if n > 1 {
        lemma_matching_frames(fpu, burst, width, height, moves, bin, (n - 1) as nat);
        let area = width * height;
        assert(area >= 0) by (nonlinear_arith)
            requires
                0 <= width,
                0 <= height,
                area == width * height,
        ;
        lemma_matching(fpu, burst, width, height, moves, n - 1, bin, area as nat);
        let g = sample_grid(width, height);
        assert(g.nx == width && g.ny == height);
    }
}

/// What is counted, for shifts by whole pixels: each pixel of the first frame is paired with the
/// pixel of every other frame that lies as many columns left and rows up as that frame's shift is
/// right and down. The counter of both values is raised by one for each such pair, and by nothing
/// else, up to the largest count.
pub proof fn matching_pixels_are_counted<F: Fn(FloatOp) -> u64>(
    fpu: &FloatUnit<F>,
    burst: Burst,
    width: u32,
    height: u32,
    before: Seq<u32>,
    after: Seq<u32>,
    moves: Seq<(int, int)>,
    bin: int,
)
    requires
        is_exact(fpu),
        is_counted(fpu, burst, width, height, before, after),
        moves_by_pixels(burst, width, height, moves),
        0 <= bin < 196608,
    ensures
        ({
            let count = before[bin] + matching_frames(burst, moves, bin, burst.frames.len());
            after[bin] == if count < u32::MAX {
                count
            } else {
                u32::MAX as int
            }
        }),
{
    lemma_matching_frames(fpu, burst, width, height, moves, bin, burst.frames.len());
}

/// Whether frame `f` is the first one moved by `right` columns and `down` rows: it shows at each
/// place what the first frame shows as many columns right and rows down of it.
pub open spec fn is_moved_copy(burst: Burst, f: int, right: int, down: int) -> bool {
    &&& burst.frames[0].len() == burst.width * burst.height
    &&& burst.frames[f].len() == burst.width * burst.height
    &&& forall|x: int, y: int|
        0 <= x < burst.width && 0 <= y < burst.height && 0 <= x - right < burst.width && 0 <= y - down
            < burst.height ==> burst.frames[f][#[trigger] pixel_index(
            x - right,
            y - down,
            burst.width,
        )] == burst.frames[0][pixel_index(x, y, burst.width)]
}

proof fn lemma_copy_is_on_the_diagonal(
    burst: Burst,
    f: int,
    right: int,
    down: int,
    channel: int,
    a: int,
    b: int,
    k: nat,
)
    requires
        is_moved_copy(burst, f, right, down),
        0 <= burst.width,
        0 <= burst.height,
        k <= burst.width * burst.height,
        0 <= channel < 3,
        0 <= a < 256,
        0 <= b < 256,
        a != b,
    ensures
        matching(burst, f, right, down, channel * 65536 + a * 256 + b, k) == 0,
    decreases k,
{
    if k > 0 {
        lemma_copy_is_on_the_diagonal(burst, f, right, down, channel, a, b, (k - 1) as nat);
        lemma_index_pixel(k - 1, burst.width, burst.height);
        let (x, y) = ((k - 1) % burst.width, (k - 1) / burst.width);
        if 0 <= x - right < burst.width && 0 <= y - down < burst.height {
            assert(burst.frames[f][pixel_index(x - right, y - down, burst.width)]
                == burst.frames[0][pixel_index(x, y, burst.width)]);
        }
    }
}

/// Copies of the first frame that are moved by whole pixels, right or down, are counted on the
/// diagonal alone: no pair of different values is found.
pub proof fn moved_copies_are_counted_on_the_diagonal<F: Fn(FloatOp) -> u64>(
    fpu: &FloatUnit<F>,
    burst: Burst,
    width: u32,
    height: u32,
    before: Seq<u32>,
    after: Seq<u32>,
    moves: Seq<(int, int)>,
    channel: int,
    a: int,
    b: int,
)
    requires
        is_exact(fpu),
        is_counted(fpu, burst, width, height, before, after),
        moves_by_pixels(burst, width, height, moves),
        forall|f: int|
            0 < f < burst.frames.len() ==> is_moved_copy(
                burst,
                f,
                (#[trigger] moves[f]).0,
                moves[f].1,
            ),
        0 <= channel < 3,
        0 <= a < 256,
        0 <= b < 256,
        a != b,
    ensures
        after[channel * 65536 + a * 256 + b] == before[channel * 65536 + a * 256 + b],
{
    let bin = channel * 65536 + a * 256 + b;
    matching_pixels_are_counted(fpu, burst, width, height, before, after, moves, bin);
    lemma_copies_are_on_the_diagonal(burst, moves, channel, a, b, burst.frames.len());
}

proof fn lemma_copies_are_on_the_diagonal(
    burst: Burst,
    moves: Seq<(int, int)>,
    channel: int,
    a: int,
    b: int,
    n: nat,
)
    requires
        forall|f: int|
            0 < f < n ==> is_moved_copy(burst, f, (#[trigger] moves[f]).0, moves[f].1),
        0 <= burst.width,
        0 <= burst.height,
        0 <= channel < 3,
        0 <= a < 256,
        0 <= b < 256,
        a != b,
    ensures
        matching_frames(burst, moves, channel * 65536 + a * 256 + b, n) == 0,
    decreases n,
{
    if n > 1 {
        lemma_copies_are_on_the_diagonal(burst, moves, channel, a, b, (n - 1) as nat);
        assert(0 <= burst.width * burst.height) by (nonlinear_arith)
            requires
                0 <= burst.width,
                0 <= burst.height,
        ;
        lemma_copy_is_on_the_diagonal(
            burst,
            n - 1,
            moves[n - 1].0,
            moves[n - 1].1,
            channel,
            a,
            b,
            (burst.width * burst.height) as nat,
        );
    }
}

} // verus!
