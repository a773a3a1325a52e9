//! Where the samples of mosaics fall on a denser output, and what it makes of them.

use crate::drizzle::{
    channel_value, drop_of, dropped, filter_at, is_drizzled, landing, over_frames, over_tile,
    over_tiles, sample_value, tile_count, tile_rows, Drop, Mosaics,
};
use crate::exact::{
    exact_add, exact_div, exact_from, exact_mul, exact_sub, exact_whole, is_exact, lemma_coarser,
    lemma_compare, lemma_constants, lemma_finer, lemma_is_finite, stands_for,
};
use crate::float::{clamp, FloatOp, FloatUnit, HALF, ONE, ZERO};
use crate::frame::{lemma_pixel_index, pixel_index, RgbaFrame};
use vstd::arithmetic::power2::pow2;
use vstd::prelude::*;

verus! {

/// Samples as numbers, and how far frames lie apart.
pub struct Samples {
    /// Value of each frame's sample at a column of a row, in parts.
    pub values: spec_fn(int, int, int) -> int,
    /// The power of two of parts that makes full light.
    pub k: nat,
    /// Horizontal and vertical shift of each frame, in halves of a pixel.
    pub moves: Seq<(int, int)>,
    /// Half of how many times the output is as dense.
    pub half: int,
}

impl Samples {
    /// How many times the output is as dense.
    pub open spec fn scale(self) -> u32 {
        (2 * self.half) as u32
    }
}

/// The filter of a mosaic that starts with red, at column `x` of row `y`: 0 for red, 1 and 3 for the
/// greens beside and below it, 2 for blue.
pub open spec fn filter_number(x: int, y: int) -> int {
    match (x % 2 == 0, y % 2 == 0) {
        (true, true) => 0,
        (false, true) => 1,
        (false, false) => 2,
        (true, false) => 3,
    }
}

/// What the sample of frame `f` at column `x` of row `y` adds to an output pixel: its value, once, where
/// it has the filter asked for, is not black, and falls there. Its center, moved by the shift, times the
/// scale tells where it falls.
pub open spec fn falls(
    samples: Samples,
    target: int,
    column: int,
    row: int,
    f: int,
    x: int,
    y: int,
) -> (int, int) {
    let v = (samples.values)(f, x, y);
    if filter_number(x, y) == target && v > 0 && column == (2 * x + 1 + samples.moves[f].0)
        * samples.half && row == (2 * y + 1 + samples.moves[f].1) * samples.half {
        (v, 1)
    } else {
        (0, 0)
    }
}

/// What the first `k` samples of frame `f` from row `top` on add, row after row.
pub open spec fn falls_in_tile(
    samples: Samples,
    width: int,
    target: int,
    column: int,
    row: int,
    top: int,
    f: int,
    k: nat,
) -> (int, int)
    decreases k,
{
    if k == 0 {
        (0, 0)
    } else {
        let before = falls_in_tile(samples, width, target, column, row, top, f, (k - 1) as nat);
        let own = falls(samples, target, column, row, f, (k - 1) % width, top + (k - 1) / width);
        (before.0 + own.0, before.1 + own.1)
    }
}

/// What `rows` rows from row `top` on add, over the first `n` frames.
pub open spec fn falls_in_frames(
    samples: Samples,
    width: int,
    target: int,
    column: int,
    row: int,
    top: int,
    rows: int,
    n: nat,
) -> (int, int)
    decreases n,
{
    if n == 0 {
        (0, 0)
    } else {
        let before = falls_in_frames(
            samples,
            width,
            target,
            column,
            row,
            top,
            rows,
            (n - 1) as nat,
        );
        let own = falls_in_tile(
            samples,
            width,
            target,
            column,
            row,
            top,
            n - 1,
            (rows * width) as nat,
        );
        (before.0 + own.0, before.1 + own.1)
    }
}

/// What all frames add, over the first `t` strips of 128 rows.
pub open spec fn falls_in_strips(
    samples: Samples,
    width: int,
    height: int,
    target: int,
    column: int,
    row: int,
    frames: nat,
    t: nat,
) -> (int, int)
    decreases t,
{
    if t == 0 {
        (0, 0)
    } else {
        let before = falls_in_strips(
            samples,
            width,
            height,
            target,
            column,
            row,
            frames,
            (t - 1) as nat,
        );
        let top = (t - 1) * 128;
        let rows = if height - top < 128 {
            height - top
        } else {
            128
        };
        let own = falls_in_frames(samples, width, target, column, row, top, rows, frames);
        (before.0 + own.0, before.1 + own.1)
    }
}

/// What frame `f` adds to an output pixel: the value of the one sample whose center falls there, once,
/// if it has the filter asked for and is not black. The center of a sample, moved by the shift of its
/// frame, times the scale tells where it falls.
pub open spec fn frame_adds(
    samples: Samples,
    width: int,
    height: int,
    target: int,
    column: int,
    row: int,
    f: int,
) -> (int, int) {
    let (a, b) = (column / samples.half, row / samples.half);
    let (twice_x, twice_y) = (a - 1 - samples.moves[f].0, b - 1 - samples.moves[f].1);
    let (x, y) = (twice_x / 2, twice_y / 2);
    if column == a * samples.half && row == b * samples.half && twice_x % 2 == 0 && twice_y % 2 == 0
        && 0 <= x < width && 0 <= y < height {
        falls(samples, target, column, row, f, x, y)
    } else {
        (0, 0)
    }
}

/// What the first `n` frames add to an output pixel, and how many values that are.
pub open spec fn frames_add(
    samples: Samples,
    width: int,
    height: int,
    target: int,
    column: int,
    row: int,
    n: nat,
) -> (int, int)
    decreases n,
{
    if n == 0 {
        (0, 0)
    } else {
        let before = frames_add(samples, width, height, target, column, row, (n - 1) as nat);
        let own = frame_adds(samples, width, height, target, column, row, n - 1);
        (before.0 + own.0, before.1 + own.1)
    }
}

/// Whether values and shifts are as told.
pub open spec fn are_samples<F: Fn(FloatOp) -> u64>(
    fpu: &FloatUnit<F>,
    m: Mosaics,
    samples: Samples,
) -> bool {
    &&& 0 < m.width <= 0x4_0000
    &&& 0 < m.height <= 0x4_0000
    &&& 1 <= samples.half <= 4
    &&& samples.k <= 23
    &&& forall|f: int, x: int, y: int|
        0 <= f < m.data.len() && 0 <= x < m.width && 0 <= y < m.height ==> {
            let v = #[trigger] (samples.values)(f, x, y);
            0 <= v <= pow2(samples.k) && stands_for(
                sample_value(fpu, m, filter_number(x, y), f, x, y),
                v,
                samples.k,
            )
        }
    &&& forall|f: int|
        0 <= f < m.data.len() ==> {
            &&& stands_for(m.shifts[f].0, (#[trigger] samples.moves[f]).0, 1)
            &&& stands_for(m.shifts[f].1, samples.moves[f].1, 1)
            &&& -0x4_0000 <= samples.moves[f].0 <= 0x4_0000
            &&& -0x4_0000 <= samples.moves[f].1 <= 0x4_0000
        }
}

proof fn lemma_landing<F: Fn(FloatOp) -> u64>(
    fpu: &FloatUnit<F>,
    x: int,
    shift: u32,
    halves: int,
    half: int,
)
    requires
        is_exact(fpu),
        0 <= x <= 0x4_0000,
        stands_for(shift, halves, 1),
        -0x4_0000 <= halves <= 0x4_0000,
        1 <= half <= 4,
    ensures
        landing(fpu, x, shift, (2 * half) as u32) == (2 * x + 1 + halves) * half,
{
    lemma_constants();
    vstd::arithmetic::power2::lemma2_to64();
    exact_from(fpu, x);
    exact_from(fpu, 2 * half);
    let a = fpu.from_u64(x as u64);
    lemma_finer(a, x, 0, 1);
    exact_add(fpu, a, HALF, x * 2, 1, 1);
    let center = fpu.add(a, HALF);
    exact_add(fpu, center, shift, x * 2 + 1, halves, 1);
    let moved = fpu.add(center, shift);
    let n = x * 2 + 1 + halves;
    let m = n * half;
    assert(-0x40_0000 <= m <= 0x40_0000 && n * (2 * half) == m * 2) by (nonlinear_arith)
        requires
            m == n * half,
            -0x10_0000 <= n <= 0x10_0000,
            1 <= half <= 4,
    ;
    let scale = fpu.from_u64((2 * half) as u64);
    exact_mul(fpu, moved, scale, n, 2 * half, 1, 0);
    let place = fpu.mul(moved, scale);
    lemma_coarser(place, m, 0, 1);
    exact_whole(fpu, place, m);
    exact_whole(fpu, fpu.round(place), m);
}

/// Whether a pixel holds what fell on it.
pub open spec fn holds(d: Drop, light: (int, int), k: nat) -> bool {
    stands_for(d.sum, light.0, k) && stands_for(d.weight, light.1, 0)
}

/// Whether there is not more light than so many full values.
pub open spec fn is_light(light: (int, int), k: nat) -> bool {
    0 <= light.1 && 0 <= light.0 <= light.1 * pow2(k)
}

#[verifier::rlimit(40)]
proof fn lemma_falls<F: Fn(FloatOp) -> u64>(
    fpu: &FloatUnit<F>,
    m: Mosaics,
    samples: Samples,
    target: int,
    ow: int,
    oh: int,
    column: int,
    row: int,
    f: int,
    x: int,
    y: int,
    before: Drop,
    light: (int, int),
)
    requires
        is_exact(fpu),
        are_samples(fpu, m, samples),
        0 <= f < m.data.len(),
        0 <= x < m.width,
        0 <= y < m.height,
        0 <= column < ow,
        0 <= row < oh,
        holds(before, light, samples.k),
        is_light(light, samples.k),
        (light.1 + falls(samples, target, column, row, f, x, y).1) * pow2(samples.k) <= 0x100_0000,
    ensures
        ({
            let own = falls(samples, target, column, row, f, x, y);
            let p = pixel_index(column, row, ow);
            let after = match drop_of(fpu, m, target, samples.scale(), ow, oh, f, x, y) {
                Some((i, value)) => if i == p {
                    dropped(fpu, before, value)
                } else {
                    before
                },
                None => before,
            };
            &&& holds(after, (light.0 + own.0, light.1 + own.1), samples.k)
            &&& is_light((light.0 + own.0, light.1 + own.1), samples.k)
            &&& 0 <= own.1
        }),
{
    let k = samples.k;
    let v = (samples.values)(f, x, y);
    let own = falls(samples, target, column, row, f, x, y);
    let (right, down) = samples.moves[f];
    let half = samples.half;
    lemma_landing(fpu, x, m.shifts[f].0, right, half);
    lemma_landing(fpu, y, m.shifts[f].1, down, half);
    assert(filter_at(x, y) == filter_number(x, y));
    let (ox, oy) = ((2 * x + 1 + right) * half, (2 * y + 1 + down) * half);
    let p = pixel_index(column, row, ow);
    lemma_pixel_index(column, row, ow, oh);
    if 0 <= ox < ow && 0 <= oy < oh {
        lemma_pixel_index(ox, oy, ow, oh);
    }
    let full = pow2(k) as int;
    vstd::arithmetic::power2::lemma_pow2_pos(k);
    lemma_constants();
    if filter_at(x, y) == target {
        let value = sample_value(fpu, m, target, f, x, y);
        lemma_compare(value, ZERO, v, 0, k);
        if own.1 == 1 {
            assert((light.1 + 1) * full == light.1 * full + full) by (nonlinear_arith);
            assert(light.1 + 1 <= (light.1 + 1) * full) by (nonlinear_arith)
                requires
                    0 <= light.1,
                    full >= 1,
            ;
            exact_add(fpu, before.sum, value, light.0, v, k);
            exact_add(fpu, before.weight, ONE, light.1, 1, 0);
        }
    }
}

proof fn lemma_over_tile<F: Fn(FloatOp) -> u64>(
    fpu: &FloatUnit<F>,
    m: Mosaics,
    samples: Samples,
    target: int,
    ow: int,
    oh: int,
    column: int,
    row: int,
    top: int,
    f: int,
    start: Drop,
    light: (int, int),
    k: nat,
)
    requires
        is_exact(fpu),
        are_samples(fpu, m, samples),
        0 <= f < m.data.len(),
        0 <= top,
        k <= (m.height - top) * m.width,
        0 <= column < ow,
        0 <= row < oh,
        holds(start, light, samples.k),
        is_light(light, samples.k),
        (light.1 + falls_in_tile(samples, m.width, target, column, row, top, f, k).1) * pow2(
            samples.k,
        ) <= 0x100_0000,
    ensures
        ({
            let own = falls_in_tile(samples, m.width, target, column, row, top, f, k);
            let p = pixel_index(column, row, ow);
            let after = over_tile(fpu, m, target, samples.scale(), ow, oh, p, top, f, start, k);
            &&& holds(after, (light.0 + own.0, light.1 + own.1), samples.k)
            &&& is_light((light.0 + own.0, light.1 + own.1), samples.k)
            &&& 0 <= own.1
        }),
    decreases k,
{
    if k > 0 {
        let (x, y) = ((k - 1) % m.width, top + (k - 1) / m.width);
        lemma_in_tile(m.width, m.height, top, (k - 1) as int);
        let before = falls_in_tile(samples, m.width, target, column, row, top, f, (k - 1) as nat);
        let own = falls(samples, target, column, row, f, x, y);
        let full = pow2(samples.k) as int;
        assert(0 <= own.1);
        assert((light.1 + before.1) * full <= (light.1 + before.1 + own.1) * full)
            by (nonlinear_arith)
            requires
                0 <= own.1,
                full >= 0,
        ;
        lemma_over_tile(
            fpu,
            m,
            samples,
            target,
            ow,
            oh,
            column,
            row,
            top,
            f,
            start,
            light,
            (k - 1) as nat,
        );
        let p = pixel_index(column, row, ow);
        lemma_falls(
            fpu,
            m,
            samples,
            target,
            ow,
            oh,
            column,
            row,
            f,
            x,
            y,
            over_tile(fpu, m, target, samples.scale(), ow, oh, p, top, f, start, (k - 1) as nat),
            (light.0 + before.0, light.1 + before.1),
        );
    }
}

proof fn lemma_in_tile(width: int, height: int, top: int, i: int)
    requires
        0 < width,
        0 <= top,
        0 <= i < (height - top) * width,
    ensures
        0 <= i % width < width,
        top <= top + i / width < height,
{
    vstd::arithmetic::div_mod::lemma_fundamental_div_mod(i, width);
    let (q, r) = (i / width, i % width);
    assert(0 <= q < height - top) by (nonlinear_arith)
        requires
            i == width * q + r,
            0 <= r < width,
            0 <= i < (height - top) * width,
    ;
}

proof fn lemma_over_frames<F: Fn(FloatOp) -> u64>(
    fpu: &FloatUnit<F>,
    m: Mosaics,
    samples: Samples,
    target: int,
    ow: int,
    oh: int,
    column: int,
    row: int,
    top: int,
    start: Drop,
    light: (int, int),
    n: nat,
)
    requires
        is_exact(fpu),
        are_samples(fpu, m, samples),
        n <= m.data.len(),
        0 <= top < m.height,
        0 <= column < ow,
        0 <= row < oh,
        holds(start, light, samples.k),
        is_light(light, samples.k),
        (light.1 + falls_in_frames(
            samples,
            m.width,
            target,
            column,
            row,
            top,
            tile_rows(m.height, top),
            n,
        ).1) * pow2(samples.k) <= 0x100_0000,
    ensures
        ({
            let own = falls_in_frames(
                samples,
                m.width,
                target,
                column,
                row,
                top,
                tile_rows(m.height, top),
                n,
            );
            let p = pixel_index(column, row, ow);
            let after = over_frames(fpu, m, target, samples.scale(), ow, oh, p, top, start, n);
            &&& holds(after, (light.0 + own.0, light.1 + own.1), samples.k)
            &&& is_light((light.0 + own.0, light.1 + own.1), samples.k)
            &&& 0 <= own.1
        }),
    decreases n,
{
    if n > 0 {
        let rows = tile_rows(m.height, top);
        let k = (rows * m.width) as nat;
        assert(0 <= rows * m.width <= (m.height - top) * m.width) by (nonlinear_arith)
            requires
                0 < rows <= m.height - top,
                0 < m.width,
        ;
        let before = falls_in_frames(
            samples,
            m.width,
            target,
            column,
            row,
            top,
            rows,
            (n - 1) as nat,
        );
        let own = falls_in_tile(samples, m.width, target, column, row, top, n - 1, k);
        lemma_tile_count(samples, m.width, target, column, row, top, n - 1, k);
        let full = pow2(samples.k) as int;
        assert((light.1 + before.1) * full <= (light.1 + before.1 + own.1) * full)
            by (nonlinear_arith)
            requires
                0 <= own.1,
                full >= 0,
        ;
        lemma_over_frames(
            fpu,
            m,
            samples,
            target,
            ow,
            oh,
            column,
            row,
            top,
            start,
            light,
            (n - 1) as nat,
        );
        let p = pixel_index(column, row, ow);
        lemma_over_tile(
            fpu,
            m,
            samples,
            target,
            ow,
            oh,
            column,
            row,
            top,
            n - 1,
            over_frames(fpu, m, target, samples.scale(), ow, oh, p, top, start, (n - 1) as nat),
            (light.0 + before.0, light.1 + before.1),
            k,
        );
    }
}

proof fn lemma_tile_count(
    samples: Samples,
    width: int,
    target: int,
    column: int,
    row: int,
    top: int,
    f: int,
    k: nat,
)
    ensures
        0 <= falls_in_tile(samples, width, target, column, row, top, f, k).1,
    decreases k,
{
    if k > 0 {
        lemma_tile_count(samples, width, target, column, row, top, f, (k - 1) as nat);
    }
}

proof fn lemma_frames_count(
    samples: Samples,
    width: int,
    target: int,
    column: int,
    row: int,
    top: int,
    rows: int,
    n: nat,
)
    ensures
        0 <= falls_in_frames(samples, width, target, column, row, top, rows, n).1,
    decreases n,
{
    if n > 0 {
        lemma_frames_count(samples, width, target, column, row, top, rows, (n - 1) as nat);
        lemma_tile_count(
            samples,
            width,
            target,
            column,
            row,
            top,
            n - 1,
            (rows * width) as nat,
        );
    }
}

proof fn lemma_over_strips<F: Fn(FloatOp) -> u64>(
    fpu: &FloatUnit<F>,
    m: Mosaics,
    samples: Samples,
    target: int,
    ow: int,
    oh: int,
    column: int,
    row: int,
    t: nat,
)
    requires
        is_exact(fpu),
        are_samples(fpu, m, samples),
        (t - 1) * 128 < m.height,
        0 <= column < ow,
        0 <= row < oh,
        falls_in_strips(samples, m.width, m.height, target, column, row, m.data.len(), t).1 * pow2(
            samples.k,
        ) <= 0x100_0000,
    ensures
        ({
            let light = falls_in_strips(
                samples,
                m.width,
                m.height,
                target,
                column,
                row,
                m.data.len(),
                t,
            );
            let p = pixel_index(column, row, ow);
            &&& holds(over_tiles(fpu, m, target, samples.scale(), ow, oh, p, t), light, samples.k)
            &&& is_light(light, samples.k)
        }),
    decreases t,
{
    lemma_constants();
    if t > 0 {
        let top = (t - 1) * 128;
        let rows = tile_rows(m.height, top);
        let before = falls_in_strips(
            samples,
            m.width,
            m.height,
            target,
            column,
            row,
            m.data.len(),
            (t - 1) as nat,
        );
        let own = falls_in_frames(
            samples,
            m.width,
            target,
            column,
            row,
            top,
            rows,
            m.data.len(),
        );
        lemma_frames_count(samples, m.width, target, column, row, top, rows, m.data.len());
        let full = pow2(samples.k) as int;
        assert(before.1 * full <= (before.1 + own.1) * full) by (nonlinear_arith)
            requires
                0 <= own.1,
                full >= 0,
        ;
        lemma_over_strips(
            fpu,
            m,
            samples,
            target,
            ow,
            oh,
            column,
            row,
            (t - 1) as nat,
        );
        let p = pixel_index(column, row, ow);
        lemma_over_frames(
            fpu,
            m,
            samples,
            target,
            ow,
            oh,
            column,
            row,
            top,
            over_tiles(fpu, m, target, samples.scale(), ow, oh, p, (t - 1) as nat),
            before,
            m.data.len(),
        );
    }
}

/// What the tile of `rows` rows from row `top` on adds, of frame `f`, over the first `t` strips.
spec fn strips_add(
    samples: Samples,
    width: int,
    height: int,
    target: int,
    column: int,
    row: int,
    f: int,
    t: nat,
) -> (int, int)
    decreases t,
{
    if t == 0 {
        (0, 0)
    } else {
        let before = strips_add(
            samples,
            width,
            height,
            target,
            column,
            row,
            f,
            (t - 1) as nat,
        );
        let top = (t - 1) * 128;
        let rows = if height - top < 128 {
            height - top
        } else {
            128
        };
        let own = falls_in_tile(
            samples,
            width,
            target,
            column,
            row,
            top,
            f,
            (rows * width) as nat,
        );
        (before.0 + own.0, before.1 + own.1)
    }
}

/// What frame `f` adds, if the row of the sample that falls there is among some rows.
spec fn rows_add(
    samples: Samples,
    width: int,
    target: int,
    column: int,
    row: int,
    f: int,
    top: int,
    bottom: int,
) -> (int, int) {
    let (a, b) = (column / samples.half, row / samples.half);
    let (twice_x, twice_y) = (a - 1 - samples.moves[f].0, b - 1 - samples.moves[f].1);
    let (x, y) = (twice_x / 2, twice_y / 2);
    if column == a * samples.half && row == b * samples.half && twice_x % 2 == 0 && twice_y % 2 == 0
        && 0 <= x < width && top <= y < bottom {
        falls(samples, target, column, row, f, x, y)
    } else {
        (0, 0)
    }
}

proof fn lemma_multiple(a: int, m: int, n: int)
    requires
        m > 0,
    ensures
        a == n * m <==> a == (a / m) * m && a / m == n,
{
    if a == n * m {
        vstd::arithmetic::div_mod::lemma_div_multiples_vanish(n, m);
        assert(m * n == n * m) by (nonlinear_arith);
    }
}

proof fn lemma_tile_adds(
    samples: Samples,
    width: int,
    target: int,
    column: int,
    row: int,
    f: int,
    top: int,
    k: nat,
)
    requires
        samples.half > 0,
        width > 0,
    ensures
        ({
            let (a, b) = (column / samples.half, row / samples.half);
            let (twice_x, twice_y) = (a - 1 - samples.moves[f].0, b - 1 - samples.moves[f].1);
            let (x, y) = (twice_x / 2, twice_y / 2);
            falls_in_tile(samples, width, target, column, row, top, f, k) == (if column == a
                * samples.half && row == b * samples.half && twice_x % 2 == 0 && twice_y % 2 == 0 && 0
                <= x < width && top <= y && (y - top) * width + x < k {
                falls(samples, target, column, row, f, x, y)
            } else {
                (0, 0)
            })
        }),
    decreases k,
{
    let (a, b) = (column / samples.half, row / samples.half);
    let (twice_x, twice_y) = (a - 1 - samples.moves[f].0, b - 1 - samples.moves[f].1);
    let (x, y) = (twice_x / 2, twice_y / 2);
    if top <= y && 0 <= x {
        assert((y - top) * width >= 0) by (nonlinear_arith)
            requires
                y >= top,
                width > 0,
        ;
    }
    if k > 0 {
        lemma_tile_adds(samples, width, target, column, row, f, top, (k - 1) as nat);
        let i = k - 1;
        vstd::arithmetic::div_mod::lemma_fundamental_div_mod(i, width);
        let (q, r) = (i / width, i % width);
        assert(q >= 0) by (nonlinear_arith)
            requires
                i == width * q + r,
                i >= 0,
                r < width,
                width > 0,
        ;
        assert(q * width == width * q) by (nonlinear_arith);
        lemma_multiple(column, samples.half, 2 * r + 1 + samples.moves[f].0);
        lemma_multiple(row, samples.half, 2 * (top + q) + 1 + samples.moves[f].1);
        if twice_x % 2 == 0 && twice_y % 2 == 0 && 0 <= x < width && top <= y {
            let d = y - top;
            if d * width + x == i {
                assert(q == d && r == x) by (nonlinear_arith)
                    requires
                        d * width + x == width * q + r,
                        0 <= x < width,
                        0 <= r < width,
                ;
            } else if q == d && r == x {
                assert(d * width == q * width);
            }
        }
    }
}

proof fn lemma_strips_add(
    samples: Samples,
    width: int,
    height: int,
    target: int,
    column: int,
    row: int,
    f: int,
    t: nat,
)
    requires
        samples.half > 0,
        width > 0,
        height > 0,
        (t - 1) * 128 < height,
    ensures
        ({
            let bottom = if t * 128 < height {
                (t * 128) as int
            } else {
                height
            };
            strips_add(samples, width, height, target, column, row, f, t) == rows_add(
                samples,
                width,
                target,
                column,
                row,
                f,
                0,
                bottom,
            )
        }),
    decreases t,
{
    if t > 0 {
        let top = (t - 1) * 128;
        let rows = if height - top < 128 {
            height - top
        } else {
            128
        };
        lemma_strips_add(samples, width, height, target, column, row, f, (t - 1) as nat);
        assert(rows * width >= 0) by (nonlinear_arith)
            requires
                rows >= 0,
                width > 0,
        ;
        lemma_tile_adds(samples, width, target, column, row, f, top, (rows * width) as nat);
        let (a, b) = (column / samples.half, row / samples.half);
        let (twice_x, twice_y) = (a - 1 - samples.moves[f].0, b - 1 - samples.moves[f].1);
        let (x, y) = (twice_x / 2, twice_y / 2);
        if 0 <= x < width && top <= y {
            let d = y - top;
            assert((d * width + x < rows * width) == (d < rows)) by (nonlinear_arith)
                requires
                    0 <= x < width,
                    0 <= d,
            ;
        }
    }
}

proof fn lemma_one_frame_more(
    samples: Samples,
    width: int,
    height: int,
    target: int,
    column: int,
    row: int,
    n: nat,
    t: nat,
)
    requires
        n > 0,
    ensures
        ({
            let all = falls_in_strips(samples, width, height, target, column, row, n, t);
            let before = falls_in_strips(
                samples,
                width,
                height,
                target,
                column,
                row,
                (n - 1) as nat,
                t,
            );
            let own = strips_add(samples, width, height, target, column, row, n - 1, t);
            all == (before.0 + own.0, before.1 + own.1)
        }),
    decreases t,
{
    if t > 0 {
        lemma_one_frame_more(samples, width, height, target, column, row, n, (t - 1) as nat);
    }
}

proof fn lemma_no_frame(
    samples: Samples,
    width: int,
    height: int,
    target: int,
    column: int,
    row: int,
    t: nat,
)
    ensures
        falls_in_strips(samples, width, height, target, column, row, 0, t) == (0int, 0int),
    decreases t,
{
    if t > 0 {
        lemma_no_frame(samples, width, height, target, column, row, (t - 1) as nat);
    }
}

proof fn lemma_frames_add(
    samples: Samples,
    width: int,
    height: int,
    target: int,
    column: int,
    row: int,
    n: nat,
    t: nat,
)
    requires
        samples.half > 0,
        width > 0,
        height > 0,
        (t - 1) * 128 < height <= t * 128,
    ensures
        falls_in_strips(samples, width, height, target, column, row, n, t) == frames_add(
            samples,
            width,
            height,
            target,
            column,
            row,
            n,
        ),
    decreases n,
{
    if n == 0 {
        lemma_no_frame(samples, width, height, target, column, row, t);
    } else {
        lemma_frames_add(samples, width, height, target, column, row, (n - 1) as nat, t);
        lemma_one_frame_more(samples, width, height, target, column, row, n, t);
        lemma_strips_add(samples, width, height, target, column, row, n - 1, t);
    }
}

/// What one filter makes of the light of an output pixel: the mean of what fell there, and black where
/// nothing did.
pub open spec fn is_mean_of(light: (int, int), mean: int) -> bool {
    mean * light.1 == light.0 && (light.1 == 0 ==> mean == 0)
}

proof fn lemma_channel<F: Fn(FloatOp) -> u64>(
    fpu: &FloatUnit<F>,
    m: Mosaics,
    samples: Samples,
    target: int,
    ow: int,
    oh: int,
    column: int,
    row: int,
    mean: int,
)
    requires
        is_exact(fpu),
        are_samples(fpu, m, samples),
        0 <= column < ow,
        0 <= row < oh,
        ({
            let light = frames_add(
                samples,
                m.width,
                m.height,
                target,
                column,
                row,
                m.data.len(),
            );
            is_mean_of(light, mean) && light.1 * pow2(samples.k) <= 0x100_0000
        }),
    ensures
        stands_for(
            channel_value(fpu, m, target, samples.scale(), ow, oh, pixel_index(column, row, ow)),
            mean,
            samples.k,
        ),
        0 <= mean <= pow2(samples.k),
{
    let k = samples.k;
    let t = tile_count(m.height);
    lemma_frames_add(samples, m.width, m.height, target, column, row, m.data.len(), t);
    lemma_over_strips(fpu, m, samples, target, ow, oh, column, row, t);
    let light = frames_add(samples, m.width, m.height, target, column, row, m.data.len());
    let d = over_tiles(fpu, m, target, samples.scale(), ow, oh, pixel_index(column, row, ow), t);
    lemma_constants();
    vstd::arithmetic::power2::lemma_pow2_pos(k);
    vstd::arithmetic::power2::lemma2_to64();
    let (n, full) = (light.1, pow2(k) as int);
    lemma_compare(ZERO, d.weight, 0, n, 0);
    if n > 0 {
        assert(0 <= mean <= full) by (nonlinear_arith)
            requires
                0 <= mean * n <= n * full,
                n > 0,
        ;
        assert(full <= n * full) by (nonlinear_arith)
            requires
                n > 0,
                full > 0,
        ;
        exact_div(fpu, d.sum, d.weight, mean, n, 0, k);
    }
}

/// Drizzled onto two, four, six or eight times the density, each sample falls where its center lies once
/// it is moved by the shift of its frame, and each output pixel shows the mean of what falls there: red
/// of the red samples, green of the means of both greens, blue of the blue ones, and black where nothing
/// falls. The shifts are given by halves of a pixel.
pub proof fn samples_fall_where_they_lie<F: Fn(FloatOp) -> u64>(
    fpu: &FloatUnit<F>,
    m: Mosaics,
    samples: Samples,
    scale: u32,
    out: &RgbaFrame,
    column: int,
    row: int,
    means: Seq<int>,
)
    requires
        is_exact(fpu),
        are_samples(fpu, m, samples),
        scale == 2 * samples.half,
        is_drizzled(fpu, m, scale, out),
        0 <= column < m.width * scale,
        0 <= row < m.height * scale,
        forall|target: int|
            0 <= target < 4 ==> {
                let light = #[trigger] frames_add(
                    samples,
                    m.width,
                    m.height,
                    target,
                    column,
                    row,
                    m.data.len(),
                );
                light.1 * pow2(samples.k) <= 0x100_0000 && is_mean_of(light, means[target])
            },
    ensures
        out.width == m.width * scale,
        out.height == m.height * scale,
        stands_for(out.at(column, row, 0), means[0], samples.k),
        stands_for(out.at(column, row, 1), means[1] + means[3], samples.k + 1),
        stands_for(out.at(column, row, 2), means[2], samples.k),
        out.at(column, row, 3) == ONE,
{
    let k = samples.k;
    let (ow, oh) = (m.width * scale, m.height * scale);
    let p = pixel_index(column, row, ow);
    assert forall|target: int| 0 <= target < 4 implies {
        &&& stands_for(
            #[trigger] channel_value(fpu, m, target, scale, ow, oh, p),
            means[target],
            k,
        )
        &&& 0 <= means[target] <= pow2(k)
    } by {
        let light = frames_add(samples, m.width, m.height, target, column, row, m.data.len());
        lemma_channel(fpu, m, samples, target, ow, oh, column, row, means[target]);
    }
    let (r, g, h, b) = (
        channel_value(fpu, m, 0, scale, ow, oh, p),
        channel_value(fpu, m, 1, scale, ow, oh, p),
        channel_value(fpu, m, 3, scale, ow, oh, p),
        channel_value(fpu, m, 2, scale, ow, oh, p),
    );
    lemma_constants();
    vstd::arithmetic::power2::lemma2_to64();
    vstd::arithmetic::power2::lemma_pow2_unfold(k + 1);
    if k < 23 {
        vstd::arithmetic::power2::lemma_pow2_strictly_increases(k, 23);
    }
    exact_add(fpu, g, h, means[1], means[3], k);
    exact_mul(fpu, fpu.add(g, h), HALF, means[1] + means[3], 1, k, 1);
    lemma_unclamped(r, means[0], k);
    lemma_unclamped(b, means[2], k);
    lemma_unclamped(fpu.mul(fpu.add(g, h), HALF), means[1] + means[3], k + 1);
}

proof fn lemma_unclamped(a: u32, n: int, k: nat)
    requires
        stands_for(a, n, k),
        0 <= n <= pow2(k),
        k <= 24,
    ensures
        clamp(a, ZERO, ONE) == a,
{
    lemma_constants();
    lemma_finer(ONE, 1, 0, k);
    lemma_compare(a, ZERO, n, 0, k);
    lemma_compare(ONE, a, pow2(k) as int, n, k);
}

/// The value of a sample is its height over the black level of its filter, in proportion to the white
/// level of its frame.
pub proof fn samples_are_heights_over_black<F: Fn(FloatOp) -> u64>(
    fpu: &FloatUnit<F>,
    m: Mosaics,
    target: int,
    f: int,
    x: int,
    y: int,
    black: int,
    white: int,
    value: int,
    k: nat,
)
    requires
        is_exact(fpu),
        0 <= target < 4,
        0 <= black < white <= 0xffff,
        stands_for(m.black_levels[f][target], black, 0),
        stands_for(m.white_levels[f], white, 0),
        ({
            let raw = m.data[f][y * m.width + x];
            black <= raw <= white && (raw - black) * pow2(k) == value * (white - black)
        }),
        k <= 23,
    ensures
        stands_for(sample_value(fpu, m, target, f, x, y), value, k),
{
    let raw = m.data[f][y * m.width + x] as int;
    let level = m.black_levels[f][target];
    lemma_constants();
    vstd::arithmetic::power2::lemma2_to64();
    vstd::arithmetic::power2::lemma_pow2_pos(k);
    let full = pow2(k) as int;
    if k < 23 {
        vstd::arithmetic::power2::lemma_pow2_strictly_increases(k, 23);
    }
    exact_from(fpu, raw);
    let a = fpu.from_u64(raw as u64);
    lemma_compare(m.white_levels[f], ONE, white, 1, 0);
    lemma_is_finite(m.white_levels[f], white, 0);
    exact_sub(fpu, m.white_levels[f], level, white, black, 0);
    let range = fpu.sub(m.white_levels[f], level);
    lemma_compare(range, ONE, white - black, 1, 0);
    lemma_is_finite(range, white - black, 0);
    exact_sub(fpu, a, level, raw, black, 0);
    let height = fpu.sub(a, level);
    lemma_finer(height, raw - black, 0, k);
    let span = white - black;
    assert(0 <= value <= full) by (nonlinear_arith)
        requires
            (raw - black) * full == value * span,
            0 <= raw - black <= span,
            span > 0,
            full > 0,
    ;
    exact_div(fpu, height, range, value, span, 0, k);
    lemma_unclamped(fpu.div(height, range), value, k);
}

} // verus!
