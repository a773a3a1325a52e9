//! Bayer drizzle: the four filter positions of a mosaic are dropped one by one onto a denser grid
//! and combined into colors (Fruchter and Hook 2002, for mosaics).

use crate::float::{clamp, le, lt, max, FloatOp, FloatUnit, HALF, ONE, ZERO};
use crate::frame::{lemma_index_pixel, lemma_pixel_index, pixel_index, RgbaFrame};
use crate::skr_fusion::Color;
use vstd::prelude::*;

verus! {

/// Rows that are worked through at a time.
pub const TILE_HEIGHT: u32 = 128;

/// One channel of the output: a sum and a weight per pixel.
pub struct DrizzleChan {
    /// Sums of the values dropped on each pixel.
    pub sum: Vec<u32>,
    /// Number of the values dropped on each pixel.
    pub weight: Vec<u32>,
    /// Pixels per row.
    pub w: u32,
    /// Number of rows.
    pub h: u32,
}

/// The content of one output pixel of a channel.
pub struct Drop {
    /// Sum of the values.
    pub sum: u32,
    /// Number of the values.
    pub weight: u32,
}

impl DrizzleChan {
    /// Whether there is a sum and a weight for each pixel.
    pub open spec fn wf(&self) -> bool {
        &&& self.w * self.h <= u32::MAX
        &&& self.sum@.len() == self.w * self.h
        &&& self.weight@.len() == self.w * self.h
    }

    /// The content of pixel `i`.
    pub open spec fn at(&self, i: int) -> Drop {
        Drop { sum: self.sum@[i], weight: self.weight@[i] }
    }

    /// An empty channel.
    pub fn new(w: u32, h: u32) -> (r: Self)
        requires
            w * h <= u32::MAX,
        ensures
            r.wf(),
            r.w == w,
            r.h == h,
            forall|i: int| 0 <= i < w * h ==> #[trigger] r.at(i) == nothing(),
    {
        let count: usize = (w * h) as usize;
        let mut sum: Vec<u32> = Vec::new();
        sum.resize(count, ZERO);
        let mut weight: Vec<u32> = Vec::new();
        weight.resize(count, ZERO);
        DrizzleChan { sum, weight, w, h }
    }

    /// Drop a value on one pixel.
    pub fn add<F: Fn(FloatOp) -> u64>(&mut self, fpu: &FloatUnit<F>, ox: u32, oy: u32, val: u32)
        requires
            old(self).wf(),
            ox < old(self).w,
            oy < old(self).h,
        ensures
            final(self).wf(),
            final(self).w == old(self).w,
            final(self).h == old(self).h,
            forall|i: int|
                0 <= i < old(self).w * old(self).h ==> #[trigger] final(self).at(i) == (if i
                    == pixel_index(ox as int, oy as int, old(self).w as int) {
                    dropped(fpu, old(self).at(i), val)
                } else {
                    old(self).at(i)
                }),
    {
        proof {
            lemma_pixel_index(ox as int, oy as int, self.w as int, self.h as int);
        }
        let i: usize = (oy * self.w + ox) as usize;
        let sum = fpu.add(self.sum[i], val);
        let weight = fpu.add(self.weight[i], ONE);
        self.sum.set(i, sum);
        self.weight.set(i, weight);
    }

    /// The mean of the values on each pixel, zero where there is none.
    pub fn normalize<F: Fn(FloatOp) -> u64>(self, fpu: &FloatUnit<F>) -> (r: Vec<u32>)
        requires
            self.wf(),
        ensures
            r@.len() == self.w * self.h,
            forall|i: int| 0 <= i < r@.len() ==> #[trigger] r@[i] == drop_mean(fpu, self.at(i)),
    {
        let n = self.sum.len();
        let mut r: Vec<u32> = Vec::with_capacity(n);
        let mut i: usize = 0;
        while i < n
            invariant
                i <= n,
                n == self.sum@.len(),
                n == self.weight@.len(),
                r@.len() == i,
                forall|k: int| 0 <= k < i ==> #[trigger] r@[k] == drop_mean(fpu, self.at(k)),
            decreases n - i,
        {
            if lt(ZERO, self.weight[i]) {
                r.push(fpu.div(self.sum[i], self.weight[i]));
            } else {
                r.push(ZERO);
            }
            i = i + 1;
        }
        r
    }
}

/// A pixel on which nothing was dropped.
pub open spec fn nothing() -> Drop {
    Drop { sum: ZERO, weight: ZERO }
}

/// A pixel after one more value.
pub open spec fn dropped<F: Fn(FloatOp) -> u64>(fpu: &FloatUnit<F>, d: Drop, val: u32) -> Drop {
    Drop { sum: fpu.add(d.sum, val), weight: fpu.add(d.weight, ONE) }
}

/// The mean of the values on a pixel, zero where there is none.
pub open spec fn drop_mean<F: Fn(FloatOp) -> u64>(fpu: &FloatUnit<F>, d: Drop) -> u32 {
    if lt(ZERO, d.weight) {
        fpu.div(d.sum, d.weight)
    } else {
        ZERO
    }
}

/// The filter position at column `x` of row `y`: 0 for red, 1 for the green beside it, 2 for blue,
/// 3 for the green below red.
pub open spec fn filter_at(x: int, y: int) -> int {
    if y % 2 == 0 {
        if x % 2 == 0 {
            0
        } else {
            1
        }
    } else if x % 2 == 0 {
        3
    } else {
        2
    }
}

/// Whether the filter position at column `x` of row `y` is `target`. Every mosaic is taken for one
/// that starts with red.
pub fn bayer_is(_cfa: &str, x: u32, y: u32, target: u8) -> (r: bool)
    ensures
        r == (filter_at(x as int, y as int) == target),
{
    let position: u8 = if y % 2 == 0 {
        if x % 2 == 0 {
            0
        } else {
            1
        }
    } else if x % 2 == 0 {
        3
    } else {
        2
    };
    position == target
}

/// The frames that are drizzled.
pub struct Mosaics {
    /// Samples of each frame, row after row.
    pub data: Seq<Seq<u16>>,
    /// Samples per row.
    pub width: int,
    /// Number of rows.
    pub height: int,
    /// Horizontal and vertical shift of each frame.
    pub shifts: Seq<(u32, u32)>,
    /// Black levels of each frame.
    pub black_levels: Seq<Seq<u32>>,
    /// White level of each frame.
    pub white_levels: Seq<u32>,
}

/// The black level of a filter position, zero for any other number.
pub open spec fn black_at(levels: Seq<u32>, target: int) -> u32 {
    if 0 <= target < 4 {
        levels[target]
    } else {
        ZERO
    }
}

/// The value of a sample from 0 to 1.
pub open spec fn sample_value<F: Fn(FloatOp) -> u64>(
    fpu: &FloatUnit<F>,
    m: Mosaics,
    target: int,
    f: int,
    x: int,
    y: int,
) -> u32 {
    let black = black_at(m.black_levels[f], target);
    let range = max(fpu.sub(max(m.white_levels[f], ONE), black), ONE);
    let raw = fpu.from_u64(m.data[f][pixel_index(x, y, m.width)] as u64);
    clamp(fpu.div(fpu.sub(raw, black), range), ZERO, ONE)
}

/// Where the center of a sample falls on the output, along one axis.
pub open spec fn landing<F: Fn(FloatOp) -> u64>(
    fpu: &FloatUnit<F>,
    position: int,
    shift: u32,
    scale: u32,
) -> i32 {
    fpu.to_i32(
        fpu.round(
            fpu.mul(
                fpu.add(fpu.add(fpu.from_u64(position as u64), HALF), shift),
                fpu.from_u64(scale as u64),
            ),
        ),
    )
}

/// The output pixel on which a sample is dropped, with its value: none for a sample of another
/// filter position, a black one, or one that falls outside.
pub open spec fn drop_of<F: Fn(FloatOp) -> u64>(
    fpu: &FloatUnit<F>,
    m: Mosaics,
    target: int,
    scale: u32,
    ow: int,
    oh: int,
    f: int,
    x: int,
    y: int,
) -> Option<(int, u32)> {
    let value = sample_value(fpu, m, target, f, x, y);
    let ox = landing(fpu, x, m.shifts[f].0, scale) as int;
    let oy = landing(fpu, y, m.shifts[f].1, scale) as int;
    if filter_at(x, y) == target && !le(value, ZERO) && 0 <= ox < ow && 0 <= oy < oh {
        Some((pixel_index(ox, oy, ow), value))
    } else {
        None
    }
}

/// The content of output pixel `p` after the first `k` samples of the tile of frame `f` that starts
/// at row `top`, row after row.
pub open spec fn over_tile<F: Fn(FloatOp) -> u64>(
    fpu: &FloatUnit<F>,
    m: Mosaics,
    target: int,
    scale: u32,
    ow: int,
    oh: int,
    p: int,
    top: int,
    f: int,
    start: Drop,
    k: nat,
) -> Drop
    decreases k,
{
    if k == 0 {
        start
    } else {
        let before = over_tile(fpu, m, target, scale, ow, oh, p, top, f, start, (k - 1) as nat);
        let (x, y) = ((k - 1) % m.width, top + (k - 1) / m.width);
        match drop_of(fpu, m, target, scale, ow, oh, f, x, y) {
            Some((i, value)) => if i == p {
                dropped(fpu, before, value)
            } else {
                before
            },
            None => before,
        }
    }
}

/// The number of rows of the tile that starts at row `top`.
pub open spec fn tile_rows(height: int, top: int) -> int {
    if top + TILE_HEIGHT < height {
        TILE_HEIGHT as int
    } else {
        height - top
    }
}

/// The content of output pixel `p` after the tile of the first `n` frames.
pub open spec fn over_frames<F: Fn(FloatOp) -> u64>(
    fpu: &FloatUnit<F>,
    m: Mosaics,
    target: int,
    scale: u32,
    ow: int,
    oh: int,
    p: int,
    top: int,
    start: Drop,
    n: nat,
) -> Drop
    decreases n,
{
    if n == 0 {
        start
    } else {
        over_tile(
            fpu,
            m,
            target,
            scale,
            ow,
            oh,
            p,
            top,
            n - 1,
            over_frames(fpu, m, target, scale, ow, oh, p, top, start, (n - 1) as nat),
            (tile_rows(m.height, top) * m.width) as nat,
        )
    }
}

/// The content of output pixel `p` after the first `t` tiles of all frames.
pub open spec fn over_tiles<F: Fn(FloatOp) -> u64>(
    fpu: &FloatUnit<F>,
    m: Mosaics,
    target: int,
    scale: u32,
    ow: int,
    oh: int,
    p: int,
    t: nat,
) -> Drop
    decreases t,
{
    if t == 0 {
        nothing()
    } else {
        over_frames(
            fpu,
            m,
            target,
            scale,
            ow,
            oh,
            p,
            (t - 1) * TILE_HEIGHT,
            over_tiles(fpu, m, target, scale, ow, oh, p, (t - 1) as nat),
            m.data.len(),
        )
    }
}

/// The number of tiles of `height` rows.
pub open spec fn tile_count(height: int) -> nat {
    ((height + TILE_HEIGHT - 1) / (TILE_HEIGHT as int)) as nat
}

/// Output pixel `p` of one filter position.
pub open spec fn channel_value<F: Fn(FloatOp) -> u64>(
    fpu: &FloatUnit<F>,
    m: Mosaics,
    target: int,
    scale: u32,
    ow: int,
    oh: int,
    p: int,
) -> u32 {
    drop_mean(fpu, over_tiles(fpu, m, target, scale, ow, oh, p, tile_count(m.height)))
}

/// The frames that are drizzled, as a model.
pub open spec fn mosaics_of(
    data: Seq<Vec<u16>>,
    width: u32,
    height: u32,
    shifts: Seq<(u32, u32)>,
    black_levels: Seq<[u32; 4]>,
    white_levels: Seq<u32>,
) -> Mosaics {
    Mosaics {
        data: Seq::new(data.len(), |f: int| data[f]@),
        width: width as int,
        height: height as int,
        shifts,
        black_levels: Seq::new(black_levels.len(), |f: int| black_levels[f]@),
        white_levels,
    }
}

/// Whether every frame has its samples, shift and levels, as far as there are rows.
pub open spec fn complete(m: Mosaics) -> bool {
    m.height > 0 ==> {
        &&& m.shifts.len() >= m.data.len()
        &&& m.black_levels.len() >= m.data.len()
        &&& m.white_levels.len() >= m.data.len()
        &&& forall|f: int|
            0 <= f < m.data.len() ==> (#[trigger] m.data[f]).len() >= m.width * m.height
    }
}

/// Drop the tile of one frame.
fn drop_tile<F: Fn(FloatOp) -> u64>(
    fpu: &FloatUnit<F>,
    chan: &mut DrizzleChan,
    target: u8,
    width: u32,
    height: u32,
    cfa: &str,
    data: &Vec<u16>,
    shift: (u32, u32),
    black: [u32; 4],
    white: u32,
    scale: u32,
    top: u32,
    Ghost(m): Ghost<Mosaics>,
    Ghost(f): Ghost<int>,
)
    requires
        old(chan).wf(),
        m.width == width,
        m.height == height,
        m.data[f] == data@,
        m.shifts[f] == shift,
        m.black_levels[f] == black@,
        m.white_levels[f] == white,
        data@.len() >= width * height,
        width * height <= u32::MAX,
        top < height,
    ensures
        final(chan).wf(),
        final(chan).w == old(chan).w,
        final(chan).h == old(chan).h,
        forall|p: int|
            0 <= p < old(chan).w * old(chan).h ==> #[trigger] final(chan).at(p) == over_tile(
                fpu,
                m,
                target as int,
                scale,
                old(chan).w as int,
                old(chan).h as int,
                p,
                top as int,
                f,
                old(chan).at(p),
                (tile_rows(height as int, top as int) * width) as nat,
            ),
{
    let ow = chan.w;
    let oh = chan.h;
    let rows: u32 = if (top as u64 + TILE_HEIGHT as u64) < height as u64 {
        TILE_HEIGHT
    } else {
        height - top
    };
    assert(0 <= rows * width <= height * width && height * width == width * height)
        by (nonlinear_arith)
        requires
            0 <= rows <= height,
            0 <= width,
    ;
    let count: u32 = rows * width;
    let ch_bl = if target < 4 {
        black[target as usize]
    } else {
        ZERO
    };
    let ch_range = max(fpu.sub(max(white, ONE), ch_bl), ONE);
    let factor = fpu.from_u64(scale as u64);
    let mut k: u32 = 0;
    while k < count
        invariant
            k <= count,
            count == rows * width,
            rows == tile_rows(height as int, top as int),
            top + rows <= height,
            chan.wf(),
            chan.w == ow,
            chan.h == oh,
            ow == old(chan).w,
            oh == old(chan).h,
            m.width == width,
            m.height == height,
            m.data[f] == data@,
            m.shifts[f] == shift,
            m.black_levels[f] == black@,
            m.white_levels[f] == white,
            data@.len() >= width * height,
            width * height <= u32::MAX,
            ch_bl == black_at(black@, target as int),
            ch_range == max(fpu.sub(max(white, ONE), ch_bl), ONE),
            factor == fpu.from_u64(scale as u64),
            forall|p: int|
                0 <= p < ow * oh ==> #[trigger] chan.at(p) == over_tile(
                    fpu,
                    m,
                    target as int,
                    scale,
                    ow as int,
                    oh as int,
                    p,
                    top as int,
                    f,
                    old(chan).at(p),
                    k as nat,
                ),
        decreases count - k,
    {
        proof {
            assert(rows * width == width * rows) by (nonlinear_arith);
            lemma_index_pixel(k as int, width as int, rows as int);
        }
        let sx: u32 = k % width;
        let sy: u32 = top + k / width;
        if bayer_is(cfa, sx, sy, target) {
            proof {
                lemma_pixel_index(sx as int, sy as int, width as int, height as int);
            }
            let raw = fpu.from_u64(data[(sy * width + sx) as usize] as u64);
            let val = clamp(fpu.div(fpu.sub(raw, ch_bl), ch_range), ZERO, ONE);
            if !le(val, ZERO) {
                let ox = fpu.to_i32(
                    fpu.round(
                        fpu.mul(
                            fpu.add(fpu.add(fpu.from_u64(sx as u64), HALF), shift.0),
                            factor,
                        ),
                    ),
                );
                let oy = fpu.to_i32(
                    fpu.round(
                        fpu.mul(
                            fpu.add(fpu.add(fpu.from_u64(sy as u64), HALF), shift.1),
                            factor,
                        ),
                    ),
                );
                if ox >= 0 && oy >= 0 && (ox as u32) < ow && (oy as u32) < oh {
                    chan.add(fpu, ox as u32, oy as u32, val);
                }
            }
        }
        k = k + 1;
    }
}

/// Drizzle one filter position onto an output of `ow` by `oh` pixels.
///
/// The rows are worked through in tiles, each of them over all frames.
pub fn drizzle_one_channel<F: Fn(FloatOp) -> u64>(
    fpu: &FloatUnit<F>,
    target: u8,
    width: u32,
    height: u32,
    cfa: &str,
    cfa_data: &Vec<Vec<u16>>,
    shifts: &Vec<(u32, u32)>,
    black_levels: &Vec<[u32; 4]>,
    white_levels: &Vec<u32>,
    scale: u32,
    ow: u32,
    oh: u32,
) -> (r: Vec<u32>)
    requires
        width * height <= u32::MAX,
        ow * oh <= u32::MAX,
        complete(mosaics_of(cfa_data@, width, height, shifts@, black_levels@, white_levels@)),
    ensures
        r@.len() == ow * oh,
        forall|p: int|
            0 <= p < r@.len() ==> #[trigger] r@[p] == channel_value(
                fpu,
                mosaics_of(cfa_data@, width, height, shifts@, black_levels@, white_levels@),
                target as int,
                scale,
                ow as int,
                oh as int,
                p,
            ),
{
    let ghost m = mosaics_of(cfa_data@, width, height, shifts@, black_levels@, white_levels@);
    let mut chan = DrizzleChan::new(ow, oh);
    let mut top: u64 = 0;
    let ghost mut t: nat = 0;
    while top < height as u64
        invariant
            top == t * TILE_HEIGHT,
            top < height + TILE_HEIGHT,
            t <= tile_count(height as int),
            chan.wf(),
            chan.w == ow,
            chan.h == oh,
            width * height <= u32::MAX,
            complete(m),
            m == mosaics_of(cfa_data@, width, height, shifts@, black_levels@, white_levels@),
            forall|p: int|
                0 <= p < ow * oh ==> #[trigger] chan.at(p) == over_tiles(
                    fpu,
                    m,
                    target as int,
                    scale,
                    ow as int,
                    oh as int,
                    p,
                    t,
                ),
        decreases height + TILE_HEIGHT - top,
    {
        let ghost before = chan;
        let mut f: usize = 0;
        while f < cfa_data.len()
            invariant
                f <= cfa_data@.len(),
                top < height,
                chan.wf(),
                chan.w == ow,
                chan.h == oh,
                width * height <= u32::MAX,
                complete(m),
                m == mosaics_of(cfa_data@, width, height, shifts@, black_levels@, white_levels@),
                forall|p: int|
                    0 <= p < ow * oh ==> #[trigger] chan.at(p) == over_frames(
                        fpu,
                        m,
                        target as int,
                        scale,
                        ow as int,
                        oh as int,
                        p,
                        top as int,
                        before.at(p),
                        f as nat,
                    ),
            decreases cfa_data@.len() - f,
        {
            assert(m.data[f as int].len() >= m.width * m.height);
            drop_tile(
                fpu,
                &mut chan,
                target,
                width,
                height,
                cfa,
                &cfa_data[f],
                shifts[f],
                black_levels[f],
                white_levels[f],
                scale,
                top as u32,
                Ghost(m),
                Ghost(f as int),
            );
            f = f + 1;
        }
        proof {
            t = t + 1;
        }
        top = top + TILE_HEIGHT as u64;
    }
    assert(t == tile_count(height as int));
    chan.normalize(fpu)
}

/// The color of output pixel `p`: red, the mean of both greens, blue, held between 0 and 1.
pub open spec fn drizzled_color<F: Fn(FloatOp) -> u64>(
    fpu: &FloatUnit<F>,
    m: Mosaics,
    scale: u32,
    ow: int,
    oh: int,
    p: int,
) -> Color {
    Color {
        red: clamp(channel_value(fpu, m, 0, scale, ow, oh, p), ZERO, ONE),
        green: clamp(
            fpu.mul(
                fpu.add(
                    channel_value(fpu, m, 1, scale, ow, oh, p),
                    channel_value(fpu, m, 3, scale, ow, oh, p),
                ),
                HALF,
            ),
            ZERO,
            ONE,
        ),
        blue: clamp(channel_value(fpu, m, 2, scale, ow, oh, p), ZERO, ONE),
    }
}

/// Whether a frame holds the colors of mosaics that are drizzled onto a grid `scale` times as dense.
pub open spec fn is_drizzled<F: Fn(FloatOp) -> u64>(
    fpu: &FloatUnit<F>,
    m: Mosaics,
    scale: u32,
    out: &RgbaFrame,
) -> bool {
    &&& out.wf()
    &&& out.width == m.width * scale
    &&& out.height == m.height * scale
    &&& forall|x: int, y: int, c: int|
        0 <= x < out.width && 0 <= y < out.height && 0 <= c < 4 ==> #[trigger] out.at(x, y, c)
            == drizzled_color(
            fpu,
            m,
            scale,
            m.width * scale,
            m.height * scale,
            pixel_index(x, y, m.width * scale),
        ).channel(c)
}

/// Drizzle mosaics onto a grid that is `scale` times as dense.
pub fn bayer_drizzle<F: Fn(FloatOp) -> u64>(
    fpu: &FloatUnit<F>,
    cfa_data: &Vec<Vec<u16>>,
    width: u32,
    height: u32,
    cfa: &str,
    shifts: &Vec<(u32, u32)>,
    black_levels: &Vec<[u32; 4]>,
    white_levels: &Vec<u32>,
    scale: u32,
) -> (out: RgbaFrame)
    requires
        width * height <= u32::MAX,
        width * scale <= u32::MAX,
        height * scale <= u32::MAX,
        (width * scale) * (height * scale) <= u32::MAX,
        (width * scale) * (height * scale) * 4 <= usize::MAX,
        complete(mosaics_of(cfa_data@, width, height, shifts@, black_levels@, white_levels@)),
    ensures
        out.wf(),
        out.width == width * scale,
        out.height == height * scale,
        is_drizzled(
            fpu,
            mosaics_of(cfa_data@, width, height, shifts@, black_levels@, white_levels@),
            scale,
            &out,
        ),
{
    let ghost m = mosaics_of(cfa_data@, width, height, shifts@, black_levels@, white_levels@);
    let ow: u32 = width * scale;
    let oh: u32 = height * scale;
    let r_out = drizzle_one_channel(
        fpu,
        0,
        width,
        height,
        cfa,
        cfa_data,
        shifts,
        black_levels,
        white_levels,
        scale,
        ow,
        oh,
    );
    let g1_out = drizzle_one_channel(
        fpu,
        1,
        width,
        height,
        cfa,
        cfa_data,
        shifts,
        black_levels,
        white_levels,
        scale,
        ow,
        oh,
    );
    let g2_out = drizzle_one_channel(
        fpu,
        3,
        width,
        height,
        cfa,
        cfa_data,
        shifts,
        black_levels,
        white_levels,
        scale,
        ow,
        oh,
    );
    let b_out = drizzle_one_channel(
        fpu,
        2,
        width,
        height,
        cfa,
        cfa_data,
        shifts,
        black_levels,
        white_levels,
        scale,
        ow,
        oh,
    );
    let count: usize = (ow * oh) as usize;
    let mut samples: Vec<u32> = Vec::with_capacity(count * 4);
    let mut i: usize = 0;
    while i < count
        invariant
            i <= count,
            count == ow * oh,
            r_out@.len() == count,
            g1_out@.len() == count,
            g2_out@.len() == count,
            b_out@.len() == count,
            forall|p: int|
                0 <= p < count ==> #[trigger] r_out@[p] == channel_value(
                    fpu,
                    m,
                    0,
                    scale,
                    ow as int,
                    oh as int,
                    p,
                ),
            forall|p: int|
                0 <= p < count ==> #[trigger] g1_out@[p] == channel_value(
                    fpu,
                    m,
                    1,
                    scale,
                    ow as int,
                    oh as int,
                    p,
                ),
            forall|p: int|
                0 <= p < count ==> #[trigger] g2_out@[p] == channel_value(
                    fpu,
                    m,
                    3,
                    scale,
                    ow as int,
                    oh as int,
                    p,
                ),
            forall|p: int|
                0 <= p < count ==> #[trigger] b_out@[p] == channel_value(
                    fpu,
                    m,
                    2,
                    scale,
                    ow as int,
                    oh as int,
                    p,
                ),
            samples@.len() == i * 4,
            forall|k: int, c: int|
                0 <= k < i && 0 <= c < 4 ==> #[trigger] samples@[k * 4 + c] == drizzled_color(
                    fpu,
                    m,
                    scale,
                    ow as int,
                    oh as int,
                    k,
                ).channel(c),
        decreases count - i,
    {
        let ghost before = samples@;
        samples.push(clamp(r_out[i], ZERO, ONE));
        samples.push(clamp(fpu.mul(fpu.add(g1_out[i], g2_out[i]), HALF), ZERO, ONE));
        samples.push(clamp(b_out[i], ZERO, ONE));
        samples.push(ONE);
        assert forall|k: int, c: int| 0 <= k < i + 1 && 0 <= c < 4 implies #[trigger] samples@[k * 4
            + c] == drizzled_color(fpu, m, scale, ow as int, oh as int, k).channel(c) by {
            if k < i {
                assert(samples@[k * 4 + c] == before[k * 4 + c]);
            }
        }
        i = i + 1;
    }
    let out = RgbaFrame { width: ow, height: oh, samples };
    assert forall|x: int, y: int, c: int|
        0 <= x < out.width && 0 <= y < out.height && 0 <= c < 4 implies #[trigger] out.at(x, y, c)
        == drizzled_color(
        fpu,
        m,
        scale,
        ow as int,
        oh as int,
        pixel_index(x, y, ow as int),
    ).channel(c) by {
        lemma_pixel_index(x, y, ow as int, oh as int);
    }
    out
}

/// Each sample belongs to exactly one of the four filter positions that are drizzled.
pub proof fn every_sample_has_one_channel(x: int, y: int)
    ensures
        exists|target: int|
            #![trigger is_filter(x, y, target)]
            0 <= target < 4 && is_filter(x, y, target) && forall|other: int|
                #[trigger] is_filter(x, y, other) ==> other == target,
{
    assert(is_filter(x, y, filter_at(x, y)));
}

/// Whether the filter position at (`x`, `y`) is `target`.
pub open spec fn is_filter(x: int, y: int, target: int) -> bool {
    filter_at(x, y) == target
}

} // verus!
