//! Aligning frames to a reference by translation.
//!
//! Pixel-shift frames are taken from one sensor position, so there is neither rotation nor
//! perspective. A search over whole pixels is refined to fractions of a pixel.

use crate::exact::{
    exact_from, exact_narrow, exact_sub, exact_whole, exact_wide_add, exact_wide_div,
    exact_wide_from, exact_wide_mul, exact_wide_sqrt, exact_wide_sub, exact_widen, fits, is_exact,
    is_ordinary, lemma_constants, lemma_finer, stands_for, wide_stands_for,
};
use crate::float::{
    clamp, is_nan, le, lt, wide_abs, wide_lt, wide_neg, FloatOp, FloatUnit, HALF, NEG_INFINITY, ONE, WIDE_1E_10,
    WIDE_ZERO, ZERO,
};
use crate::frame::{
    is_nearest, lemma_index_pixel, lemma_pixel_index, lemma_pixel_product, pixel_index, GrayFrame, RgbaFrame,
};
use crate::grid::{grid_between, lemma_grid, lemma_steps, make_grid, Grid};
use crate::skr_fusion::{
    blend, held, hold, mix, sample_at, samples_at_whole_pixels, samples_lie_between_pixels,
};
use vstd::arithmetic::power2::pow2;
use vstd::prelude::*;

verus! {

/// The displacement of a frame relative to the reference frame, in pixels: what the reference shows
/// at a position, the frame shows at that position plus the shift.
#[derive(Debug, Clone, Copy)]
pub struct AlignmentShift {
    /// Horizontal shift.
    pub dx: u32,
    /// Vertical shift.
    pub dy: u32,
    /// Quality of the alignment, higher is better.
    pub quality: u32,
}

/// Why frames could not be aligned.
#[derive(Debug, Clone, Copy, PartialEq, Eq, Structural)]
pub enum AlignError {
    /// There is no frame.
    NoFrames,
}

impl AlignError {
    /// What went wrong, in words.
    pub fn message(&self) -> (r: String)
        ensures
            r@ == match *self {
                AlignError::NoFrames => "No frames to align"@,
            },
    {
        match self {
            AlignError::NoFrames => "No frames to align".to_owned(),
        }
    }
}

/// How far the search over whole pixels goes: pixel-shift offsets are small.
pub const SEARCH_RADIUS: i32 = 16;

/// The number of offsets that the search tries on each axis.
pub const SEARCH_SIDE: u32 = 33;

/// The number of offsets that the search tries.
pub const SEARCH_AREA: u32 = 1089;

/// The most iterations of the refinement.
pub const MAX_ITERATIONS: u32 = 10;

/// The step below which the refinement stops, 0.01 in double precision.
pub const CONVERGENCE: u64 = 0x3f84_7ae1_47ae_147b;

/// The most pixels for which sums of products of two bytes are exact in double precision.
pub const PIXEL_LIMIT: u64 = 0x20_0000_0000;

/// Where the overlap of a line of `len` pixels with itself shifted by `d` starts.
pub open spec fn overlap_start(d: int) -> u32 {
    if d > 0 {
        d as u32
    } else {
        0
    }
}

/// Where the overlap of a line of `len` pixels with itself shifted by `d` ends.
pub open spec fn overlap_end(len: u32, d: int) -> u32 {
    if d >= 0 {
        len
    } else if len + d > 0 {
        (len + d) as u32
    } else {
        0
    }
}

/// The positions at which two images are compared at a displacement.
pub open spec fn overlap(width: u32, height: u32, dx: int, dy: int, step: u32) -> Grid {
    grid_between(
        overlap_start(dx),
        overlap_end(width, dx),
        overlap_start(dy),
        overlap_end(height, dy),
        step,
    )
}

/// The positions at which two images are compared at a displacement.
fn make_overlap(width: u32, height: u32, dx: i32, dy: i32, step: u32) -> (g: Grid)
    requires
        0 < step,
    ensures
        g == overlap(width, height, dx as int, dy as int, step),
{
    let x0: u32 = if dx > 0 {
        dx as u32
    } else {
        0
    };
    let y0: u32 = if dy > 0 {
        dy as u32
    } else {
        0
    };
    make_grid(x0, held_end(width, dx), y0, held_end(height, dy), step)
}

/// The displaced positions of an overlap lie within both images, which have no more pixels than
/// the overlap has positions.
proof fn lemma_overlap(width: u32, height: u32, dx: int, dy: int, step: u32)
    requires
        0 < step,
        i32::MIN <= dx <= i32::MAX,
        i32::MIN <= dy <= i32::MAX,
    ensures
        overlap(width, height, dx, dy, step).within(width as int, height as int),
        overlap(width, height, dx, dy, step).area() <= width * height,
        forall|k: int|
            0 <= k < overlap(width, height, dx, dy, step).area() ==> 0 <= #[trigger] overlap(
                width,
                height,
                dx,
                dy,
                step,
            ).column(k) - dx < width && 0 <= overlap(width, height, dx, dy, step).row(k) - dy
                < height,
{
    let (x0, x1) = (overlap_start(dx), overlap_end(width, dx));
    let (y0, y1) = (overlap_start(dy), overlap_end(height, dy));
    let g = overlap(width, height, dx, dy, step);
    lemma_grid(x0, x1, y0, y1, step);
    assert forall|k: int| 0 <= k < g.area() implies 0 <= #[trigger] g.column(k) < width && 0
        <= g.row(k) < height && 0 <= g.column(k) - dx < width && 0 <= g.row(k) - dy < height by {
        assert(x0 <= g.column(k) < x1);
    }
    assert(0 <= width * height) by (nonlinear_arith)
        requires
            0 <= width,
            0 <= height,
    ;
    if g.area() > 0 {
        lemma_index_pixel(0, g.nx as int, g.ny as int);
        assert((x1 - x0) * (y1 - y0) <= width * height) by (nonlinear_arith)
            requires
                0 <= x1 - x0 <= width,
                0 <= y1 - y0 <= height,
        ;
    }
}

/// Sums of products of the pixels that two images have at the compared positions.
pub struct ProductSums {
    /// Products of both.
    pub ab: int,
    /// Squares of the first.
    pub aa: int,
    /// Squares of the second.
    pub bb: int,
}

/// The sums over the first `k` positions of an overlap.
pub open spec fn product_sums(
    reference: &GrayFrame,
    target: &GrayFrame,
    g: Grid,
    dx: int,
    dy: int,
    k: nat,
) -> ProductSums
    decreases k,
{
    if k == 0 {
        ProductSums { ab: 0, aa: 0, bb: 0 }
    } else {
        let before = product_sums(reference, target, g, dx, dy, (k - 1) as nat);
        let a = reference.at(g.column(k - 1), g.row(k - 1));
        let b = target.at(g.column(k - 1) - dx, g.row(k - 1) - dy);
        ProductSums { ab: before.ab + a * b, aa: before.aa + a * a, bb: before.bb + b * b }
    }
}

/// The normalized cross-correlation of two images at a displacement; zero where they do not
/// overlap or one of them is black.
pub open spec fn correlation<F: Fn(FloatOp) -> u64>(
    fpu: &FloatUnit<F>,
    reference: &GrayFrame,
    target: &GrayFrame,
    width: u32,
    height: u32,
    dx: int,
    dy: int,
    step: u32,
) -> u32 {
    let g = overlap(width, height, dx, dy, step);
    let sums = product_sums(reference, target, g, dx, dy, g.area() as nat);
    let denom = fpu.wide_sqrt(
        fpu.wide_mul(fpu.wide_from_u64(sums.aa as u64), fpu.wide_from_u64(sums.bb as u64)),
    );
    if g.area() == 0 || wide_lt(denom, WIDE_1E_10) {
        ZERO
    } else {
        fpu.narrow(fpu.wide_div(fpu.wide_from_u64(sums.ab as u64), denom))
    }
}

/// Normalized cross-correlation of two images at a displacement, sampled `step` pixels apart in
/// the region where they overlap.
pub fn ncc_score<F: Fn(FloatOp) -> u64>(
    fpu: &FloatUnit<F>,
    ref_img: &GrayFrame,
    target_img: &GrayFrame,
    width: u32,
    height: u32,
    dx: i32,
    dy: i32,
    step: u32,
) -> (score: u32)
    requires
        0 < step,
        width * height <= PIXEL_LIMIT,
        spans(ref_img, width, height),
        spans(target_img, width, height),
    ensures
        score == correlation(fpu, ref_img, target_img, width, height, dx as int, dy as int, step),
{
    let g = make_overlap(width, height, dx, dy, step);
    proof {
        lemma_overlap(width, height, dx as int, dy as int, step);
    }
    let count = g.size();
    let mut sum_ab: u64 = 0;
    let mut sum_aa: u64 = 0;
    let mut sum_bb: u64 = 0;
    let mut k: u64 = 0;
    while k < count
        invariant
            k <= count,
            count == g.area(),
            count <= PIXEL_LIMIT,
            g.within(width as int, height as int),
            forall|i: int|
                0 <= i < g.area() ==> 0 <= #[trigger] g.column(i) - dx < width && 0 <= g.row(i) - dy
                    < height,
            spans(ref_img, width, height),
            spans(target_img, width, height),
            (ProductSums { ab: sum_ab as int, aa: sum_aa as int, bb: sum_bb as int })
                == product_sums(ref_img, target_img, g, dx as int, dy as int, k as nat),
            sum_ab <= 65025 * k,
            sum_aa <= 65025 * k,
            sum_bb <= 65025 * k,
        decreases count - k,
    {
        let (x, y) = g.position(k, width, height);
        proof {
            assert(0 <= g.column(k as int) - dx < width);
        }
        let tx: u32 = (x as i64 - dx as i64) as u32;
        let ty: u32 = (y as i64 - dy as i64) as u32;
        let a: u64 = ref_img.get(x, y) as u64;
        let b: u64 = target_img.get(tx, ty) as u64;
        assert(a * b <= 65025 && a * a <= 65025 && b * b <= 65025) by (nonlinear_arith)
            requires
                0 <= a <= 255,
                0 <= b <= 255,
        ;
        sum_ab = sum_ab + a * b;
        sum_aa = sum_aa + a * a;
        sum_bb = sum_bb + b * b;
        k = k + 1;
    }
    if count == 0 {
        return ZERO;
    }
    let denom = fpu.wide_sqrt(
        fpu.wide_mul(fpu.wide_from_u64(sum_aa), fpu.wide_from_u64(sum_bb)),
    );
    if wide_lt(denom, WIDE_1E_10) {
        return ZERO;
    }
    fpu.narrow(fpu.wide_div(fpu.wide_from_u64(sum_ab), denom))
}

/// Whether an image is complete and has at least `width` columns and `height` rows.
pub open spec fn spans(img: &GrayFrame, width: u32, height: u32) -> bool {
    img.wf() && img.width >= width && img.height >= height
}

/// How far apart the search samples an image.
pub open spec fn search_step(width: u32) -> u32 {
    if width > 1024 {
        4
    } else {
        2
    }
}

/// The score of offset `k` of the search.
pub open spec fn search_score<F: Fn(FloatOp) -> u64>(
    fpu: &FloatUnit<F>,
    reference: &GrayFrame,
    target: &GrayFrame,
    width: u32,
    height: u32,
    k: int,
) -> u32 {
    correlation(
        fpu,
        reference,
        target,
        width,
        height,
        k % 33 - 16,
        k / 33 - 16,
        search_step(width),
    )
}

/// The best of the first `n` offsets: its score, and its place (that of no shift at the start).
pub open spec fn best_of<F: Fn(FloatOp) -> u64>(
    fpu: &FloatUnit<F>,
    reference: &GrayFrame,
    target: &GrayFrame,
    width: u32,
    height: u32,
    n: nat,
) -> (u32, int)
    decreases n,
{
    if n == 0 {
        (NEG_INFINITY, 544)
    } else {
        let before = best_of(fpu, reference, target, width, height, (n - 1) as nat);
        let score = search_score(fpu, reference, target, width, height, n - 1);
        if lt(before.0, score) {
            (score, n - 1)
        } else {
            before
        }
    }
}

/// The shift with the best correlation, and its quality from 0 to 1.
pub open spec fn coarse_shift<F: Fn(FloatOp) -> u64>(
    fpu: &FloatUnit<F>,
    reference: &GrayFrame,
    target: &GrayFrame,
    width: u32,
    height: u32,
) -> (i32, i32, u32) {
    let best = best_of(fpu, reference, target, width, height, SEARCH_AREA as nat);
    (
        (best.1 % 33 - 16) as i32,
        (best.1 / 33 - 16) as i32,
        clamp(fpu.add(fpu.mul(best.0, HALF), HALF), ZERO, ONE),
    )
}

/// The shift by whole pixels that best matches two images: of all offsets up to the search radius
/// the first with the highest correlation.
pub fn phase_correlation<F: Fn(FloatOp) -> u64>(
    fpu: &FloatUnit<F>,
    ref_img: &GrayFrame,
    target_img: &GrayFrame,
    width: u32,
    height: u32,
) -> (r: (i32, i32, u32))
    requires
        width * height <= PIXEL_LIMIT,
        spans(ref_img, width, height),
        spans(target_img, width, height),
    ensures
        r == coarse_shift(fpu, ref_img, target_img, width, height),
        -SEARCH_RADIUS <= r.0 <= SEARCH_RADIUS,
        -SEARCH_RADIUS <= r.1 <= SEARCH_RADIUS,
{
    let step: u32 = if width > 1024 {
        4
    } else {
        2
    };
    let mut best_score: u32 = NEG_INFINITY;
    let mut best: u32 = 544;
    let mut k: u32 = 0;
    while k < SEARCH_AREA
        invariant
            k <= SEARCH_AREA,
            best < SEARCH_AREA,
            step == search_step(width),
            width * height <= PIXEL_LIMIT,
            spans(ref_img, width, height),
            spans(target_img, width, height),
            (best_score, best as int) == best_of(
                fpu,
                ref_img,
                target_img,
                width,
                height,
                k as nat,
            ),
        decreases SEARCH_AREA - k,
    {
        let dx: i32 = (k % SEARCH_SIDE) as i32 - SEARCH_RADIUS;
        let dy: i32 = (k / SEARCH_SIDE) as i32 - SEARCH_RADIUS;
        let score = ncc_score(fpu, ref_img, target_img, width, height, dx, dy, step);
        if lt(best_score, score) {
            best_score = score;
            best = k;
        }
        k = k + 1;
    }
    let quality = clamp(fpu.add(fpu.mul(best_score, HALF), HALF), ZERO, ONE);
    (
        (best % SEARCH_SIDE) as i32 - SEARCH_RADIUS,
        (best / SEARCH_SIDE) as i32 - SEARCH_RADIUS,
        quality,
    )
}

/// The horizontal Sobel sum at an inner pixel.
pub open spec fn sobel_x(img: &GrayFrame, x: int, y: int) -> int {
    img.at(x + 1, y - 1) + 2 * img.at(x + 1, y) + img.at(x + 1, y + 1) - img.at(x - 1, y - 1) - 2
        * img.at(x - 1, y) - img.at(x - 1, y + 1)
}

/// The vertical Sobel sum at an inner pixel.
pub open spec fn sobel_y(img: &GrayFrame, x: int, y: int) -> int {
    img.at(x - 1, y + 1) + 2 * img.at(x, y + 1) + img.at(x + 1, y + 1) - img.at(x - 1, y - 1) - 2
        * img.at(x, y - 1) - img.at(x + 1, y - 1)
}

/// An eighth of a Sobel sum, cut to an integer towards zero.
pub open spec fn eighth(sum: int) -> int {
    if sum < 0 {
        -(-sum / 8)
    } else {
        sum / 8
    }
}

/// An eighth of a Sobel sum, cut to an integer towards zero.
fn cut_eighth(sum: i32) -> (r: i8)
    requires
        -1020 <= sum <= 1020,
    ensures
        r == eighth(sum as int),
{
    if sum < 0 {
        let size: u32 = (-sum) as u32;
        -((size / 8) as i8)
    } else {
        let size: u32 = sum as u32;
        (size / 8) as i8
    }
}

/// The gradient of an image in one direction, from -127 to 127.
pub struct Gradient {
    /// Pixels per row.
    pub width: u32,
    /// Number of rows.
    pub height: u32,
    /// One value per pixel, row after row.
    pub values: Vec<i8>,
}

impl Gradient {
    /// Whether there is a value for each pixel, and none beyond 127.
    pub open spec fn wf(&self) -> bool {
        &&& self.values@.len() == self.width * self.height
        &&& forall|i: int| 0 <= i < self.values@.len() ==> -127 <= #[trigger] self.values@[i] <= 127
    }

    /// The value at column `x` of row `y`.
    pub open spec fn at(&self, x: int, y: int) -> i8 {
        self.values@[pixel_index(x, y, self.width as int)]
    }

    /// The value at column `x` of row `y`.
    pub fn get(&self, x: u32, y: u32) -> (r: i8)
        requires
            self.wf(),
            x < self.width,
            y < self.height,
        ensures
            r == self.at(x as int, y as int),
            -127 <= r <= 127,
    {
        proof {
            lemma_pixel_index(x as int, y as int, self.width as int, self.height as int);
            assert(self.values.len() == self.values@.len());
        }
        self.values[y as usize * self.width as usize + x as usize]
    }
}

/// The horizontal gradient of an image, zero on its border.
pub open spec fn gradient_x(img: &GrayFrame, x: int, y: int, width: int, height: int) -> int {
    if 1 <= x < width - 1 && 1 <= y < height - 1 {
        eighth(sobel_x(img, x, y))
    } else {
        0
    }
}

/// The vertical gradient of an image, zero on its border.
pub open spec fn gradient_y(img: &GrayFrame, x: int, y: int, width: int, height: int) -> int {
    if 1 <= x < width - 1 && 1 <= y < height - 1 {
        eighth(sobel_y(img, x, y))
    } else {
        0
    }
}

/// Image gradients by Sobel operators: an eighth of each sum, rising or falling, in whole numbers;
/// zero on the border.
pub fn compute_gradients(img: &GrayFrame, width: u32, height: u32) -> (r: (Gradient, Gradient))
    requires
        spans(img, width, height),
    ensures
        r.0.wf() && r.0.width == width && r.0.height == height,
        r.1.wf() && r.1.width == width && r.1.height == height,
        forall|x: int, y: int|
            0 <= x < width && 0 <= y < height ==> #[trigger] r.0.at(x, y) == gradient_x(
                img,
                x,
                y,
                width as int,
                height as int,
            ),
        forall|x: int, y: int|
            0 <= x < width && 0 <= y < height ==> #[trigger] r.1.at(x, y) == gradient_y(
                img,
                x,
                y,
                width as int,
                height as int,
            ),
{
    proof {
        assert(img.pixels.len() == img.pixels@.len());
        assert(width * height <= img.width * img.height) by (nonlinear_arith)
            requires
                0 <= width <= img.width,
                0 <= height <= img.height,
        ;
        assert(0 <= width * height) by (nonlinear_arith)
            requires
                0 <= width,
                0 <= height,
        ;
    }
    let count: usize = width as usize * height as usize;
    let mut across: Vec<i8> = Vec::with_capacity(count);
    let mut down: Vec<i8> = Vec::with_capacity(count);
    let mut i: usize = 0;
    while i < count
        invariant
            i <= count,
            count == width * height,
            spans(img, width, height),
            across@.len() == i,
            down@.len() == i,
            forall|k: int| 0 <= k < i ==> -127 <= #[trigger] across@[k] <= 127,
            forall|k: int| 0 <= k < i ==> -127 <= #[trigger] down@[k] <= 127,
            forall|k: int|
                0 <= k < i ==> #[trigger] across@[k] == gradient_x(
                    img,
                    k % (width as int),
                    k / (width as int),
                    width as int,
                    height as int,
                ),
            forall|k: int|
                0 <= k < i ==> #[trigger] down@[k] == gradient_y(
                    img,
                    k % (width as int),
                    k / (width as int),
                    width as int,
                    height as int,
                ),
        decreases count - i,
    {
        proof {
            lemma_index_pixel(i as int, width as int, height as int);
        }
        let x: u32 = (i % width as usize) as u32;
        let y: u32 = (i / width as usize) as u32;
        if x >= 1 && y >= 1 && x < width - 1 && y < height - 1 {
            let top_left = img.get(x - 1, y - 1) as i32;
            let top = img.get(x, y - 1) as i32;
            let top_right = img.get(x + 1, y - 1) as i32;
            let left = img.get(x - 1, y) as i32;
            let right = img.get(x + 1, y) as i32;
            let bottom_left = img.get(x - 1, y + 1) as i32;
            let bottom = img.get(x, y + 1) as i32;
            let bottom_right = img.get(x + 1, y + 1) as i32;
            let gx: i32 = top_right + 2 * right + bottom_right - top_left - 2 * left - bottom_left;
            let gy: i32 = bottom_left + 2 * bottom + bottom_right - top_left - 2 * top - top_right;
            across.push(cut_eighth(gx));
            down.push(cut_eighth(gy));
        } else {
            across.push(0);
            down.push(0);
        }
        i = i + 1;
    }
    let grad_x = Gradient { width, height, values: across };
    let grad_y = Gradient { width, height, values: down };
    proof {
        assert forall|x: int, y: int| 0 <= x < width && 0 <= y < height implies #[trigger] grad_x.at(
            x,
            y,
        ) == gradient_x(img, x, y, width as int, height as int) by {
            lemma_pixel_index(x, y, width as int, height as int);
        }
        assert forall|x: int, y: int| 0 <= x < width && 0 <= y < height implies #[trigger] grad_y.at(
            x,
            y,
        ) == gradient_y(img, x, y, width as int, height as int) by {
            lemma_pixel_index(x, y, width as int, height as int);
        }
    }
    (grad_x, grad_y)
}

/// The pixel in which a coordinate lies.
pub open spec fn cell<F: Fn(FloatOp) -> u64>(fpu: &FloatUnit<F>, v: u32) -> u32 {
    fpu.to_u32(fpu.floor(v))
}

/// The value of a byte as a single-precision number.
pub open spec fn level<F: Fn(FloatOp) -> u64>(fpu: &FloatUnit<F>, v: u8) -> u32 {
    fpu.from_u64(v as u64)
}

/// The position after `v`, or `v` if it is the last of `len`.
pub open spec fn next_or_last(v: int, len: int) -> int {
    if v + 1 < len {
        v + 1
    } else {
        len - 1
    }
}

/// The bilinear interpolation of an image at (`x`, `y`).
pub open spec fn interpolated<F: Fn(FloatOp) -> u64>(
    fpu: &FloatUnit<F>,
    img: &GrayFrame,
    width: u32,
    height: u32,
    x: u32,
    y: u32,
) -> u32 {
    let x0 = cell(fpu, x);
    let y0 = cell(fpu, y);
    let x1 = next_or_last(x0 as int, width as int);
    let y1 = next_or_last(y0 as int, height as int);
    mix(
        fpu,
        level(fpu, img.at(x0 as int, y0 as int)),
        level(fpu, img.at(x1, y0 as int)),
        level(fpu, img.at(x0 as int, y1)),
        level(fpu, img.at(x1, y1)),
        fpu.sub(x, fpu.from_u64(x0 as u64)),
        fpu.sub(y, fpu.from_u64(y0 as u64)),
    )
}

/// Whether a coordinate pair lies in a pixel of the image.
pub open spec fn lands_inside<F: Fn(FloatOp) -> u64>(
    fpu: &FloatUnit<F>,
    width: u32,
    height: u32,
    x: u32,
    y: u32,
) -> bool {
    cell(fpu, x) < width && cell(fpu, y) < height
}

/// Whether a position lies in the image, neither before its first pixel nor beyond its last.
pub open spec fn lies_inside<F: Fn(FloatOp) -> u64>(
    fpu: &FloatUnit<F>,
    width: u32,
    height: u32,
    x: u32,
    y: u32,
) -> bool {
    le(ZERO, x) && le(ZERO, y) && lands_inside(fpu, width, height, x, y)
}

/// Bilinear interpolation of a grayscale image at fractional coordinates.
pub fn sample_bilinear<F: Fn(FloatOp) -> u64>(
    fpu: &FloatUnit<F>,
    img: &GrayFrame,
    width: u32,
    height: u32,
    x: u32,
    y: u32,
) -> (r: u32)
    requires
        spans(img, width, height),
        lands_inside(fpu, width, height, x, y),
    ensures
        r == interpolated(fpu, img, width, height, x, y),
{
    let x0 = fpu.to_u32(fpu.floor(x));
    let y0 = fpu.to_u32(fpu.floor(y));
    let x1: u32 = if x0 < width - 1 {
        x0 + 1
    } else {
        width - 1
    };
    let y1: u32 = if y0 < height - 1 {
        y0 + 1
    } else {
        height - 1
    };
    let fx = fpu.sub(x, fpu.from_u64(x0 as u64));
    let fy = fpu.sub(y, fpu.from_u64(y0 as u64));
    let p00 = fpu.from_u64(img.get(x0, y0) as u64);
    let p10 = fpu.from_u64(img.get(x1, y0) as u64);
    let p01 = fpu.from_u64(img.get(x0, y1) as u64);
    let p11 = fpu.from_u64(img.get(x1, y1) as u64);
    bilinear_interp(fpu, p00, p10, p01, p11, fx, fy)
}

/// One value between four neighbours.
pub fn bilinear_interp<F: Fn(FloatOp) -> u64>(
    fpu: &FloatUnit<F>,
    p00: u32,
    p10: u32,
    p01: u32,
    p11: u32,
    fx: u32,
    fy: u32,
) -> (r: u32)
    ensures
        r == mix(fpu, p00, p10, p01, p11, fx, fy),
{
    blend(fpu, p00, p10, p01, p11, fx, fy)
}

/// The positions at which the refinement compares the images: every second inner pixel.
pub open spec fn refinement_grid(width: u32, height: u32) -> Grid {
    grid_between(2, inner_end(width), 2, inner_end(height), 2)
}

/// The end of the inner pixels of a line.
pub open spec fn inner_end(len: u32) -> u32 {
    if len > 2 {
        (len - 2) as u32
    } else {
        0
    }
}

/// Sums of the Gauss-Newton equations: products of gradients, which are whole numbers, and of
/// gradients with the difference of the images.
pub struct NewtonSums {
    /// Horizontal gradient squared.
    pub h11: int,
    /// Product of both gradients.
    pub h12: int,
    /// Vertical gradient squared.
    pub h22: int,
    /// Horizontal gradient times difference.
    pub g1: u64,
    /// Vertical gradient times difference.
    pub g2: u64,
}

/// The difference of the displaced target to the reference at one pixel.
pub open spec fn difference<F: Fn(FloatOp) -> u64>(
    fpu: &FloatUnit<F>,
    reference: &GrayFrame,
    target: &GrayFrame,
    width: u32,
    height: u32,
    dx: u32,
    dy: u32,
    x: int,
    y: int,
) -> u32 {
    fpu.sub(
        interpolated(
            fpu,
            target,
            width,
            height,
            fpu.add(fpu.from_u64(x as u64), dx),
            fpu.add(fpu.from_u64(y as u64), dy),
        ),
        level(fpu, reference.at(x, y)),
    )
}

/// The sums over those of the first `k` positions of the grid that, displaced, lie in the target.
pub open spec fn newton_sums<F: Fn(FloatOp) -> u64>(
    fpu: &FloatUnit<F>,
    reference: &GrayFrame,
    target: &GrayFrame,
    width: u32,
    height: u32,
    dx: u32,
    dy: u32,
    k: nat,
) -> NewtonSums
    decreases k,
{
    if k == 0 {
        NewtonSums { h11: 0, h12: 0, h22: 0, g1: WIDE_ZERO, g2: WIDE_ZERO }
    } else {
        let before = newton_sums(fpu, reference, target, width, height, dx, dy, (k - 1) as nat);
        let g = refinement_grid(width, height);
        let (x, y) = (g.column(k - 1), g.row(k - 1));
        let tx = fpu.add(fpu.from_u64(x as u64), dx);
        let ty = fpu.add(fpu.from_u64(y as u64), dy);
        if lies_inside(fpu, width, height, tx, ty) {
            let error = difference(fpu, reference, target, width, height, dx, dy, x, y);
            let gx = gradient_x(reference, x, y, width as int, height as int);
            let gy = gradient_y(reference, x, y, width as int, height as int);
            NewtonSums {
                h11: before.h11 + gx * gx,
                h12: before.h12 + gx * gy,
                h22: before.h22 + gy * gy,
                g1: fpu.wide_add(before.g1, fpu.widen(fpu.mul(fpu.from_i32(gx as i32), error))),
                g2: fpu.wide_add(before.g2, fpu.widen(fpu.mul(fpu.from_i32(gy as i32), error))),
            }
        } else {
            before
        }
    }
}

/// An integer in double precision.
pub open spec fn wide_integer<F: Fn(FloatOp) -> u64>(fpu: &FloatUnit<F>, v: int) -> u64 {
    if v < 0 {
        wide_neg(fpu.wide_from_u64((-v) as u64))
    } else {
        fpu.wide_from_u64(v as u64)
    }
}

/// An integer in double precision.
fn widen_integer<F: Fn(FloatOp) -> u64>(fpu: &FloatUnit<F>, v: i64) -> (r: u64)
    requires
        v > i64::MIN,
    ensures
        r == wide_integer(fpu, v as int),
{
    if v < 0 {
        wide_neg(fpu.wide_from_u64((-v) as u64))
    } else {
        fpu.wide_from_u64(v as u64)
    }
}

/// One Gauss-Newton step: the change of the shift, or none where the equations are degenerate.
pub open spec fn newton_step<F: Fn(FloatOp) -> u64>(fpu: &FloatUnit<F>, sums: NewtonSums) -> Option<
    (u64, u64),
> {
    let h11 = fpu.wide_from_u64(sums.h11 as u64);
    let h12 = wide_integer(fpu, sums.h12);
    let h22 = fpu.wide_from_u64(sums.h22 as u64);
    let det = fpu.wide_sub(fpu.wide_mul(h11, h22), fpu.wide_mul(h12, h12));
    if wide_lt(wide_abs(det), WIDE_1E_10) {
        None
    } else {
        Some(
            (
                fpu.wide_div(
                    fpu.wide_add(
                        fpu.wide_mul(wide_neg(h22), sums.g1),
                        fpu.wide_mul(h12, sums.g2),
                    ),
                    det,
                ),
                fpu.wide_div(
                    fpu.wide_sub(fpu.wide_mul(h12, sums.g1), fpu.wide_mul(h11, sums.g2)),
                    det,
                ),
            ),
        )
    }
}

/// The displacement that up to `n` more iterations make of (`dx`, `dy`).
pub open spec fn iterated<F: Fn(FloatOp) -> u64>(
    fpu: &FloatUnit<F>,
    reference: &GrayFrame,
    target: &GrayFrame,
    width: u32,
    height: u32,
    dx: u32,
    dy: u32,
    n: nat,
) -> (u32, u32)
    decreases n,
{
    if n == 0 {
        (dx, dy)
    } else {
        let area = refinement_grid(width, height).area() as nat;
        match newton_step(
            fpu,
            newton_sums(fpu, reference, target, width, height, dx, dy, area),
        ) {
            None => (dx, dy),
            Some((ddx, ddy)) => {
                let next_x = fpu.add(dx, fpu.narrow(ddx));
                let next_y = fpu.add(dy, fpu.narrow(ddy));
                if wide_lt(wide_abs(ddx), CONVERGENCE) && wide_lt(wide_abs(ddy), CONVERGENCE) {
                    (next_x, next_y)
                } else {
                    iterated(
                        fpu,
                        reference,
                        target,
                        width,
                        height,
                        next_x,
                        next_y,
                        (n - 1) as nat,
                    )
                }
            },
        }
    }
}

/// What the refinement adds to a displacement.
pub open spec fn refinement<F: Fn(FloatOp) -> u64>(
    fpu: &FloatUnit<F>,
    reference: &GrayFrame,
    target: &GrayFrame,
    width: u32,
    height: u32,
    dx: u32,
    dy: u32,
) -> (u32, u32) {
    let (x, y) = iterated(
        fpu,
        reference,
        target,
        width,
        height,
        dx,
        dy,
        MAX_ITERATIONS as nat,
    );
    (fpu.sub(x, dx), fpu.sub(y, dy))
}

/// Whether an image is large enough to have inner pixels counted.
pub open spec fn refinable(width: u32, height: u32) -> bool {
    &&& height >= 2
    &&& height >= 3 ==> width >= 1
    &&& height >= 5 ==> width >= 2
}

/// Whether a gradient belongs to an image of the given size.
pub open spec fn covers(grad: &Gradient, width: u32, height: u32) -> bool {
    grad.wf() && grad.width == width && grad.height == height
}

/// The Gauss-Newton sums of one iteration.
fn collect_sums<F: Fn(FloatOp) -> u64>(
    fpu: &FloatUnit<F>,
    ref_img: &GrayFrame,
    target_img: &GrayFrame,
    grad_x: &Gradient,
    grad_y: &Gradient,
    width: u32,
    height: u32,
    dx: u32,
    dy: u32,
) -> (s: (u64, i64, u64, u64, u64))
    requires
        width * height <= PIXEL_LIMIT,
        spans(ref_img, width, height),
        spans(target_img, width, height),
        covers(grad_x, width, height),
        covers(grad_y, width, height),
        forall|x: int, y: int|
            0 <= x < width && 0 <= y < height ==> #[trigger] grad_x.at(x, y) == gradient_x(
                ref_img,
                x,
                y,
                width as int,
                height as int,
            ),
        forall|x: int, y: int|
            0 <= x < width && 0 <= y < height ==> #[trigger] grad_y.at(x, y) == gradient_y(
                ref_img,
                x,
                y,
                width as int,
                height as int,
            ),
    ensures
        s.1 > i64::MIN,
        (NewtonSums {
            h11: s.0 as int,
            h12: s.1 as int,
            h22: s.2 as int,
            g1: s.3,
            g2: s.4,
        }) == newton_sums(
            fpu,
            ref_img,
            target_img,
            width,
            height,
            dx,
            dy,
            refinement_grid(width, height).area() as nat,
        ),
{
    let x_end: u32 = if width > 2 {
        width - 2
    } else {
        0
    };
    let y_end: u32 = if height > 2 {
        height - 2
    } else {
        0
    };
    let g = make_grid(2, x_end, 2, y_end, 2);
    let count = g.size();
    proof {
        lemma_grid(2, x_end, 2, y_end, 2);
        assert(0 <= width * height) by (nonlinear_arith)
            requires
                0 <= width,
                0 <= height,
        ;
        if count > 0 {
            lemma_index_pixel(0, g.nx as int, g.ny as int);
            assert((x_end - 2) * (y_end - 2) <= width * height) by (nonlinear_arith)
                requires
                    0 <= x_end - 2 <= width,
                    0 <= y_end - 2 <= height,
            ;
        }
    }
    let mut h11: u64 = 0;
    let mut h12: i64 = 0;
    let mut h22: u64 = 0;
    let mut g1: u64 = WIDE_ZERO;
    let mut g2: u64 = WIDE_ZERO;
    let mut k: u64 = 0;
    while k < count
        invariant
            k <= count,
            count == g.area(),
            count <= PIXEL_LIMIT,
            g == refinement_grid(width, height),
            g.within(x_end as int, y_end as int),
            x_end <= width,
            y_end <= height,
            spans(ref_img, width, height),
            spans(target_img, width, height),
            covers(grad_x, width, height),
            covers(grad_y, width, height),
            forall|x: int, y: int|
                0 <= x < width && 0 <= y < height ==> #[trigger] grad_x.at(x, y) == gradient_x(
                    ref_img,
                    x,
                    y,
                    width as int,
                    height as int,
                ),
            forall|x: int, y: int|
                0 <= x < width && 0 <= y < height ==> #[trigger] grad_y.at(x, y) == gradient_y(
                    ref_img,
                    x,
                    y,
                    width as int,
                    height as int,
                ),
            (NewtonSums { h11: h11 as int, h12: h12 as int, h22: h22 as int, g1, g2 })
                == newton_sums(fpu, ref_img, target_img, width, height, dx, dy, k as nat),
            h11 <= 16129 * k,
            -16129 * k <= h12 <= 16129 * k,
            h22 <= 16129 * k,
        decreases count - k,
    {
        let (x, y) = g.position(k, x_end, y_end);
        let tx = fpu.add(fpu.from_u64(x as u64), dx);
        let ty = fpu.add(fpu.from_u64(y as u64), dy);
        if le(ZERO, tx) && le(ZERO, ty) && fpu.to_u32(fpu.floor(tx)) < width && fpu.to_u32(
            fpu.floor(ty),
        ) < height {
            let target_val = sample_bilinear(fpu, target_img, width, height, tx, ty);
            let ref_val = fpu.from_u64(ref_img.get(x, y) as u64);
            let error = fpu.sub(target_val, ref_val);
            let gx: i32 = grad_x.get(x, y) as i32;
            let gy: i32 = grad_y.get(x, y) as i32;
            assert(0 <= gx * gx <= 16129 && -16129 <= gx * gy <= 16129 && 0 <= gy * gy <= 16129)
                by (nonlinear_arith)
                requires
                    -127 <= gx <= 127,
                    -127 <= gy <= 127,
            ;
            h11 = h11 + (gx * gx) as u64;
            h12 = h12 + (gx * gy) as i64;
            h22 = h22 + (gy * gy) as u64;
            g1 = fpu.wide_add(g1, fpu.widen(fpu.mul(fpu.from_i32(gx), error)));
            g2 = fpu.wide_add(g2, fpu.widen(fpu.mul(fpu.from_i32(gy), error)));
        }
        k = k + 1;
    }
    (h11, h12, h22, g1, g2)
}

/// Sub-pixel refinement of a displacement by the Lucas-Kanade method: Gauss-Newton iterations on the
/// sum of squared differences between the reference and the target, which is sampled displaced by
/// (`dx`, `dy`). Positions that are displaced out of the target are left out. Returns what is to be
/// added to the displacement.
pub fn lucas_kanade_subpixel<F: Fn(FloatOp) -> u64>(
    fpu: &FloatUnit<F>,
    ref_img: &GrayFrame,
    target_img: &GrayFrame,
    init_dx: u32,
    init_dy: u32,
    width: u32,
    height: u32,
) -> (r: (u32, u32))
    requires
        refinable(width, height),
        width * height <= PIXEL_LIMIT,
        spans(ref_img, width, height),
        spans(target_img, width, height),
    ensures
        r == refinement(fpu, ref_img, target_img, width, height, init_dx, init_dy),
{
    let (grad_x, grad_y) = compute_gradients(ref_img, width, height);
    let mut dx: u32 = init_dx;
    let mut dy: u32 = init_dy;
    let mut done: bool = false;
    let mut i: u32 = 0;
    while i < MAX_ITERATIONS && !done
        invariant
            i <= MAX_ITERATIONS,
            width * height <= PIXEL_LIMIT,
            spans(ref_img, width, height),
            spans(target_img, width, height),
            covers(&grad_x, width, height),
            covers(&grad_y, width, height),
            forall|x: int, y: int|
                0 <= x < width && 0 <= y < height ==> #[trigger] grad_x.at(x, y) == gradient_x(
                    ref_img,
                    x,
                    y,
                    width as int,
                    height as int,
                ),
            forall|x: int, y: int|
                0 <= x < width && 0 <= y < height ==> #[trigger] grad_y.at(x, y) == gradient_y(
                    ref_img,
                    x,
                    y,
                    width as int,
                    height as int,
                ),
            iterated(
                fpu,
                ref_img,
                target_img,
                width,
                height,
                init_dx,
                init_dy,
                MAX_ITERATIONS as nat,
            ) == if done {
                (dx, dy)
            } else {
                iterated(
                    fpu,
                    ref_img,
                    target_img,
                    width,
                    height,
                    dx,
                    dy,
                    (MAX_ITERATIONS - i) as nat,
                )
            },
        decreases MAX_ITERATIONS - i,
    {
        let (s11, s12, s22, g1, g2) = collect_sums(
            fpu,
            ref_img,
            target_img,
            &grad_x,
            &grad_y,
            width,
            height,
            dx,
            dy,
        );
        let h11 = fpu.wide_from_u64(s11);
        let h12 = widen_integer(fpu, s12);
        let h22 = fpu.wide_from_u64(s22);
        let det = fpu.wide_sub(fpu.wide_mul(h11, h22), fpu.wide_mul(h12, h12));
        if wide_lt(wide_abs(det), WIDE_1E_10) {
            done = true;
        } else {
            let ddx = fpu.wide_div(
                fpu.wide_add(fpu.wide_mul(wide_neg(h22), g1), fpu.wide_mul(h12, g2)),
                det,
            );
            let ddy = fpu.wide_div(
                fpu.wide_sub(fpu.wide_mul(h12, g1), fpu.wide_mul(h11, g2)),
                det,
            );
            dx = fpu.add(dx, fpu.narrow(ddx));
            dy = fpu.add(dy, fpu.narrow(ddy));
            if wide_lt(wide_abs(ddx), CONVERGENCE) && wide_lt(wide_abs(ddy), CONVERGENCE) {
                done = true;
            }
        }
        i = i + 1;
    }
    (fpu.sub(dx, init_dx), fpu.sub(dy, init_dy))
}

/// The shift of one frame to the reference: the displacement by whole pixels that fits best, refined.
/// The search moves the frame onto the reference, so what it finds is the opposite of the
/// displacement.
pub open spec fn shift_of<F: Fn(FloatOp) -> u64>(
    fpu: &FloatUnit<F>,
    reference: &GrayFrame,
    frame: &GrayFrame,
) -> AlignmentShift {
    let (width, height) = (reference.width, reference.height);
    let coarse = coarse_shift(fpu, reference, frame, width, height);
    let dx = fpu.from_i32((-coarse.0) as i32);
    let dy = fpu.from_i32((-coarse.1) as i32);
    let (sub_dx, sub_dy) = refinement(fpu, reference, frame, width, height, dx, dy);
    AlignmentShift { dx: fpu.add(dx, sub_dx), dy: fpu.add(dy, sub_dy), quality: coarse.2 }
}

/// The shift of the reference to itself.
pub open spec fn no_shift() -> AlignmentShift {
    AlignmentShift { dx: ZERO, dy: ZERO, quality: ONE }
}

/// The shift of frame `i` to the reference: none at all for the reference itself.
pub open spec fn frame_shift<F: Fn(FloatOp) -> u64>(
    fpu: &FloatUnit<F>,
    frames: Seq<GrayFrame>,
    reference_index: int,
    i: int,
) -> AlignmentShift {
    if i == reference_index {
        no_shift()
    } else {
        shift_of(fpu, &frames[reference_index], &frames[i])
    }
}

/// Whether the frames can be aligned to the frame at `reference_index`: it is there, it is not too
/// small to be refined, and all frames are complete and no smaller.
pub open spec fn alignable(frames: Seq<GrayFrame>, reference_index: int) -> bool {
    &&& frames.len() > 0 ==> reference_index < frames.len()
    &&& frames.len() >= 2 ==> {
        let reference = frames[reference_index];
        &&& refinable(reference.width, reference.height)
        &&& reference.width * reference.height <= PIXEL_LIMIT
        &&& forall|f: int|
            0 <= f < frames.len() ==> spans(&#[trigger] frames[f], reference.width, reference.height)
    }
}

/// Whether the frames can be aligned by [`align_frames`].
pub fn can_align(frames: &Vec<GrayFrame>, reference_index: usize) -> (r: bool)
    ensures
        r == alignable(frames@, reference_index as int),
{
    if frames.len() == 0 {
        return true;
    }
    if reference_index >= frames.len() {
        return false;
    }
    if frames.len() == 1 {
        return true;
    }
    let width = frames[reference_index].width;
    let height = frames[reference_index].height;
    proof {
        lemma_pixel_product(width, height);
    }
    if height < 2 || (height >= 3 && width < 1) || (height >= 5 && width < 2) || width as u64
        * height as u64 > PIXEL_LIMIT {
        return false;
    }
    let mut f: usize = 0;
    while f < frames.len()
        invariant
            f <= frames@.len(),
            frames@.len() >= 2,
            reference_index < frames@.len(),
            width == frames@[reference_index as int].width,
            height == frames@[reference_index as int].height,
            forall|k: int| 0 <= k < f ==> spans(&#[trigger] frames@[k], width, height),
        decreases frames@.len() - f,
    {
        let frame = &frames[f];
        if !frame.is_complete() || frame.width < width || frame.height < height {
            assert(!spans(&frames@[f as int], width, height));
            return false;
        }
        f = f + 1;
    }
    true
}

/// Whether `r` is the alignment of the frames: one shift per frame. It fails on no frames, and on
/// nothing else.
pub open spec fn is_alignment<F: Fn(FloatOp) -> u64>(
    fpu: &FloatUnit<F>,
    frames: Seq<GrayFrame>,
    reference_index: int,
    r: Result<Vec<AlignmentShift>, AlignError>,
) -> bool {
    &&& r == Err::<Vec<AlignmentShift>, AlignError>(AlignError::NoFrames) <==> frames.len() == 0
    &&& r is Ok <==> frames.len() > 0
    &&& r matches Ok(shifts) ==> {
        &&& shifts@.len() == frames.len()
        &&& forall|i: int|
            0 <= i < frames.len() ==> #[trigger] shifts@[i] == frame_shift(
                fpu,
                frames,
                reference_index,
                i,
            )
    }
}

/// Align frames, given by their brightness, to the frame at `reference_index`.
///
/// Returns one shift per frame, in their order.
pub fn align_frames<F: Fn(FloatOp) -> u64>(
    fpu: &FloatUnit<F>,
    frames: &Vec<GrayFrame>,
    reference_index: usize,
) -> (r: Result<Vec<AlignmentShift>, AlignError>)
    requires
        alignable(frames@, reference_index as int),
    ensures
        is_alignment(fpu, frames@, reference_index as int, r),
{
    if frames.len() == 0 {
        return Err(AlignError::NoFrames);
    }
    let ref_gray = &frames[reference_index];
    let width = ref_gray.width;
    let height = ref_gray.height;
    let mut shifts: Vec<AlignmentShift> = Vec::with_capacity(frames.len());
    let mut i: usize = 0;
    while i < frames.len()
        invariant
            i <= frames@.len(),
            reference_index < frames@.len(),
            *ref_gray == frames@[reference_index as int],
            width == ref_gray.width,
            height == ref_gray.height,
            frames@.len() >= 2 ==> {
                &&& refinable(width, height)
                &&& width * height <= PIXEL_LIMIT
                &&& forall|f: int|
                    0 <= f < frames@.len() ==> spans(&#[trigger] frames@[f], width, height)
            },
            shifts@.len() == i,
            forall|k: int|
                0 <= k < i ==> #[trigger] shifts@[k] == frame_shift(
                    fpu,
                    frames@,
                    reference_index as int,
                    k,
                ),
        decreases frames@.len() - i,
    {
        if i == reference_index {
            shifts.push(AlignmentShift { dx: ZERO, dy: ZERO, quality: ONE });
        } else {
            let frame_gray = &frames[i];
            let (int_dx, int_dy, quality) = phase_correlation(
                fpu,
                ref_gray,
                frame_gray,
                width,
                height,
            );
            let dx = fpu.from_i32(-int_dx);
            let dy = fpu.from_i32(-int_dy);
            let (sub_dx, sub_dy) = lucas_kanade_subpixel(
                fpu,
                ref_gray,
                frame_gray,
                dx,
                dy,
                width,
                height,
            );
            shifts.push(
                AlignmentShift { dx: fpu.add(dx, sub_dx), dy: fpu.add(dy, sub_dy), quality },
            );
        }
        i = i + 1;
    }
    Ok(shifts)
}

/// The sample of channel `c` of a warped frame.
pub open spec fn warped_at<F: Fn(FloatOp) -> u64>(
    fpu: &FloatUnit<F>,
    frame: &RgbaFrame,
    dx: u32,
    dy: u32,
    x: int,
    y: int,
    c: int,
) -> u32 {
    sample_at(
        fpu,
        frame,
        fpu.sub(fpu.from_u64(x as u64), dx),
        fpu.sub(fpu.from_u64(y as u64), dy),
        frame.width as int,
        frame.height as int,
        c,
    )
}

/// Whether `warped` is a frame moved by a fractional shift.
pub open spec fn is_warped<F: Fn(FloatOp) -> u64>(
    fpu: &FloatUnit<F>,
    frame: &RgbaFrame,
    dx: u32,
    dy: u32,
    warped: &RgbaFrame,
) -> bool {
    &&& warped.wf()
    &&& warped.width == frame.width
    &&& warped.height == frame.height
    &&& forall|x: int, y: int, c: int|
        0 <= x < frame.width && 0 <= y < frame.height && 0 <= c < 4 ==> #[trigger] warped.at(x, y, c)
            == warped_at(fpu, frame, dx, dy, x, y, c)
}

/// The bilinear sample of channel `c` at (`x`, `y`); positions beyond the borders are held to them.
fn sample_rgba_bilinear<F: Fn(FloatOp) -> u64>(
    fpu: &FloatUnit<F>,
    img: &RgbaFrame,
    x: u32,
    y: u32,
    c: u32,
) -> (r: u32)
    requires
        img.wf(),
        img.width > 0,
        img.height > 0,
        c < 4,
    ensures
        r == sample_at(fpu, img, x, y, img.width as int, img.height as int, c as int),
{
    let x0 = fpu.to_i32(fpu.floor(x));
    let y0 = fpu.to_i32(fpu.floor(y));
    let fx = fpu.sub(x, fpu.from_i32(x0));
    let fy = fpu.sub(y, fpu.from_i32(y0));
    let xa = hold(x0 as i64, img.width);
    let xb = hold(x0 as i64 + 1, img.width);
    let ya = hold(y0 as i64, img.height);
    let yb = hold(y0 as i64 + 1, img.height);
    bilinear_interp(
        fpu,
        img.get(xa, ya, c),
        img.get(xb, ya, c),
        img.get(xa, yb, c),
        img.get(xb, yb, c),
        fx,
        fy,
    )
}

/// Warp a frame by a fractional shift to align it with the reference, with bilinear interpolation.
pub fn warp_frame<F: Fn(FloatOp) -> u64>(
    fpu: &FloatUnit<F>,
    frame: &RgbaFrame,
    dx: u32,
    dy: u32,
) -> (warped: RgbaFrame)
    requires
        frame.wf(),
    ensures
        is_warped(fpu, frame, dx, dy, &warped),
{
    let width = frame.width;
    let height = frame.height;
    proof {
        assert(frame.samples.len() == frame.samples@.len());
        assert(0 <= width * height) by (nonlinear_arith)
            requires
                0 <= width,
                0 <= height,
        ;
    }
    let count: usize = width as usize * height as usize;
    let mut samples: Vec<u32> = Vec::with_capacity(count * 4);
    let mut i: usize = 0;
    while i < count
        invariant
            i <= count,
            count == width * height,
            frame.wf(),
            width == frame.width,
            height == frame.height,
            samples@.len() == i * 4,
            forall|k: int, c: int|
                0 <= k < i && 0 <= c < 4 ==> #[trigger] samples@[k * 4 + c] == warped_at(
                    fpu,
                    frame,
                    dx,
                    dy,
                    k % (width as int),
                    k / (width as int),
                    c,
                ),
        decreases count - i,
    {
        proof {
            lemma_index_pixel(i as int, width as int, height as int);
        }
        let sx = fpu.sub(fpu.from_u64((i % width as usize) as u64), dx);
        let sy = fpu.sub(fpu.from_u64((i / width as usize) as u64), dy);
        let ghost before = samples@;
        samples.push(sample_rgba_bilinear(fpu, frame, sx, sy, 0));
        samples.push(sample_rgba_bilinear(fpu, frame, sx, sy, 1));
        samples.push(sample_rgba_bilinear(fpu, frame, sx, sy, 2));
        samples.push(sample_rgba_bilinear(fpu, frame, sx, sy, 3));
        assert forall|k: int, c: int| 0 <= k < i + 1 && 0 <= c < 4 implies #[trigger] samples@[k * 4
            + c] == warped_at(fpu, frame, dx, dy, k % (width as int), k / (width as int), c) by {
            if k < i {
                assert(samples@[k * 4 + c] == before[k * 4 + c]);
            }
        }
        i = i + 1;
    }
    let warped = RgbaFrame { width, height, samples };
    assert forall|x: int, y: int, c: int|
        0 <= x < frame.width && 0 <= y < frame.height && 0 <= c < 4 implies #[trigger] warped.at(
        x,
        y,
        c,
    ) == warped_at(fpu, frame, dx, dy, x, y, c) by {
        lemma_pixel_index(x, y, width as int, height as int);
    }
    warped
}

/// Where the region compared for the alignment error starts.
pub open spec fn error_start<F: Fn(FloatOp) -> u64>(fpu: &FloatUnit<F>, d: u32) -> u32 {
    let first = fpu.to_i32(fpu.ceil(d));
    if first > 0 {
        first as u32
    } else {
        0
    }
}

/// Where the region compared for the alignment error ends.
pub open spec fn error_end<F: Fn(FloatOp) -> u64>(fpu: &FloatUnit<F>, len: u32, d: u32) -> u32 {
    overlap_end(len, fpu.to_i32(fpu.floor(d)) as int)
}

/// The positions compared for the alignment error.
pub open spec fn error_grid<F: Fn(FloatOp) -> u64>(
    fpu: &FloatUnit<F>,
    width: u32,
    height: u32,
    dx: u32,
    dy: u32,
) -> Grid {
    grid_between(
        error_start(fpu, dx),
        error_end(fpu, width, dx),
        error_start(fpu, dy),
        error_end(fpu, height, dy),
        4,
    )
}

/// The squared difference of one channel of two frames.
pub open spec fn squared_difference<F: Fn(FloatOp) -> u64>(
    fpu: &FloatUnit<F>,
    a: &RgbaFrame,
    b: &RgbaFrame,
    x: int,
    y: int,
    c: int,
) -> u64 {
    let d = fpu.wide_sub(fpu.widen(a.at(x, y, c)), fpu.widen(b.at(x, y, c)));
    fpu.wide_mul(d, d)
}

/// The sum of the squared differences at the first `k` positions of the grid.
pub open spec fn squared_error<F: Fn(FloatOp) -> u64>(
    fpu: &FloatUnit<F>,
    a: &RgbaFrame,
    b: &RgbaFrame,
    g: Grid,
    k: nat,
) -> u64
    decreases k,
{
    if k == 0 {
        WIDE_ZERO
    } else {
        let (x, y) = (g.column(k - 1), g.row(k - 1));
        fpu.wide_add(
            squared_error(fpu, a, b, g, (k - 1) as nat),
            fpu.wide_add(
                fpu.wide_add(
                    squared_difference(fpu, a, b, x, y, 0),
                    squared_difference(fpu, a, b, x, y, 1),
                ),
                squared_difference(fpu, a, b, x, y, 2),
            ),
        )
    }
}

/// The root of the mean squared difference over a grid, zero where it is empty.
pub open spec fn error_over<F: Fn(FloatOp) -> u64>(
    fpu: &FloatUnit<F>,
    a: &RgbaFrame,
    b: &RgbaFrame,
    g: Grid,
) -> u32 {
    if g.area() == 0 {
        ZERO
    } else {
        fpu.narrow(
            fpu.wide_sqrt(
                fpu.wide_div(
                    squared_error(fpu, a, b, g, g.area() as nat),
                    fpu.wide_from_u64((3 * g.area()) as u64),
                ),
            ),
        )
    }
}

/// One squared difference.
fn square_of_difference<F: Fn(FloatOp) -> u64>(
    fpu: &FloatUnit<F>,
    a: &RgbaFrame,
    b: &RgbaFrame,
    x: u32,
    y: u32,
    c: u32,
) -> (r: u64)
    requires
        a.wf(),
        b.wf(),
        x < a.width,
        x < b.width,
        y < a.height,
        y < b.height,
        c < 4,
    ensures
        r == squared_difference(fpu, a, b, x as int, y as int, c as int),
{
    let d = fpu.wide_sub(fpu.widen(a.get(x, y, c)), fpu.widen(b.get(x, y, c)));
    fpu.wide_mul(d, d)
}

/// The quality of an alignment: the root of the mean squared difference of the colors where the
/// frames overlap, sampled at every fourth pixel.
pub fn alignment_error<F: Fn(FloatOp) -> u64>(
    fpu: &FloatUnit<F>,
    ref_frame: &RgbaFrame,
    aligned_frame: &RgbaFrame,
    dx: u32,
    dy: u32,
) -> (r: u32)
    requires
        ref_frame.wf(),
        aligned_frame.wf(),
        error_grid(fpu, ref_frame.width, ref_frame.height, dx, dy).within(
            aligned_frame.width as int,
            aligned_frame.height as int,
        ),
    ensures
        r == error_over(
            fpu,
            ref_frame,
            aligned_frame,
            error_grid(fpu, ref_frame.width, ref_frame.height, dx, dy),
        ),
{
    let width = ref_frame.width;
    let height = ref_frame.height;
    let first_x = fpu.to_i32(fpu.ceil(dx));
    let first_y = fpu.to_i32(fpu.ceil(dy));
    let start_x: u32 = if first_x > 0 {
        first_x as u32
    } else {
        0
    };
    let start_y: u32 = if first_y > 0 {
        first_y as u32
    } else {
        0
    };
    let end_x = held_end(width, fpu.to_i32(fpu.floor(dx)));
    let end_y = held_end(height, fpu.to_i32(fpu.floor(dy)));
    let g = make_grid(start_x, end_x, start_y, end_y, 4);
    let count = g.size();
    proof {
        lemma_steps(start_x as int, end_x as int, 4);
        lemma_steps(start_y as int, end_y as int, 4);
        assert(g.nx * g.ny <= 0x4000_0000 * 0x4000_0000) by (nonlinear_arith)
            requires
                0 <= g.nx <= 0x4000_0000,
                0 <= g.ny <= 0x4000_0000,
        ;
    }
    let mut sum_sq_error: u64 = WIDE_ZERO;
    let mut k: u64 = 0;
    while k < count
        invariant
            k <= count,
            count == g.area(),
            g == error_grid(fpu, width, height, dx, dy),
            g.within(end_x as int, end_y as int),
            g.within(aligned_frame.width as int, aligned_frame.height as int),
            end_x <= width,
            end_y <= height,
            ref_frame.wf(),
            aligned_frame.wf(),
            width == ref_frame.width,
            height == ref_frame.height,
            sum_sq_error == squared_error(fpu, ref_frame, aligned_frame, g, k as nat),
        decreases count - k,
    {
        let (x, y) = g.position(k, end_x, end_y);
        proof {
            assert(g.column(k as int) < aligned_frame.width);
        }
        let r = square_of_difference(fpu, ref_frame, aligned_frame, x, y, 0);
        let gr = square_of_difference(fpu, ref_frame, aligned_frame, x, y, 1);
        let b = square_of_difference(fpu, ref_frame, aligned_frame, x, y, 2);
        sum_sq_error = fpu.wide_add(sum_sq_error, fpu.wide_add(fpu.wide_add(r, gr), b));
        k = k + 1;
    }
    if count == 0 {
        return ZERO;
    }
    fpu.narrow(fpu.wide_sqrt(fpu.wide_div(sum_sq_error, fpu.wide_from_u64(3 * count))))
}

/// Where the overlap of a line with itself shifted by `d` ends.
fn held_end(len: u32, d: i32) -> (r: u32)
    ensures
        r == overlap_end(len, d as int),
        r <= len,
{
    let end: i64 = len as i64 + d as i64;
    if d >= 0 {
        len
    } else if end > 0 {
        end as u32
    } else {
        0
    }
}

proof fn lemma_best_of<F: Fn(FloatOp) -> u64>(
    fpu: &FloatUnit<F>,
    reference: &GrayFrame,
    target: &GrayFrame,
    width: u32,
    height: u32,
    n: nat,
)
    ensures
        ({
            let best = best_of(fpu, reference, target, width, height, n);
            &&& !is_nan(best.0)
            &&& best.0 == NEG_INFINITY && best.1 == 544 || 0 <= best.1 < n && best.0 == search_score(
                fpu,
                reference,
                target,
                width,
                height,
                best.1,
            ) && lt(NEG_INFINITY, best.0)
            &&& forall|k: int|
                0 <= k < n ==> !lt(
                    best.0,
                    #[trigger] search_score(fpu, reference, target, width, height, k),
                )
            &&& lt(NEG_INFINITY, best.0) ==> forall|k: int|
                0 <= k < best.1 ==> !le(
                    best.0,
                    #[trigger] search_score(fpu, reference, target, width, height, k),
                )
        }),
    decreases n,
{
    if n > 0 {
        lemma_best_of(fpu, reference, target, width, height, (n - 1) as nat);
    }
}

/// The search finds the best offset, and of equally good ones the first: no offset has a higher
/// correlation than the one found, and no earlier one has as high a correlation.
pub proof fn search_finds_the_first_best<F: Fn(FloatOp) -> u64>(
    fpu: &FloatUnit<F>,
    reference: &GrayFrame,
    target: &GrayFrame,
    width: u32,
    height: u32,
    k: int,
)
    requires
        0 <= k < SEARCH_AREA,
    ensures
        ({
            let (dx, dy, quality) = coarse_shift(fpu, reference, target, width, height);
            let found = (dy + 16) * 33 + (dx + 16);
            let best = best_of(fpu, reference, target, width, height, SEARCH_AREA as nat).0;
            let score = search_score(fpu, reference, target, width, height, k);
            &&& 0 <= found < SEARCH_AREA
            &&& quality == clamp(fpu.add(fpu.mul(best, HALF), HALF), ZERO, ONE)
            &&& !lt(best, score)
            &&& lt(NEG_INFINITY, score) ==> best == search_score(
                fpu,
                reference,
                target,
                width,
                height,
                found,
            )
            &&& lt(NEG_INFINITY, score) && k < found ==> lt(score, best)
        }),
{
    lemma_best_of(fpu, reference, target, width, height, SEARCH_AREA as nat);
}

/// The quality of a coarse alignment lies between 0 and 1 wherever it is a number.
pub proof fn quality_is_a_fraction<F: Fn(FloatOp) -> u64>(
    fpu: &FloatUnit<F>,
    reference: &GrayFrame,
    target: &GrayFrame,
    width: u32,
    height: u32,
)
    ensures
        ({
            let quality = coarse_shift(fpu, reference, target, width, height).2;
            is_nan(quality) || le(ZERO, quality) && le(quality, ONE)
        }),
{
}

proof fn lemma_square_grows(ab: int, aa: int, bb: int, a: int, b: int)
    requires
        0 <= ab,
        0 <= aa,
        0 <= bb,
        0 <= a,
        0 <= b,
        ab * ab <= aa * bb,
    ensures
        (ab + a * b) * (ab + a * b) <= (aa + a * a) * (bb + b * b),
{
    let p = aa * (b * b);
    let q = bb * (a * a);
    let m = ab * (a * b);
    assert(0 <= p && 0 <= q && 0 <= m) by (nonlinear_arith)
        requires
            0 <= aa,
            0 <= bb,
            0 <= ab,
            0 <= a,
            0 <= b,
            p == aa * (b * b),
            q == bb * (a * a),
            m == ab * (a * b),
    ;
    assert(m * m <= p * q) by {
        let s = (a * b) * (a * b);
        assert(m * m == (ab * ab) * s) by (nonlinear_arith)
            requires
                m == ab * (a * b),
                s == (a * b) * (a * b),
        ;
        assert(p * q == (aa * bb) * s) by (nonlinear_arith)
            requires
                p == aa * (b * b),
                q == bb * (a * a),
                s == (a * b) * (a * b),
        ;
        assert((ab * ab) * s <= (aa * bb) * s) by (nonlinear_arith)
            requires
                ab * ab <= aa * bb,
                0 <= s,
        {
        }
    }
    assert(2 * m <= p + q) by {
        assert((2 * m) * (2 * m) <= (p + q) * (p + q)) by (nonlinear_arith)
            requires
                m * m <= p * q,
        ;
        assert(2 * m <= p + q) by (nonlinear_arith)
            requires
                (2 * m) * (2 * m) <= (p + q) * (p + q),
                0 <= 2 * m,
                0 <= p + q,
        ;
    }
    assert((ab + a * b) * (ab + a * b) == ab * ab + 2 * m + (a * b) * (a * b)) by (nonlinear_arith)
        requires
            m == ab * (a * b),
    ;
    assert((aa + a * a) * (bb + b * b) == aa * bb + p + q + (a * b) * (a * b)) by (nonlinear_arith)
        requires
            p == aa * (b * b),
            q == bb * (a * a),
    ;
}

/// A correlation is normalized: the square of the products' sum is not above the product of the
/// sums of squares.
pub proof fn correlation_is_normalized(
    reference: &GrayFrame,
    target: &GrayFrame,
    g: Grid,
    dx: int,
    dy: int,
    k: nat,
)
    ensures
        ({
            let sums = product_sums(reference, target, g, dx, dy, k);
            &&& 0 <= sums.ab
            &&& 0 <= sums.aa
            &&& 0 <= sums.bb
            &&& sums.ab * sums.ab <= sums.aa * sums.bb
        }),
    decreases k,
{
    if k > 0 {
        correlation_is_normalized(reference, target, g, dx, dy, (k - 1) as nat);
        let before = product_sums(reference, target, g, dx, dy, (k - 1) as nat);
        let a = reference.at(g.column(k - 1), g.row(k - 1)) as int;
        let b = target.at(g.column(k - 1) - dx, g.row(k - 1) - dy) as int;
        lemma_square_grows(before.ab, before.aa, before.bb, a, b);
        assert(0 <= a * b && 0 <= a * a && 0 <= b * b) by (nonlinear_arith)
            requires
                0 <= a,
                0 <= b,
        ;
    }
}

/// An image correlates with itself fully where nothing is displaced: all three sums are the same.
pub proof fn image_correlates_with_itself(img: &GrayFrame, g: Grid, k: nat)
    ensures
        product_sums(img, img, g, 0, 0, k).ab == product_sums(img, img, g, 0, 0, k).aa,
        product_sums(img, img, g, 0, 0, k).ab == product_sums(img, img, g, 0, 0, k).bb,
    decreases k,
{
    if k > 0 {
        image_correlates_with_itself(img, g, (k - 1) as nat);
    }
}

/// Warping by nothing changes nothing: each sample stays as it is, on a unit that is exact on the
/// coordinates of the frame and on its samples times one and zero.
pub proof fn unshifted_frame_stays<F: Fn(FloatOp) -> u64>(
    fpu: &FloatUnit<F>,
    frame: &RgbaFrame,
    x: int,
    y: int,
    c: int,
)
    requires
        0 <= x < frame.width <= i32::MAX,
        0 <= y < frame.height <= i32::MAX,
        0 <= c < 4,
        frame.wf(),
        forall|v: i32|
            #![trigger fpu.from_i32(v)]
            0 <= v && (v < frame.width || v < frame.height) ==> {
                let coordinate = fpu.from_u64(v as u64);
                &&& fpu.from_i32(v) == coordinate
                &&& fpu.sub(coordinate, ZERO) == coordinate
                &&& fpu.to_i32(fpu.floor(coordinate)) == v
                &&& fpu.sub(coordinate, coordinate) == ZERO
            },
        fpu.sub(ONE, ZERO) == ONE,
        forall|i: int, j: int|
            0 <= i < frame.samples@.len() && 0 <= j < frame.samples@.len() ==> fpu.add(
                fpu.mul(#[trigger] frame.samples@[i], ONE),
                fpu.mul(#[trigger] frame.samples@[j], ZERO),
            ) == frame.samples@[i],
    ensures
        warped_at(fpu, frame, ZERO, ZERO, x, y, c) == frame.at(x, y, c),
{
    let (vx, vy) = (x as i32, y as i32);
    assert(fpu.from_i32(vx) == fpu.from_u64(vx as u64));
    assert(fpu.from_i32(vy) == fpu.from_u64(vy as u64));
    let (w, h) = (frame.width as int, frame.height as int);
    let (xb, yb) = (held(x + 1, w), held(y + 1, h));
    lemma_pixel_index(x, y, w, h);
    lemma_pixel_index(xb, y, w, h);
    lemma_pixel_index(x, yb, w, h);
    lemma_pixel_index(xb, yb, w, h);
}

proof fn lemma_no_error<F: Fn(FloatOp) -> u64>(
    fpu: &FloatUnit<F>,
    frame: &RgbaFrame,
    g: Grid,
    k: nat,
)
    requires
        cancels_wide(fpu, frame),
        frame.wf(),
        g.within(frame.width as int, frame.height as int),
        k <= g.area(),
    ensures
        squared_error(fpu, frame, frame, g, k) == WIDE_ZERO,
    decreases k,
{
    if k > 0 {
        lemma_no_error(fpu, frame, g, (k - 1) as nat);
        let (x, y) = (g.column(k - 1), g.row(k - 1));
        let i = pixel_index(x, y, frame.width as int) * 4;
        assert(0 <= g.column(k - 1) < frame.width);
        lemma_pixel_index(x, y, frame.width as int, frame.height as int);
        assert(frame.samples@[i] == frame.at(x, y, 0));
        assert(frame.samples@[i + 1] == frame.at(x, y, 1));
        assert(frame.samples@[i + 2] == frame.at(x, y, 2));
    }
}

/// Whether each sample of the frame minus itself is zero, and sums and products of zeros are zero.
pub open spec fn cancels_wide<F: Fn(FloatOp) -> u64>(fpu: &FloatUnit<F>, frame: &RgbaFrame) -> bool {
    &&& forall|i: int|
        0 <= i < frame.samples@.len() ==> fpu.wide_sub(
            fpu.widen(#[trigger] frame.samples@[i]),
            fpu.widen(frame.samples@[i]),
        ) == WIDE_ZERO
    &&& fpu.wide_mul(WIDE_ZERO, WIDE_ZERO) == WIDE_ZERO
    &&& fpu.wide_add(WIDE_ZERO, WIDE_ZERO) == WIDE_ZERO
    &&& forall|n: u64|
        n > 0 ==> fpu.wide_div(WIDE_ZERO, #[trigger] fpu.wide_from_u64(n)) == WIDE_ZERO
    &&& fpu.wide_sqrt(WIDE_ZERO) == WIDE_ZERO
    &&& fpu.narrow(WIDE_ZERO) == ZERO
}

/// A frame that is aligned with itself has no alignment error.
pub proof fn equal_frames_have_no_error<F: Fn(FloatOp) -> u64>(
    fpu: &FloatUnit<F>,
    frame: &RgbaFrame,
    g: Grid,
)
    requires
        cancels_wide(fpu, frame),
        frame.wf(),
        g.within(frame.width as int, frame.height as int),
        0 <= g.area() <= 0x4000_0000 * 0x4000_0000,
    ensures
        error_over(fpu, frame, frame, g) == ZERO,
{
    lemma_no_error(fpu, frame, g, g.area() as nat);
}

/// Warping by whole pixels moves each sample that many columns to the right and rows down; what
/// comes from beyond a border is held to it.
pub proof fn whole_shifts_move_samples<F: Fn(FloatOp) -> u64>(
    fpu: &FloatUnit<F>,
    frame: &RgbaFrame,
    dx: u32,
    dy: u32,
    warped: &RgbaFrame,
    right: int,
    down: int,
    x: int,
    y: int,
    c: int,
    col: int,
    row: int,
    n: int,
    k: nat,
)
    requires
        is_exact(fpu),
        is_warped(fpu, frame, dx, dy, warped),
        stands_for(dx, right, 0),
        stands_for(dy, down, 0),
        0 <= x < frame.width,
        0 <= y < frame.height,
        0 <= c < 4,
        fits(x),
        fits(y),
        fits(x - right),
        fits(y - down),
        is_nearest(col, x - right, frame.width as int),
        is_nearest(row, y - down, frame.height as int),
        forall|u: int, v: int|
            0 <= u < frame.width && 0 <= v < frame.height ==> is_ordinary(
                #[trigger] frame.at(u, v, c),
            ),
        stands_for(frame.at(col, row, c), n, k),
        fits(n),
    ensures
        stands_for(warped.at(x, y, c), n, k),
{
    exact_from(fpu, x);
    exact_from(fpu, y);
    exact_sub(fpu, fpu.from_u64(x as u64), dx, x, right, 0);
    exact_sub(fpu, fpu.from_u64(y as u64), dy, y, down, 0);
    samples_at_whole_pixels(
        fpu,
        frame,
        fpu.sub(fpu.from_u64(x as u64), dx),
        fpu.sub(fpu.from_u64(y as u64), dy),
        frame.width as int,
        frame.height as int,
        c,
        x - right,
        y - down,
        col,
        row,
        n,
        k,
    );
}

/// Warping by parts of a pixel: a warped sample lies between the four pixels around the place it
/// comes from, as far on the way right and down as the shift leaves it. There are `w` parts to a
/// pixel, and `px` and `py` count those to the place.
pub proof fn fractional_shifts_blend_samples<F: Fn(FloatOp) -> u64>(
    fpu: &FloatUnit<F>,
    frame: &RgbaFrame,
    dx: u32,
    dy: u32,
    warped: &RgbaFrame,
    right_parts: int,
    down_parts: int,
    s: nat,
    x: int,
    y: int,
    c: int,
    left: int,
    right: int,
    top: int,
    bottom: int,
    n00: int,
    n10: int,
    n01: int,
    n11: int,
    k: nat,
    limit: int,
)
    requires
        is_exact(fpu),
        is_warped(fpu, frame, dx, dy, warped),
        stands_for(dx, right_parts, s),
        stands_for(dy, down_parts, s),
        s <= 12,
        0 <= x < frame.width,
        0 <= y < frame.height,
        0 <= c < 4,
        ({
            let w = pow2(s) as int;
            let (px, py) = (x * w - right_parts, y * w - down_parts);
            &&& fits(x) && fits(y) && fits(px) && fits(py)
            &&& is_nearest(left, px / w, frame.width as int)
            &&& is_nearest(right, px / w + 1, frame.width as int)
            &&& is_nearest(top, py / w, frame.height as int)
            &&& is_nearest(bottom, py / w + 1, frame.height as int)
        }),
        stands_for(frame.at(left, top, c), n00, k),
        stands_for(frame.at(right, top, c), n10, k),
        stands_for(frame.at(left, bottom, c), n01, k),
        stands_for(frame.at(right, bottom, c), n11, k),
        k + 2 * s <= 149,
        -limit <= n00 <= limit,
        -limit <= n10 <= limit,
        -limit <= n01 <= limit,
        -limit <= n11 <= limit,
        limit * pow2(s) * pow2(s) <= 0x100_0000,
    ensures
        ({
            let w = pow2(s) as int;
            let i = (x * w - right_parts) % w;
            let j = (y * w - down_parts) % w;
            stands_for(
                warped.at(x, y, c),
                (n00 * (w - i) + n10 * i) * (w - j) + (n01 * (w - i) + n11 * i) * j,
                k + 2 * s,
            )
        }),
{
    let w = pow2(s) as int;
    exact_from(fpu, x);
    exact_from(fpu, y);
    lemma_finer(fpu.from_u64(x as u64), x, 0, s);
    lemma_finer(fpu.from_u64(y as u64), y, 0, s);
    exact_sub(fpu, fpu.from_u64(x as u64), dx, x * w, right_parts, s);
    exact_sub(fpu, fpu.from_u64(y as u64), dy, y * w, down_parts, s);
    samples_lie_between_pixels(
        fpu,
        frame,
        fpu.sub(fpu.from_u64(x as u64), dx),
        fpu.sub(fpu.from_u64(y as u64), dy),
        frame.width as int,
        frame.height as int,
        c,
        x * w - right_parts,
        y * w - down_parts,
        s,
        left,
        right,
        top,
        bottom,
        n00,
        n10,
        n01,
        n11,
        k,
        limit,
    );
}

/// Whether two frames differ by the same amount in each channel wherever they overlap: where column `x`
/// of row `y` lies in the first frame, and `right` columns to the left and `down` rows above of it too.
pub open spec fn differ_by(
    a: &RgbaFrame,
    b: &RgbaFrame,
    right: int,
    down: int,
    levels: spec_fn(int, int, int) -> int,
    amounts: Seq<int>,
    k: nat,
) -> bool {
    forall|x: int, y: int, c: int|
        0 <= x < a.width && 0 <= x - right < a.width && 0 <= y < a.height && 0 <= y - down < a.height
            && 0 <= c < 3 ==> {
            let n = #[trigger] levels(x, y, c);
            stands_for(a.at(x, y, c), n, k) && stands_for(b.at(x, y, c), n - amounts[c], k)
        }
}

proof fn lemma_squared_error<F: Fn(FloatOp) -> u64>(
    fpu: &FloatUnit<F>,
    a: &RgbaFrame,
    b: &RgbaFrame,
    g: Grid,
    right: int,
    down: int,
    levels: spec_fn(int, int, int) -> int,
    amounts: Seq<int>,
    k: nat,
    n: nat,
)
    requires
        is_exact(fpu),
        differ_by(a, b, right, down, levels, amounts, k),
        forall|i: int|
            0 <= i < g.area() ==> {
                let (x, y) = (#[trigger] g.column(i), g.row(i));
                0 <= x < a.width && 0 <= x - right < a.width && 0 <= y < a.height && 0 <= y - down
                    < a.height
            },
        n <= g.area(),
        k <= 149,
        -0x800 <= amounts[0] <= 0x800,
        -0x800 <= amounts[1] <= 0x800,
        -0x800 <= amounts[2] <= 0x800,
        g.area() <= 0x1000_0000,
    ensures
        wide_stands_for(
            squared_error(fpu, a, b, g, n),
            n * (amounts[0] * amounts[0] + amounts[1] * amounts[1] + amounts[2] * amounts[2]),
            2 * k,
        ),
    decreases n,
{
    lemma_constants();
    let (p, q, r) = (amounts[0], amounts[1], amounts[2]);
    let one = p * p + q * q + r * r;
    if n > 0 {
        lemma_squared_error(
            fpu,
            a,
            b,
            g,
            right,
            down,
            levels,
            amounts,
            k,
            (n - 1) as nat,
        );
        let (x, y) = (g.column(n - 1), g.row(n - 1));
        assert(0 <= p * p <= 0x40_0000 && 0 <= q * q <= 0x40_0000 && 0 <= r * r <= 0x40_0000)
            by (nonlinear_arith)
            requires
                -0x800 <= p <= 0x800,
                -0x800 <= q <= 0x800,
                -0x800 <= r <= 0x800,
        ;
        assert forall|c: int| 0 <= c < 3 implies wide_stands_for(
            #[trigger] squared_difference(fpu, a, b, x, y, c),
            amounts[c] * amounts[c],
            2 * k,
        ) by {
            let m = levels(x, y, c);
            let d = amounts[c];
            exact_widen(fpu, a.at(x, y, c), m, k);
            exact_widen(fpu, b.at(x, y, c), m - d, k);
            exact_wide_sub(fpu, fpu.widen(a.at(x, y, c)), fpu.widen(b.at(x, y, c)), m, m - d, k);
            let e = fpu.wide_sub(fpu.widen(a.at(x, y, c)), fpu.widen(b.at(x, y, c)));
            exact_wide_mul(fpu, e, e, d, d, k, k);
        }
        let (dr, dg, db) = (
            squared_difference(fpu, a, b, x, y, 0),
            squared_difference(fpu, a, b, x, y, 1),
            squared_difference(fpu, a, b, x, y, 2),
        );
        exact_wide_add(fpu, dr, dg, p * p, q * q, 2 * k);
        exact_wide_add(fpu, fpu.wide_add(dr, dg), db, p * p + q * q, r * r, 2 * k);
        assert((n - 1) * one + one == n * one && 0 <= n * one <= 0x1000_0000 * 0xc0_0000)
            by (nonlinear_arith)
            requires
                1 <= n <= 0x1000_0000,
                0 <= one <= 0xc0_0000,
        ;
        exact_wide_add(
            fpu,
            squared_error(fpu, a, b, g, (n - 1) as nat),
            fpu.wide_add(fpu.wide_add(dr, dg), db),
            (n - 1) * one,
            one,
            2 * k,
        );
    } else {
        assert(0 * one == 0);
    }
}

/// The alignment error is the root of the mean squared difference of all three channels where the
/// frames overlap at the shift, whatever they show elsewhere.
pub proof fn errors_are_mean_differences<F: Fn(FloatOp) -> u64>(
    fpu: &FloatUnit<F>,
    a: &RgbaFrame,
    b: &RgbaFrame,
    dx: u32,
    dy: u32,
    right: int,
    down: int,
    levels: spec_fn(int, int, int) -> int,
    amounts: Seq<int>,
    k: nat,
    error: int,
)
    requires
        is_exact(fpu),
        stands_for(dx, right, 0),
        stands_for(dy, down, 0),
        -a.width < right < a.width <= 0x4000,
        -a.height < down < a.height <= 0x4000,
        differ_by(a, b, right, down, levels, amounts, k),
        k <= 149,
        -0x800 <= amounts[0] <= 0x800,
        -0x800 <= amounts[1] <= 0x800,
        -0x800 <= amounts[2] <= 0x800,
        0 <= error <= 0x800,
        3 * (error * error) == amounts[0] * amounts[0] + amounts[1] * amounts[1] + amounts[2]
            * amounts[2],
    ensures
        stands_for(
            error_over(fpu, a, b, error_grid(fpu, a.width, a.height, dx, dy)),
            error,
            k,
        ),
{
    exact_whole(fpu, dx, right);
    exact_whole(fpu, dy, down);
    exact_whole(fpu, fpu.floor(dx), right);
    exact_whole(fpu, fpu.ceil(dx), right);
    exact_whole(fpu, fpu.floor(dy), down);
    exact_whole(fpu, fpu.ceil(dy), down);
    let (x0, x1) = (error_start(fpu, dx), error_end(fpu, a.width, dx));
    let (y0, y1) = (error_start(fpu, dy), error_end(fpu, a.height, dy));
    let g = error_grid(fpu, a.width, a.height, dx, dy);
    assert(x0 < x1 && y0 < y1);
    lemma_grid(x0, x1, y0, y1, 4);
    lemma_steps(x0 as int, x1 as int, 4);
    lemma_steps(y0 as int, y1 as int, 4);
    let n = g.area();
    assert(1 <= n <= 0x1000_0000) by (nonlinear_arith)
        requires
            n == g.nx * g.ny,
            1 <= g.nx <= 0x4000,
            1 <= g.ny <= 0x4000,
    ;
    assert forall|i: int| 0 <= i < g.area() implies {
        let (x, y) = (#[trigger] g.column(i), g.row(i));
        0 <= x < a.width && 0 <= x - right < a.width && 0 <= y < a.height && 0 <= y - down < a.height
    } by {}
    lemma_squared_error(fpu, a, b, g, right, down, levels, amounts, k, n as nat);
    let sum = squared_error(fpu, a, b, g, n as nat);
    let e2 = error * error;
    assert(n * (3 * e2) == e2 * (3 * n)) by (nonlinear_arith);
    assert(0 <= e2 <= 0x40_0000) by (nonlinear_arith)
        requires
            e2 == error * error,
            0 <= error <= 0x800,
    ;
    exact_wide_from(fpu, 3 * n);
    let count = fpu.wide_from_u64((3 * n) as u64);
    exact_wide_div(fpu, sum, count, e2, 3 * n, 0, 2 * k);
    exact_wide_sqrt(fpu, fpu.wide_div(sum, count), error, k);
    exact_narrow(fpu, fpu.wide_sqrt(fpu.wide_div(sum, count)), error, k);
}

} // verus!
