//! Finding what moved between aligned frames.

use crate::exact::{
    exact_sub, is_exact, is_finite, lemma_compare, lemma_constants, lemma_is_zero,
    lemma_smallest_parts,
};
use crate::float::{
    abs, clamp, is_nan, le, lt, luminance, luminance_of, max, number, FloatOp, FloatUnit, BLUE_WEIGHT,
    BYTE_MAX, GREEN_WEIGHT, MILLIONTH, ONE, RED_WEIGHT, THREE, TWO, ZERO,
};
use crate::frame::{
    lemma_index_pixel, lemma_pixel_index, lemma_pixel_product, pixel_index, GrayFrame, RgbaFrame,
};
use crate::order::{
    majority_is_median, median_f32, median_of, median_of_equal_values, ranked, ranked_is_sorted,
};
use vstd::prelude::*;

verus! {

/// How still each pixel is, from 0 (moving) to 1 (static).
///
/// The weights are soft: they blend between the merged pixel and that of a single frame where it
/// is unclear whether something moved.
pub struct MotionMask {
    /// One weight per pixel, row after row: 1 where all frames may be used, 0 where only the
    /// reference frame may.
    pub weights: Vec<u32>,
    /// Pixels per row.
    pub width: u32,
    /// Number of rows.
    pub height: u32,
}

impl MotionMask {
    /// Whether there is one weight for each pixel, and the pixels can be counted.
    pub open spec fn wf(&self) -> bool {
        &&& self.width * self.height <= u32::MAX
        &&& self.weights@.len() == self.width * self.height
    }

    /// The weight at column `x` of row `y`, zero outside of the mask.
    pub open spec fn at(&self, x: int, y: int) -> u32 {
        if 0 <= x < self.width && 0 <= y < self.height {
            self.weights@[pixel_index(x, y, self.width as int)]
        } else {
            ZERO
        }
    }

    /// A mask on which nothing moved.
    pub fn new(width: u32, height: u32) -> (mask: MotionMask)
        requires
            width * height <= u32::MAX,
        ensures
            mask.wf(),
            mask.width == width,
            mask.height == height,
            forall|i: int| 0 <= i < mask.weights@.len() ==> #[trigger] mask.weights@[i] == ONE,
    {
        let mut weights: Vec<u32> = Vec::new();
        let count: u32 = width * height;
        weights.resize(count as usize, ONE);
        MotionMask { weights, width, height }
    }

    /// The weight at column `x` of row `y`, zero outside of the mask.
    pub fn get(&self, x: u32, y: u32) -> (r: u32)
        requires
            self.wf(),
        ensures
            r == self.at(x as int, y as int),
    {
        if x < self.width && y < self.height {
            proof {
                lemma_pixel_index(x as int, y as int, self.width as int, self.height as int);
            }
            self.weights[(y * self.width + x) as usize]
        } else {
            ZERO
        }
    }

    /// The mask as a grayscale image, white where nothing moved.
    pub fn to_image<F: Fn(FloatOp) -> u64>(&self, fpu: &FloatUnit<F>) -> (img: GrayFrame)
        requires
            self.wf(),
        ensures
            is_picture(fpu, self, &img),
    {
        let count = self.weights.len();
        let mut pixels: Vec<u8> = Vec::with_capacity(count);
        let mut i: usize = 0;
        while i < count
            invariant
                i <= count,
                count == self.weights@.len(),
                pixels@.len() == i,
                forall|k: int|
                    0 <= k < i ==> #[trigger] pixels@[k] == fpu.to_u8(
                        clamp(fpu.mul(self.weights@[k], BYTE_MAX), ZERO, BYTE_MAX),
                    ),
            decreases count - i,
        {
            pixels.push(fpu.to_u8(clamp(fpu.mul(self.weights[i], BYTE_MAX), ZERO, BYTE_MAX)));
            i = i + 1;
        }
        let img = GrayFrame { width: self.width, height: self.height, pixels };
        assert forall|x: int, y: int| 0 <= x < self.width && 0 <= y < self.height implies #[trigger] img.at(
            x,
            y,
        ) == fpu.to_u8(clamp(fpu.mul(self.at(x, y), BYTE_MAX), ZERO, BYTE_MAX)) by {
            lemma_pixel_index(x, y, self.width as int, self.height as int);
        }
        img
    }

    /// Whether there is one weight for each pixel, and the pixels can be counted.
    pub fn is_complete(&self) -> (r: bool)
        ensures
            r == self.wf(),
    {
        proof {
            lemma_pixel_product(self.width, self.height);
        }
        let pixels: u64 = self.width as u64 * self.height as u64;
        pixels <= u32::MAX as u64 && self.weights.len() as u64 == pixels
    }

    /// An equal mask.
    pub fn copied(&self) -> (r: MotionMask)
        ensures
            r.width == self.width,
            r.height == self.height,
            r.weights@ == self.weights@,
    {
        MotionMask { weights: self.weights.clone(), width: self.width, height: self.height }
    }
}

/// Whether an image shows a mask: each pixel 255 times its weight, held from 0 to 255 and cut to a
/// whole number.
pub open spec fn is_picture<F: Fn(FloatOp) -> u64>(
    fpu: &FloatUnit<F>,
    mask: &MotionMask,
    img: &GrayFrame,
) -> bool {
    &&& img.wf()
    &&& img.width == mask.width
    &&& img.height == mask.height
    &&& forall|x: int, y: int|
        0 <= x < mask.width && 0 <= y < mask.height ==> #[trigger] img.at(x, y) == fpu.to_u8(
            clamp(fpu.mul(mask.at(x, y), BYTE_MAX), ZERO, BYTE_MAX),
        )
}

/// Parameters for motion detection.
#[derive(Debug, Clone, Copy)]
pub struct MotionDetectionParams {
    /// How many times the spread a deviation may be before it counts as motion.
    pub mad_threshold: u32,
    /// Radius of the local neighborhood.
    pub neighborhood_radius: u32,
    /// Sigma of the blur that softens the edges of the mask.
    pub blur_sigma: u32,
    /// The smallest weight that a moving pixel is given before the blur.
    pub min_weight: u32,
}

impl Default for MotionDetectionParams {
    /// A threshold of 3, a radius of 2, a sigma of 1.5 and a smallest weight of 0.1.
    fn default() -> (r: Self)
        ensures
            r.mad_threshold == THREE,
            r.neighborhood_radius == 2,
            r.blur_sigma == 0x3fc0_0000u32,
            r.min_weight == 0x3dcc_cccdu32,
    {
        MotionDetectionParams {
            mad_threshold: THREE,
            neighborhood_radius: 2,
            blur_sigma: 0x3fc0_0000,
            min_weight: 0x3dcc_cccd,
        }
    }
}

/// What scales a median absolute deviation to a standard deviation, 1.4826.
pub const MAD_SCALE: u32 = 0x3fbd_c5d6;

/// The luminance of each frame at one pixel.
pub open spec fn luminance_column<F: Fn(FloatOp) -> u64>(
    fpu: &FloatUnit<F>,
    frames: Seq<RgbaFrame>,
    x: int,
    y: int,
) -> Seq<u32> {
    Seq::new(
        frames.len(),
        |f: int| luminance_of(fpu, frames[f].at(x, y, 0), frames[f].at(x, y, 1), frames[f].at(x, y, 2)),
    )
}

/// How far each value of `s` lies from `center`.
pub open spec fn deviations<F: Fn(FloatOp) -> u64>(
    fpu: &FloatUnit<F>,
    s: Seq<u32>,
    center: u32,
) -> Seq<u32> {
    Seq::new(s.len(), |i: int| abs(fpu.sub(s[i], center)))
}

/// The largest value of `s`, and zero where there is none above it.
pub open spec fn largest(s: Seq<u32>) -> u32
    decreases s.len(),
{
    if s.len() == 0 {
        ZERO
    } else {
        max(largest(s.drop_last()), s.last())
    }
}

/// The weight of a pixel with the luminances `s`: 1 where none of them varies, or all vary within the
/// threshold; else falling to the smallest weight as the largest deviation grows to twice the
/// threshold.
pub open spec fn weight_of<F: Fn(FloatOp) -> u64>(
    fpu: &FloatUnit<F>,
    params: MotionDetectionParams,
    s: Seq<u32>,
) -> u32 {
    let apart = deviations(fpu, ranked(s), median_of(fpu, s));
    let spread = fpu.mul(median_of(fpu, apart), MAD_SCALE);
    let limit = fpu.mul(params.mad_threshold, spread);
    if lt(spread, MILLIONTH) && lt(largest(apart), MILLIONTH) || le(largest(apart), limit) {
        ONE
    } else {
        let ratio = fpu.div(largest(apart), limit);
        max(fpu.sub(ONE, clamp(fpu.sub(ratio, ONE), ZERO, ONE)), params.min_weight)
    }
}

/// The weight of a pixel with the given luminances.
fn pixel_weight<F: Fn(FloatOp) -> u64>(
    fpu: &FloatUnit<F>,
    params: MotionDetectionParams,
    values: &mut Vec<u32>,
) -> (w: u32)
    ensures
        w == weight_of(fpu, params, old(values)@),
{
    let ghost s = values@;
    proof {
        ranked_is_sorted(s);
    }
    let median = median_f32(fpu, values);
    let n = values.len();
    let ghost apart = deviations(fpu, ranked(s), median);
    let mut abs_deviations: Vec<u32> = Vec::with_capacity(n);
    let mut max_deviation: u32 = ZERO;
    let mut i: usize = 0;
    assert(apart.take(0) =~= Seq::<u32>::empty());
    while i < n
        invariant
            i <= n,
            n == values@.len(),
            values@ == ranked(s),
            apart == deviations(fpu, ranked(s), median),
            abs_deviations@ == apart.take(i as int),
            max_deviation == largest(apart.take(i as int)),
        decreases n - i,
    {
        let d = abs(fpu.sub(values[i], median));
        abs_deviations.push(d);
        max_deviation = max(max_deviation, d);
        assert(apart.take(i + 1).drop_last() =~= apart.take(i as int));
        assert(abs_deviations@ =~= apart.take(i + 1));
        i = i + 1;
    }
    assert(apart.take(n as int) =~= apart);
    let mad = fpu.mul(median_f32(fpu, &mut abs_deviations), MAD_SCALE);
    if lt(mad, MILLIONTH) && lt(max_deviation, MILLIONTH) {
        return ONE;
    }
    let limit = fpu.mul(params.mad_threshold, mad);
    if le(max_deviation, limit) {
        return ONE;
    }
    let ratio = fpu.div(max_deviation, limit);
    let weight = fpu.sub(ONE, clamp(fpu.sub(ratio, ONE), ZERO, ONE));
    max(weight, params.min_weight)
}

/// The weights of all pixels before the blur.
pub open spec fn raw_weights<F: Fn(FloatOp) -> u64>(
    fpu: &FloatUnit<F>,
    params: MotionDetectionParams,
    frames: Seq<RgbaFrame>,
    width: u32,
    height: u32,
) -> Seq<u32> {
    Seq::new(
        (width * height) as nat,
        |i: int|
            weight_of(
                fpu,
                params,
                luminance_column(fpu, frames, i % (width as int), i / (width as int)),
            ),
    )
}

/// The reach of the blur on each side of a pixel.
pub open spec fn blur_radius<F: Fn(FloatOp) -> u64>(fpu: &FloatUnit<F>, sigma: u32) -> i32 {
    fpu.to_i32(fpu.ceil(fpu.mul(sigma, THREE)))
}

/// Item `i` of a Gaussian of the given reach, not yet normalized.
pub open spec fn gaussian<F: Fn(FloatOp) -> u64>(
    fpu: &FloatUnit<F>,
    sigma: u32,
    radius: int,
    i: int,
) -> u32 {
    fpu.exp(
        fpu.div(
            fpu.from_i32((-((i - radius) * (i - radius))) as i32),
            fpu.mul(fpu.mul(TWO, sigma), sigma),
        ),
    )
}

/// The sum of the first `n` items of a Gaussian.
pub open spec fn gaussian_sum<F: Fn(FloatOp) -> u64>(
    fpu: &FloatUnit<F>,
    sigma: u32,
    radius: int,
    n: nat,
) -> u32
    decreases n,
{
    if n == 0 {
        ZERO
    } else {
        fpu.add(
            gaussian_sum(fpu, sigma, radius, (n - 1) as nat),
            gaussian(fpu, sigma, radius, n - 1),
        )
    }
}

/// The Gaussian of the given reach, each item divided by the sum of all.
pub open spec fn blur_kernel<F: Fn(FloatOp) -> u64>(
    fpu: &FloatUnit<F>,
    sigma: u32,
    radius: int,
) -> Seq<u32> {
    let size = (2 * radius + 1) as nat;
    Seq::new(
        size,
        |i: int|
            fpu.div(gaussian(fpu, sigma, radius, i), gaussian_sum(fpu, sigma, radius, size)),
    )
}

/// The weighted sum of `line` around position `x`, over the first `n` items of the kernel; what
/// lies beyond the ends of the line is left out.
pub open spec fn blur_at<F: Fn(FloatOp) -> u64>(
    fpu: &FloatUnit<F>,
    line: Seq<u32>,
    kernel: Seq<u32>,
    radius: int,
    x: int,
    n: nat,
) -> u32
    decreases n,
{
    if n == 0 {
        ZERO
    } else {
        let before = blur_at(fpu, line, kernel, radius, x, (n - 1) as nat);
        let p = x + (n - 1) - radius;
        if 0 <= p < line.len() {
            fpu.add(before, fpu.mul(line[p], kernel[n - 1]))
        } else {
            before
        }
    }
}

/// The sum of the first `n` items of the kernel that fall on a line of `len` values around position
/// `x`.
pub open spec fn share_at<F: Fn(FloatOp) -> u64>(
    fpu: &FloatUnit<F>,
    len: int,
    kernel: Seq<u32>,
    radius: int,
    x: int,
    n: nat,
) -> u32
    decreases n,
{
    if n == 0 {
        ZERO
    } else {
        let before = share_at(fpu, len, kernel, radius, x, (n - 1) as nat);
        let p = x + (n - 1) - radius;
        if 0 <= p < len {
            fpu.add(before, kernel[n - 1])
        } else {
            before
        }
    }
}

/// The blurred value at position `x` of a line: the weighted sum around it, divided by the share of
/// the kernel that falls on the line where a part of it does not.
pub open spec fn smooth_at<F: Fn(FloatOp) -> u64>(
    fpu: &FloatUnit<F>,
    line: Seq<u32>,
    kernel: Seq<u32>,
    radius: int,
    x: int,
) -> u32 {
    let sum = blur_at(fpu, line, kernel, radius, x, kernel.len());
    if radius <= x && x + radius < line.len() {
        sum
    } else {
        fpu.div(sum, share_at(fpu, line.len() as int, kernel, radius, x, kernel.len()))
    }
}

/// Row `y` of a plane with rows of `width` values.
pub open spec fn row_of(plane: Seq<u32>, width: int, y: int) -> Seq<u32> {
    Seq::new(width as nat, |x: int| plane[pixel_index(x, y, width)])
}

/// Column `x` of a plane with `height` rows of `width` values.
pub open spec fn column_of(plane: Seq<u32>, width: int, height: int, x: int) -> Seq<u32> {
    Seq::new(height as nat, |y: int| plane[pixel_index(x, y, width)])
}

/// A plane with each row blurred.
pub open spec fn blur_rows<F: Fn(FloatOp) -> u64>(
    fpu: &FloatUnit<F>,
    plane: Seq<u32>,
    width: int,
    height: int,
    kernel: Seq<u32>,
    radius: int,
) -> Seq<u32> {
    Seq::new(
        (width * height) as nat,
        |i: int| smooth_at(fpu, row_of(plane, width, i / width), kernel, radius, i % width),
    )
}

/// A plane with each column blurred.
pub open spec fn blur_columns<F: Fn(FloatOp) -> u64>(
    fpu: &FloatUnit<F>,
    plane: Seq<u32>,
    width: int,
    height: int,
    kernel: Seq<u32>,
    radius: int,
) -> Seq<u32> {
    Seq::new(
        (width * height) as nat,
        |i: int|
            smooth_at(fpu, column_of(plane, width, height, i % width), kernel, radius, i / width),
    )
}

/// A plane blurred along its rows, then along its columns; as it is where sigma is not positive.
pub open spec fn blurred<F: Fn(FloatOp) -> u64>(
    fpu: &FloatUnit<F>,
    plane: Seq<u32>,
    width: int,
    height: int,
    sigma: u32,
) -> Seq<u32> {
    if le(sigma, ZERO) {
        plane
    } else {
        let radius = blur_radius(fpu, sigma) as int;
        let kernel = blur_kernel(fpu, sigma, radius);
        blur_columns(
            fpu,
            blur_rows(fpu, plane, width, height, kernel, radius),
            width,
            height,
            kernel,
            radius,
        )
    }
}

/// Whether the positions that a blur visits can be counted.
pub open spec fn blur_fits<F: Fn(FloatOp) -> u64>(
    fpu: &FloatUnit<F>,
    width: u32,
    height: u32,
    sigma: u32,
) -> bool {
    le(sigma, ZERO) || {
        &&& 0 <= blur_radius(fpu, sigma) <= 46340
        &&& width + 2 * blur_radius(fpu, sigma) <= i32::MAX
        &&& height + 2 * blur_radius(fpu, sigma) <= i32::MAX
        &&& width * height <= i32::MAX
    }
}

/// Whether every frame is complete and has at least `width` columns and `height` rows.
pub open spec fn all_reach(frames: Seq<RgbaFrame>, width: u32, height: u32) -> bool {
    forall|f: int|
        #![trigger frames[f]]
        0 <= f < frames.len() ==> frames[f].wf() && frames[f].width >= width && frames[f].height
            >= height
}

/// Whether the first frame can be counted, and motion between all of them measured and blurred.
pub open spec fn detectable<F: Fn(FloatOp) -> u64>(
    fpu: &FloatUnit<F>,
    frames: Seq<RgbaFrame>,
    params: MotionDetectionParams,
) -> bool {
    &&& frames.len() >= 1 ==> frames[0].width * frames[0].height <= u32::MAX
    &&& frames.len() >= 2 ==> blur_fits(fpu, frames[0].width, frames[0].height, params.blur_sigma)
    &&& frames.len() >= 2 ==> all_reach(frames, frames[0].width, frames[0].height)
}

/// Whether every frame is complete and has at least `width` columns and `height` rows.
pub(crate) fn check_reach(frames: &Vec<RgbaFrame>, width: u32, height: u32) -> (r: bool)
    ensures
        r == all_reach(frames@, width, height),
{
    let mut f: usize = 0;
    while f < frames.len()
        invariant
            f <= frames@.len(),
            forall|k: int|
                #![trigger frames@[k]]
                0 <= k < f ==> frames@[k].wf() && frames@[k].width >= width && frames@[k].height
                    >= height,
        decreases frames@.len() - f,
    {
        let frame = &frames[f];
        if !frame.is_complete() || frame.width < width || frame.height < height {
            let ghost k = f as int;
            assert(!(frames@[k].wf() && frames@[k].width >= width && frames@[k].height >= height));
            return false;
        }
        f = f + 1;
    }
    true
}

/// Whether `mask` tells where the frames show motion.
pub open spec fn is_motion_mask<F: Fn(FloatOp) -> u64>(
    fpu: &FloatUnit<F>,
    params: MotionDetectionParams,
    frames: Seq<RgbaFrame>,
    mask: MotionMask,
) -> bool {
    &&& mask.wf()
    &&& frames.len() == 0 ==> mask.width == 0 && mask.height == 0
    &&& frames.len() >= 1 ==> mask.width == frames[0].width && mask.height == frames[0].height
    &&& frames.len() == 1 ==> forall|i: int|
        0 <= i < mask.weights@.len() ==> #[trigger] mask.weights@[i] == ONE
    &&& frames.len() >= 2 ==> mask.weights@ == blurred(
        fpu,
        raw_weights(fpu, params, frames, mask.width, mask.height),
        mask.width as int,
        mask.height as int,
        params.blur_sigma,
    )
}

/// Whether motion can be found by [`detect_motion`].
pub fn can_detect_motion<F: Fn(FloatOp) -> u64>(
    fpu: &FloatUnit<F>,
    frames: &Vec<RgbaFrame>,
    params: MotionDetectionParams,
) -> (r: bool)
    ensures
        r == detectable(fpu, frames@, params),
{
    if frames.len() == 0 {
        return true;
    }
    let width = frames[0].width;
    let height = frames[0].height;
    proof {
        lemma_pixel_product(width, height);
    }
    let pixels: u64 = width as u64 * height as u64;
    if pixels > u32::MAX as u64 {
        return false;
    }
    if frames.len() == 1 {
        return true;
    }
    if !le(params.blur_sigma, ZERO) {
        let radius = fpu.to_i32(fpu.ceil(fpu.mul(params.blur_sigma, THREE)));
        if radius < 0 || radius > 46340 || width as u64 + 2 * radius as u64 > i32::MAX as u64
            || height as u64 + 2 * radius as u64 > i32::MAX as u64 || pixels > i32::MAX as u64 {
            return false;
        }
    }
    check_reach(frames, width, height)
}

/// Find motion between aligned frames.
///
/// For each pixel the luminances of all frames are compared with their median. Their spread is
/// the median absolute deviation, scaled to a standard deviation; a pixel moved where the largest
/// deviation exceeds the threshold times the spread. The mask is blurred at the end. One frame
/// shows no motion, and no frame gives an empty mask.
pub fn detect_motion<F: Fn(FloatOp) -> u64>(
    fpu: &FloatUnit<F>,
    frames: &Vec<RgbaFrame>,
    params: MotionDetectionParams,
) -> (mask: MotionMask)
    requires
        detectable(fpu, frames@, params),
    ensures
        is_motion_mask(fpu, params, frames@, mask),
{
    if frames.len() == 0 {
        return MotionMask::new(0, 0);
    }
    if frames.len() == 1 {
        return MotionMask::new(frames[0].width, frames[0].height);
    }
    let width = frames[0].width;
    let height = frames[0].height;
    let count: usize = (width * height) as usize;
    let ghost goal = raw_weights(fpu, params, frames@, width, height);
    let mut weights: Vec<u32> = Vec::with_capacity(count);
    let mut i: usize = 0;
    while i < count
        invariant
            i <= count,
            count == width * height,
            width * height <= u32::MAX,
            goal == raw_weights(fpu, params, frames@, width, height),
            all_reach(frames@, width, height),
            weights@ == goal.take(i as int),
        decreases count - i,
    {
        proof {
            lemma_index_pixel(i as int, width as int, height as int);
        }
        let x: u32 = (i % width as usize) as u32;
        let y: u32 = (i / width as usize) as u32;
        let ghost column = luminance_column(fpu, frames@, x as int, y as int);
        let mut values: Vec<u32> = Vec::with_capacity(frames.len());
        let mut f: usize = 0;
        while f < frames.len()
            invariant
                f <= frames@.len(),
                x < width,
                y < height,
                all_reach(frames@, width, height),
                column == luminance_column(fpu, frames@, x as int, y as int),
                values@ == column.take(f as int),
            decreases frames@.len() - f,
        {
            let frame = &frames[f];
            values.push(luminance(fpu, frame.get(x, y, 0), frame.get(x, y, 1), frame.get(x, y, 2)));
            assert(values@ =~= column.take(f + 1));
            f = f + 1;
        }
        assert(values@ =~= column);
        weights.push(pixel_weight(fpu, params, &mut values));
        assert(weights@ =~= goal.take(i + 1));
        i = i + 1;
    }
    assert(weights@ =~= goal);
    let mask = MotionMask { weights, width, height };
    gaussian_blur_mask(fpu, &mask, params.blur_sigma)
}

/// The normalized Gaussian of the given reach.
fn build_kernel<F: Fn(FloatOp) -> u64>(fpu: &FloatUnit<F>, sigma: u32, radius: i32) -> (kernel: Vec<
    u32,
>)
    requires
        0 <= radius <= 46340,
    ensures
        kernel@ == blur_kernel(fpu, sigma, radius as int),
{
    let size: usize = (2 * radius + 1) as usize;
    let two_sigma_sq = fpu.mul(fpu.mul(TWO, sigma), sigma);
    let mut raw: Vec<u32> = Vec::with_capacity(size);
    let mut sum: u32 = ZERO;
    let mut i: usize = 0;
    while i < size
        invariant
            i <= size,
            size == 2 * radius + 1,
            0 <= radius <= 46340,
            two_sigma_sq == fpu.mul(fpu.mul(TWO, sigma), sigma),
            raw@.len() == i,
            forall|k: int| 0 <= k < i ==> #[trigger] raw@[k] == gaussian(fpu, sigma, radius as int, k),
            sum == gaussian_sum(fpu, sigma, radius as int, i as nat),
        decreases size - i,
    {
        let x: i32 = i as i32 - radius;
        assert(0 <= x * x <= 46340 * 46340) by (nonlinear_arith)
            requires
                -46340 <= x <= 46340,
        ;
        let g = fpu.exp(fpu.div(fpu.from_i32(-(x * x)), two_sigma_sq));
        raw.push(g);
        sum = fpu.add(sum, g);
        i = i + 1;
    }
    let ghost goal = blur_kernel(fpu, sigma, radius as int);
    let mut kernel: Vec<u32> = Vec::with_capacity(size);
    let mut j: usize = 0;
    while j < size
        invariant
            j <= size,
            size == 2 * radius + 1,
            size == raw@.len(),
            goal == blur_kernel(fpu, sigma, radius as int),
            forall|k: int| 0 <= k < size ==> #[trigger] raw@[k] == gaussian(fpu, sigma, radius as int, k),
            sum == gaussian_sum(fpu, sigma, radius as int, size as nat),
            kernel@ == goal.take(j as int),
        decreases size - j,
    {
        kernel.push(fpu.div(raw[j], sum));
        assert(kernel@ =~= goal.take(j + 1));
        j = j + 1;
    }
    assert(kernel@ =~= goal);
    kernel
}

/// Whether value `p` of `line` stands in `plane`, `p` steps behind `start`.
pub open spec fn found_at(line: Seq<u32>, plane: Seq<u32>, start: int, step: int, p: int) -> bool {
    0 <= start + p * step < plane.len() && line[p] == plane[start + p * step]
}

/// Whether the values of `line` stand in `plane`, the first at `start` and each next one `step`
/// further.
pub open spec fn stands_at(line: Seq<u32>, plane: Seq<u32>, start: int, step: int) -> bool {
    forall|p: int| 0 <= p < line.len() ==> #[trigger] found_at(line, plane, start, step, p)
}

/// The blurred value at position `x` of a line of `limit` values, of which the one at position `p` stands in the
/// plane at `start + p * step`.
fn blur_line<F: Fn(FloatOp) -> u64>(
    fpu: &FloatUnit<F>,
    plane: &Vec<u32>,
    start: usize,
    step: usize,
    kernel: &Vec<u32>,
    radius: i32,
    x: i32,
    limit: i32,
    Ghost(line): Ghost<Seq<u32>>,
) -> (r: u32)
    requires
        0 <= x < limit,
        0 <= radius,
        limit + 2 * radius <= i32::MAX,
        kernel@.len() == 2 * radius + 1,
        line.len() == limit,
        stands_at(line, plane@, start as int, step as int),
    ensures
        r == smooth_at(fpu, line, kernel@, radius as int, x as int),
{
    let size = kernel.len();
    let mut sum: u32 = ZERO;
    let mut share: u32 = ZERO;
    let mut ki: usize = 0;
    while ki < size
        invariant
            ki <= size,
            size == kernel@.len(),
            0 <= x < limit,
            0 <= radius,
            limit + 2 * radius <= i32::MAX,
            kernel@.len() == 2 * radius + 1,
            line.len() == limit,
            stands_at(line, plane@, start as int, step as int),
            sum == blur_at(fpu, line, kernel@, radius as int, x as int, ki as nat),
            share == share_at(fpu, limit as int, kernel@, radius as int, x as int, ki as nat),
        decreases size - ki,
    {
        let p: i32 = x + ki as i32 - radius;
        if p >= 0 && p < limit {
            proof {
                assert(found_at(line, plane@, start as int, step as int, p as int));
                assert(plane.len() == plane@.len());
                assert(0 <= p * step) by (nonlinear_arith)
                    requires
                        0 <= p,
                        0 <= step,
                ;
            }
            sum = fpu.add(sum, fpu.mul(plane[start + p as usize * step], kernel[ki]));
            share = fpu.add(share, kernel[ki]);
        }
        ki = ki + 1;
    }
    if radius <= x && x < limit - radius {
        sum
    } else {
        fpu.div(sum, share)
    }
}

/// Soften the edges of a mask with a Gaussian blur.
fn gaussian_blur_mask<F: Fn(FloatOp) -> u64>(
    fpu: &FloatUnit<F>,
    mask: &MotionMask,
    sigma: u32,
) -> (out: MotionMask)
    requires
        mask.wf(),
        blur_fits(fpu, mask.width, mask.height, sigma),
    ensures
        out.wf(),
        out.width == mask.width,
        out.height == mask.height,
        out.weights@ == blurred(
            fpu,
            mask.weights@,
            mask.width as int,
            mask.height as int,
            sigma,
        ),
{
    if le(sigma, ZERO) {
        return mask.copied();
    }
    let width = mask.width;
    let height = mask.height;
    let radius = fpu.to_i32(fpu.ceil(fpu.mul(sigma, THREE)));
    let kernel = build_kernel(fpu, sigma, radius);
    let count: usize = (width * height) as usize;

    // Along the rows.
    let ghost rows = blur_rows(
        fpu,
        mask.weights@,
        width as int,
        height as int,
        kernel@,
        radius as int,
    );
    let mut temp: Vec<u32> = Vec::with_capacity(count);
    let mut i: usize = 0;
    while i < count
        invariant
            i <= count,
            count == width * height,
            mask.wf(),
            width == mask.width,
            height == mask.height,
            0 <= radius,
            width + 2 * radius <= i32::MAX,
            kernel@.len() == 2 * radius + 1,
            rows == blur_rows(
                fpu,
                mask.weights@,
                width as int,
                height as int,
                kernel@,
                radius as int,
            ),
            temp@ == rows.take(i as int),
        decreases count - i,
    {
        let ghost y = i as int / width as int;
        let ghost line = row_of(mask.weights@, width as int, y);
        proof {
            lemma_index_pixel(i as int, width as int, height as int);
            lemma_pixel_index(i as int % width as int, y, width as int, height as int);
            assert forall|p: int| 0 <= p < width implies #[trigger] found_at(
                line,
                mask.weights@,
                y * width,
                1,
                p,
            ) by {
                lemma_pixel_index(p, y, width as int, height as int);
            }
        }
        let start: usize = (i / width as usize) * width as usize;
        let x: usize = i % width as usize;
        temp.push(
            blur_line(
                fpu,
                &mask.weights,
                start,
                1,
                &kernel,
                radius,
                x as i32,
                width as i32,
                Ghost(line),
            ),
        );
        assert(temp@ =~= rows.take(i + 1));
        i = i + 1;
    }
    assert(temp@ =~= rows);

    // Along the columns.
    let ghost columns = blur_columns(
        fpu,
        rows,
        width as int,
        height as int,
        kernel@,
        radius as int,
    );
    let mut weights: Vec<u32> = Vec::with_capacity(count);
    let mut j: usize = 0;
    while j < count
        invariant
            j <= count,
            count == width * height,
            count == temp@.len(),
            0 <= radius,
            height + 2 * radius <= i32::MAX,
            kernel@.len() == 2 * radius + 1,
            columns == blur_columns(
                fpu,
                temp@,
                width as int,
                height as int,
                kernel@,
                radius as int,
            ),
            weights@ == columns.take(j as int),
        decreases count - j,
    {
        let ghost x = j as int % width as int;
        let ghost line = column_of(temp@, width as int, height as int, x);
        proof {
            lemma_index_pixel(j as int, width as int, height as int);
            assert forall|p: int| 0 <= p < height implies #[trigger] found_at(
                line,
                temp@,
                x,
                width as int,
                p,
            ) by {
                lemma_pixel_index(x, p, width as int, height as int);
            }
        }
        let start: usize = j % width as usize;
        let y: usize = j / width as usize;
        weights.push(
            blur_line(
                fpu,
                &temp,
                start,
                width as usize,
                &kernel,
                radius,
                y as i32,
                height as i32,
                Ghost(line),
            ),
        );
        assert(weights@ =~= columns.take(j + 1));
        j = j + 1;
    }
    assert(weights@ =~= columns);
    MotionMask { weights, width, height }
}

/// Whether `v` minus itself is zero and the mean of `v` and `v` is `v`, as they are for every
/// number of ordinary size.
pub open spec fn cancels<F: Fn(FloatOp) -> u64>(fpu: &FloatUnit<F>, v: u32) -> bool {
    fpu.sub(v, v) == ZERO && fpu.div(fpu.add(v, v), TWO) == v
}

proof fn lemma_largest_zero(s: Seq<u32>)
    requires
        forall|i: int| 0 <= i < s.len() ==> s[i] == ZERO,
    ensures
        largest(s) == ZERO,
    decreases s.len(),
{
    if s.len() > 0 {
        lemma_largest_zero(s.drop_last());
    }
}

/// A pixel whose luminance is the same in all frames is given full weight.
pub proof fn still_pixel_has_full_weight<F: Fn(FloatOp) -> u64>(
    fpu: &FloatUnit<F>,
    params: MotionDetectionParams,
    s: Seq<u32>,
    v: u32,
)
    requires
        s.len() > 0,
        forall|i: int| 0 <= i < s.len() ==> s[i] == v,
        cancels(fpu, v),
        cancels(fpu, ZERO),
        fpu.mul(ZERO, MAD_SCALE) == ZERO,
    ensures
        weight_of(fpu, params, s) == ONE,
{
    median_of_equal_values(fpu, s, v);
    median_of_equal_values(fpu, deviations(fpu, s, v), ZERO);
    lemma_largest_zero(deviations(fpu, ranked(s), v));
}

/// A pixel moved where one of its luminances lies further from their median than the threshold
/// times their spread, however small the spread: it is given less than full weight if the ratio of
/// the two exceeds 1 and the smallest weight is below 1.
pub proof fn outlier_loses_weight<F: Fn(FloatOp) -> u64>(
    fpu: &FloatUnit<F>,
    params: MotionDetectionParams,
    s: Seq<u32>,
)
    requires
        ({
            let apart = deviations(fpu, ranked(s), median_of(fpu, s));
            let limit = fpu.mul(params.mad_threshold, fpu.mul(median_of(fpu, apart), MAD_SCALE));
            let excess = clamp(fpu.sub(fpu.div(largest(apart), limit), ONE), ZERO, ONE);
            &&& !lt(largest(apart), MILLIONTH)
            &&& lt(limit, largest(apart))
            &&& lt(fpu.sub(ONE, excess), ONE)
        }),
        lt(params.min_weight, ONE),
    ensures
        lt(weight_of(fpu, params, s), ONE),
{
}

/// No pixel is given a weight below the smallest one before the blur, unless that is not a number
/// or above 1.
pub proof fn weight_is_at_least_smallest<F: Fn(FloatOp) -> u64>(
    fpu: &FloatUnit<F>,
    params: MotionDetectionParams,
    s: Seq<u32>,
)
    requires
        le(params.min_weight, ONE),
    ensures
        le(params.min_weight, weight_of(fpu, params, s)),
{
}

/// Between frames that are all alike nothing moved: before the blur every pixel has full weight.
pub proof fn equal_frames_show_no_motion<F: Fn(FloatOp) -> u64>(
    fpu: &FloatUnit<F>,
    params: MotionDetectionParams,
    frames: Seq<RgbaFrame>,
    width: u32,
    height: u32,
)
    requires
        frames.len() > 0,
        forall|f: int| 0 <= f < frames.len() ==> (#[trigger] frames[f]).same_as(&frames[0]),
        forall|x: int, y: int|
            0 <= x < width && 0 <= y < height ==> cancels(
                fpu,
                (#[trigger] luminance_column(fpu, frames, x, y))[0],
            ),
        cancels(fpu, ZERO),
        fpu.mul(ZERO, MAD_SCALE) == ZERO,
    ensures
        forall|i: int|
            0 <= i < width * height ==> #[trigger] raw_weights(fpu, params, frames, width, height)[i]
                == ONE,
{
    assert forall|i: int| 0 <= i < width * height implies #[trigger] raw_weights(
        fpu,
        params,
        frames,
        width,
        height,
    )[i] == ONE by {
        let (x, y) = (i % (width as int), i / (width as int));
        lemma_index_pixel(i, width as int, height as int);
        let s = luminance_column(fpu, frames, x, y);
        assert forall|f: int| 0 <= f < s.len() implies #[trigger] s[f] == s[0] by {
            assert(frames[f].same_as(&frames[0]));
        }
        still_pixel_has_full_weight(fpu, params, s, s[0]);
    }
}

proof fn lemma_full_line<F: Fn(FloatOp) -> u64>(
    fpu: &FloatUnit<F>,
    line: Seq<u32>,
    kernel: Seq<u32>,
    radius: int,
    x: int,
    n: nat,
)
    requires
        n <= kernel.len(),
        forall|i: int| 0 <= i < line.len() ==> line[i] == ONE,
        forall|i: int| 0 <= i < kernel.len() ==> fpu.mul(ONE, #[trigger] kernel[i]) == kernel[i],
    ensures
        blur_at(fpu, line, kernel, radius, x, n) == share_at(
            fpu,
            line.len() as int,
            kernel,
            radius,
            x,
            n,
        ),
    decreases n,
{
    if n > 0 {
        lemma_full_line(fpu, line, kernel, radius, x, (n - 1) as nat);
        assert(fpu.mul(ONE, kernel[n - 1]) == kernel[n - 1]);
    }
}

/// The blur takes no weight from the border of a mask of full weight: where the kernel reaches
/// beyond the line, full weight stays full.
pub proof fn border_keeps_full_weight<F: Fn(FloatOp) -> u64>(
    fpu: &FloatUnit<F>,
    line: Seq<u32>,
    kernel: Seq<u32>,
    radius: int,
    x: int,
)
    requires
        !(radius <= x && x + radius < line.len()),
        forall|i: int| 0 <= i < line.len() ==> line[i] == ONE,
        forall|i: int| 0 <= i < kernel.len() ==> fpu.mul(ONE, #[trigger] kernel[i]) == kernel[i],
        ({
            let share = share_at(fpu, line.len() as int, kernel, radius, x, kernel.len());
            fpu.div(share, share) == ONE
        }),
    ensures
        smooth_at(fpu, line, kernel, radius, x) == ONE,
{
    lemma_full_line(fpu, line, kernel, radius, x, kernel.len());
}

/// The single-precision infinity.
pub const INFINITY: u32 = 0x7f80_0000;

/// Whether a unit knows infinity and zero, as IEEE 754 asks: a positive number over zero is infinite,
/// infinity less one stays infinite, and a number that is not negative taken no times is zero.
pub open spec fn knows_limits<F: Fn(FloatOp) -> u64>(fpu: &FloatUnit<F>) -> bool {
    &&& forall|a: u32| lt(ZERO, a) ==> #[trigger] fpu.div(a, ZERO) == INFINITY
    &&& fpu.sub(INFINITY, ONE) == INFINITY
    &&& forall|a: u32| a < INFINITY ==> #[trigger] fpu.mul(a, ZERO) == ZERO && fpu.mul(ZERO, a) == ZERO
}

/// The colors that the frames show at one pixel.
pub open spec fn colors_at(frames: Seq<RgbaFrame>, x: int, y: int) -> Seq<(u32, u32, u32)> {
    Seq::new(
        frames.len(),
        |f: int| (frames[f].at(x, y, 0), frames[f].at(x, y, 1), frames[f].at(x, y, 2)),
    )
}

proof fn lemma_largest(s: Seq<u32>, i: int)
    requires
        0 <= i < s.len(),
    ensures
        !is_nan(largest(s)),
        !is_nan(s[i]) ==> le(s[i], largest(s)),
    decreases s.len(),
{
    reveal_with_fuel(largest, 2);
    let d = s.drop_last();
    if d.len() > 0 {
        lemma_largest(d, if i < d.len() {
            i
        } else {
            0
        });
    }
    if i < d.len() {
        assert(d[i] == s[i]);
    }
}

proof fn lemma_count_follows<A, B>(s: Seq<A>, t: Seq<B>, a: A, b: B)
    requires
        s.len() == t.len(),
        forall|i: int| 0 <= i < s.len() && s[i] == a ==> #[trigger] t[i] == b,
    ensures
        s.to_multiset().count(a) <= t.to_multiset().count(b),
    decreases s.len(),
{
    broadcast use {
        vstd::seq_lib::group_to_multiset_ensures,
        vstd::multiset::group_multiset_axioms,
    };

    if s.len() > 0 {
        let (d, e) = (s.drop_last(), t.drop_last());
        assert forall|i: int| 0 <= i < d.len() && d[i] == a implies #[trigger] e[i] == b by {
            assert(t[i] == b);
        }
        lemma_count_follows(d, e, a, b);
        assert(d.push(s.last()) =~= s);
        assert(e.push(t.last()) =~= t);
        assert(s.last() == a ==> t[t.len() - 1] == b);
    }
}

proof fn lemma_outlier<F: Fn(FloatOp) -> u64>(
    fpu: &FloatUnit<F>,
    params: MotionDetectionParams,
    s: Seq<u32>,
    v: u32,
    f: int,
)
    requires
        is_exact(fpu),
        knows_limits(fpu),
        s.len() % 2 == 1,
        2 * s.to_multiset().count(v) > s.len(),
        0 <= f < s.len(),
        is_finite(v),
        le(MILLIONTH, abs(fpu.sub(s[f], v))),
        params.mad_threshold < INFINITY,
        lt(params.min_weight, ONE),
    ensures
        lt(weight_of(fpu, params, s), ONE),
{
    broadcast use {
        vstd::seq_lib::group_to_multiset_ensures,
        vstd::multiset::group_multiset_axioms,
    };

    majority_is_median(fpu, s, v);
    ranked_is_sorted(s);
    let r = ranked(s);
    let apart = deviations(fpu, r, v);
    lemma_smallest_parts(v);
    exact_sub(fpu, v, v, number(v), number(v), 149);
    lemma_is_zero(fpu.sub(v, v), 149);
    assert forall|i: int| 0 <= i < r.len() && r[i] == v implies #[trigger] apart[i] == ZERO by {}
    lemma_count_follows(r, apart, v, ZERO);
    majority_is_median(fpu, apart, ZERO);
    assert(fpu.mul(ZERO, MAD_SCALE) == ZERO) by {
        assert(fpu.mul(MAD_SCALE, ZERO) == ZERO);
    }
    assert(fpu.mul(params.mad_threshold, ZERO) == ZERO);
    assert(s.contains(s[f]));
    assert(r.to_multiset().count(s[f]) > 0);
    assert(r.contains(s[f]));
    let i = choose|i: int| 0 <= i < r.len() && r[i] == s[f];
    lemma_largest(apart, i);
    assert(apart[i] == abs(fpu.sub(s[f], v)));
    assert(fpu.div(largest(apart), ZERO) == INFINITY);
    lemma_constants();
    exact_sub(fpu, ONE, ONE, 1, 1, 0);
    lemma_compare(fpu.sub(ONE, ONE), ONE, 0, 1, 0);
}

/// Motion shows in brightness: where more than half of an odd number of frames show one color at a
/// pixel, and some frame shows a color whose brightness differs from theirs by a millionth or more,
/// the pixel is given less than full weight. The brightness of a color is taken of its own red,
/// green and blue.
pub proof fn brightness_that_differs_is_motion<F: Fn(FloatOp) -> u64>(
    fpu: &FloatUnit<F>,
    params: MotionDetectionParams,
    frames: Seq<RgbaFrame>,
    mask: MotionMask,
    x: int,
    y: int,
    usual: (u32, u32, u32),
    f: int,
)
    requires
        is_exact(fpu),
        knows_limits(fpu),
        is_motion_mask(fpu, params, frames, mask),
        le(params.blur_sigma, ZERO),
        params.mad_threshold < INFINITY,
        lt(params.min_weight, ONE),
        frames.len() >= 3,
        frames.len() % 2 == 1,
        0 <= x < frames[0].width,
        0 <= y < frames[0].height,
        2 * colors_at(frames, x, y).to_multiset().count(usual) > frames.len(),
        0 <= f < frames.len(),
        is_finite(luminance_of(fpu, usual.0, usual.1, usual.2)),
        le(
            MILLIONTH,
            abs(
                fpu.sub(
                    luminance_of(
                        fpu,
                        frames[f].at(x, y, 0),
                        frames[f].at(x, y, 1),
                        frames[f].at(x, y, 2),
                    ),
                    luminance_of(fpu, usual.0, usual.1, usual.2),
                ),
            ),
        ),
    ensures
        lt(mask.at(x, y), ONE),
{
    let s = luminance_column(fpu, frames, x, y);
    let v = luminance_of(fpu, usual.0, usual.1, usual.2);
    let colors = colors_at(frames, x, y);
    assert forall|i: int| 0 <= i < colors.len() && colors[i] == usual implies #[trigger] s[i] == v by {}
    lemma_count_follows(colors, s, usual, v);
    lemma_outlier(fpu, params, s, v, f);
    lemma_pixel_index(x, y, mask.width as int, mask.height as int);
}

/// The brightness of each frame at a pixel decides its weight: it is below the full one where a
/// brightness lies further from the median of all than the threshold times their spread, as far as
/// the ratio of the two exceeds one.
pub proof fn frames_far_from_the_median_are_motion<F: Fn(FloatOp) -> u64>(
    fpu: &FloatUnit<F>,
    params: MotionDetectionParams,
    frames: Seq<RgbaFrame>,
    mask: MotionMask,
    x: int,
    y: int,
)
    requires
        is_motion_mask(fpu, params, frames, mask),
        le(params.blur_sigma, ZERO),
        lt(params.min_weight, ONE),
        frames.len() >= 2,
        0 <= x < frames[0].width,
        0 <= y < frames[0].height,
        ({
            let colors = colors_at(frames, x, y);
            let s = Seq::new(
                colors.len(),
                |i: int|
                    fpu.add(
                        fpu.add(
                            fpu.mul(RED_WEIGHT, colors[i].0),
                            fpu.mul(GREEN_WEIGHT, colors[i].1),
                        ),
                        fpu.mul(BLUE_WEIGHT, colors[i].2),
                    ),
            );
            let apart = deviations(fpu, ranked(s), median_of(fpu, s));
            let limit = fpu.mul(params.mad_threshold, fpu.mul(median_of(fpu, apart), MAD_SCALE));
            let excess = clamp(fpu.sub(fpu.div(largest(apart), limit), ONE), ZERO, ONE);
            &&& !lt(largest(apart), MILLIONTH)
            &&& lt(limit, largest(apart))
            &&& lt(fpu.sub(ONE, excess), ONE)
        }),
    ensures
        lt(mask.at(x, y), ONE),
{
    let colors = colors_at(frames, x, y);
    let s = Seq::new(
        colors.len(),
        |i: int|
            fpu.add(
                fpu.add(fpu.mul(RED_WEIGHT, colors[i].0), fpu.mul(GREEN_WEIGHT, colors[i].1)),
                fpu.mul(BLUE_WEIGHT, colors[i].2),
            ),
    );
    assert(s =~= luminance_column(fpu, frames, x, y));
    outlier_loses_weight(fpu, params, s);
    lemma_pixel_index(x, y, mask.width as int, mask.height as int);
}

} // verus!
