//! Steering kernel regression: frames are merged with a kernel that follows the image structure.
//!
//! Each output pixel is a weighted mean of samples of all frames around it. The weights come from
//! a Gaussian that is stretched along edges, as the local structure tensor finds them (Wronski et
//! al. 2019).

use crate::exact::{
    exact_add, exact_floor, exact_from, exact_mul, exact_sub, exact_whole, fits, is_exact,
    is_ordinary, lemma_constants, lemma_finer, lemma_is_finite, lemma_nothing, lemma_ordinary,
    stands_for,
};
use crate::float::{
    abs, clamp, le, lt, luminance, luminance_of, max, min, wide_lt, FloatOp, FloatUnit, FOUR, HALF,
    MILLIONTH, ONE, THREE, TWO, WIDE_1E_10, WIDE_ZERO, ZERO,
};
use crate::frame::{
    is_nearest, lemma_index_pixel, lemma_pixel_index, lemma_pixel_product, RgbaFrame,
};
use crate::motion_detection::{all_reach, check_reach, MotionMask};
use vstd::arithmetic::power2::pow2;
use vstd::prelude::*;

verus! {

/// Pi in single precision.
pub const PI: u32 = 0x4049_0fdb;

/// One half, negative.
pub const MINUS_HALF: u32 = 0xbf00_0000;

/// What counts as nothing in an eigen decomposition, 1e-10.
pub const NEGLIGIBLE: u32 = 0x2edb_e6ff;

/// Parameters controlling the steering kernel regression fusion.
#[derive(Debug, Clone, Copy)]
pub struct SkrFusionParams {
    /// Global kernel scale (sigma of the base Gaussian).
    pub kernel_sigma: u32,
    /// Maximum stretch factor (anisotropy ratio, typically 2 to 8).
    pub stretch: u32,
    /// Sigma for gradient smoothing before the structure tensor.
    pub structure_sigma: u32,
    /// Output scale factor: 1 is native, 2 is twofold super-resolution.
    pub output_scale: u32,
    /// Number of robust re-weighting iterations.
    pub robust_iterations: u32,
    /// Minimum samples required for a valid output pixel.
    pub min_samples: usize,
}

impl Default for SkrFusionParams {
    /// A sigma of 1.5, a stretch of 4, and 1 for the structure sigma and the output scale.
    fn default() -> (r: Self)
        ensures
            r.kernel_sigma == 0x3fc0_0000u32,
            r.stretch == FOUR,
            r.structure_sigma == ONE,
            r.output_scale == ONE,
            r.robust_iterations == 1,
            r.min_samples == 4,
    {
        SkrFusionParams {
            kernel_sigma: 0x3fc0_0000,
            stretch: FOUR,
            structure_sigma: ONE,
            output_scale: ONE,
            robust_iterations: 1,
            min_samples: 4,
        }
    }
}

/// A symmetric structure tensor of two by two items, for local gradient analysis.
#[derive(Debug, Clone, Copy)]
pub struct StructureTensor {
    /// Mean of the squared horizontal gradient.
    pub ixx: u32,
    /// Mean of the product of both gradients.
    pub ixy: u32,
    /// Mean of the squared vertical gradient.
    pub iyy: u32,
}

/// Eigen decomposition of a structure tensor.
#[derive(Debug, Clone, Copy)]
pub struct EigenDecomp {
    /// Larger eigenvalue.
    pub e1: u32,
    /// Smaller eigenvalue.
    pub e2: u32,
    /// Angle of the dominant eigenvector, in radians.
    pub angle: u32,
}

/// A color without alpha.
#[derive(Debug, Clone, Copy)]
pub struct Color {
    /// Red sample.
    pub red: u32,
    /// Green sample.
    pub green: u32,
    /// Blue sample.
    pub blue: u32,
}

impl Color {
    /// Channel `c` of the color: red, green, blue, and a full alpha.
    pub open spec fn channel(self, c: int) -> u32 {
        if c == 0 {
            self.red
        } else if c == 1 {
            self.green
        } else if c == 2 {
            self.blue
        } else {
            ONE
        }
    }
}

/// Steering kernel regression fusion engine.
pub struct SkrFusion {
    /// What controls the fusion.
    pub params: SkrFusionParams,
}

/// Double-precision sums of gradient products, and how many were added.
pub struct GradientSums {
    /// Sum of squared horizontal gradients.
    pub xx: u64,
    /// Sum of products.
    pub xy: u64,
    /// Sum of squared vertical gradients.
    pub yy: u64,
    /// Number of gradients.
    pub count: nat,
}

/// Double-precision sums of weighted samples, and of the weights.
#[derive(Clone, Copy)]
pub struct SampleSums {
    /// Sum of red.
    pub red: u64,
    /// Sum of green.
    pub green: u64,
    /// Sum of blue.
    pub blue: u64,
    /// Sum of the weights.
    pub weight: u64,
}

/// How many positions a window reaches on one axis: `radius` to both sides, none if negative.
pub open spec fn window_side(radius: int) -> int {
    if radius < 0 {
        0
    } else {
        2 * radius + 1
    }
}

/// The number of positions of a window.
pub open spec fn window_area(radius: int) -> nat {
    (window_side(radius) * window_side(radius)) as nat
}

/// The side of a window, and its area, which can be counted.
fn window_of(radius: i32) -> (r: (u64, u64))
    ensures
        r.0 == window_side(radius as int),
        r.1 == window_area(radius as int),
{
    if radius < 0 {
        (0, 0)
    } else {
        let side: u64 = 2 * (radius as u64) + 1;
        assert(side * side <= 0xffff_ffff * 0xffff_ffff) by (nonlinear_arith)
            requires
                0 <= side <= 0xffff_ffff,
        ;
        (side, side * side)
    }
}

/// Position `k` of a window, row after row, lies within the window.
pub proof fn lemma_window(k: int, radius: int)
    requires
        0 <= k < window_area(radius),
    ensures
        0 <= radius,
        -radius <= k % window_side(radius) - radius <= radius,
        -radius <= k / window_side(radius) - radius <= radius,
{
    if radius >= 0 {
        let side = window_side(radius);
        assert(0 <= side * side) by (nonlinear_arith)
            requires
                0 <= side,
        ;
        lemma_index_pixel(k, side, side);
    }
}

/// The luminance of a frame at column `x` of row `y`.
pub open spec fn luminance_at<F: Fn(FloatOp) -> u64>(
    fpu: &FloatUnit<F>,
    frame: &RgbaFrame,
    x: int,
    y: int,
) -> u32 {
    luminance_of(fpu, frame.at(x, y, 0), frame.at(x, y, 1), frame.at(x, y, 2))
}

/// The luminance of a frame at column `x` of row `y`.
fn read_luminance<F: Fn(FloatOp) -> u64>(
    fpu: &FloatUnit<F>,
    frame: &RgbaFrame,
    x: u32,
    y: u32,
) -> (r: u32)
    requires
        frame.wf(),
        x < frame.width,
        y < frame.height,
    ensures
        r == luminance_at(fpu, frame, x as int, y as int),
{
    luminance(fpu, frame.get(x, y, 0), frame.get(x, y, 1), frame.get(x, y, 2))
}

/// Whether the pixel has neighbours on all four sides within `width` columns and `height` rows.
pub open spec fn is_inner(x: int, y: int, width: int, height: int) -> bool {
    1 <= x < width - 1 && 1 <= y < height - 1
}

/// The sums over the first `k` positions of the window around the pixel.
pub open spec fn gradient_sums<F: Fn(FloatOp) -> u64>(
    fpu: &FloatUnit<F>,
    frame: &RgbaFrame,
    cx: int,
    cy: int,
    width: int,
    height: int,
    radius: int,
    k: nat,
) -> GradientSums
    decreases k,
{
    if k == 0 {
        GradientSums { xx: WIDE_ZERO, xy: WIDE_ZERO, yy: WIDE_ZERO, count: 0 }
    } else {
        let before = gradient_sums(fpu, frame, cx, cy, width, height, radius, (k - 1) as nat);
        let x = cx + (k - 1) % window_side(radius) - radius;
        let y = cy + (k - 1) / window_side(radius) - radius;
        if is_inner(x, y, width, height) {
            let gx = fpu.sub(luminance_at(fpu, frame, x + 1, y), luminance_at(fpu, frame, x - 1, y));
            let gy = fpu.sub(luminance_at(fpu, frame, x, y + 1), luminance_at(fpu, frame, x, y - 1));
            GradientSums {
                xx: fpu.wide_add(before.xx, fpu.widen(fpu.mul(gx, gx))),
                xy: fpu.wide_add(before.xy, fpu.widen(fpu.mul(gx, gy))),
                yy: fpu.wide_add(before.yy, fpu.widen(fpu.mul(gy, gy))),
                count: before.count + 1,
            }
        } else {
            before
        }
    }
}

/// The structure tensor at one pixel: the means of the gradient products over the inner pixels of
/// a window, all zero where there is none.
pub open spec fn tensor_at<F: Fn(FloatOp) -> u64>(
    fpu: &FloatUnit<F>,
    frame: &RgbaFrame,
    cx: int,
    cy: int,
    width: int,
    height: int,
    radius: int,
) -> StructureTensor {
    let sums = gradient_sums(fpu, frame, cx, cy, width, height, radius, window_area(radius));
    if sums.count > 0 {
        let n = fpu.wide_from_u64(sums.count as u64);
        StructureTensor {
            ixx: fpu.narrow(fpu.wide_div(sums.xx, n)),
            ixy: fpu.narrow(fpu.wide_div(sums.xy, n)),
            iyy: fpu.narrow(fpu.wide_div(sums.yy, n)),
        }
    } else {
        StructureTensor { ixx: ZERO, ixy: ZERO, iyy: ZERO }
    }
}

/// Whether `tensors` are the structure tensors of all pixels, row after row.
pub open spec fn are_tensors<F: Fn(FloatOp) -> u64>(
    fpu: &FloatUnit<F>,
    frame: &RgbaFrame,
    radius: int,
    tensors: Seq<StructureTensor>,
) -> bool {
    &&& tensors.len() == frame.width * frame.height
    &&& forall|i: int|
        0 <= i < tensors.len() ==> #[trigger] tensors[i] == tensor_at(
            fpu,
            frame,
            i % (frame.width as int),
            i / (frame.width as int),
            frame.width as int,
            frame.height as int,
            radius,
        )
}

/// The structure tensor at one pixel.
pub(crate) fn tensor_from<F: Fn(FloatOp) -> u64>(
    fpu: &FloatUnit<F>,
    frame: &RgbaFrame,
    cx: u32,
    cy: u32,
    width: u32,
    height: u32,
    radius: i32,
) -> (t: StructureTensor)
    requires
        frame.wf(),
        frame.width >= width,
        frame.height >= height,
    ensures
        t == tensor_at(
            fpu,
            frame,
            cx as int,
            cy as int,
            width as int,
            height as int,
            radius as int,
        ),
{
    let (side, area) = window_of(radius);
    let mut ixx: u64 = WIDE_ZERO;
    let mut ixy: u64 = WIDE_ZERO;
    let mut iyy: u64 = WIDE_ZERO;
    let mut count: u64 = 0;
    let mut k: u64 = 0;
    while k < area
        invariant
            k <= area,
            count <= k,
            side == window_side(radius as int),
            area == window_area(radius as int),
            frame.wf(),
            frame.width >= width,
            frame.height >= height,
            (GradientSums { xx: ixx, xy: ixy, yy: iyy, count: count as nat }) == gradient_sums(
                fpu,
                frame,
                cx as int,
                cy as int,
                width as int,
                height as int,
                radius as int,
                k as nat,
            ),
        decreases area - k,
    {
        proof {
            lemma_window(k as int, radius as int);
        }
        let sx: i64 = cx as i64 + (k % side) as i64 - radius as i64;
        let sy: i64 = cy as i64 + (k / side) as i64 - radius as i64;
        if sx >= 1 && sy >= 1 && sx < width as i64 - 1 && sy < height as i64 - 1 {
            let x: u32 = sx as u32;
            let y: u32 = sy as u32;
            let l_left = read_luminance(fpu, frame, x - 1, y);
            let l_right = read_luminance(fpu, frame, x + 1, y);
            let l_up = read_luminance(fpu, frame, x, y - 1);
            let l_down = read_luminance(fpu, frame, x, y + 1);
            let gx = fpu.sub(l_right, l_left);
            let gy = fpu.sub(l_down, l_up);
            ixx = fpu.wide_add(ixx, fpu.widen(fpu.mul(gx, gx)));
            ixy = fpu.wide_add(ixy, fpu.widen(fpu.mul(gx, gy)));
            iyy = fpu.wide_add(iyy, fpu.widen(fpu.mul(gy, gy)));
            count = count + 1;
        }
        k = k + 1;
    }
    if count > 0 {
        let n = fpu.wide_from_u64(count);
        StructureTensor {
            ixx: fpu.narrow(fpu.wide_div(ixx, n)),
            ixy: fpu.narrow(fpu.wide_div(ixy, n)),
            iyy: fpu.narrow(fpu.wide_div(iyy, n)),
        }
    } else {
        StructureTensor { ixx: ZERO, ixy: ZERO, iyy: ZERO }
    }
}

/// The eigenvalues and the dominant angle of a structure tensor: everything zero where the trace
/// is negligible; else the eigenvalues held to zero and above, the smaller not above the larger.
pub open spec fn eigen_of<F: Fn(FloatOp) -> u64>(
    fpu: &FloatUnit<F>,
    t: StructureTensor,
) -> EigenDecomp {
    let trace = fpu.add(t.ixx, t.iyy);
    let apart = fpu.sub(t.ixx, t.iyy);
    let root = fpu.sqrt(
        fpu.add(fpu.mul(apart, apart), fpu.mul(fpu.mul(FOUR, t.ixy), t.ixy)),
    );
    let e1 = max(fpu.mul(fpu.add(trace, root), HALF), ZERO);
    let e2 = min(max(fpu.mul(fpu.sub(trace, root), HALF), ZERO), e1);
    let angle = if lt(NEGLIGIBLE, abs(t.ixy)) {
        fpu.atan2(fpu.sub(e1, t.ixx), t.ixy)
    } else if le(t.iyy, t.ixx) {
        ZERO
    } else {
        fpu.mul(PI, HALF)
    };
    if lt(abs(trace), NEGLIGIBLE) {
        EigenDecomp { e1: ZERO, e2: ZERO, angle: ZERO }
    } else {
        EigenDecomp { e1, e2, angle }
    }
}

/// Eigen decomposition of a symmetric matrix `[ixx, ixy; ixy, iyy]`.
///
/// Returns the eigenvalues, `e1 >= e2`, and the angle of the dominant eigenvector.
pub fn eigen_decompose_2x2<F: Fn(FloatOp) -> u64>(
    fpu: &FloatUnit<F>,
    tensor: &StructureTensor,
) -> (r: EigenDecomp)
    ensures
        r == eigen_of(fpu, *tensor),
{
    let a = tensor.ixx;
    let b = tensor.ixy;
    let c = tensor.iyy;
    let trace = fpu.add(a, c);
    if lt(abs(trace), NEGLIGIBLE) {
        return EigenDecomp { e1: ZERO, e2: ZERO, angle: ZERO };
    }
    let apart = fpu.sub(a, c);
    let discriminant = fpu.sqrt(fpu.add(fpu.mul(apart, apart), fpu.mul(fpu.mul(FOUR, b), b)));
    let e1 = max(fpu.mul(fpu.add(trace, discriminant), HALF), ZERO);
    let e2 = min(max(fpu.mul(fpu.sub(trace, discriminant), HALF), ZERO), e1);
    let angle = if lt(NEGLIGIBLE, abs(b)) {
        fpu.atan2(fpu.sub(e1, a), b)
    } else if le(c, a) {
        // Horizontal edge.
        ZERO
    } else {
        // Vertical edge.
        fpu.mul(PI, HALF)
    };
    EigenDecomp { e1, e2, angle }
}

/// One channel of a bilinear sample between four pixels.
pub open spec fn mix<F: Fn(FloatOp) -> u64>(
    fpu: &FloatUnit<F>,
    p00: u32,
    p10: u32,
    p01: u32,
    p11: u32,
    fx: u32,
    fy: u32,
) -> u32 {
    let top = fpu.add(fpu.mul(p00, fpu.sub(ONE, fx)), fpu.mul(p10, fx));
    let bottom = fpu.add(fpu.mul(p01, fpu.sub(ONE, fx)), fpu.mul(p11, fx));
    fpu.add(fpu.mul(top, fpu.sub(ONE, fy)), fpu.mul(bottom, fy))
}

/// One channel of a bilinear sample between four pixels.
pub(crate) fn blend<F: Fn(FloatOp) -> u64>(
    fpu: &FloatUnit<F>,
    p00: u32,
    p10: u32,
    p01: u32,
    p11: u32,
    fx: u32,
    fy: u32,
) -> (r: u32)
    ensures
        r == mix(fpu, p00, p10, p01, p11, fx, fy),
{
    let top = fpu.add(fpu.mul(p00, fpu.sub(ONE, fx)), fpu.mul(p10, fx));
    let bottom = fpu.add(fpu.mul(p01, fpu.sub(ONE, fx)), fpu.mul(p11, fx));
    fpu.add(fpu.mul(top, fpu.sub(ONE, fy)), fpu.mul(bottom, fy))
}

/// `v` held to the positions 0 to `len - 1`.
pub open spec fn held(v: int, len: int) -> int {
    if v < 0 {
        0
    } else if v > len - 1 {
        len - 1
    } else {
        v
    }
}

/// `v` held to the positions of a line that is not empty.
pub(crate) fn hold(v: i64, len: u32) -> (r: u32)
    requires
        len > 0,
    ensures
        r == held(v as int, len as int),
        r < len,
{
    if v < 0 {
        0
    } else if v > len as i64 - 1 {
        len - 1
    } else {
        v as u32
    }
}

/// The bilinear sample of channel `c` at (`x`, `y`); positions beyond the borders are held to them.
pub open spec fn sample_at<F: Fn(FloatOp) -> u64>(
    fpu: &FloatUnit<F>,
    frame: &RgbaFrame,
    x: u32,
    y: u32,
    width: int,
    height: int,
    c: int,
) -> u32 {
    let x0 = fpu.to_i32(fpu.floor(x));
    let y0 = fpu.to_i32(fpu.floor(y));
    let (xa, xb) = (held(x0 as int, width), held(x0 + 1, width));
    let (ya, yb) = (held(y0 as int, height), held(y0 + 1, height));
    mix(
        fpu,
        frame.at(xa, ya, c),
        frame.at(xb, ya, c),
        frame.at(xa, yb, c),
        frame.at(xb, yb, c),
        fpu.sub(x, fpu.from_i32(x0)),
        fpu.sub(y, fpu.from_i32(y0)),
    )
}

/// The bilinear sample of all three channels at (`x`, `y`).
pub open spec fn color_at<F: Fn(FloatOp) -> u64>(
    fpu: &FloatUnit<F>,
    frame: &RgbaFrame,
    x: u32,
    y: u32,
    width: int,
    height: int,
) -> Color {
    Color {
        red: sample_at(fpu, frame, x, y, width, height, 0),
        green: sample_at(fpu, frame, x, y, width, height, 1),
        blue: sample_at(fpu, frame, x, y, width, height, 2),
    }
}

/// The bilinear sample of a frame at (`x`, `y`).
fn bilinear_sample_rgb<F: Fn(FloatOp) -> u64>(
    fpu: &FloatUnit<F>,
    frame: &RgbaFrame,
    x: u32,
    y: u32,
    width: u32,
    height: u32,
) -> (r: Color)
    requires
        frame.wf(),
        0 < width <= frame.width,
        0 < height <= frame.height,
    ensures
        r == color_at(fpu, frame, x, y, width as int, height as int),
{
    let x0 = fpu.to_i32(fpu.floor(x));
    let y0 = fpu.to_i32(fpu.floor(y));
    let fx = fpu.sub(x, fpu.from_i32(x0));
    let fy = fpu.sub(y, fpu.from_i32(y0));
    let xa = hold(x0 as i64, width);
    let xb = hold(x0 as i64 + 1, width);
    let ya = hold(y0 as i64, height);
    let yb = hold(y0 as i64 + 1, height);
    Color {
        red: blend(
            fpu,
            frame.get(xa, ya, 0),
            frame.get(xb, ya, 0),
            frame.get(xa, yb, 0),
            frame.get(xb, yb, 0),
            fx,
            fy,
        ),
        green: blend(
            fpu,
            frame.get(xa, ya, 1),
            frame.get(xb, ya, 1),
            frame.get(xa, yb, 1),
            frame.get(xb, yb, 1),
            fx,
            fy,
        ),
        blue: blend(
            fpu,
            frame.get(xa, ya, 2),
            frame.get(xb, ya, 2),
            frame.get(xa, yb, 2),
            frame.get(xb, yb, 2),
            fx,
            fy,
        ),
    }
}

/// The weight of a sample at the offset (`dx`, `dy`) in kernel coordinates.
pub open spec fn kernel_weight<F: Fn(FloatOp) -> u64>(
    fpu: &FloatUnit<F>,
    params: SkrFusionParams,
    dx: u32,
    dy: u32,
    eigen: EigenDecomp,
) -> u32 {
    let e1 = max(eigen.e1, MILLIONTH);
    let e2 = max(eigen.e2, MILLIONTH);
    let anisotropy = clamp(fpu.div(fpu.sub(e1, e2), fpu.add(e1, e2)), ZERO, ONE);
    let factor = fpu.add(ONE, fpu.mul(params.stretch, anisotropy));
    let r1 = fpu.mul(params.kernel_sigma, factor);
    let r2 = fpu.div(params.kernel_sigma, max(factor, MILLIONTH));
    let distance = fpu.add(
        fpu.div(fpu.mul(dx, dx), fpu.mul(r1, r1)),
        fpu.div(fpu.mul(dy, dy), fpu.mul(r2, r2)),
    );
    fpu.div(
        fpu.exp(fpu.mul(MINUS_HALF, distance)),
        fpu.mul(fpu.mul(fpu.mul(TWO, PI), r1), r2),
    )
}

/// What the samples around one output pixel are weighted by.
#[derive(Clone, Copy)]
pub struct Site {
    /// Column of the pixel in the reference frame.
    pub rx: u32,
    /// Row of the pixel in the reference frame.
    pub ry: u32,
    /// Local structure.
    pub eigen: EigenDecomp,
    /// Columns of the reference frame.
    pub width: u32,
    /// Rows of the reference frame.
    pub height: u32,
}

/// Whether the sample position lies outside of the reference frame.
pub open spec fn is_outside<F: Fn(FloatOp) -> u64>(
    fpu: &FloatUnit<F>,
    site: Site,
    sx: u32,
    sy: u32,
) -> bool {
    ||| lt(sx, ZERO)
    ||| lt(sy, ZERO)
    ||| le(fpu.sub(fpu.from_u64(site.width as u64), ONE), sx)
    ||| le(fpu.sub(fpu.from_u64(site.height as u64), ONE), sy)
}

/// The smaller of two positions.
pub open spec fn least(a: int, b: int) -> int {
    if a < b {
        a
    } else {
        b
    }
}

/// How still the pixel nearest to the sample position is; full without a mask.
pub open spec fn stillness<F: Fn(FloatOp) -> u64>(
    fpu: &FloatUnit<F>,
    mask: Option<&MotionMask>,
    site: Site,
    sx: u32,
    sy: u32,
) -> u32 {
    match mask {
        Some(m) => m.at(
            least(fpu.to_u32(fpu.round(sx)) as int, site.width - 1),
            least(fpu.to_u32(fpu.round(sy)) as int, site.height - 1),
        ),
        None => ONE,
    }
}

/// The sums with the sample of `frame` at the offset (`dx`, `dy`) added, unless it lies outside or
/// its weight is negligible.
pub open spec fn with_sample<F: Fn(FloatOp) -> u64>(
    fpu: &FloatUnit<F>,
    params: SkrFusionParams,
    mask: Option<&MotionMask>,
    site: Site,
    frame: &RgbaFrame,
    dx: i32,
    dy: i32,
    sums: SampleSums,
) -> SampleSums {
    let cos_a = fpu.cos(site.eigen.angle);
    let sin_a = fpu.sin(site.eigen.angle);
    let sx = fpu.add(site.rx, fpu.from_i32(dx));
    let sy = fpu.add(site.ry, fpu.from_i32(dy));
    let along = fpu.add(fpu.mul(fpu.from_i32(dx), cos_a), fpu.mul(fpu.from_i32(dy), sin_a));
    let across = fpu.add(
        fpu.mul(fpu.from_i32((-dx) as i32), sin_a),
        fpu.mul(fpu.from_i32(dy), cos_a),
    );
    let spatial = kernel_weight(fpu, params, along, across, site.eigen);
    let still = stillness(fpu, mask, site, sx, sy);
    if is_outside(fpu, site, sx, sy) || lt(spatial, MILLIONTH) || lt(still, MILLIONTH) {
        sums
    } else {
        let weight = fpu.wide_mul(fpu.widen(spatial), fpu.widen(still));
        let color = color_at(fpu, frame, sx, sy, site.width as int, site.height as int);
        SampleSums {
            red: fpu.wide_add(sums.red, fpu.wide_mul(fpu.widen(color.red), weight)),
            green: fpu.wide_add(sums.green, fpu.wide_mul(fpu.widen(color.green), weight)),
            blue: fpu.wide_add(sums.blue, fpu.wide_mul(fpu.widen(color.blue), weight)),
            weight: fpu.wide_add(sums.weight, weight),
        }
    }
}

/// The sums after the first `k` positions of the window in `frame`, row after row.
pub open spec fn window_sums<F: Fn(FloatOp) -> u64>(
    fpu: &FloatUnit<F>,
    params: SkrFusionParams,
    mask: Option<&MotionMask>,
    site: Site,
    frame: &RgbaFrame,
    radius: int,
    start: SampleSums,
    k: nat,
) -> SampleSums
    decreases k,
{
    if k == 0 {
        start
    } else {
        with_sample(
            fpu,
            params,
            mask,
            site,
            frame,
            ((k - 1) % window_side(radius) - radius) as i32,
            ((k - 1) / window_side(radius) - radius) as i32,
            window_sums(fpu, params, mask, site, frame, radius, start, (k - 1) as nat),
        )
    }
}

/// No sample yet.
pub open spec fn no_samples() -> SampleSums {
    SampleSums { red: WIDE_ZERO, green: WIDE_ZERO, blue: WIDE_ZERO, weight: WIDE_ZERO }
}

/// The sums after the windows of the first `n` frames.
pub open spec fn frame_sums<F: Fn(FloatOp) -> u64>(
    fpu: &FloatUnit<F>,
    params: SkrFusionParams,
    mask: Option<&MotionMask>,
    site: Site,
    frames: Seq<RgbaFrame>,
    radius: int,
    n: nat,
) -> SampleSums
    decreases n,
{
    if n == 0 {
        no_samples()
    } else {
        window_sums(
            fpu,
            params,
            mask,
            site,
            &frames[n - 1],
            radius,
            frame_sums(fpu, params, mask, site, frames, radius, (n - 1) as nat),
            window_area(radius),
        )
    }
}

/// How far the kernel reaches.
pub open spec fn kernel_radius<F: Fn(FloatOp) -> u64>(
    fpu: &FloatUnit<F>,
    params: SkrFusionParams,
) -> i32 {
    fpu.to_i32(fpu.ceil(fpu.mul(fpu.mul(params.kernel_sigma, THREE), fpu.sqrt(params.stretch))))
}

/// How far the window of a structure tensor reaches.
pub open spec fn tensor_radius<F: Fn(FloatOp) -> u64>(
    fpu: &FloatUnit<F>,
    params: SkrFusionParams,
) -> i32 {
    fpu.to_i32(fpu.ceil(fpu.mul(params.structure_sigma, TWO)))
}

/// The color of one output pixel: the weighted mean of the samples, or the sample of the reference
/// frame where their total weight is negligible.
pub open spec fn fused_color<F: Fn(FloatOp) -> u64>(
    fpu: &FloatUnit<F>,
    params: SkrFusionParams,
    mask: Option<&MotionMask>,
    site: Site,
    frames: Seq<RgbaFrame>,
) -> Color {
    let sums = frame_sums(
        fpu,
        params,
        mask,
        site,
        frames,
        kernel_radius(fpu, params) as int,
        frames.len(),
    );
    if wide_lt(sums.weight, WIDE_1E_10) {
        color_at(fpu, &frames[0], site.rx, site.ry, site.width as int, site.height as int)
    } else {
        Color {
            red: fpu.narrow(fpu.wide_div(sums.red, sums.weight)),
            green: fpu.narrow(fpu.wide_div(sums.green, sums.weight)),
            blue: fpu.narrow(fpu.wide_div(sums.blue, sums.weight)),
        }
    }
}

/// The size of a side of the output.
pub open spec fn output_side<F: Fn(FloatOp) -> u64>(
    fpu: &FloatUnit<F>,
    params: SkrFusionParams,
    side: u32,
) -> u32 {
    fpu.to_u32(fpu.mul(fpu.from_u64(side as u64), params.output_scale))
}

/// The site of the output pixel at column `x` of row `y`, seen in a reference frame of which
/// `width` columns and `height` rows are used.
pub open spec fn site_of<F: Fn(FloatOp) -> u64>(
    fpu: &FloatUnit<F>,
    params: SkrFusionParams,
    frame: &RgbaFrame,
    width: u32,
    height: u32,
    x: int,
    y: int,
) -> Site {
    let rx = fpu.div(fpu.from_u64(x as u64), params.output_scale);
    let ry = fpu.div(fpu.from_u64(y as u64), params.output_scale);
    let tensor = tensor_at(
        fpu,
        frame,
        held(fpu.to_i32(fpu.round(rx)) as int, width as int),
        held(fpu.to_i32(fpu.round(ry)) as int, height as int),
        width as int,
        height as int,
        tensor_radius(fpu, params) as int,
    );
    Site { rx, ry, eigen: eigen_of(fpu, tensor), width, height }
}

/// Whether the frames can be fused: all reach as far as the first, which can be counted, as the
/// output can; and an output with pixels comes of frames with pixels.
pub open spec fn fusable<F: Fn(FloatOp) -> u64>(
    fpu: &FloatUnit<F>,
    params: SkrFusionParams,
    frames: Seq<RgbaFrame>,
) -> bool {
    frames.len() >= 2 ==> {
        let (width, height) = (frames[0].width, frames[0].height);
        let out_w = output_side(fpu, params, width);
        let out_h = output_side(fpu, params, height);
        &&& all_reach(frames, width, height)
        &&& width * height <= i32::MAX
        &&& out_w * out_h <= u32::MAX
        &&& out_w * out_h * 4 <= usize::MAX
        &&& out_w * out_h > 0 ==> width * height > 0
    }
}

/// Whether `out` is the fusion of the frames.
pub open spec fn is_fusion<F: Fn(FloatOp) -> u64>(
    fpu: &FloatUnit<F>,
    params: SkrFusionParams,
    frames: Seq<RgbaFrame>,
    mask: Option<&MotionMask>,
    out: RgbaFrame,
) -> bool {
    let (width, height) = (frames[0].width, frames[0].height);
    &&& out.wf()
    &&& out.width == output_side(fpu, params, width)
    &&& out.height == output_side(fpu, params, height)
    &&& forall|x: int, y: int, c: int|
        0 <= x < out.width && 0 <= y < out.height && 0 <= c < 4 ==> #[trigger] out.at(x, y, c)
            == fused_color(
            fpu,
            params,
            mask,
            site_of(fpu, params, &frames[0], width, height, x, y),
            frames,
        ).channel(c)
}

impl SkrFusion {
    /// An engine with the given parameters.
    pub fn new(params: SkrFusionParams) -> (r: Self)
        ensures
            r.params == params,
    {
        SkrFusion { params }
    }

    /// The weight of a sample at a given offset from the kernel center: an anisotropic Gaussian
    /// aligned with the local image structure.
    fn steering_kernel_weight<F: Fn(FloatOp) -> u64>(
        &self,
        fpu: &FloatUnit<F>,
        dx: u32,
        dy: u32,
        eigen: &EigenDecomp,
    ) -> (w: u32)
        ensures
            w == kernel_weight(fpu, self.params, dx, dy, *eigen),
    {
        let e1 = max(eigen.e1, MILLIONTH);
        let e2 = max(eigen.e2, MILLIONTH);
        let anisotropy = clamp(fpu.div(fpu.sub(e1, e2), fpu.add(e1, e2)), ZERO, ONE);
        let factor = fpu.add(ONE, fpu.mul(self.params.stretch, anisotropy));
        let r1 = fpu.mul(self.params.kernel_sigma, factor);
        let r2 = fpu.div(self.params.kernel_sigma, max(factor, MILLIONTH));
        let distance = fpu.add(
            fpu.div(fpu.mul(dx, dx), fpu.mul(r1, r1)),
            fpu.div(fpu.mul(dy, dy), fpu.mul(r2, r2)),
        );
        let w = fpu.exp(fpu.mul(MINUS_HALF, distance));
        fpu.div(w, fpu.mul(fpu.mul(fpu.mul(TWO, PI), r1), r2))
    }

    /// Add one sample to the sums.
    fn add_sample<F: Fn(FloatOp) -> u64>(
        &self,
        fpu: &FloatUnit<F>,
        mask: Option<&MotionMask>,
        site: Site,
        frame: &RgbaFrame,
        dx: i32,
        dy: i32,
        sums: SampleSums,
    ) -> (r: SampleSums)
        requires
            frame.wf(),
            0 < site.width <= frame.width,
            0 < site.height <= frame.height,
            mask matches Some(m) ==> m.wf(),
            dx > i32::MIN,
        ensures
            r == with_sample(fpu, self.params, mask, site, frame, dx, dy, sums),
    {
        let sx = fpu.add(site.rx, fpu.from_i32(dx));
        let sy = fpu.add(site.ry, fpu.from_i32(dy));
        if lt(sx, ZERO) || lt(sy, ZERO) || le(
            fpu.sub(fpu.from_u64(site.width as u64), ONE),
            sx,
        ) || le(fpu.sub(fpu.from_u64(site.height as u64), ONE), sy) {
            return sums;
        }
        // Turn the offset into the coordinates of the kernel.
        let cos_a = fpu.cos(site.eigen.angle);
        let sin_a = fpu.sin(site.eigen.angle);
        let rotated_dx = fpu.add(
            fpu.mul(fpu.from_i32(dx), cos_a),
            fpu.mul(fpu.from_i32(dy), sin_a),
        );
        let rotated_dy = fpu.add(
            fpu.mul(fpu.from_i32(-dx), sin_a),
            fpu.mul(fpu.from_i32(dy), cos_a),
        );
        let spatial_weight = self.steering_kernel_weight(fpu, rotated_dx, rotated_dy, &site.eigen);
        if lt(spatial_weight, MILLIONTH) {
            return sums;
        }
        let motion_weight = match mask {
            Some(m) => {
                let mx = fpu.to_u32(fpu.round(sx));
                let my = fpu.to_u32(fpu.round(sy));
                m.get(hold(mx as i64, site.width), hold(my as i64, site.height))
            },
            None => ONE,
        };
        if lt(motion_weight, MILLIONTH) {
            return sums;
        }
        let weight = fpu.wide_mul(fpu.widen(spatial_weight), fpu.widen(motion_weight));
        let color = bilinear_sample_rgb(fpu, frame, sx, sy, site.width, site.height);
        SampleSums {
            red: fpu.wide_add(sums.red, fpu.wide_mul(fpu.widen(color.red), weight)),
            green: fpu.wide_add(sums.green, fpu.wide_mul(fpu.widen(color.green), weight)),
            blue: fpu.wide_add(sums.blue, fpu.wide_mul(fpu.widen(color.blue), weight)),
            weight: fpu.wide_add(sums.weight, weight),
        }
    }

    /// Fuse one output pixel: a weighted mean (regression of order zero) with the weights of the
    /// steering kernel.
    fn fuse_pixel<F: Fn(FloatOp) -> u64>(
        &self,
        fpu: &FloatUnit<F>,
        frames: &Vec<RgbaFrame>,
        mask: Option<&MotionMask>,
        site: Site,
    ) -> (color: Color)
        requires
            frames@.len() > 0,
            all_reach(frames@, site.width, site.height),
            0 < site.width,
            0 < site.height,
            mask matches Some(m) ==> m.wf(),
        ensures
            color == fused_color(fpu, self.params, mask, site, frames@),
    {
        let radius = fpu.to_i32(
            fpu.ceil(
                fpu.mul(fpu.mul(self.params.kernel_sigma, THREE), fpu.sqrt(self.params.stretch)),
            ),
        );
        let (side, area) = window_of(radius);
        let mut sums = SampleSums {
            red: WIDE_ZERO,
            green: WIDE_ZERO,
            blue: WIDE_ZERO,
            weight: WIDE_ZERO,
        };
        let mut f: usize = 0;
        while f < frames.len()
            invariant
                f <= frames@.len(),
                side == window_side(radius as int),
                area == window_area(radius as int),
                all_reach(frames@, site.width, site.height),
                0 < site.width,
                0 < site.height,
                mask matches Some(m) ==> m.wf(),
                sums == frame_sums(
                    fpu,
                    self.params,
                    mask,
                    site,
                    frames@,
                    radius as int,
                    f as nat,
                ),
            decreases frames@.len() - f,
        {
            let ghost start = sums;
            let frame = &frames[f];
            let mut k: u64 = 0;
            while k < area
                invariant
                    k <= area,
                    side == window_side(radius as int),
                    area == window_area(radius as int),
                    frame.wf(),
                    0 < site.width <= frame.width,
                    0 < site.height <= frame.height,
                    mask matches Some(m) ==> m.wf(),
                    sums == window_sums(
                        fpu,
                        self.params,
                        mask,
                        site,
                        frame,
                        radius as int,
                        start,
                        k as nat,
                    ),
                decreases area - k,
            {
                proof {
                    lemma_window(k as int, radius as int);
                }
                let dx: i32 = ((k % side) as i64 - radius as i64) as i32;
                let dy: i32 = ((k / side) as i64 - radius as i64) as i32;
                sums = self.add_sample(fpu, mask, site, frame, dx, dy, sums);
                k = k + 1;
            }
            f = f + 1;
        }
        if wide_lt(sums.weight, WIDE_1E_10) {
            return bilinear_sample_rgb(
                fpu,
                &frames[0],
                site.rx,
                site.ry,
                site.width,
                site.height,
            );
        }
        Color {
            red: fpu.narrow(fpu.wide_div(sums.red, sums.weight)),
            green: fpu.narrow(fpu.wide_div(sums.green, sums.weight)),
            blue: fpu.narrow(fpu.wide_div(sums.blue, sums.weight)),
        }
    }

    /// The structure tensors of all pixels of the reference frame, row after row.
    ///
    /// In flat regions both eigenvalues are about zero; on edges the first is far above the second;
    /// on corners and texture both are positive.
    pub fn compute_structure_tensors<F: Fn(FloatOp) -> u64>(
        &self,
        fpu: &FloatUnit<F>,
        frame: &RgbaFrame,
    ) -> (tensors: Vec<StructureTensor>)
        requires
            frame.wf(),
        ensures
            are_tensors(fpu, frame, tensor_radius(fpu, self.params) as int, tensors@),
    {
        let radius = fpu.to_i32(fpu.ceil(fpu.mul(self.params.structure_sigma, TWO)));
        proof {
            assert(frame.samples.len() == frame.samples@.len());
        }
        let count: usize = frame.width as usize * frame.height as usize;
        let mut tensors: Vec<StructureTensor> = Vec::with_capacity(count);
        let mut i: usize = 0;
        while i < count
            invariant
                i <= count,
                count == frame.width * frame.height,
                frame.wf(),
                tensors@.len() == i,
                radius == tensor_radius(fpu, self.params),
                forall|k: int|
                    0 <= k < i ==> #[trigger] tensors@[k] == tensor_at(
                        fpu,
                        frame,
                        k % (frame.width as int),
                        k / (frame.width as int),
                        frame.width as int,
                        frame.height as int,
                        radius as int,
                    ),
            decreases count - i,
        {
            proof {
                lemma_index_pixel(i as int, frame.width as int, frame.height as int);
            }
            let x: u32 = (i % frame.width as usize) as u32;
            let y: u32 = (i / frame.width as usize) as u32;
            tensors.push(tensor_from(fpu, frame, x, y, frame.width, frame.height, radius));
            i = i + 1;
        }
        tensors
    }

    /// Whether the frames can be fused by [`SkrFusion::fuse`].
    pub fn can_fuse<F: Fn(FloatOp) -> u64>(
        &self,
        fpu: &FloatUnit<F>,
        frames: &Vec<RgbaFrame>,
    ) -> (r: bool)
        ensures
            r == fusable(fpu, self.params, frames@),
    {
        if frames.len() < 2 {
            return true;
        }
        let width = frames[0].width;
        let height = frames[0].height;
        let scale = self.params.output_scale;
        let out_w = fpu.to_u32(fpu.mul(fpu.from_u64(width as u64), scale));
        let out_h = fpu.to_u32(fpu.mul(fpu.from_u64(height as u64), scale));
        proof {
            lemma_pixel_product(width, height);
            lemma_pixel_product(out_w, out_h);
        }
        let pixels: u64 = width as u64 * height as u64;
        let out_pixels: u64 = out_w as u64 * out_h as u64;
        if pixels > i32::MAX as u64 || out_pixels > u32::MAX as u64 || out_pixels * 4
            > usize::MAX as u64 || (out_pixels > 0 && pixels == 0) {
            return false;
        }
        check_reach(frames, width, height)
    }

    /// Fuse aligned frames into a single image at the output scale.
    ///
    /// No frame gives an empty image, and a single one is returned as it is.
    pub fn fuse<F: Fn(FloatOp) -> u64>(
        &self,
        fpu: &FloatUnit<F>,
        frames: &Vec<RgbaFrame>,
        motion_mask: Option<&MotionMask>,
    ) -> (out: RgbaFrame)
        requires
            motion_mask matches Some(m) ==> m.wf(),
            fusable(fpu, self.params, frames@),
        ensures
            frames@.len() == 0 ==> out.width == 0 && out.height == 0 && out.samples@.len() == 0,
            frames@.len() == 1 ==> out.same_as(&frames@[0]),
            frames@.len() >= 2 ==> is_fusion(fpu, self.params, frames@, motion_mask, out),
    {
        if frames.len() == 0 {
            return RgbaFrame { width: 0, height: 0, samples: Vec::new() };
        }
        if frames.len() == 1 {
            return frames[0].copied();
        }
        let width = frames[0].width;
        let height = frames[0].height;
        let scale = self.params.output_scale;
        let out_w = fpu.to_u32(fpu.mul(fpu.from_u64(width as u64), scale));
        let out_h = fpu.to_u32(fpu.mul(fpu.from_u64(height as u64), scale));
        let tensors = self.compute_structure_tensors(fpu, &frames[0]);
        let count: usize = (out_w * out_h) as usize;
        let mut samples: Vec<u32> = Vec::with_capacity(count * 4);
        let mut i: usize = 0;
        while i < count
            invariant
                i <= count,
                count == out_w * out_h,
                count * 4 <= usize::MAX,
                count > 0 ==> width * height > 0,
                width * height <= i32::MAX,
                frames@.len() > 0,
                width == frames@[0].width,
                height == frames@[0].height,
                all_reach(frames@, width, height),
                motion_mask matches Some(m) ==> m.wf(),
                scale == self.params.output_scale,
                tensors@.len() == width * height,
                forall|k: int|
                    0 <= k < tensors@.len() ==> #[trigger] tensors@[k] == tensor_at(
                        fpu,
                        &frames@[0],
                        k % (width as int),
                        k / (width as int),
                        width as int,
                        height as int,
                        tensor_radius(fpu, self.params) as int,
                    ),
                samples@.len() == i * 4,
                forall|k: int, c: int|
                    0 <= k < i && 0 <= c < 4 ==> #[trigger] samples@[k * 4 + c] == fused_color(
                        fpu,
                        self.params,
                        motion_mask,
                        site_of(
                            fpu,
                            self.params,
                            &frames@[0],
                            width,
                            height,
                            k % (out_w as int),
                            k / (out_w as int),
                        ),
                        frames@,
                    ).channel(c),
            decreases count - i,
        {
            proof {
                lemma_index_pixel(i as int, out_w as int, out_h as int);
                lemma_index_pixel(0, width as int, height as int);
            }
            let rx = fpu.div(fpu.from_u64((i % out_w as usize) as u64), scale);
            let ry = fpu.div(fpu.from_u64((i / out_w as usize) as u64), scale);
            let ix = hold(fpu.to_i32(fpu.round(rx)) as i64, width);
            let iy = hold(fpu.to_i32(fpu.round(ry)) as i64, height);
            proof {
                lemma_pixel_index(ix as int, iy as int, width as int, height as int);
            }
            let tensor = tensors[iy as usize * width as usize + ix as usize];
            let eigen = eigen_decompose_2x2(fpu, &tensor);
            let site = Site { rx, ry, eigen, width, height };
            let color = self.fuse_pixel(fpu, frames, motion_mask, site);
            let ghost before = samples@;
            samples.push(color.red);
            samples.push(color.green);
            samples.push(color.blue);
            samples.push(ONE);
            assert forall|k: int, c: int| 0 <= k < i + 1 && 0 <= c < 4 implies #[trigger] samples@[k * 4
                + c] == fused_color(
                fpu,
                self.params,
                motion_mask,
                site_of(
                    fpu,
                    self.params,
                    &frames@[0],
                    width,
                    height,
                    k % (out_w as int),
                    k / (out_w as int),
                ),
                frames@,
            ).channel(c) by {
                if k < i {
                    assert(samples@[k * 4 + c] == before[k * 4 + c]);
                }
            }
            i = i + 1;
        }
        let out = RgbaFrame { width: out_w, height: out_h, samples };
        assert forall|x: int, y: int, c: int|
            0 <= x < out.width && 0 <= y < out.height && 0 <= c < 4 implies #[trigger] out.at(x, y, c)
            == fused_color(
            fpu,
            self.params,
            motion_mask,
            site_of(fpu, self.params, &frames@[0], width, height, x, y),
            frames@,
        ).channel(c) by {
            lemma_pixel_index(x, y, out_w as int, out_h as int);
        }
        out
    }
}

/// The value that lies `i` of `w` parts on the way right and `j` of `w` parts on the way down
/// between four neighbours, counted in parts of an area of `w` by `w`.
pub open spec fn between(w: int, i: int, j: int, n00: int, n10: int, n01: int, n11: int) -> int {
    (n00 * (w - i) + n10 * i) * (w - j) + (n01 * (w - i) + n11 * i) * j
}

proof fn lemma_share(a: int, b: int, i: int, w: int, limit: int)
    requires
        0 <= i <= w,
        -limit <= a <= limit,
        -limit <= b <= limit,
    ensures
        -(limit * w) <= a * (w - i) + b * i <= limit * w,
        -(limit * w) <= a * (w - i) <= limit * w,
        -(limit * w) <= b * i <= limit * w,
{
    assert(-(limit * (w - i)) <= a * (w - i) <= limit * (w - i)) by (nonlinear_arith)
        requires
            -limit <= a <= limit,
            0 <= w - i,
    ;
    assert(-(limit * i) <= b * i <= limit * i) by (nonlinear_arith)
        requires
            -limit <= b <= limit,
            0 <= i,
    ;
    assert(limit * (w - i) + limit * i == limit * w) by (nonlinear_arith);
    assert(limit * (w - i) <= limit * w && limit * i <= limit * w) by (nonlinear_arith)
        requires
            0 <= i <= w,
            0 <= limit,
    ;
}

proof fn lemma_few_parts(s: nat)
    requires
        s <= 12,
    ensures
        1 <= pow2(s) <= 4096,
{
    vstd::arithmetic::power2::lemma2_to64();
    vstd::arithmetic::power2::lemma_pow2_pos(s);
    if s < 12 {
        vstd::arithmetic::power2::lemma_pow2_strictly_increases(s, 12);
    }
}

/// A bilinear blend of four numbers, where all of it fits the digits.
pub proof fn lemma_mix<F: Fn(FloatOp) -> u64>(
    fpu: &FloatUnit<F>,
    p00: u32,
    p10: u32,
    p01: u32,
    p11: u32,
    fx: u32,
    fy: u32,
    n00: int,
    n10: int,
    n01: int,
    n11: int,
    i: int,
    j: int,
    s: nat,
    k: nat,
    limit: int,
)
    requires
        is_exact(fpu),
        stands_for(p00, n00, k),
        stands_for(p10, n10, k),
        stands_for(p01, n01, k),
        stands_for(p11, n11, k),
        stands_for(fx, i, s),
        stands_for(fy, j, s),
        0 <= i <= pow2(s),
        0 <= j <= pow2(s),
        s <= 12,
        k + 2 * s <= 149,
        -limit <= n00 <= limit,
        -limit <= n10 <= limit,
        -limit <= n01 <= limit,
        -limit <= n11 <= limit,
        limit * pow2(s) * pow2(s) <= 0x100_0000,
    ensures
        stands_for(
            mix(fpu, p00, p10, p01, p11, fx, fy),
            between(pow2(s) as int, i, j, n00, n10, n01, n11),
            k + 2 * s,
        ),
{
    let w = pow2(s) as int;
    vstd::arithmetic::power2::lemma_pow2_pos(s);
    lemma_constants();
    lemma_finer(ONE, 1, 0, s);
    let wide = limit * w;
    lemma_few_parts(s);
    assert(limit <= wide && wide <= wide * w) by (nonlinear_arith)
        requires
            limit >= 0,
            w >= 1,
            wide == limit * w,
    ;
    lemma_share(n00, n10, i, w, limit);
    lemma_share(n01, n11, i, w, limit);
    let top = n00 * (w - i) + n10 * i;
    let bottom = n01 * (w - i) + n11 * i;
    lemma_share(top, bottom, j, w, wide);
    exact_sub(fpu, ONE, fx, w, i, s);
    exact_sub(fpu, ONE, fy, w, j, s);
    let (gx, gy) = (fpu.sub(ONE, fx), fpu.sub(ONE, fy));
    exact_mul(fpu, p00, gx, n00, w - i, k, s);
    exact_mul(fpu, p10, fx, n10, i, k, s);
    exact_mul(fpu, p01, gx, n01, w - i, k, s);
    exact_mul(fpu, p11, fx, n11, i, k, s);
    exact_add(fpu, fpu.mul(p00, gx), fpu.mul(p10, fx), n00 * (w - i), n10 * i, k + s);
    exact_add(fpu, fpu.mul(p01, gx), fpu.mul(p11, fx), n01 * (w - i), n11 * i, k + s);
    let above = fpu.add(fpu.mul(p00, gx), fpu.mul(p10, fx));
    let below = fpu.add(fpu.mul(p01, gx), fpu.mul(p11, fx));
    exact_mul(fpu, above, gy, top, w - j, k + s, s);
    exact_mul(fpu, below, fy, bottom, j, k + s, s);
    exact_add(
        fpu,
        fpu.mul(above, gy),
        fpu.mul(below, fy),
        top * (w - j),
        bottom * j,
        k + 2 * s,
    );
}

/// A bilinear sample of a frame at a position of `px` and `py` parts of a pixel, `w` of which make a
/// whole one: it lies between the four pixels around the position, which are held to the frame, as
/// far on the way as the position does.
pub proof fn samples_lie_between_pixels<F: Fn(FloatOp) -> u64>(
    fpu: &FloatUnit<F>,
    frame: &RgbaFrame,
    x: u32,
    y: u32,
    width: int,
    height: int,
    c: int,
    px: int,
    py: int,
    s: nat,
    left: int,
    right: int,
    top: int,
    bottom: int,
    n00: int,
    n10: int,
    n01: int,
    n11: int,
    k: nat,
    limit: int,
)
    requires
        is_exact(fpu),
        stands_for(x, px, s),
        stands_for(y, py, s),
        fits(px),
        fits(py),
        is_nearest(left, px / (pow2(s) as int), width),
        is_nearest(right, px / (pow2(s) as int) + 1, width),
        is_nearest(top, py / (pow2(s) as int), height),
        is_nearest(bottom, py / (pow2(s) as int) + 1, height),
        stands_for(frame.at(left, top, c), n00, k),
        stands_for(frame.at(right, top, c), n10, k),
        stands_for(frame.at(left, bottom, c), n01, k),
        stands_for(frame.at(right, bottom, c), n11, k),
        s <= 12,
        k + 2 * s <= 149,
        -limit <= n00 <= limit,
        -limit <= n10 <= limit,
        -limit <= n01 <= limit,
        -limit <= n11 <= limit,
        limit * pow2(s) * pow2(s) <= 0x100_0000,
    ensures
        stands_for(
            sample_at(fpu, frame, x, y, width, height, c),
            between(
                pow2(s) as int,
                px % (pow2(s) as int),
                py % (pow2(s) as int),
                n00,
                n10,
                n01,
                n11,
            ),
            k + 2 * s,
        ),
{
    lemma_parts(fpu, x, px, s);
    lemma_parts(fpu, y, py, s);
    vstd::arithmetic::power2::lemma_pow2_pos(s);
    let x0 = fpu.to_i32(fpu.floor(x));
    let y0 = fpu.to_i32(fpu.floor(y));
    lemma_mix(
        fpu,
        frame.at(left, top, c),
        frame.at(right, top, c),
        frame.at(left, bottom, c),
        frame.at(right, bottom, c),
        fpu.sub(x, fpu.from_i32(x0)),
        fpu.sub(y, fpu.from_i32(y0)),
        n00,
        n10,
        n01,
        n11,
        px % (pow2(s) as int),
        py % (pow2(s) as int),
        s,
        k,
        limit,
    );
}

/// A position is a whole pixel and the parts beyond it.
pub proof fn lemma_parts<F: Fn(FloatOp) -> u64>(fpu: &FloatUnit<F>, x: u32, px: int, s: nat)
    requires
        is_exact(fpu),
        stands_for(x, px, s),
        fits(px),
        s <= 12,
    ensures
        fpu.to_i32(fpu.floor(x)) == px / (pow2(s) as int),
        stands_for(fpu.sub(x, fpu.from_i32(fpu.to_i32(fpu.floor(x)))), px % (pow2(s) as int), s),
        fits(px / (pow2(s) as int)),
{
    let w = pow2(s) as int;
    vstd::arithmetic::power2::lemma_pow2_pos(s);
    exact_floor(fpu, x, px, s);
    let q = px / w;
    assert(px == q * w + px % w && 0 <= px % w < w) by {
        vstd::arithmetic::div_mod::lemma_fundamental_div_mod(px, w);
        assert(w * q == q * w) by (nonlinear_arith);
    }
    assert(-0x100_0000 <= q <= 0x100_0000) by (nonlinear_arith)
        requires
            -0x100_0000 <= px <= 0x100_0000,
            px == q * w + px % w,
            0 <= px % w < w,
            w >= 1,
    ;
    lemma_few_parts(s);
    exact_whole(fpu, fpu.floor(x), q);
    exact_from(fpu, q);
    lemma_is_finite(x, px, s);
    lemma_finer(fpu.from_i32(q as i32), q, 0, s);
    exact_sub(fpu, x, fpu.from_i32(q as i32), px, q * w, s);
}

/// A sample at a whole pixel is that pixel, held to the frame, whatever finite values lie around it.
pub proof fn samples_at_whole_pixels<F: Fn(FloatOp) -> u64>(
    fpu: &FloatUnit<F>,
    frame: &RgbaFrame,
    x: u32,
    y: u32,
    width: int,
    height: int,
    c: int,
    px: int,
    py: int,
    col: int,
    row: int,
    n: int,
    k: nat,
)
    requires
        is_exact(fpu),
        stands_for(x, px, 0),
        stands_for(y, py, 0),
        fits(px),
        fits(py),
        is_nearest(col, px, width),
        is_nearest(row, py, height),
        forall|u: int, v: int|
            0 <= u < width && 0 <= v < height ==> is_ordinary(#[trigger] frame.at(u, v, c)),
        stands_for(frame.at(col, row, c), n, k),
        fits(n),
    ensures
        stands_for(sample_at(fpu, frame, x, y, width, height, c), n, k),
{
    vstd::arithmetic::power2::lemma2_to64();
    lemma_parts(fpu, x, px, 0);
    lemma_parts(fpu, y, py, 0);
    lemma_constants();
    let fx = fpu.sub(x, fpu.from_i32(fpu.to_i32(fpu.floor(x))));
    let fy = fpu.sub(y, fpu.from_i32(fpu.to_i32(fpu.floor(y))));
    exact_sub(fpu, ONE, fx, 1, 0, 0);
    exact_sub(fpu, ONE, fy, 1, 0, 0);
    let (xb, yb) = (held(px + 1, width), held(py + 1, height));
    let (p00, p10) = (frame.at(col, row, c), frame.at(xb, row, c));
    let (p01, p11) = (frame.at(col, yb, c), frame.at(xb, yb, c));
    lemma_is_finite(p00, n, k);
    lemma_ordinary(p10);
    lemma_ordinary(p11);
    let gx = fpu.sub(ONE, fx);
    let gy = fpu.sub(ONE, fy);
    exact_mul(fpu, p00, gx, n, 1, k, 0);
    lemma_nothing(fpu, p10, fx, k);
    exact_add(fpu, fpu.mul(p00, gx), fpu.mul(p10, fx), n, 0, k);
    let above = fpu.add(fpu.mul(p00, gx), fpu.mul(p10, fx));
    exact_mul(fpu, above, gy, n, 1, k, 0);
    let (m, j) = choose|m: int, j: nat| stands_for(p01, m, j) && fits(m);
    lemma_is_finite(p01, m, j);
    exact_mul(fpu, p01, gx, m, 1, j, 0);
    lemma_nothing(fpu, p11, fx, j);
    exact_add(fpu, fpu.mul(p01, gx), fpu.mul(p11, fx), m, 0, j);
    lemma_is_finite(fpu.add(fpu.mul(p01, gx), fpu.mul(p11, fx)), m, j);
    let below = fpu.add(fpu.mul(p01, gx), fpu.mul(p11, fx));
    lemma_nothing(fpu, below, fy, k);
    exact_add(fpu, fpu.mul(above, gy), fpu.mul(below, fy), n, 0, k);
}

/// The larger eigenvalue is not below the smaller one, and the smaller one not below zero.
pub proof fn eigenvalues_are_ordered<F: Fn(FloatOp) -> u64>(
    fpu: &FloatUnit<F>,
    t: StructureTensor,
)
    ensures
        le(eigen_of(fpu, t).e2, eigen_of(fpu, t).e1),
        le(ZERO, eigen_of(fpu, t).e2),
{
}

proof fn lemma_masked_window<F: Fn(FloatOp) -> u64>(
    fpu: &FloatUnit<F>,
    params: SkrFusionParams,
    mask: MotionMask,
    site: Site,
    frame: &RgbaFrame,
    radius: int,
    start: SampleSums,
    k: nat,
)
    requires
        forall|x: int, y: int| lt(#[trigger] mask.at(x, y), MILLIONTH),
    ensures
        window_sums(fpu, params, Some(&mask), site, frame, radius, start, k) == start,
    decreases k,
{
    if k > 0 {
        lemma_masked_window(fpu, params, mask, site, frame, radius, start, (k - 1) as nat);
    }
}

proof fn lemma_masked_frames<F: Fn(FloatOp) -> u64>(
    fpu: &FloatUnit<F>,
    params: SkrFusionParams,
    mask: MotionMask,
    site: Site,
    frames: Seq<RgbaFrame>,
    radius: int,
    n: nat,
)
    requires
        forall|x: int, y: int| lt(#[trigger] mask.at(x, y), MILLIONTH),
    ensures
        frame_sums(fpu, params, Some(&mask), site, frames, radius, n) == no_samples(),
    decreases n,
{
    if n > 0 {
        lemma_masked_frames(fpu, params, mask, site, frames, radius, (n - 1) as nat);
        lemma_masked_window(
            fpu,
            params,
            mask,
            site,
            &frames[n - 1],
            radius,
            no_samples(),
            window_area(radius),
        );
    }
}

/// Where the mask leaves nothing still, only the reference frame is used: each output pixel is the
/// bilinear sample of the first frame.
pub proof fn moving_pixels_come_from_the_reference<F: Fn(FloatOp) -> u64>(
    fpu: &FloatUnit<F>,
    params: SkrFusionParams,
    mask: MotionMask,
    site: Site,
    frames: Seq<RgbaFrame>,
)
    requires
        forall|x: int, y: int| lt(#[trigger] mask.at(x, y), MILLIONTH),
    ensures
        fused_color(fpu, params, Some(&mask), site, frames) == color_at(
            fpu,
            &frames[0],
            site.rx,
            site.ry,
            site.width as int,
            site.height as int,
        ),
{
    lemma_masked_frames(
        fpu,
        params,
        mask,
        site,
        frames,
        kernel_radius(fpu, params) as int,
        frames.len(),
    );
}

/// A mask of full weight changes nothing: fusing with it is fusing without one, as long as it
/// spans the reference frame.
pub proof fn still_mask_changes_nothing<F: Fn(FloatOp) -> u64>(
    fpu: &FloatUnit<F>,
    params: SkrFusionParams,
    mask: MotionMask,
    site: Site,
    frames: Seq<RgbaFrame>,
)
    requires
        0 < site.width <= mask.width,
        0 < site.height <= mask.height,
        forall|x: int, y: int|
            0 <= x < site.width && 0 <= y < site.height ==> #[trigger] mask.at(x, y) == ONE,
    ensures
        fused_color(fpu, params, Some(&mask), site, frames) == fused_color(
            fpu,
            params,
            None,
            site,
            frames,
        ),
{
    lemma_still_frames(
        fpu,
        params,
        mask,
        site,
        frames,
        kernel_radius(fpu, params) as int,
        frames.len(),
    );
}

proof fn lemma_still_window<F: Fn(FloatOp) -> u64>(
    fpu: &FloatUnit<F>,
    params: SkrFusionParams,
    mask: MotionMask,
    site: Site,
    frame: &RgbaFrame,
    radius: int,
    start: SampleSums,
    k: nat,
)
    requires
        0 < site.width,
        0 < site.height,
        forall|x: int, y: int|
            0 <= x < site.width && 0 <= y < site.height ==> #[trigger] mask.at(x, y) == ONE,
    ensures
        window_sums(fpu, params, Some(&mask), site, frame, radius, start, k) == window_sums(
            fpu,
            params,
            None,
            site,
            frame,
            radius,
            start,
            k,
        ),
    decreases k,
{
    if k > 0 {
        lemma_still_window(fpu, params, mask, site, frame, radius, start, (k - 1) as nat);
    }
}

proof fn lemma_still_frames<F: Fn(FloatOp) -> u64>(
    fpu: &FloatUnit<F>,
    params: SkrFusionParams,
    mask: MotionMask,
    site: Site,
    frames: Seq<RgbaFrame>,
    radius: int,
    n: nat,
)
    requires
        0 < site.width,
        0 < site.height,
        forall|x: int, y: int|
            0 <= x < site.width && 0 <= y < site.height ==> #[trigger] mask.at(x, y) == ONE,
    ensures
        frame_sums(fpu, params, Some(&mask), site, frames, radius, n) == frame_sums(
            fpu,
            params,
            None,
            site,
            frames,
            radius,
            n,
        ),
    decreases n,
{
    if n > 0 {
        lemma_still_frames(fpu, params, mask, site, frames, radius, (n - 1) as nat);
        lemma_still_window(
            fpu,
            params,
            mask,
            site,
            &frames[n - 1],
            radius,
            frame_sums(fpu, params, None, site, frames, radius, (n - 1) as nat),
            window_area(radius),
        );
    }
}

/// Whether position `k` of the window around a pixel is an inner pixel.
pub open spec fn window_is_inner(
    cx: int,
    cy: int,
    width: int,
    height: int,
    radius: int,
    k: int,
) -> bool {
    is_inner(
        cx + k % window_side(radius) - radius,
        cy + k / window_side(radius) - radius,
        width,
        height,
    )
}

proof fn lemma_no_inner_pixel<F: Fn(FloatOp) -> u64>(
    fpu: &FloatUnit<F>,
    frame: &RgbaFrame,
    cx: int,
    cy: int,
    width: int,
    height: int,
    radius: int,
    n: nat,
)
    requires
        forall|k: int| 0 <= k < n ==> !#[trigger] window_is_inner(cx, cy, width, height, radius, k),
    ensures
        gradient_sums(fpu, frame, cx, cy, width, height, radius, n).count == 0,
    decreases n,
{
    if n > 0 {
        assert(!window_is_inner(cx, cy, width, height, radius, n - 1));
        lemma_no_inner_pixel(fpu, frame, cx, cy, width, height, radius, (n - 1) as nat);
    }
}

/// Where no inner pixel lies in the window around a pixel, as in images of fewer than three rows or
/// columns, the structure tensor is zero.
pub proof fn tensor_is_zero_without_inner_pixels<F: Fn(FloatOp) -> u64>(
    fpu: &FloatUnit<F>,
    frame: &RgbaFrame,
    cx: int,
    cy: int,
    width: int,
    height: int,
    radius: int,
)
    requires
        width < 3 || height < 3 || forall|k: int|
            0 <= k < window_area(radius) ==> !#[trigger] window_is_inner(
                cx,
                cy,
                width,
                height,
                radius,
                k,
            ),
    ensures
        tensor_at(fpu, frame, cx, cy, width, height, radius) == (StructureTensor {
            ixx: ZERO,
            ixy: ZERO,
            iyy: ZERO,
        }),
{
    lemma_no_inner_pixel(fpu, frame, cx, cy, width, height, radius, window_area(radius));
}

/// Whether a unit keeps signs: no square is negative, nor a sum of values that are not, nor their
/// quotient by a count.
pub open spec fn keeps_signs<F: Fn(FloatOp) -> u64>(fpu: &FloatUnit<F>) -> bool {
    &&& forall|v: u32| !wide_lt(#[trigger] fpu.widen(fpu.mul(v, v)), WIDE_ZERO)
    &&& forall|a: u64, b: u64|
        !wide_lt(a, WIDE_ZERO) && !wide_lt(b, WIDE_ZERO) ==> !wide_lt(
            #[trigger] fpu.wide_add(a, b),
            WIDE_ZERO,
        )
    &&& forall|a: u64, n: u64|
        n > 0 && !wide_lt(a, WIDE_ZERO) ==> !lt(
            fpu.narrow(#[trigger] fpu.wide_div(a, fpu.wide_from_u64(n))),
            ZERO,
        )
}

proof fn lemma_sums_are_not_negative<F: Fn(FloatOp) -> u64>(
    fpu: &FloatUnit<F>,
    frame: &RgbaFrame,
    cx: int,
    cy: int,
    width: int,
    height: int,
    radius: int,
    n: nat,
)
    requires
        keeps_signs(fpu),
    ensures
        ({
            let sums = gradient_sums(fpu, frame, cx, cy, width, height, radius, n);
            !wide_lt(sums.xx, WIDE_ZERO) && !wide_lt(sums.yy, WIDE_ZERO) && sums.count <= n
        }),
    decreases n,
{
    if n > 0 {
        lemma_sums_are_not_negative(fpu, frame, cx, cy, width, height, radius, (n - 1) as nat);
    }
}

/// The diagonal of a structure tensor is never negative, given a unit that keeps signs and a window
/// whose positions can be counted.
pub proof fn tensor_diagonal_is_not_negative<F: Fn(FloatOp) -> u64>(
    fpu: &FloatUnit<F>,
    frame: &RgbaFrame,
    cx: int,
    cy: int,
    width: int,
    height: int,
    radius: int,
)
    requires
        keeps_signs(fpu),
        window_area(radius) <= u64::MAX,
    ensures
        !lt(tensor_at(fpu, frame, cx, cy, width, height, radius).ixx, ZERO),
        !lt(tensor_at(fpu, frame, cx, cy, width, height, radius).iyy, ZERO),
{
    lemma_sums_are_not_negative(fpu, frame, cx, cy, width, height, radius, window_area(radius));
    let sums = gradient_sums(fpu, frame, cx, cy, width, height, radius, window_area(radius));
    if sums.count > 0 {
        let n = sums.count as u64;
        assert(!lt(fpu.narrow(fpu.wide_div(sums.xx, fpu.wide_from_u64(n))), ZERO));
        assert(!lt(fpu.narrow(fpu.wide_div(sums.yy, fpu.wide_from_u64(n))), ZERO));
    }
}

} // verus!
