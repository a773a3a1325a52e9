//! How the structure of a frame is measured, and how samples are weighted by it.

use crate::exact::{
    exact_add, exact_ceil, exact_coarse_add, exact_coarse_mul, exact_cut, exact_div, exact_from,
    exact_mul, exact_narrow, exact_sqrt, exact_sub, exact_wide_add, exact_wide_div, exact_wide_from,
    exact_widen, fits, is_exact, lemma_compare, lemma_constants, lemma_finer, lemma_is_finite,
    lemma_is_zero, lemma_opposite, stands_for, wide_stands_for,
};
use crate::float::{
    abs, clamp, lt, max, neg, units, FloatOp, FloatUnit, FOUR, HALF, MILLIONTH, ONE, THREE, TWO,
    ZERO,
};
use crate::frame::{lemma_pixel_index, RgbaFrame};
use crate::plain_frames::{flat, flat_weight};
use crate::skr_fusion::{
    are_tensors, eigen_of, gradient_sums, is_inner, kernel_radius, kernel_weight, luminance_at,
    output_side, tensor_at, tensor_radius, window_area, window_side, EigenDecomp, GradientSums,
    SkrFusionParams, StructureTensor, MINUS_HALF, NEGLIGIBLE, PI,
};
use vstd::arithmetic::power2::pow2;
use vstd::prelude::*;

verus! {

/// The brightness of a frame in numbers: the level at a column of a row, of which a power of two makes
/// one.
pub struct Relief {
    /// Level at a column of a row.
    pub levels: spec_fn(int, int) -> int,
    /// The power of two of levels that makes one.
    pub k: nat,
}

/// Whether every pixel is as bright as told.
pub open spec fn has_relief<F: Fn(FloatOp) -> u64>(
    fpu: &FloatUnit<F>,
    frame: &RgbaFrame,
    relief: Relief,
) -> bool {
    forall|u: int, v: int|
        0 <= u < frame.width && 0 <= v < frame.height ==> {
            let n = #[trigger] (relief.levels)(u, v);
            -0x400 <= n <= 0x400 && stands_for(luminance_at(fpu, frame, u, v), n, relief.k)
        }
}

/// How brightness changes over the two columns, and over the two rows, around column `u` of row `v`.
pub open spec fn slopes(relief: Relief, u: int, v: int) -> (int, int) {
    (
        (relief.levels)(u + 1, v) - (relief.levels)(u - 1, v),
        (relief.levels)(u, v + 1) - (relief.levels)(u, v - 1),
    )
}

/// Sums over the first `m` places of a window around column `u` of row `v`, without the places at or
/// beyond the borders: of the squares of the slopes across, of the products of both slopes, of the
/// squares of the slopes down, and how many places there are.
pub open spec fn slope_sums(
    relief: Relief,
    width: int,
    height: int,
    radius: int,
    u: int,
    v: int,
    m: nat,
) -> (int, int, int, int)
    decreases m,
{
    if m == 0 {
        (0, 0, 0, 0)
    } else {
        let before = slope_sums(relief, width, height, radius, u, v, (m - 1) as nat);
        let side = 2 * radius + 1;
        let (a, b) = (u + (m - 1) % side - radius, v + (m - 1) / side - radius);
        let (across, down) = slopes(relief, a, b);
        if 0 < a < width - 1 && 0 < b < height - 1 {
            (
                before.0 + across * across,
                before.1 + across * down,
                before.2 + down * down,
                before.3 + 1,
            )
        } else {
            before
        }
    }
}

spec fn holds(sums: GradientSums, slopes: (int, int, int, int), k: nat) -> bool {
    &&& wide_stands_for(sums.xx, slopes.0, 2 * k)
    &&& wide_stands_for(sums.xy, slopes.1, 2 * k)
    &&& wide_stands_for(sums.yy, slopes.2, 2 * k)
    &&& sums.count == slopes.3
}

#[verifier::rlimit(40)]
proof fn lemma_slopes<F: Fn(FloatOp) -> u64>(
    fpu: &FloatUnit<F>,
    frame: &RgbaFrame,
    relief: Relief,
    radius: int,
    u: int,
    v: int,
    m: nat,
)
    requires
        is_exact(fpu),
        has_relief(fpu, frame, relief),
        relief.k <= 70,
        0 <= radius <= 0x100,
        m <= window_area(radius),
    ensures
        ({
            let (width, height) = (frame.width as int, frame.height as int);
            let slopes = slope_sums(relief, width, height, radius, u, v, m);
            &&& holds(
                gradient_sums(fpu, frame, u, v, width, height, radius, m),
                slopes,
                relief.k,
            )
            &&& 0 <= slopes.0 <= slopes.3 * 0x40_0000
            &&& -(slopes.3 * 0x40_0000) <= slopes.1 <= slopes.3 * 0x40_0000
            &&& 0 <= slopes.2 <= slopes.3 * 0x40_0000
            &&& 0 <= slopes.3 <= m
        }),
    decreases m,
{
    lemma_constants();
    let k = relief.k;
    if m > 0 {
        let (width, height) = (frame.width as int, frame.height as int);
        lemma_slopes(fpu, frame, relief, radius, u, v, (m - 1) as nat);
        let before = gradient_sums(fpu, frame, u, v, width, height, radius, (m - 1) as nat);
        let told = slope_sums(relief, width, height, radius, u, v, (m - 1) as nat);
        let side = window_side(radius);
        assert(window_area(radius) <= 0x10_0000) by (nonlinear_arith)
            requires
                window_area(radius) == side * side,
                0 <= side <= 0x201,
        ;
        let (a, b) = (u + (m - 1) % side - radius, v + (m - 1) / side - radius);
        if is_inner(a, b, width, height) {
            let (across, down) = slopes(relief, a, b);
            let (e, w) = ((relief.levels)(a + 1, b), (relief.levels)(a - 1, b));
            let (n, s) = ((relief.levels)(a, b + 1), (relief.levels)(a, b - 1));
            let (east, west) = (luminance_at(fpu, frame, a + 1, b), luminance_at(fpu, frame, a - 1, b));
            let (south, north) = (luminance_at(fpu, frame, a, b + 1), luminance_at(fpu, frame, a, b - 1));
            exact_sub(fpu, east, west, e, w, k);
            exact_sub(fpu, south, north, n, s, k);
            let (gx, gy) = (fpu.sub(east, west), fpu.sub(south, north));
            assert(0 <= across * across <= 0x40_0000 && -0x40_0000 <= across * down <= 0x40_0000 && 0
                <= down * down <= 0x40_0000) by (nonlinear_arith)
                requires
                    -0x800 <= across <= 0x800,
                    -0x800 <= down <= 0x800,
            ;
            exact_mul(fpu, gx, gx, across, across, k, k);
            exact_mul(fpu, gx, gy, across, down, k, k);
            exact_mul(fpu, gy, gy, down, down, k, k);
            exact_widen(fpu, fpu.mul(gx, gx), across * across, 2 * k);
            exact_widen(fpu, fpu.mul(gx, gy), across * down, 2 * k);
            exact_widen(fpu, fpu.mul(gy, gy), down * down, 2 * k);
            exact_wide_add(
                fpu,
                before.xx,
                fpu.widen(fpu.mul(gx, gx)),
                told.0,
                across * across,
                2 * k,
            );
            exact_wide_add(
                fpu,
                before.xy,
                fpu.widen(fpu.mul(gx, gy)),
                told.1,
                across * down,
                2 * k,
            );
            exact_wide_add(
                fpu,
                before.yy,
                fpu.widen(fpu.mul(gy, gy)),
                told.2,
                down * down,
                2 * k,
            );
        }
    }
}

/// The structure tensor at each pixel holds the means of what the slopes of brightness around it
/// multiply to: across by across, across by down, down by down. The means have to be whole.
pub proof fn tensors_are_means_of_slopes<F: Fn(FloatOp) -> u64>(
    fpu: &FloatUnit<F>,
    frame: &RgbaFrame,
    relief: Relief,
    radius: int,
    tensors: Seq<StructureTensor>,
    u: int,
    v: int,
    means: (int, int, int),
)
    requires
        is_exact(fpu),
        has_relief(fpu, frame, relief),
        relief.k <= 70,
        0 <= radius <= 0x100,
        are_tensors(fpu, frame, radius, tensors),
        0 <= u < frame.width,
        0 <= v < frame.height,
        ({
            let sums = slope_sums(
                relief,
                frame.width as int,
                frame.height as int,
                radius,
                u,
                v,
                ((2 * radius + 1) * (2 * radius + 1)) as nat,
            );
            &&& sums.0 == means.0 * sums.3
            &&& sums.1 == means.1 * sums.3
            &&& sums.2 == means.2 * sums.3
            &&& sums.3 == 0 ==> means == (0int, 0int, 0int)
        }),
    ensures
        stands_for(tensors[v * frame.width + u].ixx, means.0, 2 * relief.k),
        stands_for(tensors[v * frame.width + u].ixy, means.1, 2 * relief.k),
        stands_for(tensors[v * frame.width + u].iyy, means.2, 2 * relief.k),
{
    let (width, height) = (frame.width as int, frame.height as int);
    let area = window_area(radius);
    let k = relief.k;
    lemma_pixel_index(u, v, width, height);
    let i = v * frame.width + u;
    let t = tensors[i];
    assert(t == tensor_at(fpu, frame, u, v, width, height, radius));
    lemma_slopes(fpu, frame, relief, radius, u, v, area);
    let sums = gradient_sums(fpu, frame, u, v, width, height, radius, area);
    let told = slope_sums(relief, width, height, radius, u, v, area);
    let side = window_side(radius);
    assert(area <= 0x10_0000) by (nonlinear_arith)
        requires
            area == side * side,
            0 <= side <= 0x201,
    ;
    lemma_constants();
    let n = told.3;
    if n > 0 {
        assert(-0x40_0000 <= means.0 <= 0x40_0000 && -0x40_0000 <= means.1 <= 0x40_0000 && -0x40_0000
            <= means.2 <= 0x40_0000) by (nonlinear_arith)
            requires
                n > 0,
                0 <= means.0 * n <= n * 0x40_0000,
                -(n * 0x40_0000) <= means.1 * n <= n * 0x40_0000,
                0 <= means.2 * n <= n * 0x40_0000,
        ;
        exact_wide_from(fpu, n);
        let d = fpu.wide_from_u64(n as u64);
        exact_wide_div(fpu, sums.xx, d, means.0, n, 0, 2 * k);
        exact_wide_div(fpu, sums.xy, d, means.1, n, 0, 2 * k);
        exact_wide_div(fpu, sums.yy, d, means.2, n, 0, 2 * k);
        exact_narrow(fpu, fpu.wide_div(sums.xx, d), means.0, 2 * k);
        exact_narrow(fpu, fpu.wide_div(sums.xy, d), means.1, 2 * k);
        exact_narrow(fpu, fpu.wide_div(sums.yy, d), means.2, 2 * k);
    }
}

proof fn lemma_not_tiny(a: u32, n: int, k: nat)
    requires
        stands_for(a, n, k),
        n * pow2(20) >= pow2(k),
        k <= 129,
    ensures
        !lt(abs(a), NEGLIGIBLE),
        lt(NEGLIGIBLE, abs(a)),
{
    // Two to the power of minus twenty.
    let c: u32 = 0x3580_0000;
    assert(stands_for(c, 1, 20)) by {
        reveal(stands_for);
        vstd::arithmetic::power2::lemma2_to64();
        vstd::arithmetic::power2::lemma_pow2_adds(23, 106);
        assert(units(c as int) == 0x80_0000 * pow2(106));
        assert(pow2(129) == 0x80_0000 * pow2(106));
    }
    lemma_finer(c, 1, 20, k);
    lemma_finer(a, n, k, 20);
    lemma_compare(c, a, pow2(k) as int, n * pow2(20), k + 20);
    lemma_is_finite(a, n, k);
    vstd::arithmetic::power2::lemma_pow2_pos(k);
    lemma_constants();
    assert(n > 0) by (nonlinear_arith)
        requires
            n * pow2(20) >= pow2(k),
            pow2(k) > 0,
            pow2(20) >= 0,
    ;
    lemma_compare(ZERO, a, 0, n, k);
}

/// The eigenvalues of a tensor are half the sum and half the difference of its trace and the root of its
/// discriminant; the structure of a tensor without mixed part lies along the greater of the two others,
/// and else at the angle that rises by the greater eigenvalue less the first part over the mixed part.
pub proof fn eigenvalues_are_the_roots<F: Fn(FloatOp) -> u64>(
    fpu: &FloatUnit<F>,
    t: StructureTensor,
    xx: int,
    xy: int,
    yy: int,
    root: int,
    k: nat,
)
    requires
        is_exact(fpu),
        stands_for(t.ixx, xx, k),
        stands_for(t.ixy, xy, k),
        stands_for(t.iyy, yy, k),
        0 <= root <= xx + yy,
        root * root == (xx - yy) * (xx - yy) + 4 * (xy * xy),
        k <= 70,
        -0x400 <= xy <= 0x400,
        0 <= xx <= 0x400,
        0 <= yy <= 0x400,
        (xx + yy) * pow2(20) >= pow2(k),
    ensures
        stands_for(eigen_of(fpu, t).e1, xx + yy + root, k + 1),
        stands_for(eigen_of(fpu, t).e2, xx + yy - root, k + 1),
        xy == 0 && xx >= yy ==> eigen_of(fpu, t).angle == ZERO,
        xy == 0 && xx < yy ==> eigen_of(fpu, t).angle == fpu.mul(PI, HALF),
        xy * pow2(20) >= pow2(k) || (-xy) * pow2(20) >= pow2(k) ==> exists|rise: u32| #[trigger]
            stands_for(rise, yy - xx + root, k + 1) && eigen_of(fpu, t).angle == fpu.atan2(
                rise,
                t.ixy,
            ),
{
    lemma_constants();
    let trace = fpu.add(t.ixx, t.iyy);
    let apart = fpu.sub(t.ixx, t.iyy);
    exact_add(fpu, t.ixx, t.iyy, xx, yy, k);
    exact_sub(fpu, t.ixx, t.iyy, xx, yy, k);
    let d = xx - yy;
    assert(0 <= d * d <= 0x10_0000 && 0 <= xy * xy <= 0x10_0000) by (nonlinear_arith)
        requires
            -0x400 <= d <= 0x400,
            -0x400 <= xy <= 0x400,
    ;
    exact_mul(fpu, apart, apart, d, d, k, k);
    exact_mul(fpu, FOUR, t.ixy, 4, xy, 0, k);
    let quad = fpu.mul(FOUR, t.ixy);
    assert((4 * xy) * xy == 4 * (xy * xy)) by (nonlinear_arith);
    exact_mul(fpu, quad, t.ixy, 4 * xy, xy, k, k);
    let square = fpu.add(fpu.mul(apart, apart), fpu.mul(quad, t.ixy));
    exact_add(
        fpu,
        fpu.mul(apart, apart),
        fpu.mul(quad, t.ixy),
        d * d,
        4 * (xy * xy),
        2 * k,
    );
    exact_sqrt(fpu, square, root, k);
    let r = fpu.sqrt(square);
    exact_add(fpu, trace, r, xx + yy, root, k);
    exact_sub(fpu, trace, r, xx + yy, root, k);
    let (high, low) = (fpu.mul(fpu.add(trace, r), HALF), fpu.mul(fpu.sub(trace, r), HALF));
    exact_mul(fpu, fpu.add(trace, r), HALF, xx + yy + root, 1, k, 1);
    exact_mul(fpu, fpu.sub(trace, r), HALF, xx + yy - root, 1, k, 1);
    let (m1, m2) = (max(high, ZERO), max(low, ZERO));
    lemma_compare(high, ZERO, xx + yy + root, 0, k + 1);
    lemma_compare(low, ZERO, xx + yy - root, 0, k + 1);
    lemma_is_finite(high, xx + yy + root, k + 1);
    lemma_is_finite(low, xx + yy - root, k + 1);
    assert(stands_for(m1, xx + yy + root, k + 1) && stands_for(m2, xx + yy - root, k + 1));
    lemma_is_finite(m2, xx + yy - root, k + 1);
    lemma_compare(m1, m2, xx + yy + root, xx + yy - root, k + 1);
    lemma_not_tiny(trace, xx + yy, k);
    if xy == 0 {
        lemma_is_zero(t.ixy, k);
        lemma_compare(t.iyy, t.ixx, yy, xx, k);
        vstd::arithmetic::power2::lemma_pow2_pos(k);
        assert(0 * pow2(20) == 0 && (-0int) * pow2(20) == 0);
    } else {
        vstd::arithmetic::power2::lemma2_to64();
        lemma_finer(t.ixx, xx, k, 1);
        let e1 = eigen_of(fpu, t).e1;
        exact_sub(fpu, e1, t.ixx, xx + yy + root, xx * 2, k + 1);
        let rise = fpu.sub(e1, t.ixx);
        if xy * pow2(20) >= pow2(k) {
            lemma_not_tiny(t.ixy, xy, k);
            assert(eigen_of(fpu, t).angle == fpu.atan2(rise, t.ixy));
        } else if (-xy) * pow2(20) >= pow2(k) {
            lemma_opposite(t.ixy, xy, k);
            lemma_not_tiny(neg(t.ixy), -xy, k);
            assert(abs(neg(t.ixy)) == abs(t.ixy));
            assert(eigen_of(fpu, t).angle == fpu.atan2(rise, t.ixy));
        }
        assert(stands_for(rise, yy - xx + root, k + 1));
    }
}

/// What a kernel is stretched by.
pub struct Stretch {
    /// The two eigenvalues of the structure, in parts of which `2^k` make one.
    pub values: (int, int),
    /// The power of two of parts that makes one.
    pub k: nat,
    /// How much the structure prefers one direction, in parts of which `2^t` make one.
    pub anisotropy: int,
    /// The power of two of parts that makes one.
    pub t: nat,
    /// The parameter by which a kernel is stretched, in parts of which `2^w` make one.
    pub strength: int,
    /// The power of two of parts that makes one.
    pub w: nat,
    /// What the kernel is stretched by along the structure, and pressed by across it.
    pub factor: int,
    /// The radius of the kernel across the structure, in parts of which `2^g` make one.
    pub radius: int,
    /// The power of two of parts that makes one.
    pub g: nat,
}

/// Whether kernels are stretched as told, with parts so fine that the eigenvalues have an even sum:
/// anisotropy is the difference of the eigenvalues in proportion
/// to their sum, and the factor is one and as much more as the strength times the anisotropy.
pub open spec fn is_stretch(params: SkrFusionParams, s: Stretch) -> bool {
    &&& 0 < s.values.1 <= s.values.0 <= 0x100_0000
    &&& (s.values.0 + s.values.1) % 2 == 0
    &&& 1 <= s.k
    &&& (s.values.0 - s.values.1) * pow2(s.t) == s.anisotropy * (s.values.0 + s.values.1)
    &&& 0 <= s.anisotropy <= pow2(s.t)
    &&& s.strength * s.anisotropy == (s.factor - 1) * pow2(s.w + s.t)
    &&& stands_for(params.stretch, s.strength, s.w)
    &&& 1 <= s.factor <= 0x40
    &&& stands_for(params.kernel_sigma, s.radius * s.factor, s.g)
    &&& 1 <= s.radius <= 0x40
    &&& s.k + s.t <= 100
    &&& s.w + s.t <= 100
    &&& s.t <= 24
    &&& s.g <= 40
}

/// Whether a weight is that of a Gaussian of the radii of a stretch, for an offset that is `along / 2^h`
/// times the square of the one radius along, and `across / 2^h` times the square of the other across.
pub open spec fn is_gaussian<F: Fn(FloatOp) -> u64>(
    fpu: &FloatUnit<F>,
    weight: u32,
    s: Stretch,
    along: int,
    across: int,
    h: nat,
) -> bool {
    exists|e: u32, r1: u32, r2: u32|
        {
            &&& #[trigger] stands_for(e, -(along + across), h + 1)
            &&& #[trigger] stands_for(r1, s.radius * s.factor * s.factor, s.g)
            &&& #[trigger] stands_for(r2, s.radius, s.g)
            &&& weight == fpu.div(fpu.exp(e), fpu.mul(fpu.mul(fpu.mul(TWO, PI), r1), r2))
        }
}

#[verifier::rlimit(40)]
proof fn lemma_stretched<F: Fn(FloatOp) -> u64>(
    fpu: &FloatUnit<F>,
    params: SkrFusionParams,
    dx: u32,
    dy: u32,
    eigen: EigenDecomp,
    s: Stretch,
    p: int,
    q: int,
    along: int,
    across: int,
    h: nat,
)
    requires
        is_exact(fpu),
        is_stretch(params, s),
        stands_for(max(eigen.e1, MILLIONTH), s.values.0, s.k),
        stands_for(max(eigen.e2, MILLIONTH), s.values.1, s.k),
        stands_for(dx, p, 0),
        stands_for(dy, q, 0),
        -0x400 <= p <= 0x400,
        -0x400 <= q <= 0x400,
        ({
            let r1 = s.radius * s.factor * s.factor;
            &&& fits(r1 * r1)
            &&& p * p * pow2(2 * s.g + h) == along * (r1 * r1)
            &&& q * q * pow2(2 * s.g + h) == across * (s.radius * s.radius)
        }),
        h <= 20,
        0 <= along <= 0x40_0000,
        0 <= across <= 0x40_0000,
    ensures
        is_gaussian(fpu, kernel_weight(fpu, params, dx, dy, eigen), s, along, across, h),
{
    lemma_constants();
    vstd::arithmetic::power2::lemma2_to64();
    let (e1, e2) = (max(eigen.e1, MILLIONTH), max(eigen.e2, MILLIONTH));
    let (n1, n2) = s.values;
    let (diff, sum) = (fpu.sub(e1, e2), fpu.add(e1, e2));
    exact_sub(fpu, e1, e2, n1, n2, s.k);
    let half = (n1 + n2) / 2;
    exact_coarse_add(fpu, e1, e2, n1, n2, s.k, half, 1);
    lemma_finer(sum, half, (s.k - 1) as nat, 1);
    lemma_finer(diff, n1 - n2, s.k, s.t);
    if s.t < 24 {
        vstd::arithmetic::power2::lemma_pow2_strictly_increases(s.t, 24);
    }
    exact_div(fpu, diff, sum, s.anisotropy, n1 + n2, s.k, s.t);
    let raw = fpu.div(diff, sum);
    lemma_finer(ONE, 1, 0, s.t);
    lemma_compare(raw, ZERO, s.anisotropy, 0, s.t);
    lemma_compare(ONE, raw, pow2(s.t) as int, s.anisotropy, s.t);
    assert(clamp(raw, ZERO, ONE) == raw);
    exact_coarse_mul(
        fpu,
        params.stretch,
        raw,
        s.strength,
        s.anisotropy,
        s.w,
        s.t,
        s.factor - 1,
        s.w + s.t,
    );
    let more = fpu.mul(params.stretch, raw);
    exact_add(fpu, ONE, more, 1, s.factor - 1, 0);
    let factor = fpu.add(ONE, more);
    let (f, r) = (s.factor, s.radius);
    assert(0 < r * f <= 0x1000 && 0 < r * f * f <= 0x4_0000 && 0 < r * r <= 0x1000)
        by (nonlinear_arith)
        requires
            1 <= f <= 0x40,
            1 <= r <= 0x40,
    ;
    exact_mul(fpu, params.kernel_sigma, factor, r * f, f, s.g, 0);
    let r1 = fpu.mul(params.kernel_sigma, factor);
    lemma_one_counts(factor, f);
    exact_div(fpu, params.kernel_sigma, factor, r, f, 0, s.g);
    let r2 = fpu.div(params.kernel_sigma, factor);
    lemma_ratio(fpu, dx, r1, p, r * f * f, along, s.g, h);
    lemma_ratio(fpu, dy, r2, q, r, across, s.g, h);
    let (a, b) = (
        fpu.div(fpu.mul(dx, dx), fpu.mul(r1, r1)),
        fpu.div(fpu.mul(dy, dy), fpu.mul(r2, r2)),
    );
    exact_add(fpu, a, b, along, across, h);
    let distance = fpu.add(a, b);
    assert(stands_for(MINUS_HALF, -1, 1)) by {
        lemma_opposite(HALF, 1, 1);
    }
    exact_mul(fpu, MINUS_HALF, distance, -1, along + across, 1, h);
    let e = fpu.mul(MINUS_HALF, distance);
    assert(stands_for(e, -(along + across), h + 1));
    assert(stands_for(r1, r * f * f, s.g) && stands_for(r2, r, s.g));
}

proof fn lemma_ratio<F: Fn(FloatOp) -> u64>(
    fpu: &FloatUnit<F>,
    d: u32,
    r: u32,
    p: int,
    n: int,
    ratio: int,
    g: nat,
    h: nat,
)
    requires
        is_exact(fpu),
        stands_for(d, p, 0),
        stands_for(r, n, g),
        -0x400 <= p <= 0x400,
        fits(n * n),
        0 < n,
        p * p * pow2(2 * g + h) == ratio * (n * n),
        fits(ratio),
        g <= 40,
        h <= 20,
    ensures
        stands_for(fpu.div(fpu.mul(d, d), fpu.mul(r, r)), ratio, h),
{
    assert(0 <= p * p <= 0x10_0000 && 0 < n * n) by (nonlinear_arith)
        requires
            -0x400 <= p <= 0x400,
            0 < n,
    ;
    exact_mul(fpu, d, d, p, p, 0, 0);
    exact_mul(fpu, r, r, n, n, g, g);
    lemma_finer(fpu.mul(d, d), p * p, 0, 2 * g + h);
    exact_div(fpu, fpu.mul(d, d), fpu.mul(r, r), ratio, n * n, 2 * g, h);
}

proof fn lemma_one_counts(a: u32, n: int)
    requires
        stands_for(a, n, 0),
        1 <= n <= 0x40,
    ensures
        max(a, MILLIONTH) == a,
{
    lemma_millionth();
    vstd::arithmetic::power2::lemma2_to64_rest();
    lemma_finer(a, n, 0, 43);
    lemma_is_finite(a, n, 0);
    lemma_compare(a, MILLIONTH, n * pow2(43), 8796093, 43);
    assert(n * pow2(43) >= 8796093) by (nonlinear_arith)
        requires
            n >= 1,
            pow2(43) >= 8796093,
    ;
}

proof fn lemma_millionth()
    ensures
        stands_for(MILLIONTH, 8796093, 43),
{
    reveal(stands_for);
    assert(units(MILLIONTH as int) == 8796093 * pow2(106));
}

/// The kernel weighs an offset by a Gaussian that is stretched along the structure and pressed across
/// it by the same factor. Offsets along count by the greater radius, offsets across by the smaller.
pub proof fn kernels_stretch_along_structure<F: Fn(FloatOp) -> u64>(
    fpu: &FloatUnit<F>,
    params: SkrFusionParams,
    dx: u32,
    dy: u32,
    eigen: EigenDecomp,
    s: Stretch,
    p: int,
    q: int,
    along: int,
    across: int,
    h: nat,
)
    requires
        is_exact(fpu),
        is_stretch(params, s),
        stands_for(eigen.e1, s.values.0, s.k),
        stands_for(eigen.e2, s.values.1, s.k),
        !lt(eigen.e1, MILLIONTH),
        !lt(eigen.e2, MILLIONTH),
        stands_for(dx, p, 0),
        stands_for(dy, q, 0),
        -0x400 <= p <= 0x400,
        -0x400 <= q <= 0x400,
        ({
            let r1 = s.radius * s.factor * s.factor;
            &&& fits(r1 * r1)
            &&& p * p * pow2(2 * s.g + h) == along * (r1 * r1)
            &&& q * q * pow2(2 * s.g + h) == across * (s.radius * s.radius)
        }),
        h <= 20,
        0 <= along <= 0x40_0000,
        0 <= across <= 0x40_0000,
    ensures
        is_gaussian(fpu, kernel_weight(fpu, params, dx, dy, eigen), s, along, across, h),
{
    lemma_is_finite(eigen.e1, s.values.0, s.k);
    lemma_is_finite(eigen.e2, s.values.1, s.k);
    lemma_stretched(fpu, params, dx, dy, eigen, s, p, q, along, across, h);
}

/// Where there is no structure, the kernel is not stretched: offsets to all sides weigh alike, by the
/// sum of the squares of how far they lie off in both directions.
pub proof fn flat_kernels_are_round<F: Fn(FloatOp) -> u64>(
    fpu: &FloatUnit<F>,
    params: SkrFusionParams,
    dx: u32,
    dy: u32,
    p: int,
    q: int,
    radius: int,
    strength: int,
    w: nat,
    g: nat,
    along: int,
    across: int,
    h: nat,
)
    requires
        is_exact(fpu),
        stands_for(params.stretch, strength, w),
        w <= 100,
        stands_for(params.kernel_sigma, radius, g),
        1 <= radius <= 0x40,
        g <= 40,
        stands_for(dx, p, 0),
        stands_for(dy, q, 0),
        -0x400 <= p <= 0x400,
        -0x400 <= q <= 0x400,
        p * p * pow2(2 * g + h) == along * (radius * radius),
        q * q * pow2(2 * g + h) == across * (radius * radius),
        h <= 20,
        0 <= along <= 0x40_0000,
        0 <= across <= 0x40_0000,
    ensures
        exists|e: u32, r1: u32, r2: u32|
            {
                &&& #[trigger] stands_for(e, -(along + across), h + 1)
                &&& #[trigger] stands_for(r1, radius, g)
                &&& #[trigger] stands_for(r2, radius, g)
                &&& flat_weight(fpu, params, dx, dy) == fpu.div(
                    fpu.exp(e),
                    fpu.mul(fpu.mul(fpu.mul(TWO, PI), r1), r2),
                )
            },
{
    let s = Stretch {
        values: (8796093, 8796093),
        k: 43,
        anisotropy: 0,
        t: 0,
        strength,
        w,
        factor: 1,
        radius,
        g,
    };
    lemma_millionth();
    lemma_constants();
    vstd::arithmetic::power2::lemma2_to64();
    lemma_compare(ZERO, MILLIONTH, 0, 8796093, 43);
    lemma_is_finite(ZERO, 0, 43);
    assert(strength * 0 == 0 && 0 * pow2(w) == 0);
    assert(0int * pow2(0) == 0);
    assert(radius * 1 == radius && radius * 1 * 1 == radius);
    assert(0 < radius * radius <= 0x1000) by (nonlinear_arith)
        requires
            1 <= radius <= 0x40,
    ;
    lemma_stretched(fpu, params, dx, dy, flat(), s, p, q, along, across, h);
    let (e, r1, r2) = choose|e: u32, r1: u32, r2: u32|
        {
            &&& #[trigger] stands_for(e, -(along + across), h + 1)
            &&& #[trigger] stands_for(r1, s.radius * s.factor * s.factor, s.g)
            &&& #[trigger] stands_for(r2, s.radius, s.g)
            &&& flat_weight(fpu, params, dx, dy) == fpu.div(
                fpu.exp(e),
                fpu.mul(fpu.mul(fpu.mul(TWO, PI), r1), r2),
            )
        };
    assert(stands_for(e, -(along + across), h + 1) && stands_for(r1, radius, g) && stands_for(
        r2,
        radius,
        g,
    ));
}

/// Tensors are measured in windows that reach twice their sigma, rounded up.
pub proof fn tensors_reach_two_sigmas<F: Fn(FloatOp) -> u64>(
    fpu: &FloatUnit<F>,
    params: SkrFusionParams,
    s: int,
    g: nat,
    radius: int,
)
    requires
        is_exact(fpu),
        stands_for(params.structure_sigma, s, g),
        fits(2 * s),
        (radius - 1) * pow2(g) < 2 * s <= radius * pow2(g),
    ensures
        tensor_radius(fpu, params) == radius,
{
    lemma_constants();
    lemma_is_finite(params.structure_sigma, s, g);
    exact_mul(fpu, params.structure_sigma, TWO, s, 2, g, 0);
    exact_ceil(fpu, fpu.mul(params.structure_sigma, TWO), s * 2, g, radius);
}

/// Kernels reach three times their sigma, times the root of what they are stretched by, rounded up.
pub proof fn kernels_reach_three_sigmas<F: Fn(FloatOp) -> u64>(
    fpu: &FloatUnit<F>,
    params: SkrFusionParams,
    s: int,
    g: nat,
    root: int,
    w: nat,
    radius: int,
)
    requires
        is_exact(fpu),
        stands_for(params.kernel_sigma, s, g),
        stands_for(params.stretch, root * root, 2 * w),
        0 <= root,
        fits(root),
        fits(3 * s),
        fits(3 * s * root),
        g + w <= 149,
        (radius - 1) * pow2(g + w) < 3 * s * root <= radius * pow2(g + w),
    ensures
        kernel_radius(fpu, params) == radius,
{
    lemma_constants();
    exact_mul(fpu, params.kernel_sigma, THREE, s, 3, g, 0);
    exact_sqrt(fpu, params.stretch, root, w);
    let (a, b) = (fpu.mul(params.kernel_sigma, THREE), fpu.sqrt(params.stretch));
    assert(s * 3 == 3 * s);
    exact_mul(fpu, a, b, 3 * s, root, g, w);
    exact_ceil(fpu, fpu.mul(a, b), 3 * s * root, g + w, radius);
}

/// The sides of the output are those of the frames times the scale.
pub proof fn outputs_are_scaled<F: Fn(FloatOp) -> u64>(
    fpu: &FloatUnit<F>,
    params: SkrFusionParams,
    side: u32,
    scale: int,
    k: nat,
)
    requires
        is_exact(fpu),
        stands_for(params.output_scale, scale, k),
        0 <= scale,
        fits(side as int),
        fits(side * scale),
        k <= 149,
    ensures
        output_side(fpu, params, side) == side * scale / (pow2(k) as int),
{
    exact_from(fpu, side as int);
    exact_mul(fpu, fpu.from_u64(side as u64), params.output_scale, side as int, scale, 0, k);
    assert(0 <= side * scale) by (nonlinear_arith)
        requires
            0 <= side,
            0 <= scale,
    ;
    exact_cut(
        fpu,
        fpu.mul(fpu.from_u64(side as u64), params.output_scale),
        side * scale,
        k,
    );
}

} // verus!
