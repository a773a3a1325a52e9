//! How the edges of motion masks are softened.

use crate::exact::{
    exact_add, exact_ceil, exact_cut, exact_div, exact_from, exact_mul, fits, is_exact,
    lemma_compare, lemma_constants, lemma_finer, lemma_is_finite, stands_for,
};
use crate::float::{
    clamp, le, units, FloatOp, FloatUnit, BYTE_MAX, THREE, TWO, ZERO,
};
use crate::frame::{lemma_pixel_index, GrayFrame, RgbaFrame};
use crate::motion_detection::{
    blur_at, blur_kernel, blur_radius, blur_rows, blurred, column_of, gaussian, gaussian_sum,
    is_motion_mask,
    is_picture, raw_weights, row_of, share_at, smooth_at, MotionDetectionParams, MotionMask,
};
use vstd::arithmetic::power2::pow2;
use vstd::prelude::*;

verus! {

/// The sum of the first `n` taps.
pub open spec fn tap_sum(taps: Seq<int>, n: nat) -> int
    decreases n,
{
    if n == 0 {
        0
    } else {
        tap_sum(taps, (n - 1) as nat) + taps[n - 1]
    }
}

/// The sum of the first `n` values around place `x` of a line, from `radius` places before it on, each
/// times its tap.
pub open spec fn line_sum(
    values: spec_fn(int) -> int,
    taps: Seq<int>,
    radius: int,
    x: int,
    n: nat,
) -> int
    decreases n,
{
    if n == 0 {
        0
    } else {
        line_sum(values, taps, radius, x, (n - 1) as nat) + values(x - radius + n - 1) * taps[n - 1]
    }
}

/// Whether the items of a kernel are the taps given, in parts of which `2^b` make one.
pub open spec fn has_taps(kernel: Seq<u32>, taps: Seq<int>, b: nat) -> bool {
    &&& kernel.len() == taps.len()
    &&& forall|i: int|
        0 <= i < kernel.len() ==> stands_for(#[trigger] kernel[i], taps[i], b) && 0 <= taps[i]
}

proof fn lemma_tap_sum(taps: Seq<int>, n: nat, m: nat)
    requires
        n <= m <= taps.len(),
        forall|i: int| 0 <= i < taps.len() ==> 0 <= #[trigger] taps[i],
    ensures
        0 <= tap_sum(taps, n) <= tap_sum(taps, m),
    decreases m,
{
    if m > 0 && n < m {
        lemma_tap_sum(taps, n, (m - 1) as nat);
    } else if n > 0 {
        lemma_tap_sum(taps, (n - 1) as nat, (n - 1) as nat);
    }
}

proof fn lemma_line<F: Fn(FloatOp) -> u64>(
    fpu: &FloatUnit<F>,
    line: Seq<u32>,
    kernel: Seq<u32>,
    taps: Seq<int>,
    b: nat,
    values: spec_fn(int) -> int,
    k: nat,
    limit: int,
    radius: int,
    x: int,
    n: nat,
)
    requires
        is_exact(fpu),
        has_taps(kernel, taps, b),
        kernel.len() == 2 * radius + 1,
        0 <= radius <= x,
        x + radius < line.len(),
        forall|p: int|
            x - radius <= p <= x + radius ==> stands_for(#[trigger] line[p], values(p), k) && 0
                <= values(p) <= limit,
        n <= kernel.len(),
        k + b <= 149,
        fits(limit * tap_sum(taps, taps.len())),
    ensures
        stands_for(
            blur_at(fpu, line, kernel, radius, x, n),
            line_sum(values, taps, radius, x, n),
            k + b,
        ),
        0 <= line_sum(values, taps, radius, x, n) <= limit * tap_sum(taps, n),
    decreases n,
{
    lemma_constants();
    if n == 0 {
        assert(limit * 0 == 0);
    } else {
        lemma_line(
            fpu,
            line,
            kernel,
            taps,
            b,
            values,
            k,
            limit,
            radius,
            x,
            (n - 1) as nat,
        );
        let p = x + (n - 1) - radius;
        assert(stands_for(line[p], values(p), k));
        assert(stands_for(kernel[n - 1], taps[n - 1], b));
        assert forall|i: int| 0 <= i < taps.len() implies 0 <= #[trigger] taps[i] by {
            assert(stands_for(kernel[i], taps[i], b) && 0 <= taps[i]);
        }
        lemma_tap_sum(taps, n, taps.len());
        lemma_tap_sum(taps, (n - 1) as nat, n);
        let (v, w) = (values(p), taps[n - 1]);
        let (before, after, all) = (
            tap_sum(taps, (n - 1) as nat),
            tap_sum(taps, n),
            tap_sum(taps, taps.len()),
        );
        assert(0 <= v * w && limit * before + v * w <= limit * after && limit * after <= limit * all
            && 0 <= limit * before) by (nonlinear_arith)
            requires
                0 <= v <= limit,
                0 <= w,
                0 <= before,
                after == before + w,
                after <= all,
        ;
        exact_mul(fpu, line[p], kernel[n - 1], v, w, k, b);
        exact_add(
            fpu,
            blur_at(fpu, line, kernel, radius, x, (n - 1) as nat),
            fpu.mul(line[p], kernel[n - 1]),
            line_sum(values, taps, radius, x, (n - 1) as nat),
            v * w,
            k + b,
        );
    }
}

/// What a blur along the rows makes of the values around column `x` of row `y`.
pub open spec fn row_value(
    values: spec_fn(int, int) -> int,
    taps: Seq<int>,
    radius: int,
    x: int,
    y: int,
) -> int {
    line_sum(|u: int| values(u, y), taps, radius, x, taps.len())
}

/// What a blur along the rows and the columns makes of the values around column `x` of row `y`.
pub open spec fn square_value(
    values: spec_fn(int, int) -> int,
    taps: Seq<int>,
    radius: int,
    x: int,
    y: int,
) -> int {
    line_sum(|v: int| row_value(values, taps, radius, x, v), taps, radius, y, taps.len())
}

/// Away from the borders, the blur replaces each value of a plane by the sum of the values in the square
/// around it, each times the tap of its column and the tap of its row.
pub proof fn blurs_weigh_squares<F: Fn(FloatOp) -> u64>(
    fpu: &FloatUnit<F>,
    plane: Seq<u32>,
    width: int,
    height: int,
    sigma: u32,
    taps: Seq<int>,
    b: nat,
    values: spec_fn(int, int) -> int,
    k: nat,
    limit: int,
    radius: int,
    x: int,
    y: int,
)
    requires
        is_exact(fpu),
        !le(sigma, ZERO),
        radius == blur_radius(fpu, sigma),
        0 <= radius <= x,
        radius <= y,
        x + radius < width,
        y + radius < height,
        plane.len() == width * height,
        has_taps(blur_kernel(fpu, sigma, radius), taps, b),
        forall|u: int, v: int|
            0 <= u < width && 0 <= v < height ==> {
                let n = #[trigger] values(u, v);
                stands_for(plane[v * width + u], n, k) && 0 <= n <= limit
            },
        k + 2 * b <= 149,
        0 <= limit,
        fits(limit * tap_sum(taps, taps.len())),
        fits(limit * tap_sum(taps, taps.len()) * tap_sum(taps, taps.len())),
    ensures
        stands_for(
            blurred(fpu, plane, width, height, sigma)[y * width + x],
            square_value(values, taps, radius, x, y),
            k + 2 * b,
        ),
{
    let kernel = blur_kernel(fpu, sigma, radius);
    let rows = blur_rows(fpu, plane, width, height, kernel, radius);
    let full = limit * tap_sum(taps, taps.len());
    let line = column_of(rows, width, height, x);
    let down = |v: int| row_value(values, taps, radius, x, v);
    assert forall|p: int| y - radius <= p <= y + radius implies stands_for(
        #[trigger] line[p],
        down(p),
        k + b,
    ) && 0 <= down(p) <= full by {
        lemma_pixel_index(x, p, width, height);
        let i = p * width + x;
        let row = row_of(plane, width, p);
        let across = |u: int| values(u, p);
        assert(line[p] == rows[i] && rows[i] == smooth_at(fpu, row, kernel, radius, x));
        assert forall|u: int| x - radius <= u <= x + radius implies stands_for(
            #[trigger] row[u],
            across(u),
            k,
        ) && 0 <= across(u) <= limit by {
            lemma_pixel_index(u, p, width, height);
            assert(row[u] == plane[p * width + u]);
            assert(0 <= values(u, p) <= limit);
        }
        lemma_line(
            fpu,
            row,
            kernel,
            taps,
            b,
            across,
            k,
            limit,
            radius,
            x,
            kernel.len(),
        );
    }
    lemma_pixel_index(x, y, width, height);
    lemma_line(
        fpu,
        line,
        kernel,
        taps,
        b,
        down,
        k + b,
        full,
        radius,
        y,
        kernel.len(),
    );
    let i = y * width + x;
    assert(blurred(fpu, plane, width, height, sigma)[i] == smooth_at(
        fpu,
        line,
        kernel,
        radius,
        y,
    ));
}

/// The kernel of the blur is the same to both sides of its middle.
pub proof fn kernels_are_symmetric<F: Fn(FloatOp) -> u64>(
    fpu: &FloatUnit<F>,
    sigma: u32,
    radius: int,
    d: int,
)
    requires
        0 <= d <= radius,
    ensures
        blur_kernel(fpu, sigma, radius).len() == 2 * radius + 1,
        blur_kernel(fpu, sigma, radius)[radius + d] == blur_kernel(fpu, sigma, radius)[radius - d],
{
    assert(d * d == (-d) * (-d)) by (nonlinear_arith);
    assert((radius - d) - radius == -d && (radius + d) - radius == d);
}

/// Before it is normalized, the item of the kernel `d` places off its middle is the exponential of minus
/// the square of `d` over twice the square of sigma.
pub proof fn kernels_are_gaussian<F: Fn(FloatOp) -> u64>(
    fpu: &FloatUnit<F>,
    sigma: u32,
    radius: int,
    d: int,
    s: int,
    g: nat,
    ratio: int,
    h: nat,
)
    requires
        is_exact(fpu),
        stands_for(sigma, s, g),
        1 <= s <= 0x800,
        g <= 60,
        -0x1000 <= d <= 0x1000,
        d * d * pow2(2 * g + h) == ratio * (2 * s * s),
        h <= 20,
        fits(ratio),
    ensures
        exists|e: u32| #[trigger]
            stands_for(e, -ratio, h) && gaussian(fpu, sigma, radius, radius + d) == fpu.exp(e),
{
    lemma_constants();
    let n = -(d * d);
    assert(-0x100_0000 <= n <= 0 && 2 * s * s <= 0x100_0000 && 0 < 2 * s * s && (2 * s) * s == 2 * s
        * s) by (nonlinear_arith)
        requires
            n == -(d * d),
            -0x1000 <= d <= 0x1000,
            1 <= s <= 0x800,
    ;
    assert((radius + d) - radius == d);
    exact_from(fpu, n);
    exact_mul(fpu, TWO, sigma, 2, s, 0, g);
    exact_mul(fpu, fpu.mul(TWO, sigma), sigma, 2 * s, s, g, g);
    let (top, low) = (fpu.from_i32(n as i32), fpu.mul(fpu.mul(TWO, sigma), sigma));
    lemma_finer(top, n, 0, 2 * g + h);
    let p = pow2(2 * g + h) as int;
    let m = 2 * s * s;
    assert(n * p == (-ratio) * m) by (nonlinear_arith)
        requires
            n == -(d * d),
            d * d * p == ratio * m,
    ;
    exact_div(fpu, top, low, -ratio, m, 2 * g, h);
    let e = fpu.div(top, low);
    assert(stands_for(e, -ratio, h));
}

/// What motion is found between frames is softened: where sigma is positive, the mask holds the weights
/// of the pixels in the square around each pixel, each times the taps of its column and row.
pub proof fn masks_are_softened<F: Fn(FloatOp) -> u64>(
    fpu: &FloatUnit<F>,
    params: MotionDetectionParams,
    frames: Seq<RgbaFrame>,
    mask: MotionMask,
    taps: Seq<int>,
    b: nat,
    values: spec_fn(int, int) -> int,
    k: nat,
    limit: int,
    radius: int,
    x: int,
    y: int,
)
    requires
        is_exact(fpu),
        is_motion_mask(fpu, params, frames, mask),
        frames.len() >= 2,
        !le(params.blur_sigma, ZERO),
        radius == blur_radius(fpu, params.blur_sigma),
        0 <= radius <= x,
        radius <= y,
        x + radius < mask.width,
        y + radius < mask.height,
        has_taps(blur_kernel(fpu, params.blur_sigma, radius), taps, b),
        forall|u: int, v: int|
            0 <= u < mask.width && 0 <= v < mask.height ==> {
                let n = #[trigger] values(u, v);
                stands_for(
                    raw_weights(fpu, params, frames, mask.width, mask.height)[v * mask.width + u],
                    n,
                    k,
                ) && 0 <= n <= limit
            },
        k + 2 * b <= 149,
        0 <= limit,
        fits(limit * tap_sum(taps, taps.len())),
        fits(limit * tap_sum(taps, taps.len()) * tap_sum(taps, taps.len())),
    ensures
        stands_for(mask.at(x, y), square_value(values, taps, radius, x, y), k + 2 * b),
{
    blurs_weigh_squares(
        fpu,
        raw_weights(fpu, params, frames, mask.width, mask.height),
        mask.width as int,
        mask.height as int,
        params.blur_sigma,
        taps,
        b,
        values,
        k,
        limit,
        radius,
        x,
        y,
    );
}

/// The blur reaches three times sigma to each side, rounded up.
pub proof fn blurs_reach_three_sigmas<F: Fn(FloatOp) -> u64>(
    fpu: &FloatUnit<F>,
    sigma: u32,
    s: int,
    g: nat,
    radius: int,
)
    requires
        is_exact(fpu),
        stands_for(sigma, s, g),
        fits(3 * s),
        (radius - 1) * pow2(g) < 3 * s <= radius * pow2(g),
    ensures
        blur_radius(fpu, sigma) == radius,
{
    lemma_constants();
    lemma_is_finite(sigma, s, g);
    exact_mul(fpu, sigma, THREE, s, 3, g, 0);
    exact_ceil(fpu, fpu.mul(sigma, THREE), s * 3, g, radius);
}

/// The picture of a mask is as bright as its pixels are still, white where nothing moved.
pub proof fn pictures_show_stillness<F: Fn(FloatOp) -> u64>(
    fpu: &FloatUnit<F>,
    mask: MotionMask,
    img: GrayFrame,
    x: int,
    y: int,
    n: int,
    k: nat,
)
    requires
        is_exact(fpu),
        is_picture(fpu, &mask, &img),
        0 <= x < mask.width,
        0 <= y < mask.height,
        stands_for(mask.at(x, y), n, k),
        0 <= n <= pow2(k),
        k <= 16,
    ensures
        img.width == mask.width,
        img.height == mask.height,
        img.at(x, y) == n * 255 / (pow2(k) as int),
{
    let a = mask.at(x, y);
    lemma_constants();
    vstd::arithmetic::power2::lemma2_to64();
    vstd::arithmetic::power2::lemma_pow2_pos(k);
    if k < 16 {
        vstd::arithmetic::power2::lemma_pow2_strictly_increases(k, 16);
    }
    assert(stands_for(BYTE_MAX, 255, 0)) by {
        reveal(stands_for);
        vstd::arithmetic::power2::lemma_pow2_adds(16, 133);
        assert(units(BYTE_MAX as int) == 0xff_0000 * pow2(133));
        assert(pow2(149) == 65536 * pow2(133));
    }
    exact_mul(fpu, a, BYTE_MAX, n, 255, k, 0);
    let v = fpu.mul(a, BYTE_MAX);
    lemma_finer(BYTE_MAX, 255, 0, k);
    lemma_compare(v, ZERO, n * 255, 0, k);
    let p = pow2(k) as int;
    lemma_compare(BYTE_MAX, v, 255 * p, n * 255, k);
    assert(clamp(v, ZERO, BYTE_MAX) == v);
    exact_cut(fpu, v, n * 255, k);
    assert(0 <= n * 255 / p <= 255) by (nonlinear_arith)
        requires
            0 <= n <= p,
            0 < p,
    ;
}

proof fn lemma_gaussian_sum<F: Fn(FloatOp) -> u64>(
    fpu: &FloatUnit<F>,
    sigma: u32,
    radius: int,
    items: Seq<int>,
    b: nat,
    n: nat,
)
    requires
        is_exact(fpu),
        n <= items.len(),
        forall|i: int|
            0 <= i < items.len() ==> stands_for(gaussian(fpu, sigma, radius, i), #[trigger] items[i], b)
                && 0 <= items[i],
        fits(tap_sum(items, items.len())),
        b <= 149,
    ensures
        stands_for(gaussian_sum(fpu, sigma, radius, n), tap_sum(items, n), b),
        0 <= tap_sum(items, n),
    decreases n,
{
    lemma_constants();
    if n > 0 {
        lemma_gaussian_sum(fpu, sigma, radius, items, b, (n - 1) as nat);
        lemma_tap_sum(items, n, items.len());
        let v = items[n - 1];
        exact_add(
            fpu,
            gaussian_sum(fpu, sigma, radius, (n - 1) as nat),
            gaussian(fpu, sigma, radius, n - 1),
            tap_sum(items, (n - 1) as nat),
            v,
            b,
        );
    }
}

/// Each item of the kernel is its Gaussian in proportion to the sum of all of them, so that the blur
/// neither lightens nor darkens. The proportion has to be a whole number of parts.
pub proof fn kernels_are_normalized<F: Fn(FloatOp) -> u64>(
    fpu: &FloatUnit<F>,
    sigma: u32,
    radius: int,
    items: Seq<int>,
    b: nat,
    i: int,
    q: int,
    t: nat,
)
    requires
        is_exact(fpu),
        0 <= radius,
        items.len() == 2 * radius + 1,
        forall|j: int|
            0 <= j < items.len() ==> stands_for(gaussian(fpu, sigma, radius, j), #[trigger] items[j], b)
                && 0 <= items[j],
        0 < tap_sum(items, items.len()),
        fits(tap_sum(items, items.len())),
        0 <= i < items.len(),
        q * tap_sum(items, items.len()) == items[i] * pow2(t),
        fits(q),
        b + t <= 149,
    ensures
        stands_for(blur_kernel(fpu, sigma, radius)[i], q, t),
{
    let n = items.len();
    let all = tap_sum(items, n);
    lemma_gaussian_sum(fpu, sigma, radius, items, b, n);
    let g = gaussian(fpu, sigma, radius, i);
    let own = items[i];
    assert(stands_for(g, own, b));
    lemma_finer(g, own, b, t);
    exact_div(fpu, g, gaussian_sum(fpu, sigma, radius, n), q, all, b, t);
    assert(blur_kernel(fpu, sigma, radius)[i] == fpu.div(
        g,
        gaussian_sum(fpu, sigma, radius, n),
    ));
}

/// The sums over those of the first `n` places around place `x` that a line of `len` places has: of the
/// values, each times its tap, and of the taps.
pub open spec fn kept_sums(
    values: spec_fn(int) -> int,
    len: int,
    taps: Seq<int>,
    radius: int,
    x: int,
    n: nat,
) -> (int, int)
    decreases n,
{
    if n == 0 {
        (0, 0)
    } else {
        let before = kept_sums(values, len, taps, radius, x, (n - 1) as nat);
        let p = x - radius + n - 1;
        if 0 <= p < len {
            (before.0 + values(p) * taps[n - 1], before.1 + taps[n - 1])
        } else {
            before
        }
    }
}

proof fn lemma_kept_sums<F: Fn(FloatOp) -> u64>(
    fpu: &FloatUnit<F>,
    line: Seq<u32>,
    kernel: Seq<u32>,
    taps: Seq<int>,
    b: nat,
    values: spec_fn(int) -> int,
    k: nat,
    limit: int,
    radius: int,
    x: int,
    n: nat,
)
    requires
        is_exact(fpu),
        has_taps(kernel, taps, b),
        forall|p: int|
            0 <= p < line.len() ==> stands_for(#[trigger] line[p], values(p), k) && 0 <= values(p)
                <= limit,
        n <= kernel.len(),
        k + b <= 149,
        1 <= limit,
        fits(limit * tap_sum(taps, taps.len())),
    ensures
        ({
            let sums = kept_sums(values, line.len() as int, taps, radius, x, n);
            &&& stands_for(blur_at(fpu, line, kernel, radius, x, n), sums.0, k + b)
            &&& stands_for(share_at(fpu, line.len() as int, kernel, radius, x, n), sums.1, b)
            &&& 0 <= sums.1 <= tap_sum(taps, n)
            &&& 0 <= sums.0 <= limit * sums.1
        }),
    decreases n,
{
    lemma_constants();
    if n == 0 {
        assert(limit * 0 == 0);
    } else {
        lemma_kept_sums(
            fpu,
            line,
            kernel,
            taps,
            b,
            values,
            k,
            limit,
            radius,
            x,
            (n - 1) as nat,
        );
        let before = kept_sums(values, line.len() as int, taps, radius, x, (n - 1) as nat);
        let p = x + (n - 1) - radius;
        assert forall|i: int| 0 <= i < taps.len() implies 0 <= #[trigger] taps[i] by {
            assert(stands_for(kernel[i], taps[i], b) && 0 <= taps[i]);
        }
        lemma_tap_sum(taps, n, taps.len());
        lemma_tap_sum(taps, (n - 1) as nat, n);
        let w = taps[n - 1];
        assert(stands_for(kernel[n - 1], w, b) && 0 <= w);
        if 0 <= p < line.len() {
            let v = values(p);
            assert(stands_for(line[p], v, k) && 0 <= v <= limit);
            let all = tap_sum(taps, taps.len());
            let share = before.1 + w;
            assert(0 <= v * w && limit * before.1 + v * w <= limit * share && limit * share <= limit
                * all && share <= limit * share && 0 <= limit * before.1) by (nonlinear_arith)
                requires
                    0 <= v <= limit,
                    1 <= limit,
                    0 <= w,
                    0 <= before.1,
                    share == before.1 + w,
                    share <= all,
            ;
            exact_mul(fpu, line[p], kernel[n - 1], v, w, k, b);
            exact_add(
                fpu,
                blur_at(fpu, line, kernel, radius, x, (n - 1) as nat),
                fpu.mul(line[p], kernel[n - 1]),
                before.0,
                v * w,
                k + b,
            );
            exact_add(
                fpu,
                share_at(fpu, line.len() as int, kernel, radius, x, (n - 1) as nat),
                kernel[n - 1],
                before.1,
                w,
                b,
            );
        }
    }
}

/// Near the ends of a line, the blur weighs what the line has by the taps that fall on it: it gives the
/// mean of these values, not less.
pub proof fn borders_are_weighed_by_what_they_have<F: Fn(FloatOp) -> u64>(
    fpu: &FloatUnit<F>,
    line: Seq<u32>,
    kernel: Seq<u32>,
    taps: Seq<int>,
    b: nat,
    values: spec_fn(int) -> int,
    k: nat,
    limit: int,
    radius: int,
    x: int,
    mean: int,
)
    requires
        is_exact(fpu),
        has_taps(kernel, taps, b),
        0 <= x < line.len(),
        x < radius || x + radius >= line.len(),
        forall|p: int|
            0 <= p < line.len() ==> stands_for(#[trigger] line[p], values(p), k) && 0 <= values(p)
                <= limit,
        k + b <= 149,
        1 <= limit,
        fits(limit * tap_sum(taps, taps.len())),
        ({
            let sums = kept_sums(values, line.len() as int, taps, radius, x, taps.len());
            sums.1 > 0 && sums.0 == mean * sums.1
        }),
    ensures
        stands_for(smooth_at(fpu, line, kernel, radius, x), mean, k),
{
    let n = kernel.len();
    lemma_kept_sums(fpu, line, kernel, taps, b, values, k, limit, radius, x, n);
    let sums = kept_sums(values, line.len() as int, taps, radius, x, n);
    let all = tap_sum(taps, taps.len());
    let share = sums.1;
    assert(-0x100_0000 <= mean <= 0x100_0000) by (nonlinear_arith)
        requires
            0 <= mean * share <= limit * share,
            0 < share <= all,
            1 <= limit,
            limit * all <= 0x100_0000,
    ;
    exact_div(
        fpu,
        blur_at(fpu, line, kernel, radius, x, n),
        share_at(fpu, line.len() as int, kernel, radius, x, n),
        mean,
        share,
        b,
        k,
    );
}

} // verus!
