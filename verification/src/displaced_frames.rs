//! What the alignment makes of frames that show the reference displaced by whole pixels.

use crate::alignment::{
    best_of, cell, coarse_shift, correlation, difference, frame_shift, gradient_x, gradient_y,
    inner_end, interpolated, is_alignment, iterated, level, lies_inside, newton_step, newton_sums,
    overlap, overlap_end, overlap_start, product_sums, refinement, refinement_grid, search_score,
    search_step, wide_integer, AlignError, AlignmentShift, NewtonSums, MAX_ITERATIONS, PIXEL_LIMIT,
};
use crate::exact::{
    exact_add, exact_floor, exact_from, exact_mul, exact_narrow, exact_sub, exact_whole,
    exact_wide_add, exact_wide_div, exact_wide_from, exact_wide_mul, exact_wide_sqrt, exact_wide_sub, exact_widen,
    fits, is_exact, is_wide_finite, lemma_coarser, lemma_compare, lemma_constants, lemma_finer,
    lemma_is_finite, lemma_not_negligible, lemma_wide_finer, lemma_wide_is_zero, lemma_wide_magnitude,
    lemma_wide_opposite, lemma_wide_smallest_parts, lemma_wide_zero, stands_for, wide_fits,
    wide_number, wide_stands_for,
};
use crate::float::{
    clamp_stays_within, lt, wide_neg, FloatOp, FloatUnit, HALF, ONE, ZERO,
};
use crate::frame::{is_nearest, lemma_index_pixel, lemma_pixel_index, GrayFrame};
use crate::grid::{lemma_grid, lemma_steps, steps, Grid};
use crate::skr_fusion::{lemma_mix, lemma_parts};
use vstd::arithmetic::power2::pow2;
use vstd::prelude::*;

verus! {

/// A ramp has its slope as gradient: where brightness grows by `a` from column to column and by `b`
/// from row to row around an inner pixel, these are its gradients there.
pub proof fn ramps_have_their_slope_as_gradient(
    img: &GrayFrame,
    x: int,
    y: int,
    width: int,
    height: int,
    base: int,
    a: int,
    b: int,
)
    requires
        1 <= x < width - 1,
        1 <= y < height - 1,
        forall|u: int, v: int|
            x - 1 <= u <= x + 1 && y - 1 <= v <= y + 1 ==> #[trigger] img.at(u, v) == base + a * (u
                - x) + b * (v - y),
    ensures
        gradient_x(img, x, y, width, height) == a,
        gradient_y(img, x, y, width, height) == b,
{
    assert(img.at(x + 1, y - 1) == base + a * 1 + b * (-1));
    assert(img.at(x + 1, y) == base + a * 1 + b * 0);
    assert(img.at(x + 1, y + 1) == base + a * 1 + b * 1);
    assert(img.at(x - 1, y - 1) == base + a * (-1) + b * (-1));
    assert(img.at(x - 1, y) == base + a * (-1) + b * 0);
    assert(img.at(x - 1, y + 1) == base + a * (-1) + b * 1);
    assert(img.at(x, y + 1) == base + a * 0 + b * 1);
    assert(img.at(x, y - 1) == base + a * 0 + b * (-1));
    assert(a * (-1) == -a && b * (-1) == -b && a * 0 == 0 && b * 0 == 0) by (nonlinear_arith);
}

/// A bilinear sample of a grayscale image at a position of `px` and `py` parts of a pixel, `w` of
/// which make a whole one: it lies between the four pixels around the position, as far on the way as
/// the position does.
pub proof fn gray_samples_lie_between_pixels<F: Fn(FloatOp) -> u64>(
    fpu: &FloatUnit<F>,
    img: &GrayFrame,
    width: u32,
    height: u32,
    x: u32,
    y: u32,
    px: int,
    py: int,
    s: nat,
    right: int,
    bottom: int,
)
    requires
        is_exact(fpu),
        s <= 8,
        stands_for(x, px, s),
        stands_for(y, py, s),
        fits(px),
        fits(py),
        0 <= px,
        0 <= py,
        px / (pow2(s) as int) < width,
        py / (pow2(s) as int) < height,
        is_nearest(right, px / (pow2(s) as int) + 1, width as int),
        is_nearest(bottom, py / (pow2(s) as int) + 1, height as int),
    ensures
        ({
            let w = pow2(s) as int;
            let (left, top) = (px / w, py / w);
            let (i, j) = (px % w, py % w);
            stands_for(
                interpolated(fpu, img, width, height, x, y),
                (img.at(left, top) * (w - i) + img.at(right, top) * i) * (w - j) + (img.at(left, bottom)
                    * (w - i) + img.at(right, bottom) * i) * j,
                2 * s,
            )
        }),
{
    let w = pow2(s) as int;
    let (left, top) = (px / w, py / w);
    vstd::arithmetic::power2::lemma2_to64();
    vstd::arithmetic::power2::lemma_pow2_pos(s);
    assert(w <= 256) by {
        if s < 8 {
            vstd::arithmetic::power2::lemma_pow2_strictly_increases(s, 8);
        }
    }
    lemma_parts(fpu, x, px, s);
    lemma_parts(fpu, y, py, s);
    lemma_cell(fpu, x, px, s);
    lemma_cell(fpu, y, py, s);
    let (n00, n10) = (img.at(left, top) as int, img.at(right, top) as int);
    let (n01, n11) = (img.at(left, bottom) as int, img.at(right, bottom) as int);
    exact_from(fpu, n00);
    exact_from(fpu, n10);
    exact_from(fpu, n01);
    exact_from(fpu, n11);
    assert(255 * w * w <= 0x100_0000) by (nonlinear_arith)
        requires
            1 <= w <= 256,
    ;
    let (x0, y0) = (cell(fpu, x), cell(fpu, y));
    lemma_mix(
        fpu,
        level(fpu, img.at(left, top)),
        level(fpu, img.at(right, top)),
        level(fpu, img.at(left, bottom)),
        level(fpu, img.at(right, bottom)),
        fpu.sub(x, fpu.from_u64(x0 as u64)),
        fpu.sub(y, fpu.from_u64(y0 as u64)),
        n00,
        n10,
        n01,
        n11,
        px % w,
        py % w,
        s,
        0,
        255,
    );
}

pub proof fn lemma_cell<F: Fn(FloatOp) -> u64>(fpu: &FloatUnit<F>, x: u32, px: int, s: nat)
    requires
        is_exact(fpu),
        stands_for(x, px, s),
        fits(px),
        0 <= px,
        s <= 8,
    ensures
        cell(fpu, x) == px / (pow2(s) as int),
        stands_for(fpu.sub(x, fpu.from_u64(cell(fpu, x) as u64)), px % (pow2(s) as int), s),
{
    let w = pow2(s) as int;
    vstd::arithmetic::power2::lemma2_to64();
    vstd::arithmetic::power2::lemma_pow2_pos(s);
    exact_floor(fpu, x, px, s);
    let q = px / w;
    vstd::arithmetic::div_mod::lemma_fundamental_div_mod(px, w);
    assert(w * q == q * w) by (nonlinear_arith);
    assert(0 <= q <= px) by (nonlinear_arith)
        requires
            px == q * w + px % w,
            0 <= px,
            0 <= px % w < w,
            w >= 1,
    ;
    exact_whole(fpu, fpu.floor(x), q);
    exact_from(fpu, q);
    lemma_is_finite(x, px, s);
    lemma_finer(fpu.from_u64(q as u64), q, 0, s);
    assert(px % w <= px) by (nonlinear_arith)
        requires
            px == q * w + px % w,
            0 <= q,
            w >= 1,
    ;
    exact_sub(fpu, x, fpu.from_u64(q as u64), px, q * w, s);
}

/// Whether a frame shows the reference displaced by `right` columns and `down` rows: wherever both
/// reach, it shows there what the reference shows that many columns left and rows up.
pub open spec fn is_displaced(
    reference: &GrayFrame,
    frame: &GrayFrame,
    width: u32,
    height: u32,
    right: int,
    down: int,
) -> bool {
    forall|x: int, y: int|
        0 <= x < width && 0 <= y < height && 0 <= x + right < width && 0 <= y + down < height
            ==> #[trigger] reference.at(x, y) == frame.at(x + right, y + down)
}

/// What two images show at the places of a grid, the second displaced: the sums of the products of both,
/// of the squares of the first and of the squares of the second, over the first `k` places.
pub open spec fn pair_sums(
    reference: &GrayFrame,
    target: &GrayFrame,
    g: Grid,
    dx: int,
    dy: int,
    k: nat,
) -> (int, int, int)
    decreases k,
{
    if k == 0 {
        (0, 0, 0)
    } else {
        let before = pair_sums(reference, target, g, dx, dy, (k - 1) as nat);
        let (x, y) = (g.column(k - 1), g.row(k - 1));
        let (a, b) = (reference.at(x, y) as int, target.at(x - dx, y - dy) as int);
        (before.0 + a * b, before.1 + a * a, before.2 + b * b)
    }
}

proof fn lemma_pair_sums(
    reference: &GrayFrame,
    target: &GrayFrame,
    g: Grid,
    dx: int,
    dy: int,
    k: nat,
)
    ensures
        ({
            let sums = product_sums(reference, target, g, dx, dy, k);
            &&& (sums.ab, sums.aa, sums.bb) == pair_sums(reference, target, g, dx, dy, k)
            &&& 0 <= sums.ab
            &&& 0 <= sums.aa
            &&& 0 <= sums.bb
        }),
    decreases k,
{
    if k > 0 {
        lemma_pair_sums(reference, target, g, dx, dy, (k - 1) as nat);
        let (x, y) = (g.column(k - 1), g.row(k - 1));
        let (a, b) = (reference.at(x, y) as int, target.at(x - dx, y - dy) as int);
        assert(0 <= a * b && 0 <= a * a && 0 <= b * b) by (nonlinear_arith)
            requires
                0 <= a,
                0 <= b,
        ;
    }
}

/// The correlation of two images is the cosine between what they show where they overlap: the sum of the
/// products over the root of both sums of squares.
pub proof fn correlations_are_cosines<F: Fn(FloatOp) -> u64>(
    fpu: &FloatUnit<F>,
    reference: &GrayFrame,
    target: &GrayFrame,
    width: u32,
    height: u32,
    dx: int,
    dy: int,
    step: u32,
    root: int,
    q: int,
    t: nat,
)
    requires
        is_exact(fpu),
        ({
            let g = overlap(width, height, dx, dy, step);
            let sums = pair_sums(reference, target, g, dx, dy, g.area() as nat);
            &&& g.area() > 0
            &&& sums.1 <= 0x400_0000
            &&& sums.2 <= 0x400_0000
            &&& wide_fits(sums.0)
            &&& root * root == sums.1 * sums.2
            &&& q * root == sums.0 * pow2(t)
        }),
        0 < root,
        fits(root),
        fits(q),
        t <= 24,
    ensures
        stands_for(correlation(fpu, reference, target, width, height, dx, dy, step), q, t),
{
    let g = overlap(width, height, dx, dy, step);
    let k = g.area() as nat;
    lemma_pair_sums(reference, target, g, dx, dy, k);
    let sums = product_sums(reference, target, g, dx, dy, k);
    exact_wide_from(fpu, sums.aa);
    exact_wide_from(fpu, sums.bb);
    exact_wide_from(fpu, sums.ab);
    let (a, b) = (fpu.wide_from_u64(sums.aa as u64), fpu.wide_from_u64(sums.bb as u64));
    let (m, n) = (sums.aa, sums.bb);
    assert(0 <= m * n <= 0x400_0000 * 0x400_0000) by (nonlinear_arith)
        requires
            0 <= m <= 0x400_0000,
            0 <= n <= 0x400_0000,
    ;
    exact_wide_mul(fpu, a, b, m, n, 0, 0);
    exact_wide_sqrt(fpu, fpu.wide_mul(a, b), root, 0);
    let denom = fpu.wide_sqrt(fpu.wide_mul(a, b));
    vstd::arithmetic::power2::lemma2_to64();
    vstd::arithmetic::power2::lemma_pow2_pos(33);
    assert(root * pow2(33) >= 1) by (nonlinear_arith)
        requires
            root >= 1,
            pow2(33) >= 1,
    ;
    lemma_not_negligible(denom, root, 0);
    let top = fpu.wide_from_u64(sums.ab as u64);
    lemma_wide_finer(top, sums.ab, 0, t);
    exact_wide_div(fpu, top, denom, q, root, 0, t);
    exact_narrow(fpu, fpu.wide_div(top, denom), q, t);
}

/// Whether a unit finds the root of a square again, as IEEE 754 asks of rounded squares and roots.
pub open spec fn undoes_squares<F: Fn(FloatOp) -> u64>(fpu: &FloatUnit<F>) -> bool {
    forall|a: u64, n: int|
        0 <= n && #[trigger] wide_stands_for(a, n, 0) && wide_fits(n) ==> fpu.wide_sqrt(
            fpu.wide_mul(a, a),
        ) == a
}

/// Whether differences of products of whole numbers stay finite.
pub open spec fn stays_finite<F: Fn(FloatOp) -> u64>(fpu: &FloatUnit<F>) -> bool {
    forall|a: u64, b: u64, c: u64, n: int, m: int, r: int|
        #![trigger wide_stands_for(a, n, 0), wide_stands_for(b, m, 0), wide_stands_for(c, r, 0)]
        wide_stands_for(a, n, 0) && wide_stands_for(b, m, 0) && wide_stands_for(c, r, 0)
            && wide_fits(n) && wide_fits(m) && wide_fits(r) ==> is_wide_finite(
            fpu.wide_sub(fpu.wide_mul(a, b), fpu.wide_mul(c, c)),
        )
}

proof fn lemma_same_products(
    reference: &GrayFrame,
    frame: &GrayFrame,
    width: u32,
    height: u32,
    right: int,
    down: int,
    g: Grid,
    k: nat,
)
    requires
        is_displaced(reference, frame, width, height, right, down),
        forall|i: int|
            0 <= i < g.area() ==> {
                &&& 0 <= #[trigger] g.column(i) < width
                &&& 0 <= g.row(i) < height
                &&& 0 <= g.column(i) + right < width
                &&& 0 <= g.row(i) + down < height
            },
        k <= g.area(),
    ensures
        ({
            let sums = product_sums(reference, frame, g, -right, -down, k);
            &&& sums.ab == sums.aa
            &&& sums.bb == sums.aa
            &&& 0 <= sums.aa <= 65025 * k
            &&& forall|i: int|
                0 <= i < k ==> {
                    let a = reference.at(#[trigger] g.column(i), g.row(i));
                    a > 0 ==> sums.aa > 0
                }
        }),
    decreases k,
{
    if k > 0 {
        lemma_same_products(reference, frame, width, height, right, down, g, (k - 1) as nat);
        let (x, y) = (g.column(k - 1), g.row(k - 1));
        let a = reference.at(x, y);
        assert(a == frame.at(x + right, y + down));
        assert(x - (-right) == x + right && y - (-down) == y + down);
        assert(0 <= a * a <= 65025 && (a > 0 ==> a * a > 0)) by (nonlinear_arith)
            requires
                0 <= a <= 255,
        ;
    }
}

/// A frame that shows the reference displaced correlates with it fully where it is moved back: the
/// score is one, unless all that is compared is black.
pub proof fn displaced_frames_correlate_fully<F: Fn(FloatOp) -> u64>(
    fpu: &FloatUnit<F>,
    reference: &GrayFrame,
    frame: &GrayFrame,
    width: u32,
    height: u32,
    right: int,
    down: int,
    step: u32,
    u: int,
    v: int,
)
    requires
        is_exact(fpu),
        undoes_squares(fpu),
        is_displaced(reference, frame, width, height, right, down),
        0 < step,
        width * height <= PIXEL_LIMIT,
        -0x1000_0000 <= right <= 0x1000_0000,
        -0x1000_0000 <= down <= 0x1000_0000,
        0 <= u,
        0 <= v,
        ({
            let x = u * step + if right < 0 {
                -right
            } else {
                0
            };
            let y = v * step + if down < 0 {
                -down
            } else {
                0
            };
            &&& x < width && x + right < width
            &&& y < height && y + down < height
            &&& reference.at(x, y) > 0
        }),
    ensures
        stands_for(
            correlation(fpu, reference, frame, width, height, -right, -down, step),
            1,
            0,
        ),
{
    let (dx, dy) = (-right, -down);
    let g = overlap(width, height, dx, dy, step);
    let (x0, x1) = (overlap_start(dx), overlap_end(width, dx));
    let (y0, y1) = (overlap_start(dy), overlap_end(height, dy));
    lemma_grid(x0, x1, y0, y1, step);
    lemma_steps(x0 as int, x1 as int, step as int);
    lemma_steps(y0 as int, y1 as int, step as int);
    assert(0 <= u * step && 0 <= v * step) by (nonlinear_arith)
        requires
            0 <= u,
            0 <= v,
            0 < step,
    ;
    lemma_step_index(x0 as int, x1 as int, step as int, u);
    lemma_step_index(y0 as int, y1 as int, step as int, v);
    assert(g.nx == steps(x0 as int, x1 as int, step as int));
    assert(g.ny == steps(y0 as int, y1 as int, step as int));
    lemma_pixel_index(u, v, g.nx as int, g.ny as int);
    let at = v * g.nx + u;
    assert(g.column(at) == x0 + u * step && g.row(at) == y0 + v * step);
    assert forall|i: int| 0 <= i < g.area() implies {
        &&& 0 <= #[trigger] g.column(i) < width
        &&& 0 <= g.row(i) < height
        &&& 0 <= g.column(i) + right < width
        &&& 0 <= g.row(i) + down < height
    } by {
        assert(x0 <= g.column(i) < x1);
    }
    let n = g.area() as nat;
    lemma_same_products(reference, frame, width, height, right, down, g, n);
    let sums = product_sums(reference, frame, g, dx, dy, n);
    assert(sums.aa > 0) by {
        let a = reference.at(g.column(at), g.row(at));
        assert(a > 0);
    }
    assert(g.area() <= width * height) by {
        assert((x1 - x0) * (y1 - y0) <= width * height) by (nonlinear_arith)
            requires
                0 <= x1 - x0 <= width,
                0 <= y1 - y0 <= height,
        ;
    }
    let aa = sums.aa;
    exact_wide_from(fpu, aa);
    let whole = fpu.wide_from_u64(aa as u64);
    assert(fpu.wide_sqrt(fpu.wide_mul(whole, whole)) == whole);
    vstd::arithmetic::power2::lemma2_to64();
    vstd::arithmetic::power2::lemma2_to64_rest();
    assert(aa * pow2(33) >= pow2(0));
    lemma_not_negligible(whole, aa, 0);
    exact_wide_div(fpu, whole, whole, 1, aa, 0, 0);
    exact_narrow(fpu, fpu.wide_div(whole, whole), 1, 0);
}

proof fn lemma_step_index(start: int, end: int, step: int, u: int)
    requires
        0 < step,
        0 <= u,
        start + u * step < end,
    ensures
        u < steps(start, end, step),
{
    let d = end - start;
    assert(0 <= u * step) by (nonlinear_arith)
        requires
            0 <= u,
            0 < step,
    ;
    vstd::arithmetic::div_mod::lemma_fundamental_div_mod(d + step - 1, step);
    let n = (d + step - 1) / step;
    assert(u < n) by (nonlinear_arith)
        requires
            u * step + 1 <= d,
            d + step - 1 == step * n + (d + step - 1) % step,
            (d + step - 1) % step < step,
            0 < step,
    ;
}

/// Whether no offset up to sixteen pixels scores as high as one, where the images are compared `step`
/// pixels apart, but for the one that moves the frame back.
pub open spec fn matches_once<F: Fn(FloatOp) -> u64>(
    fpu: &FloatUnit<F>,
    reference: &GrayFrame,
    frame: &GrayFrame,
    width: u32,
    height: u32,
    right: int,
    down: int,
    step: u32,
) -> bool {
    forall|dx: int, dy: int|
        -16 <= dx <= 16 && -16 <= dy <= 16 && (dx != -right || dy != -down) ==> lt(
            #[trigger] correlation(
                fpu,
                reference,
                frame,
                width,
                height,
                dx,
                dy,
                step,
            ),
            ONE,
        )
}

proof fn lemma_best_is_found<F: Fn(FloatOp) -> u64>(
    fpu: &FloatUnit<F>,
    reference: &GrayFrame,
    frame: &GrayFrame,
    width: u32,
    height: u32,
    right: int,
    down: int,
    n: nat,
)
    requires
        -16 <= right <= 16,
        -16 <= down <= 16,
        matches_once(fpu, reference, frame, width, height, right, down, search_step(width)),
        stands_for(
            correlation(
                fpu,
                reference,
                frame,
                width,
                height,
                -right,
                -down,
                search_step(width),
            ),
            1,
            0,
        ),
        n <= 1089,
    ensures
        ({
            let best = best_of(fpu, reference, frame, width, height, n);
            let k = (16 - down) * 33 + (16 - right);
            &&& n > k ==> best.1 == k && stands_for(best.0, 1, 0)
            &&& n <= k ==> lt(best.0, ONE)
        }),
    decreases n,
{
    lemma_constants();
    let k = (16 - down) * 33 + (16 - right);
    if n > 0 {
        lemma_best_is_found(fpu, reference, frame, width, height, right, down, (n - 1) as nat);
        let before = best_of(fpu, reference, frame, width, height, (n - 1) as nat);
        let i = n - 1;
        let score = search_score(fpu, reference, frame, width, height, i);
        if i == k {
            assert(k % 33 == 16 - right && k / 33 == 16 - down);
            lemma_compare(score, ONE, 1, 1, 0);
        } else {
            assert(i % 33 - 16 != -right || i / 33 - 16 != -down);
            assert(lt(score, ONE));
            if i > k {
                lemma_compare(before.0, ONE, 1, 1, 0);
            }
        }
    }
}

proof fn lemma_no_difference<F: Fn(FloatOp) -> u64>(
    fpu: &FloatUnit<F>,
    reference: &GrayFrame,
    frame: &GrayFrame,
    width: u32,
    height: u32,
    right: int,
    down: int,
    dx: u32,
    dy: u32,
    x: int,
    y: int,
)
    requires
        is_exact(fpu),
        is_displaced(reference, frame, width, height, right, down),
        stands_for(dx, right, 0),
        stands_for(dy, down, 0),
        -16 <= right <= 16,
        -16 <= down <= 16,
        0 <= x < width <= 0x80_0000,
        0 <= y < height <= 0x80_0000,
        lies_inside(
            fpu,
            width,
            height,
            fpu.add(fpu.from_u64(x as u64), dx),
            fpu.add(fpu.from_u64(y as u64), dy),
        ),
    ensures
        stands_for(difference(fpu, reference, frame, width, height, dx, dy, x, y), 0, 0),
{
    vstd::arithmetic::power2::lemma2_to64();
    lemma_constants();
    exact_from(fpu, x);
    exact_from(fpu, y);
    exact_add(fpu, fpu.from_u64(x as u64), dx, x, right, 0);
    exact_add(fpu, fpu.from_u64(y as u64), dy, y, down, 0);
    let tx = fpu.add(fpu.from_u64(x as u64), dx);
    let ty = fpu.add(fpu.from_u64(y as u64), dy);
    let (u, v) = (x + right, y + down);
    lemma_compare(ZERO, tx, 0, u, 0);
    lemma_compare(ZERO, ty, 0, v, 0);
    lemma_cell(fpu, tx, u, 0);
    lemma_cell(fpu, ty, v, 0);
    let next_x = if u + 1 < width {
        u + 1
    } else {
        width - 1
    };
    let next_y = if v + 1 < height {
        v + 1
    } else {
        height - 1
    };
    gray_samples_lie_between_pixels(
        fpu,
        frame,
        width,
        height,
        tx,
        ty,
        u,
        v,
        0,
        next_x,
        next_y,
    );
    let a = reference.at(x, y) as int;
    assert(reference.at(x, y) == frame.at(x + right, y + down));
    let found = interpolated(fpu, frame, width, height, tx, ty);
    assert(stands_for(found, a, 0)) by {
        let (b, c, d) = (
            frame.at(next_x, v) as int,
            frame.at(u, next_y) as int,
            frame.at(next_x, next_y) as int,
        );
        assert((a * (1 - 0) + b * 0) * (1 - 0) + (c * (1 - 0) + d * 0) * 0 == a) by (nonlinear_arith);
    }
    exact_from(fpu, a);
    exact_sub(fpu, found, level(fpu, reference.at(x, y)), a, a, 0);
}

pub proof fn lemma_gradient_bounds(img: &GrayFrame, x: int, y: int, width: int, height: int)
    ensures
        -127 <= gradient_x(img, x, y, width, height) <= 127,
        -127 <= gradient_y(img, x, y, width, height) <= 127,
{
}

proof fn lemma_no_pull<F: Fn(FloatOp) -> u64>(
    fpu: &FloatUnit<F>,
    reference: &GrayFrame,
    frame: &GrayFrame,
    width: u32,
    height: u32,
    right: int,
    down: int,
    dx: u32,
    dy: u32,
    k: nat,
)
    requires
        is_exact(fpu),
        is_displaced(reference, frame, width, height, right, down),
        stands_for(dx, right, 0),
        stands_for(dy, down, 0),
        -16 <= right <= 16,
        -16 <= down <= 16,
        width <= 0x80_0000,
        height <= 0x80_0000,
        k <= refinement_grid(width, height).area(),
    ensures
        ({
            let sums = newton_sums(fpu, reference, frame, width, height, dx, dy, k);
            &&& 0 <= sums.h11 <= 16129 * k
            &&& -16129 * k <= sums.h12 <= 16129 * k
            &&& 0 <= sums.h22 <= 16129 * k
            &&& wide_stands_for(sums.g1, 0, 0)
            &&& wide_stands_for(sums.g2, 0, 0)
        }),
    decreases k,
{
    lemma_constants();
    if k > 0 {
        lemma_no_pull(
            fpu,
            reference,
            frame,
            width,
            height,
            right,
            down,
            dx,
            dy,
            (k - 1) as nat,
        );
        let before = newton_sums(
            fpu,
            reference,
            frame,
            width,
            height,
            dx,
            dy,
            (k - 1) as nat,
        );
        let g = refinement_grid(width, height);
        let (x, y) = (g.column(k - 1), g.row(k - 1));
        let x_end = inner_end(width);
        let y_end = inner_end(height);
        lemma_grid(2, x_end, 2, y_end, 2);
        assert(2 <= x < x_end && 2 <= y < y_end);
        let tx = fpu.add(fpu.from_u64(x as u64), dx);
        let ty = fpu.add(fpu.from_u64(y as u64), dy);
        if lies_inside(fpu, width, height, tx, ty) {
            lemma_no_difference(
                fpu,
                reference,
                frame,
                width,
                height,
                right,
                down,
                dx,
                dy,
                x,
                y,
            );
            let error = difference(fpu, reference, frame, width, height, dx, dy, x, y);
            let gx = gradient_x(reference, x, y, width as int, height as int);
            let gy = gradient_y(reference, x, y, width as int, height as int);
            lemma_gradient_bounds(reference, x, y, width as int, height as int);
            assert(0 <= gx * gx <= 16129 && -16129 <= gx * gy <= 16129 && 0 <= gy * gy <= 16129)
                by (nonlinear_arith)
                requires
                    -127 <= gx <= 127,
                    -127 <= gy <= 127,
            ;
            exact_from(fpu, gx);
            exact_from(fpu, gy);
            let (ax, ay) = (fpu.from_i32(gx as i32), fpu.from_i32(gy as i32));
            assert(gx * 0 == 0 && gy * 0 == 0);
            exact_mul(fpu, ax, error, gx, 0, 0, 0);
            exact_mul(fpu, ay, error, gy, 0, 0, 0);
            exact_widen(fpu, fpu.mul(ax, error), 0, 0);
            exact_widen(fpu, fpu.mul(ay, error), 0, 0);
            exact_wide_add(fpu, before.g1, fpu.widen(fpu.mul(ax, error)), 0, 0, 0);
            exact_wide_add(fpu, before.g2, fpu.widen(fpu.mul(ay, error)), 0, 0, 0);
        }
    }
}

proof fn lemma_no_step<F: Fn(FloatOp) -> u64>(
    fpu: &FloatUnit<F>,
    sums: NewtonSums,
)
    requires
        is_exact(fpu),
        stays_finite(fpu),
        0 <= sums.h11,
        0 <= sums.h22,
        wide_fits(sums.h11),
        wide_fits(sums.h12),
        wide_fits(sums.h22),
        wide_stands_for(sums.g1, 0, 0),
        wide_stands_for(sums.g2, 0, 0),
    ensures
        newton_step(fpu, sums) matches Some((ddx, ddy)) ==> {
            &&& wide_stands_for(ddx, 0, 0)
            &&& wide_stands_for(ddy, 0, 0)
        },
{
    exact_wide_from(fpu, sums.h11);
    exact_wide_from(fpu, sums.h22);
    let h11 = fpu.wide_from_u64(sums.h11 as u64);
    let h12 = wide_integer(fpu, sums.h12);
    let h22 = fpu.wide_from_u64(sums.h22 as u64);
    assert(wide_stands_for(h12, sums.h12, 0)) by {
        if sums.h12 < 0 {
            exact_wide_from(fpu, -sums.h12);
            lemma_wide_opposite(fpu.wide_from_u64((-sums.h12) as u64), -sums.h12, 0);
        } else {
            exact_wide_from(fpu, sums.h12);
        }
    }
    let det = fpu.wide_sub(fpu.wide_mul(h11, h22), fpu.wide_mul(h12, h12));
    if newton_step(fpu, sums) is Some {
        assert(is_wide_finite(det));
        lemma_wide_is_zero(det);
        assert(wide_number(det) != 0);
        lemma_wide_smallest_parts(det);
        lemma_wide_opposite(h22, sums.h22, 0);
        let m = wide_number(det);
        assert((-sums.h22) * 0 == 0 && sums.h12 * 0 == 0 && sums.h11 * 0 == 0 && 0 * m == 0);
        exact_wide_mul(fpu, wide_neg(h22), sums.g1, -sums.h22, 0, 0, 0);
        exact_wide_mul(fpu, h12, sums.g2, sums.h12, 0, 0, 0);
        exact_wide_mul(fpu, h12, sums.g1, sums.h12, 0, 0, 0);
        exact_wide_mul(fpu, h11, sums.g2, sums.h11, 0, 0, 0);
        let across = fpu.wide_add(fpu.wide_mul(wide_neg(h22), sums.g1), fpu.wide_mul(h12, sums.g2));
        let along = fpu.wide_sub(fpu.wide_mul(h12, sums.g1), fpu.wide_mul(h11, sums.g2));
        exact_wide_add(fpu, fpu.wide_mul(wide_neg(h22), sums.g1), fpu.wide_mul(h12, sums.g2), 0, 0, 0);
        exact_wide_sub(fpu, fpu.wide_mul(h12, sums.g1), fpu.wide_mul(h11, sums.g2), 0, 0, 0);
        lemma_wide_zero(across, 0, 1074);
        lemma_wide_zero(along, 0, 1074);
        exact_wide_div(fpu, across, det, 0, m, 1074, 0);
        exact_wide_div(fpu, along, det, 0, m, 1074, 0);
    }
}

/// Started where a frame is displaced to, the refinement stays there.
pub proof fn lemma_settles<F: Fn(FloatOp) -> u64>(
    fpu: &FloatUnit<F>,
    reference: &GrayFrame,
    frame: &GrayFrame,
    width: u32,
    height: u32,
    right: int,
    down: int,
    dx: u32,
    dy: u32,
    n: nat,
)
    requires
        n >= 1,
        is_exact(fpu),
        stays_finite(fpu),
        is_displaced(reference, frame, width, height, right, down),
        stands_for(dx, right, 0),
        stands_for(dy, down, 0),
        -16 <= right <= 16,
        -16 <= down <= 16,
        width <= 0x80_0000,
        height <= 0x80_0000,
        width * height <= PIXEL_LIMIT,
    ensures
        ({
            let (x, y) = iterated(fpu, reference, frame, width, height, dx, dy, n);
            stands_for(x, right, 0) && stands_for(y, down, 0)
        }),
{
    let g = refinement_grid(width, height);
    let x_end = inner_end(width);
    let y_end = inner_end(height);
    lemma_grid(2, x_end, 2, y_end, 2);
    assert(g.area() <= width * height) by {
        assert(0 <= width * height) by (nonlinear_arith)
            requires
                0 <= width,
                0 <= height,
        ;
        if g.area() > 0 {
            lemma_index_pixel(0, g.nx as int, g.ny as int);
            assert((x_end - 2) * (y_end - 2) <= width * height) by (nonlinear_arith)
                requires
                    0 <= x_end - 2 <= width,
                    0 <= y_end - 2 <= height,
            ;
        }
    }
    assert(0 <= g.area()) by (nonlinear_arith)
        requires
            0 <= g.nx,
            0 <= g.ny,
            g.area() == g.nx * g.ny,
    ;
    let area = g.area() as nat;
    lemma_no_pull(fpu, reference, frame, width, height, right, down, dx, dy, area);
    let sums = newton_sums(fpu, reference, frame, width, height, dx, dy, area);
    lemma_no_step(fpu, sums);
    let (x, y) = iterated(
        fpu,
        reference,
        frame,
        width,
        height,
        dx,
        dy,
        n,
    );
    assert(stands_for(x, right, 0) && stands_for(y, down, 0)) by {
        match newton_step(fpu, sums) {
            Some((ddx, ddy)) => {
                exact_narrow(fpu, ddx, 0, 0);
                exact_narrow(fpu, ddy, 0, 0);
                exact_add(fpu, dx, fpu.narrow(ddx), right, 0, 0);
                exact_add(fpu, dy, fpu.narrow(ddy), down, 0, 0);
                lemma_wide_magnitude(ddx, 0);
                lemma_wide_magnitude(ddy, 0);
            },
            None => {},
        }
    }
}

proof fn lemma_stays<F: Fn(FloatOp) -> u64>(
    fpu: &FloatUnit<F>,
    reference: &GrayFrame,
    frame: &GrayFrame,
    width: u32,
    height: u32,
    right: int,
    down: int,
    dx: u32,
    dy: u32,
)
    requires
        is_exact(fpu),
        stays_finite(fpu),
        is_displaced(reference, frame, width, height, right, down),
        stands_for(dx, right, 0),
        stands_for(dy, down, 0),
        -16 <= right <= 16,
        -16 <= down <= 16,
        width <= 0x80_0000,
        height <= 0x80_0000,
        width * height <= PIXEL_LIMIT,
    ensures
        ({
            let (x, y) = refinement(fpu, reference, frame, width, height, dx, dy);
            stands_for(x, 0, 0) && stands_for(y, 0, 0)
        }),
{
    let n = MAX_ITERATIONS as nat;
    lemma_settles(fpu, reference, frame, width, height, right, down, dx, dy, n);
    let (x, y) = iterated(fpu, reference, frame, width, height, dx, dy, n);
    exact_sub(fpu, x, dx, right, right, 0);
    exact_sub(fpu, y, dy, down, down, 0);
}

/// The alignment finds how far a frame is displaced: a frame that shows the reference displaced by up
/// to sixteen pixels gets just that shift, and full quality, unless what is compared is black or
/// another offset matches as well. The images are compared every second pixel, and every fourth where
/// they are wider than 1024 pixels.
pub proof fn displaced_frames_are_aligned<F: Fn(FloatOp) -> u64>(
    fpu: &FloatUnit<F>,
    frames: Seq<GrayFrame>,
    reference_index: int,
    r: Result<Vec<AlignmentShift>, AlignError>,
    f: int,
    right: int,
    down: int,
    step: u32,
    u: int,
    v: int,
)
    requires
        is_exact(fpu),
        undoes_squares(fpu),
        stays_finite(fpu),
        is_alignment(fpu, frames, reference_index, r),
        0 <= reference_index < frames.len(),
        0 <= f < frames.len(),
        f != reference_index,
        -16 <= right <= 16,
        -16 <= down <= 16,
        ({
            let reference = frames[reference_index];
            let (width, height) = (reference.width, reference.height);
            let x = u * step + if right < 0 {
                -right
            } else {
                0
            };
            let y = v * step + if down < 0 {
                -down
            } else {
                0
            };
            &&& width <= 0x80_0000 && height <= 0x80_0000
            &&& width * height <= PIXEL_LIMIT
            &&& step == if width > 1024 {
                4u32
            } else {
                2u32
            }
            &&& is_displaced(&reference, &frames[f], width, height, right, down)
            &&& matches_once(fpu, &reference, &frames[f], width, height, right, down, step)
            &&& 0 <= u && x < width && x + right < width
            &&& 0 <= v && y < height && y + down < height
            &&& reference.at(x, y) > 0
        }),
    ensures
        r is Ok,
        stands_for(r->Ok_0@[f].dx, right, 0),
        stands_for(r->Ok_0@[f].dy, down, 0),
        stands_for(r->Ok_0@[f].quality, 1, 0),
{
    let reference = frames[reference_index];
    let (width, height) = (reference.width, reference.height);
    displaced_frames_correlate_fully(
        fpu,
        &reference,
        &frames[f],
        width,
        height,
        right,
        down,
        step,
        u,
        v,
    );
    lemma_best_is_found(fpu, &reference, &frames[f], width, height, right, down, 1089);
    let best = best_of(fpu, &reference, &frames[f], width, height, 1089);
    let coarse = coarse_shift(fpu, &reference, &frames[f], width, height);
    assert(coarse.0 == -right && coarse.1 == -down);
    exact_from(fpu, right);
    exact_from(fpu, down);
    let dx = fpu.from_i32((-coarse.0) as i32);
    let dy = fpu.from_i32((-coarse.1) as i32);
    lemma_stays(fpu, &reference, &frames[f], width, height, right, down, dx, dy);
    let (sub_dx, sub_dy) = refinement(fpu, &reference, &frames[f], width, height, dx, dy);
    exact_add(fpu, dx, sub_dx, right, 0, 0);
    exact_add(fpu, dy, sub_dy, down, 0, 0);
    // The quality.
    lemma_constants();
    vstd::arithmetic::power2::lemma2_to64();
    exact_mul(fpu, best.0, HALF, 1, 1, 0, 1);
    exact_add(fpu, fpu.mul(best.0, HALF), HALF, 1, 1, 1);
    let quality = fpu.add(fpu.mul(best.0, HALF), HALF);
    lemma_coarser(quality, 1, 0, 1);
    lemma_is_finite(quality, 1, 0);
    lemma_compare(ZERO, quality, 0, 1, 0);
    lemma_compare(quality, ONE, 1, 1, 0);
    lemma_compare(ZERO, ONE, 0, 1, 0);
    clamp_stays_within(quality, ZERO, ONE);
    let shifts = r->Ok_0@;
    assert(shifts[f] == frame_shift(fpu, frames, reference_index, f));
}

} // verus!
