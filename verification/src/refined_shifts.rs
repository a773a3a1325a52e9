//! How displacements are refined by following the slopes of brightness.

use crate::alignment::{
    difference, gradient_x, gradient_y, inner_end, interpolated, iterated, level, lies_inside,
    newton_step, newton_sums, refinement, refinement_grid, wide_integer, NewtonSums, CONVERGENCE,
    MAX_ITERATIONS, PIXEL_LIMIT,
};
use crate::displaced_frames::{
    gray_samples_lie_between_pixels, is_displaced, lemma_cell, lemma_gradient_bounds,
    lemma_settles, stays_finite,
};
use crate::exact::{
    exact_add, exact_from, exact_mul, exact_narrow, exact_sub, exact_wide_add, exact_wide_div,
    exact_wide_from, exact_wide_mul, exact_wide_sub, exact_widen, is_exact, lemma_compare,
    lemma_constants, lemma_wide_opposite, lemma_wide_size, stands_for, wide_fits, wide_stands_for,
};
use crate::float::{wide_abs, wide_lt, wide_neg, FloatOp, FloatUnit, WIDE_1E_10, ZERO};
use crate::frame::{lemma_pixel_index, GrayFrame};
use crate::grid::{lemma_grid, lemma_steps};
use vstd::prelude::*;

verus! {

/// A step solves the equations that it comes of: what the sums of the products of slopes make of it is
/// the opposite of the sums of slopes times differences.
pub proof fn steps_solve_their_equations<F: Fn(FloatOp) -> u64>(
    fpu: &FloatUnit<F>,
    sums: NewtonSums,
    across: int,
    down: int,
    p: int,
    q: int,
    k: nat,
)
    requires
        is_exact(fpu),
        wide_stands_for(sums.g1, across, k),
        wide_stands_for(sums.g2, down, k),
        sums.h11 * p + sums.h12 * q == -across,
        sums.h12 * p + sums.h22 * q == -down,
        sums.h11 * sums.h22 != sums.h12 * sums.h12,
        0 <= sums.h11 <= 0x80_0000,
        -0x80_0000 <= sums.h12 <= 0x80_0000,
        0 <= sums.h22 <= 0x80_0000,
        -0x1000_0000 <= across <= 0x1000_0000,
        -0x1000_0000 <= down <= 0x1000_0000,
        wide_fits(p),
        wide_fits(q),
        k <= 1000,
    ensures
        newton_step(fpu, sums) matches Some((a, b)) && wide_stands_for(a, p, k) && wide_stands_for(
            b,
            q,
            k,
        ),
{
    let (n11, n12, n22) = (sums.h11, sums.h12, sums.h22);
    exact_wide_from(fpu, n11);
    exact_wide_from(fpu, n22);
    let h11 = fpu.wide_from_u64(n11 as u64);
    let h12 = wide_integer(fpu, n12);
    let h22 = fpu.wide_from_u64(n22 as u64);
    assert(wide_stands_for(h12, n12, 0)) by {
        if n12 < 0 {
            exact_wide_from(fpu, -n12);
            lemma_wide_opposite(fpu.wide_from_u64((-n12) as u64), -n12, 0);
        } else {
            exact_wide_from(fpu, n12);
        }
    }
    lemma_wide_opposite(h22, n22, 0);
    let m = n11 * n22 - n12 * n12;
    assert(0 <= n11 * n22 <= 0x80_0000 * 0x80_0000 && 0 <= n12 * n12 <= 0x80_0000 * 0x80_0000)
        by (nonlinear_arith)
        requires
            0 <= n11 <= 0x80_0000,
            -0x80_0000 <= n12 <= 0x80_0000,
            0 <= n22 <= 0x80_0000,
    ;
    exact_wide_mul(fpu, h11, h22, n11, n22, 0, 0);
    exact_wide_mul(fpu, h12, h12, n12, n12, 0, 0);
    exact_wide_sub(fpu, fpu.wide_mul(h11, h22), fpu.wide_mul(h12, h12), n11 * n22, n12 * n12, 0);
    let det = fpu.wide_sub(fpu.wide_mul(h11, h22), fpu.wide_mul(h12, h12));
    lemma_wide_size(det, m);
    assert(!wide_lt(wide_abs(det), WIDE_1E_10));
    lemma_product(n22, across);
    lemma_product(n12, down);
    lemma_product(n12, across);
    lemma_product(n11, down);
    assert((-n22) * across == -(n22 * across)) by (nonlinear_arith);
    exact_wide_mul(fpu, wide_neg(h22), sums.g1, -n22, across, 0, k);
    exact_wide_mul(fpu, h12, sums.g2, n12, down, 0, k);
    exact_wide_mul(fpu, h12, sums.g1, n12, across, 0, k);
    exact_wide_mul(fpu, h11, sums.g2, n11, down, 0, k);
    let top = fpu.wide_add(fpu.wide_mul(wide_neg(h22), sums.g1), fpu.wide_mul(h12, sums.g2));
    let low = fpu.wide_sub(fpu.wide_mul(h12, sums.g1), fpu.wide_mul(h11, sums.g2));
    exact_wide_add(
        fpu,
        fpu.wide_mul(wide_neg(h22), sums.g1),
        fpu.wide_mul(h12, sums.g2),
        -(n22 * across),
        n12 * down,
        k,
    );
    exact_wide_sub(
        fpu,
        fpu.wide_mul(h12, sums.g1),
        fpu.wide_mul(h11, sums.g2),
        n12 * across,
        n11 * down,
        k,
    );
    lemma_solution(n11, n12, n22, p, q, across, down);
    exact_wide_div(fpu, top, det, p, m, 0, k);
    exact_wide_div(fpu, low, det, q, m, 0, k);
}

proof fn lemma_product(n: int, g: int)
    requires
        -0x80_0000 <= n <= 0x80_0000,
        -0x1000_0000 <= g <= 0x1000_0000,
    ensures
        -0x8_0000_0000_0000 <= n * g <= 0x8_0000_0000_0000,
{
    assert(-0x8_0000_0000_0000 <= n * g <= 0x8_0000_0000_0000) by (nonlinear_arith)
        requires
            -0x80_0000 <= n <= 0x80_0000,
            -0x1000_0000 <= g <= 0x1000_0000,
    ;
}

proof fn lemma_solution(n11: int, n12: int, n22: int, p: int, q: int, across: int, down: int)
    requires
        n11 * p + n12 * q == -across,
        n12 * p + n22 * q == -down,
    ensures
        -(n22 * across) + n12 * down == p * (n11 * n22 - n12 * n12),
        n12 * across - n11 * down == q * (n11 * n22 - n12 * n12),
{
    assert(-(n22 * across) == n22 * (n11 * p + n12 * q)) by (nonlinear_arith)
        requires
            n11 * p + n12 * q == -across,
    ;
    assert(n12 * down == -(n12 * (n12 * p + n22 * q))) by (nonlinear_arith)
        requires
            n12 * p + n22 * q == -down,
    ;
    assert(n22 * (n11 * p + n12 * q) - n12 * (n12 * p + n22 * q) == p * (n11 * n22 - n12 * n12))
        by (nonlinear_arith);
    assert(n12 * across == -(n12 * (n11 * p + n12 * q))) by (nonlinear_arith)
        requires
            n11 * p + n12 * q == -across,
    ;
    assert(n11 * down == -(n11 * (n12 * p + n22 * q))) by (nonlinear_arith)
        requires
            n12 * p + n22 * q == -down,
    ;
    assert(n11 * (n12 * p + n22 * q) - n12 * (n11 * p + n12 * q) == q * (n11 * n22 - n12 * n12))
        by (nonlinear_arith);
}

/// Whether a place, displaced, lies within the frame.
pub open spec fn is_kept(width: u32, height: u32, x: int, y: int, right: int, down: int) -> bool {
    0 <= x + right < width && 0 <= y + down < height
}

/// The products of the slopes of the reference, summed over the first `k` places of the grid of every
/// second column and row that, displaced, lie within the frame: across by across, across by down, down
/// by down.
pub open spec fn slope_products(
    reference: &GrayFrame,
    width: u32,
    height: u32,
    right: int,
    down: int,
    k: nat,
) -> (int, int, int)
    decreases k,
{
    if k == 0 {
        (0, 0, 0)
    } else {
        let before = slope_products(reference, width, height, right, down, (k - 1) as nat);
        let g = refinement_grid(width, height);
        let (x, y) = (g.column(k - 1), g.row(k - 1));
        let a = gradient_x(reference, x, y, width as int, height as int);
        let b = gradient_y(reference, x, y, width as int, height as int);
        if is_kept(width, height, x, y, right, down) {
            (before.0 + a * a, before.1 + a * b, before.2 + b * b)
        } else {
            before
        }
    }
}

/// Whether a frame, displaced by `right` columns and `down` rows, still differs from the reference as its
/// slopes ask for, two pixels or more off the borders: by `p` times the slope across and `q` times the
/// slope down.
pub open spec fn differs_by_slopes(
    reference: &GrayFrame,
    frame: &GrayFrame,
    width: u32,
    height: u32,
    right: int,
    down: int,
    p: int,
    q: int,
) -> bool {
    forall|x: int, y: int|
        2 <= x < width - 2 && 2 <= y < height - 2 && is_kept(width, height, x, y, right, down) ==> {
            let a = gradient_x(reference, x, y, width as int, height as int);
            let b = gradient_y(reference, x, y, width as int, height as int);
            frame.at(x + right, y + down) == #[trigger] reference.at(x, y) - a * p - b * q
        }
}

proof fn lemma_whole_difference<F: Fn(FloatOp) -> u64>(
    fpu: &FloatUnit<F>,
    reference: &GrayFrame,
    frame: &GrayFrame,
    width: u32,
    height: u32,
    right: int,
    down: int,
    dx: u32,
    dy: u32,
    x: int,
    y: int,
)
    requires
        is_exact(fpu),
        stands_for(dx, right, 0),
        stands_for(dy, down, 0),
        -16 <= right <= 16,
        -16 <= down <= 16,
        0 <= x < width <= 0x80_0000,
        0 <= y < height <= 0x80_0000,
    ensures
        lies_inside(
            fpu,
            width,
            height,
            fpu.add(fpu.from_u64(x as u64), dx),
            fpu.add(fpu.from_u64(y as u64), dy),
        ) == is_kept(width, height, x, y, right, down),
        is_kept(width, height, x, y, right, down) ==> stands_for(
            difference(fpu, reference, frame, width, height, dx, dy, x, y),
            frame.at(x + right, y + down) - reference.at(x, y),
            0,
        ),
{
    vstd::arithmetic::power2::lemma2_to64();
    lemma_constants();
    exact_from(fpu, x);
    exact_from(fpu, y);
    exact_add(fpu, fpu.from_u64(x as u64), dx, x, right, 0);
    exact_add(fpu, fpu.from_u64(y as u64), dy, y, down, 0);
    let tx = fpu.add(fpu.from_u64(x as u64), dx);
    let ty = fpu.add(fpu.from_u64(y as u64), dy);
    let (u, v) = (x + right, y + down);
    lemma_compare(ZERO, tx, 0, u, 0);
    lemma_compare(ZERO, ty, 0, v, 0);
    if 0 <= u && 0 <= v {
        lemma_cell(fpu, tx, u, 0);
        lemma_cell(fpu, ty, v, 0);
    }
    if is_kept(width, height, x, y, right, down) {
        let next_x = if u + 1 < width {
            u + 1
        } else {
            width - 1
        };
        let next_y = if v + 1 < height {
            v + 1
        } else {
            height - 1
        };
        gray_samples_lie_between_pixels(
            fpu,
            frame,
            width,
            height,
            tx,
            ty,
            u,
            v,
            0,
            next_x,
            next_y,
        );
        let a = frame.at(u, v) as int;
        let found = interpolated(fpu, frame, width, height, tx, ty);
        assert(stands_for(found, a, 0)) by {
            let (b, c, d) = (
                frame.at(next_x, v) as int,
                frame.at(u, next_y) as int,
                frame.at(next_x, next_y) as int,
            );
            assert((a * (1 - 0) + b * 0) * (1 - 0) + (c * (1 - 0) + d * 0) * 0 == a)
                by (nonlinear_arith);
        }
        let r = reference.at(x, y) as int;
        exact_from(fpu, r);
        exact_sub(fpu, found, level(fpu, reference.at(x, y)), a, r, 0);
    }
}

proof fn lemma_pull_grows(m: int, n: int, a: int, b: int, p: int, q: int)
    ensures
        -(m * p + n * q) + a * (-(a * p) - b * q) == -((m + a * a) * p + (n + a * b) * q),
        -(m * p + n * q) + b * (-(a * p) - b * q) == -((m + a * b) * p + (n + b * b) * q),
{
    assert(a * (-(a * p) - b * q) == -(a * a * p) - a * b * q) by (nonlinear_arith);
    assert(b * (-(a * p) - b * q) == -(a * b * p) - b * b * q) by (nonlinear_arith);
    assert((m + a * a) * p == m * p + a * a * p) by (nonlinear_arith);
    assert((n + a * b) * q == n * q + a * b * q) by (nonlinear_arith);
    assert((m + a * b) * p == m * p + a * b * p) by (nonlinear_arith);
    assert((n + b * b) * q == n * q + b * b * q) by (nonlinear_arith);
}

#[verifier::rlimit(40)]
proof fn lemma_pull<F: Fn(FloatOp) -> u64>(
    fpu: &FloatUnit<F>,
    reference: &GrayFrame,
    frame: &GrayFrame,
    width: u32,
    height: u32,
    right: int,
    down: int,
    dx: u32,
    dy: u32,
    p: int,
    q: int,
    k: nat,
)
    requires
        is_exact(fpu),
        stands_for(dx, right, 0),
        stands_for(dy, down, 0),
        -16 <= right <= 16,
        -16 <= down <= 16,
        width <= 0x80_0000,
        height <= 0x80_0000,
        differs_by_slopes(reference, frame, width, height, right, down, p, q),
        -32 <= p <= 32,
        -32 <= q <= 32,
        k <= refinement_grid(width, height).area(),
        k <= 0x4000_0000,
    ensures
        ({
            let sums = newton_sums(fpu, reference, frame, width, height, dx, dy, k);
            let h = slope_products(reference, width, height, right, down, k);
            &&& (sums.h11, sums.h12, sums.h22) == h
            &&& wide_stands_for(sums.g1, -(h.0 * p + h.1 * q), 0)
            &&& wide_stands_for(sums.g2, -(h.1 * p + h.2 * q), 0)
            &&& 0 <= h.0 <= 16129 * k
            &&& -16129 * k <= h.1 <= 16129 * k
            &&& 0 <= h.2 <= 16129 * k
        }),
    decreases k,
{
    lemma_constants();
    if k == 0 {
        assert(0 * p == 0 && 0 * q == 0);
    } else {
        lemma_pull(
            fpu,
            reference,
            frame,
            width,
            height,
            right,
            down,
            dx,
            dy,
            p,
            q,
            (k - 1) as nat,
        );
        let before = newton_sums(
            fpu,
            reference,
            frame,
            width,
            height,
            dx,
            dy,
            (k - 1) as nat,
        );
        let h = slope_products(reference, width, height, right, down, (k - 1) as nat);
        let g = refinement_grid(width, height);
        let (x, y) = (g.column(k - 1), g.row(k - 1));
        lemma_grid(2, inner_end(width), 2, inner_end(height), 2);
        assert(2 <= x < inner_end(width) && 2 <= y < inner_end(height));
        lemma_whole_difference(
            fpu,
            reference,
            frame,
            width,
            height,
            right,
            down,
            dx,
            dy,
            x,
            y,
        );
        if is_kept(width, height, x, y, right, down) {
            let error = difference(fpu, reference, frame, width, height, dx, dy, x, y);
            let a = gradient_x(reference, x, y, width as int, height as int);
            let b = gradient_y(reference, x, y, width as int, height as int);
            let e = -(a * p) - b * q;
            assert(reference.at(x, y) - a * p - b * q == frame.at(x + right, y + down));
            assert(stands_for(error, e, 0));
            lemma_gradient_bounds(reference, x, y, width as int, height as int);
            assert(0 <= a * a <= 16129 && -16129 <= a * b <= 16129 && 0 <= b * b <= 16129 && -8128
                <= e <= 8128) by (nonlinear_arith)
                requires
                    -127 <= a <= 127,
                    -127 <= b <= 127,
                    -32 <= p <= 32,
                    -32 <= q <= 32,
                    e == -(a * p) - b * q,
            ;
            assert(-0x10_0000 <= a * e <= 0x10_0000 && -0x10_0000 <= b * e <= 0x10_0000)
                by (nonlinear_arith)
                requires
                    -127 <= a <= 127,
                    -127 <= b <= 127,
                    -8128 <= e <= 8128,
            ;
            exact_from(fpu, a);
            exact_from(fpu, b);
            let (fa, fb) = (fpu.from_i32(a as i32), fpu.from_i32(b as i32));
            exact_mul(fpu, fa, error, a, e, 0, 0);
            exact_mul(fpu, fb, error, b, e, 0, 0);
            exact_widen(fpu, fpu.mul(fa, error), a * e, 0);
            exact_widen(fpu, fpu.mul(fb, error), b * e, 0);
            let (g1, g2) = (-(h.0 * p + h.1 * q), -(h.1 * p + h.2 * q));
            let n = 16129 * (k - 1);
            assert(-(n * 64) <= g1 <= n * 64 && -(n * 64) <= g2 <= n * 64) by (nonlinear_arith)
                requires
                    0 <= h.0 <= n,
                    -n <= h.1 <= n,
                    0 <= h.2 <= n,
                    -32 <= p <= 32,
                    -32 <= q <= 32,
                    g1 == -(h.0 * p + h.1 * q),
                    g2 == -(h.1 * p + h.2 * q),
            ;
            exact_wide_add(fpu, before.g1, fpu.widen(fpu.mul(fa, error)), g1, a * e, 0);
            exact_wide_add(fpu, before.g2, fpu.widen(fpu.mul(fb, error)), g2, b * e, 0);
            lemma_pull_grows(h.0, h.1, a, b, p, q);
            lemma_pull_grows(h.1, h.2, a, b, p, q);
        }
    }
}

/// The refinement follows the slopes of brightness: started where a frame, displaced, still differs from
/// the reference by `p` times the slope across and `q` times the slope down, it goes on by `p` columns
/// and `q` rows, and stays there if that is how far the frame is displaced.
pub proof fn refinements_follow_slopes<F: Fn(FloatOp) -> u64>(
    fpu: &FloatUnit<F>,
    reference: &GrayFrame,
    frame: &GrayFrame,
    width: u32,
    height: u32,
    right: int,
    down: int,
    dx: u32,
    dy: u32,
    p: int,
    q: int,
)
    requires
        is_exact(fpu),
        stays_finite(fpu),
        stands_for(dx, right, 0),
        stands_for(dy, down, 0),
        -16 <= right <= 16,
        -16 <= down <= 16,
        -16 <= right + p <= 16,
        -16 <= down + q <= 16,
        width <= 0x80_0000,
        height <= 0x80_0000,
        width * height <= PIXEL_LIMIT,
        is_displaced(reference, frame, width, height, right + p, down + q),
        differs_by_slopes(reference, frame, width, height, right, down, p, q),
        ({
            let h = slope_products(
                reference,
                width,
                height,
                right,
                down,
                refinement_grid(width, height).area() as nat,
            );
            &&& h.0 * h.2 != h.1 * h.1
            &&& h.0 <= 0x40_0000
            &&& -0x40_0000 <= h.1 <= 0x40_0000
            &&& h.2 <= 0x40_0000
        }),
        refinement_grid(width, height).area() <= 0x4000_0000,
    ensures
        ({
            let (x, y) = refinement(fpu, reference, frame, width, height, dx, dy);
            stands_for(x, p, 0) && stands_for(y, q, 0)
        }),
{
    let n = MAX_ITERATIONS as nat;
    let g = refinement_grid(width, height);
    assert(0 <= g.area()) by (nonlinear_arith)
        requires
            0 <= g.nx,
            0 <= g.ny,
            g.area() == g.nx * g.ny,
    ;
    let area = g.area() as nat;
    let (x, y) = iterated(fpu, reference, frame, width, height, dx, dy, n);
    if p == 0 && q == 0 {
        lemma_settles(fpu, reference, frame, width, height, right, down, dx, dy, n);
    } else {
        lemma_pull(
            fpu,
            reference,
            frame,
            width,
            height,
            right,
            down,
            dx,
            dy,
            p,
            q,
            area,
        );
        let sums = newton_sums(fpu, reference, frame, width, height, dx, dy, area);
        let h = slope_products(reference, width, height, right, down, area);
        let (across, along) = (-(h.0 * p + h.1 * q), -(h.1 * p + h.2 * q));
        assert(-0x1000_0000 <= across <= 0x1000_0000 && -0x1000_0000 <= along <= 0x1000_0000)
            by (nonlinear_arith)
            requires
                0 <= h.0 <= 0x40_0000,
                -0x40_0000 <= h.1 <= 0x40_0000,
                0 <= h.2 <= 0x40_0000,
                -32 <= p <= 32,
                -32 <= q <= 32,
                across == -(h.0 * p + h.1 * q),
                along == -(h.1 * p + h.2 * q),
        ;
        steps_solve_their_equations(fpu, sums, across, along, p, q, 0);
        let (a, b) = newton_step(fpu, sums)->Some_0;
        exact_narrow(fpu, a, p, 0);
        exact_narrow(fpu, b, q, 0);
        exact_add(fpu, dx, fpu.narrow(a), right, p, 0);
        exact_add(fpu, dy, fpu.narrow(b), down, q, 0);
        let (next_x, next_y) = (fpu.add(dx, fpu.narrow(a)), fpu.add(dy, fpu.narrow(b)));
        if p != 0 {
            lemma_wide_size(a, p);
        } else {
            lemma_wide_size(b, q);
        }
        assert(!(wide_lt(wide_abs(a), CONVERGENCE) && wide_lt(wide_abs(b), CONVERGENCE)));
        lemma_settles(
            fpu,
            reference,
            frame,
            width,
            height,
            right + p,
            down + q,
            next_x,
            next_y,
            (n - 1) as nat,
        );
    }
    assert(stands_for(x, right + p, 0) && stands_for(y, down + q, 0));
    exact_sub(fpu, x, dx, right + p, right, 0);
    exact_sub(fpu, y, dy, down + q, down, 0);
}

/// The refinement looks at every second column and row, from two pixels off the borders on, at each
/// place once.
pub proof fn refinements_look_at_every_second_pixel(width: u32, height: u32, i: int, j: int)
    requires
        0 <= i,
        2 + 2 * i < width - 2,
        0 <= j,
        2 + 2 * j < height - 2,
    ensures
        ({
            let g = refinement_grid(width, height);
            exists|k: int|
                0 <= k < g.area() && #[trigger] g.column(k) == 2 + 2 * i && g.row(k) == 2 + 2 * j
        }),
{
    let g = refinement_grid(width, height);
    lemma_steps(2, inner_end(width) as int, 2);
    lemma_steps(2, inner_end(height) as int, 2);
    assert(i < g.nx && j < g.ny);
    lemma_pixel_index(i, j, g.nx as int, g.ny as int);
    let k = j * g.nx + i;
    let step = g.step as int;
    assert(i * step == 2 * i && j * step == 2 * j) by (nonlinear_arith)
        requires
            step == 2,
    ;
    assert(k % (g.nx as int) == i && k / (g.nx as int) == j);
    assert(g.column(k) == 2 + 2 * i && g.row(k) == 2 + 2 * j);
}

} // verus!
