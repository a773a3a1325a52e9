//! What steering kernel regression makes of plain frames: frames that show one color everywhere.
//!
//! All frames of a burst are weighted alike, so plain frames fuse to the mean of their colors.

use crate::exact::{
    exact_add, exact_div, exact_from, exact_mul, exact_narrow, exact_sub, exact_wide_add,
    exact_wide_div, exact_wide_from, exact_wide_mul, exact_widen, fits, is_exact, is_finite,
    lemma_coarser, lemma_compare, lemma_constants, lemma_counts, lemma_finer, lemma_is_zero,
    lemma_not_negligible, lemma_smallest_parts, lemma_zero, stands_for, wide_fits, wide_stands_for,
};
use crate::float::{lt, luminance_of, number, FloatOp, FloatUnit, MILLIONTH, ONE, ZERO};
use crate::frame::{lemma_pixel_index, RgbaFrame};
use crate::skr_fusion::{
    color_at, eigen_of, frame_sums, fused_color, gradient_sums, held, is_fusion, is_inner,
    is_outside, kernel_radius, kernel_weight, lemma_mix, lemma_parts, lemma_window, luminance_at,
    sample_at, site_of, tensor_at, tensor_radius, window_area, window_side, window_sums,
    with_sample, EigenDecomp, SampleSums, Site, SkrFusionParams,
};
use vstd::arithmetic::power2::pow2;
use vstd::prelude::*;

verus! {

/// Whether a frame shows one color in all of its first `width` columns and `height` rows.
pub open spec fn is_plain(frame: &RgbaFrame, width: u32, height: u32, color: (u32, u32, u32)) -> bool {
    forall|x: int, y: int|
        0 <= x < width && 0 <= y < height ==> #[trigger] frame.at(x, y, 0) == color.0 && frame.at(
            x,
            y,
            1,
        ) == color.1 && frame.at(x, y, 2) == color.2
}

/// No structure at all.
pub open spec fn flat() -> EigenDecomp {
    EigenDecomp { e1: ZERO, e2: ZERO, angle: ZERO }
}

/// The weight that the kernel gives to a sample `dx` columns right and `dy` rows down where there is no
/// structure.
pub open spec fn flat_weight<F: Fn(FloatOp) -> u64>(
    fpu: &FloatUnit<F>,
    params: SkrFusionParams,
    p: u32,
    q: u32,
) -> u32 {
    kernel_weight(fpu, params, p, q, flat())
}

/// Whether the kernel weighs a sample `dx` columns right and `dy` rows down by a whole number of parts,
/// of which `2^j` make one, from none to `top`, unless the weight is negligible, as it is not at the
/// center.
pub open spec fn weighs_sample<F: Fn(FloatOp) -> u64>(
    fpu: &FloatUnit<F>,
    params: SkrFusionParams,
    j: nat,
    top: int,
    p: u32,
    q: u32,
    dx: int,
    dy: int,
) -> bool {
    stands_for(p, dx, 0) && stands_for(q, dy, 0) && fits(dx) && fits(dy) ==> {
        let w = flat_weight(fpu, params, p, q);
        &&& dx == 0 && dy == 0 ==> !lt(w, MILLIONTH)
        &&& lt(w, MILLIONTH) || exists|i: int| 0 <= i <= top && #[trigger] stands_for(w, i, j)
    }
}

/// Whether the kernel weighs all samples by whole numbers of parts.
pub open spec fn weighs_in_parts<F: Fn(FloatOp) -> u64>(
    fpu: &FloatUnit<F>,
    params: SkrFusionParams,
    j: nat,
    top: int,
) -> bool {
    forall|p: u32, q: u32, dx: int, dy: int| #[trigger]
        weighs_sample(fpu, params, j, top, p, q, dx, dy)
}

/// Whether the cosine of no angle is one and its sine zero.
pub open spec fn turns_by_nothing<F: Fn(FloatOp) -> u64>(fpu: &FloatUnit<F>) -> bool {
    fpu.cos(ZERO) == ONE && fpu.sin(ZERO) == ZERO
}

proof fn lemma_plain_gradients<F: Fn(FloatOp) -> u64>(
    fpu: &FloatUnit<F>,
    frame: &RgbaFrame,
    color: (u32, u32, u32),
    cx: int,
    cy: int,
    width: u32,
    height: u32,
    radius: int,
    m: nat,
)
    requires
        is_exact(fpu),
        is_plain(frame, width, height, color),
        is_finite(luminance_of(fpu, color.0, color.1, color.2)),
    ensures
        ({
            let sums = gradient_sums(fpu, frame, cx, cy, width as int, height as int, radius, m);
            &&& wide_stands_for(sums.xx, 0, 0)
            &&& wide_stands_for(sums.xy, 0, 0)
            &&& wide_stands_for(sums.yy, 0, 0)
            &&& sums.count <= m
        }),
    decreases m,
{
    lemma_constants();
    if m > 0 {
        lemma_plain_gradients(fpu, frame, color, cx, cy, width, height, radius, (m - 1) as nat);
        let before = gradient_sums(
            fpu,
            frame,
            cx,
            cy,
            width as int,
            height as int,
            radius,
            (m - 1) as nat,
        );
        let x = cx + (m - 1) % window_side(radius) - radius;
        let y = cy + (m - 1) / window_side(radius) - radius;
        if is_inner(x, y, width as int, height as int) {
            let l = luminance_of(fpu, color.0, color.1, color.2);
            assert(frame.at(x + 1, y, 0) == color.0 && frame.at(x - 1, y, 0) == color.0);
            assert(frame.at(x, y + 1, 0) == color.0 && frame.at(x, y - 1, 0) == color.0);
            assert(luminance_at(fpu, frame, x + 1, y) == l && luminance_at(fpu, frame, x - 1, y) == l);
            assert(luminance_at(fpu, frame, x, y + 1) == l && luminance_at(fpu, frame, x, y - 1) == l);
            lemma_smallest_parts(l);
            exact_sub(fpu, l, l, number(l), number(l), 149);
            let g = fpu.sub(l, l);
            lemma_zero(g, 149, 0);
            exact_mul(fpu, g, g, 0, 0, 0, 0);
            exact_widen(fpu, fpu.mul(g, g), 0, 0);
            let z = fpu.widen(fpu.mul(g, g));
            exact_wide_add(fpu, before.xx, z, 0, 0, 0);
            exact_wide_add(fpu, before.xy, z, 0, 0, 0);
            exact_wide_add(fpu, before.yy, z, 0, 0, 0);
        }
    }
}

/// A plain frame has no structure.
pub proof fn plain_frames_are_flat<F: Fn(FloatOp) -> u64>(
    fpu: &FloatUnit<F>,
    frame: &RgbaFrame,
    color: (u32, u32, u32),
    cx: int,
    cy: int,
    width: u32,
    height: u32,
    radius: int,
)
    requires
        is_exact(fpu),
        is_plain(frame, width, height, color),
        is_finite(luminance_of(fpu, color.0, color.1, color.2)),
        wide_fits(window_area(radius) as int),
    ensures
        eigen_of(fpu, tensor_at(fpu, frame, cx, cy, width as int, height as int, radius)) == flat(),
{
    let area = window_area(radius);
    lemma_plain_gradients(fpu, frame, color, cx, cy, width, height, radius, area);
    let sums = gradient_sums(fpu, frame, cx, cy, width as int, height as int, radius, area);
    let t = tensor_at(fpu, frame, cx, cy, width as int, height as int, radius);
    lemma_constants();
    if sums.count > 0 {
        let n = sums.count as int;
        exact_wide_from(fpu, n);
        let d = fpu.wide_from_u64(n as u64);
        assert(0 * n == 0);
        exact_wide_div(fpu, sums.xx, d, 0, n, 0, 0);
        exact_wide_div(fpu, sums.yy, d, 0, n, 0, 0);
        exact_narrow(fpu, fpu.wide_div(sums.xx, d), 0, 0);
        exact_narrow(fpu, fpu.wide_div(sums.yy, d), 0, 0);
    }
    assert(stands_for(t.ixx, 0, 0) && stands_for(t.iyy, 0, 0));
    exact_add(fpu, t.ixx, t.iyy, 0, 0, 0);
    lemma_is_zero(fpu.add(t.ixx, t.iyy), 0);
}

proof fn lemma_plain_sample<F: Fn(FloatOp) -> u64>(
    fpu: &FloatUnit<F>,
    frame: &RgbaFrame,
    width: u32,
    height: u32,
    c: int,
    v: u32,
    x: u32,
    y: u32,
    px: int,
    py: int,
    s: nat,
    n: int,
    k: nat,
)
    requires
        is_exact(fpu),
        forall|u: int, w: int|
            0 <= u < width && 0 <= w < height ==> #[trigger] frame.at(u, w, c) == v,
        stands_for(v, n, k),
        -0x40_0000 <= n <= 0x40_0000,
        k + 2 * s <= 149,
        s <= 1,
        stands_for(x, px, s),
        stands_for(y, py, s),
        fits(px),
        fits(py),
        0 < width,
        0 < height,
    ensures
        stands_for(sample_at(fpu, frame, x, y, width as int, height as int, c), n, k),
{
    let w = pow2(s) as int;
    vstd::arithmetic::power2::lemma2_to64();
    assert(w == 1 || w == 2);
    lemma_parts(fpu, x, px, s);
    lemma_parts(fpu, y, py, s);
    let x0 = fpu.to_i32(fpu.floor(x));
    let y0 = fpu.to_i32(fpu.floor(y));
    let (xa, xb) = (held(x0 as int, width as int), held(x0 + 1, width as int));
    let (ya, yb) = (held(y0 as int, height as int), held(y0 + 1, height as int));
    let (i, j) = (px % w, py % w);
    let fx = fpu.sub(x, fpu.from_i32(x0));
    let fy = fpu.sub(y, fpu.from_i32(y0));
    assert(0x40_0000 * w * w <= 0x100_0000);
    lemma_mix(
        fpu,
        frame.at(xa, ya, c),
        frame.at(xb, ya, c),
        frame.at(xa, yb, c),
        frame.at(xb, yb, c),
        fx,
        fy,
        n,
        n,
        n,
        n,
        i,
        j,
        s,
        k,
        0x40_0000,
    );
    vstd::arithmetic::power2::lemma_pow2_adds(s, s);
    assert((n * (w - i) + n * i) * (w - j) + (n * (w - i) + n * i) * j == n * (w * w))
        by (nonlinear_arith);
    lemma_coarser(sample_at(fpu, frame, x, y, width as int, height as int, c), n, k, 2 * s);
}

/// The weight of a sample by its distance alone.
spec fn spatial_at<F: Fn(FloatOp) -> u64>(
    fpu: &FloatUnit<F>,
    params: SkrFusionParams,
    site: Site,
    dx: i32,
    dy: i32,
) -> u32 {
    let cos_a = fpu.cos(site.eigen.angle);
    let sin_a = fpu.sin(site.eigen.angle);
    kernel_weight(
        fpu,
        params,
        fpu.add(fpu.mul(fpu.from_i32(dx), cos_a), fpu.mul(fpu.from_i32(dy), sin_a)),
        fpu.add(fpu.mul(fpu.from_i32((-dx) as i32), sin_a), fpu.mul(fpu.from_i32(dy), cos_a)),
        site.eigen,
    )
}

/// How many parts a weight has, of which `2^j` make one.
spec fn parts_in(w: u32, j: nat) -> int {
    choose|i: int| #[trigger] stands_for(w, i, j)
}

/// The parts that a sample is weighted by, the same in every frame.
spec fn sample_part<F: Fn(FloatOp) -> u64>(
    fpu: &FloatUnit<F>,
    params: SkrFusionParams,
    site: Site,
    j: nat,
    dx: i32,
    dy: i32,
) -> int {
    let w = spatial_at(fpu, params, site, dx, dy);
    if is_outside(
        fpu,
        site,
        fpu.add(site.rx, fpu.from_i32(dx)),
        fpu.add(site.ry, fpu.from_i32(dy)),
    ) || lt(w, MILLIONTH) {
        0
    } else {
        parts_in(w, j)
    }
}

/// The parts that the first `m` samples of a window are weighted by.
spec fn window_parts<F: Fn(FloatOp) -> u64>(
    fpu: &FloatUnit<F>,
    params: SkrFusionParams,
    site: Site,
    radius: int,
    j: nat,
    m: nat,
) -> int
    decreases m,
{
    if m == 0 {
        0
    } else {
        window_parts(fpu, params, site, radius, j, (m - 1) as nat) + sample_part(
            fpu,
            params,
            site,
            j,
            ((m - 1) % window_side(radius) - radius) as i32,
            ((m - 1) / window_side(radius) - radius) as i32,
        )
    }
}

/// What is known where one output pixel of plain frames is fused.
spec fn is_plain_site<F: Fn(FloatOp) -> u64>(
    fpu: &FloatUnit<F>,
    params: SkrFusionParams,
    site: Site,
    px: int,
    py: int,
    s: nat,
    j: nat,
    top: int,
) -> bool {
    &&& is_exact(fpu)
    &&& turns_by_nothing(fpu)
    &&& weighs_in_parts(fpu, params, j, top)
    &&& site.eigen == flat()
    &&& stands_for(site.rx, px, s)
    &&& stands_for(site.ry, py, s)
    &&& s <= 1
    &&& j <= 149
    &&& -0x40_0000 <= px <= 0x40_0000
    &&& -0x40_0000 <= py <= 0x40_0000
    &&& 0 < site.width
    &&& 0 < site.height
}

proof fn lemma_part<F: Fn(FloatOp) -> u64>(
    fpu: &FloatUnit<F>,
    params: SkrFusionParams,
    site: Site,
    px: int,
    py: int,
    s: nat,
    j: nat,
    top: int,
    dx: i32,
    dy: i32,
)
    requires
        is_plain_site(fpu, params, site, px, py, s, j, top),
        -0x10_0000 <= dx <= 0x10_0000,
        -0x10_0000 <= dy <= 0x10_0000,
        0 <= top,
    ensures
        ({
            let w = spatial_at(fpu, params, site, dx, dy);
            let i = sample_part(fpu, params, site, j, dx, dy);
            let sx = fpu.add(site.rx, fpu.from_i32(dx));
            let sy = fpu.add(site.ry, fpu.from_i32(dy));
            &&& 0 <= i <= top
            &&& !is_outside(fpu, site, sx, sy) && !lt(w, MILLIONTH) ==> stands_for(w, i, j)
            &&& dx == 0 && dy == 0 ==> !lt(w, MILLIONTH)
            &&& stands_for(sx, px + dx * pow2(s), s)
            &&& stands_for(sy, py + dy * pow2(s), s)
            &&& fits(px + dx * pow2(s))
            &&& fits(py + dy * pow2(s))
        }),
{
    vstd::arithmetic::power2::lemma2_to64();
    lemma_constants();
    exact_from(fpu, dx as int);
    exact_from(fpu, dy as int);
    exact_from(fpu, -dx);
    let (ax, ay, bx) = (fpu.from_i32(dx), fpu.from_i32(dy), fpu.from_i32((-dx) as i32));
    exact_mul(fpu, ax, ONE, dx as int, 1, 0, 0);
    exact_mul(fpu, ay, ONE, dy as int, 1, 0, 0);
    exact_mul(fpu, ay, ZERO, dy as int, 0, 0, 0);
    exact_mul(fpu, bx, ZERO, -dx, 0, 0, 0);
    exact_add(fpu, fpu.mul(ax, ONE), fpu.mul(ay, ZERO), dx as int, 0, 0);
    exact_add(fpu, fpu.mul(bx, ZERO), fpu.mul(ay, ONE), 0, dy as int, 0);
    let p = fpu.add(fpu.mul(ax, ONE), fpu.mul(ay, ZERO));
    let q = fpu.add(fpu.mul(bx, ZERO), fpu.mul(ay, ONE));
    let w = spatial_at(fpu, params, site, dx, dy);
    assert(stands_for(p, dx as int, 0) && stands_for(q, dy as int, 0));
    assert(w == flat_weight(fpu, params, p, q));
    assert(weighs_sample(fpu, params, j, top, p, q, dx as int, dy as int));
    if !lt(w, MILLIONTH) {
        let i = choose|i: int| 0 <= i <= top && #[trigger] stands_for(w, i, j);
        assert(stands_for(w, i, j));
        lemma_compare(w, w, i, parts_in(w, j), j);
        lemma_compare(w, w, parts_in(w, j), i, j);
    }
    lemma_finer(ax, dx as int, 0, s);
    lemma_finer(ay, dy as int, 0, s);
    let unit = pow2(s) as int;
    assert(unit == 1 || unit == 2);
    assert(-0x20_0000 <= dx * unit <= 0x20_0000 && -0x20_0000 <= dy * unit <= 0x20_0000)
        by (nonlinear_arith)
        requires
            unit == 1 || unit == 2,
            -0x10_0000 <= dx <= 0x10_0000,
            -0x10_0000 <= dy <= 0x10_0000,
    ;
    exact_add(fpu, site.rx, ax, px, dx * pow2(s), s);
    exact_add(fpu, site.ry, ay, py, dy * pow2(s), s);
}

/// Whether sums hold `parts` parts of weight, and as many times the levels given.
spec fn holds(sums: SampleSums, red: int, green: int, blue: int, parts: int, k: nat, j: nat) -> bool {
    &&& wide_stands_for(sums.red, red, k + j)
    &&& wide_stands_for(sums.green, green, k + j)
    &&& wide_stands_for(sums.blue, blue, k + j)
    &&& wide_stands_for(sums.weight, parts, j)
}

/// Whether a frame is plain, of the levels given in parts of which `2^k` make one.
pub open spec fn has_level(
    frame: &RgbaFrame,
    width: u32,
    height: u32,
    color: (u32, u32, u32),
    level: (int, int, int),
    k: nat,
    limit: int,
) -> bool {
    &&& is_plain(frame, width, height, color)
    &&& stands_for(color.0, level.0, k)
    &&& stands_for(color.1, level.1, k)
    &&& stands_for(color.2, level.2, k)
    &&& -limit <= level.0 <= limit
    &&& -limit <= level.1 <= limit
    &&& -limit <= level.2 <= limit
}

proof fn lemma_one_color<F: Fn(FloatOp) -> u64>(
    fpu: &FloatUnit<F>,
    sum: u64,
    weight: u64,
    color: u32,
    total: int,
    level: int,
    i: int,
    k: nat,
    j: nat,
)
    requires
        is_exact(fpu),
        wide_stands_for(sum, total, k + j),
        wide_stands_for(weight, i, j),
        stands_for(color, level, k),
        k + j <= 1074,
        wide_fits(level * i),
        wide_fits(total + level * i),
    ensures
        wide_stands_for(
            fpu.wide_add(sum, fpu.wide_mul(fpu.widen(color), weight)),
            total + level * i,
            k + j,
        ),
{
    exact_widen(fpu, color, level, k);
    exact_wide_mul(fpu, fpu.widen(color), weight, level, i, k, j);
    exact_wide_add(
        fpu,
        sum,
        fpu.wide_mul(fpu.widen(color), weight),
        total,
        level * i,
        k + j,
    );
}

proof fn lemma_plain_step<F: Fn(FloatOp) -> u64>(
    fpu: &FloatUnit<F>,
    params: SkrFusionParams,
    site: Site,
    px: int,
    py: int,
    s: nat,
    j: nat,
    top: int,
    frame: &RgbaFrame,
    color: (u32, u32, u32),
    level: (int, int, int),
    k: nat,
    limit: int,
    dx: i32,
    dy: i32,
    sums: SampleSums,
    red: int,
    green: int,
    blue: int,
    parts: int,
)
    requires
        is_plain_site(fpu, params, site, px, py, s, j, top),
        has_level(frame, site.width, site.height, color, level, k, limit),
        -0x10_0000 <= dx <= 0x10_0000,
        -0x10_0000 <= dy <= 0x10_0000,
        0 <= top,
        wide_fits(top),
        k <= 140,
        0 <= limit <= 0x40_0000,
        holds(sums, red, green, blue, parts, k, j),
        ({
            let i = sample_part(fpu, params, site, j, dx, dy);
            &&& wide_fits(parts + i)
            &&& wide_fits(level.0 * i) && wide_fits(red + level.0 * i)
            &&& wide_fits(level.1 * i) && wide_fits(green + level.1 * i)
            &&& wide_fits(level.2 * i) && wide_fits(blue + level.2 * i)
        }),
    ensures
        ({
            let i = sample_part(fpu, params, site, j, dx, dy);
            holds(
                with_sample(fpu, params, None, site, frame, dx, dy, sums),
                red + level.0 * i,
                green + level.1 * i,
                blue + level.2 * i,
                parts + i,
                k,
                j,
            )
        }),
{
    lemma_part(fpu, params, site, px, py, s, j, top, dx, dy);
    let w = spatial_at(fpu, params, site, dx, dy);
    let i = sample_part(fpu, params, site, j, dx, dy);
    let sx = fpu.add(site.rx, fpu.from_i32(dx));
    let sy = fpu.add(site.ry, fpu.from_i32(dy));
    lemma_constants();
    lemma_compare(ONE, ONE, 1, 1, 0);
    assert(level.0 * 0 == 0 && level.1 * 0 == 0 && level.2 * 0 == 0);
    assert(!lt(ONE, MILLIONTH));
    if !is_outside(fpu, site, sx, sy) && !lt(w, MILLIONTH) {
        exact_widen(fpu, w, i, j);
        exact_widen(fpu, ONE, 1, 0);
        exact_wide_mul(fpu, fpu.widen(w), fpu.widen(ONE), i, 1, j, 0);
        let weight = fpu.wide_mul(fpu.widen(w), fpu.widen(ONE));
        let (qx, qy) = (px + dx * pow2(s), py + dy * pow2(s));
        let (width, height) = (site.width, site.height);
        assert forall|u: int, v: int| 0 <= u < width && 0 <= v < height implies #[trigger] frame.at(
            u,
            v,
            1,
        ) == color.1 by {
            assert(frame.at(u, v, 0) == color.0);
        }
        assert forall|u: int, v: int| 0 <= u < width && 0 <= v < height implies #[trigger] frame.at(
            u,
            v,
            2,
        ) == color.2 by {
            assert(frame.at(u, v, 0) == color.0);
        }
        lemma_plain_sample(fpu, frame, width, height, 0, color.0, sx, sy, qx, qy, s, level.0, k);
        lemma_plain_sample(fpu, frame, width, height, 1, color.1, sx, sy, qx, qy, s, level.1, k);
        lemma_plain_sample(fpu, frame, width, height, 2, color.2, sx, sy, qx, qy, s, level.2, k);
        let found = color_at(fpu, frame, sx, sy, width as int, height as int);
        lemma_one_color(fpu, sums.red, weight, found.red, red, level.0, i, k, j);
        lemma_one_color(fpu, sums.green, weight, found.green, green, level.1, i, k, j);
        lemma_one_color(fpu, sums.blue, weight, found.blue, blue, level.2, i, k, j);
        exact_wide_add(fpu, sums.weight, weight, parts, i, j);
    }
}

proof fn lemma_level_product(level: int, limit: int, a: int, b: int)
    requires
        -limit <= level <= limit,
        0 <= limit,
        0 <= a <= b,
    ensures
        -(limit * b) <= level * a <= limit * b,
{
    assert(-(limit * b) <= level * a <= limit * b) by (nonlinear_arith)
        requires
            -limit <= level <= limit,
            0 <= limit,
            0 <= a <= b,
    ;
}

proof fn lemma_window_parts<F: Fn(FloatOp) -> u64>(
    fpu: &FloatUnit<F>,
    params: SkrFusionParams,
    site: Site,
    px: int,
    py: int,
    s: nat,
    j: nat,
    top: int,
    radius: int,
    m: nat,
)
    requires
        is_plain_site(fpu, params, site, px, py, s, j, top),
        0 <= top,
        0 <= radius <= 0x10_0000,
        m <= window_area(radius),
    ensures
        0 <= window_parts(fpu, params, site, radius, j, m) <= m * top,
        m > radius * window_side(radius) + radius ==> window_parts(fpu, params, site, radius, j, m)
            >= sample_part(fpu, params, site, j, 0, 0),
    decreases m,
{
    let side = window_side(radius);
    if m > 0 {
        lemma_window_parts(fpu, params, site, px, py, s, j, top, radius, (m - 1) as nat);
        lemma_window(m - 1, radius);
        let dx = ((m - 1) % side - radius) as i32;
        let dy = ((m - 1) / side - radius) as i32;
        lemma_part(fpu, params, site, px, py, s, j, top, dx, dy);
        assert((m - 1) * top + top == m * top) by (nonlinear_arith);
        if m - 1 == radius * side + radius {
            lemma_pixel_index(radius, radius, side, side);
            assert(dx == 0 && dy == 0);
        }
    } else {
        assert(0 * top == 0);
        assert(0 <= radius * side) by (nonlinear_arith)
            requires
                0 <= radius,
                0 <= side,
        ;
    }
}

proof fn lemma_plain_window<F: Fn(FloatOp) -> u64>(
    fpu: &FloatUnit<F>,
    params: SkrFusionParams,
    site: Site,
    px: int,
    py: int,
    s: nat,
    j: nat,
    top: int,
    radius: int,
    frame: &RgbaFrame,
    color: (u32, u32, u32),
    level: (int, int, int),
    k: nat,
    limit: int,
    start: SampleSums,
    red: int,
    green: int,
    blue: int,
    parts: int,
    most: int,
    m: nat,
)
    requires
        is_plain_site(fpu, params, site, px, py, s, j, top),
        has_level(frame, site.width, site.height, color, level, k, limit),
        0 <= radius <= 0x10_0000,
        m <= window_area(radius),
        0 <= top,
        k <= 140,
        1 <= limit <= 0x40_0000,
        holds(start, red, green, blue, parts, k, j),
        0 <= parts <= most,
        -(limit * most) <= red <= limit * most,
        -(limit * most) <= green <= limit * most,
        -(limit * most) <= blue <= limit * most,
        wide_fits(limit * (most + window_area(radius) * top)),
    ensures
        ({
            let more = window_parts(fpu, params, site, radius, j, m);
            holds(
                window_sums(fpu, params, None, site, frame, radius, start, m),
                red + level.0 * more,
                green + level.1 * more,
                blue + level.2 * more,
                parts + more,
                k,
                j,
            )
        }),
    decreases m,
{
    if m == 0 {
        assert(level.0 * 0 == 0 && level.1 * 0 == 0 && level.2 * 0 == 0);
    } else {
        lemma_plain_window(
            fpu,
            params,
            site,
            px,
            py,
            s,
            j,
            top,
            radius,
            frame,
            color,
            level,
            k,
            limit,
            start,
            red,
            green,
            blue,
            parts,
            most,
            (m - 1) as nat,
        );
        lemma_window(m - 1, radius);
        let side = window_side(radius);
        let dx = ((m - 1) % side - radius) as i32;
        let dy = ((m - 1) / side - radius) as i32;
        lemma_part(fpu, params, site, px, py, s, j, top, dx, dy);
        lemma_window_parts(fpu, params, site, px, py, s, j, top, radius, (m - 1) as nat);
        lemma_window_parts(fpu, params, site, px, py, s, j, top, radius, m);
        let before = window_parts(fpu, params, site, radius, j, (m - 1) as nat);
        let after = window_parts(fpu, params, site, radius, j, m);
        let i = sample_part(fpu, params, site, j, dx, dy);
        let area = window_area(radius) as int;
        let full = area * top;
        assert(m * top <= full && top <= full) by (nonlinear_arith)
            requires
                1 <= m <= area,
                0 <= top,
                full == area * top,
        ;
        assert(limit * most + limit * full == limit * (most + full)) by (nonlinear_arith);
        assert(most + full <= limit * (most + full) && 0 <= limit * most && 0 <= limit * full)
            by (nonlinear_arith)
            requires
                1 <= limit,
                0 <= most,
                0 <= full,
        ;
        lemma_level_product(level.0, limit, i, full);
        lemma_level_product(level.1, limit, i, full);
        lemma_level_product(level.2, limit, i, full);
        lemma_level_product(level.0, limit, after, full);
        lemma_level_product(level.1, limit, after, full);
        lemma_level_product(level.2, limit, after, full);
        assert(level.0 * before + level.0 * i == level.0 * after && level.1 * before + level.1 * i
            == level.1 * after && level.2 * before + level.2 * i == level.2 * after)
            by (nonlinear_arith)
            requires
                after == before + i,
        ;
        lemma_plain_step(
            fpu,
            params,
            site,
            px,
            py,
            s,
            j,
            top,
            frame,
            color,
            level,
            k,
            limit,
            dx,
            dy,
            window_sums(fpu, params, None, site, frame, radius, start, (m - 1) as nat),
            red + level.0 * before,
            green + level.1 * before,
            blue + level.2 * before,
            parts + before,
        );
    }
}

/// The sum of the first `n` levels of each color.
pub open spec fn level_sum(levels: Seq<(int, int, int)>, n: nat) -> (int, int, int)
    decreases n,
{
    if n == 0 {
        (0, 0, 0)
    } else {
        let before = level_sum(levels, (n - 1) as nat);
        let own = levels[n - 1];
        (before.0 + own.0, before.1 + own.1, before.2 + own.2)
    }
}

/// Whether all frames are plain, each of its own color and level.
pub open spec fn have_levels(
    frames: Seq<RgbaFrame>,
    width: u32,
    height: u32,
    colors: Seq<(u32, u32, u32)>,
    levels: Seq<(int, int, int)>,
    k: nat,
    limit: int,
) -> bool {
    &&& colors.len() >= frames.len()
    &&& levels.len() >= frames.len()
    &&& forall|f: int|
        0 <= f < frames.len() ==> has_level(
            &#[trigger] frames[f],
            width,
            height,
            colors[f],
            levels[f],
            k,
            limit,
        )
}

proof fn lemma_plain_frames<F: Fn(FloatOp) -> u64>(
    fpu: &FloatUnit<F>,
    params: SkrFusionParams,
    site: Site,
    px: int,
    py: int,
    s: nat,
    j: nat,
    top: int,
    radius: int,
    frames: Seq<RgbaFrame>,
    colors: Seq<(u32, u32, u32)>,
    levels: Seq<(int, int, int)>,
    k: nat,
    limit: int,
    n: nat,
)
    requires
        is_plain_site(fpu, params, site, px, py, s, j, top),
        have_levels(frames, site.width, site.height, colors, levels, k, limit),
        0 <= radius <= 0x10_0000,
        0 <= top,
        k <= 140,
        1 <= limit <= 0x40_0000,
        n <= frames.len(),
        wide_fits(limit * (frames.len() * (window_area(radius) * top))),
    ensures
        ({
            let sum = level_sum(levels, n);
            let own = window_parts(fpu, params, site, radius, j, window_area(radius));
            &&& holds(
                frame_sums(fpu, params, None, site, frames, radius, n),
                sum.0 * own,
                sum.1 * own,
                sum.2 * own,
                n * own,
                k,
                j,
            )
            &&& -(limit * n) <= sum.0 <= limit * n
            &&& -(limit * n) <= sum.1 <= limit * n
            &&& -(limit * n) <= sum.2 <= limit * n
        }),
    decreases n,
{
    let area = window_area(radius);
    let own = window_parts(fpu, params, site, radius, j, area);
    lemma_window_parts(fpu, params, site, px, py, s, j, top, radius, area);
    if n == 0 {
        lemma_constants();
        assert(0 * own == 0 && limit * 0 == 0);
    } else {
        let f = n - 1;
        lemma_plain_frames(
            fpu,
            params,
            site,
            px,
            py,
            s,
            j,
            top,
            radius,
            frames,
            colors,
            levels,
            k,
            limit,
            f as nat,
        );
        let sum = level_sum(levels, f as nat);
        let level = levels[f];
        assert(has_level(&frames[f], site.width, site.height, colors[f], level, k, limit));
        let full = area * top;
        let most = f * full;
        assert(0 <= f * own <= most) by (nonlinear_arith)
            requires
                0 <= own <= full,
                0 <= f,
                most == f * full,
        ;
        assert(limit * (most + full) <= limit * (frames.len() * full) && 0 <= limit * (most + full))
            by (nonlinear_arith)
            requires
                most == f * full,
                0 <= f,
                f + 1 <= frames.len(),
                0 <= full,
                1 <= limit,
        ;
        lemma_sum_product(sum.0, limit, f, own, full);
        lemma_sum_product(sum.1, limit, f, own, full);
        lemma_sum_product(sum.2, limit, f, own, full);
        lemma_plain_window(
            fpu,
            params,
            site,
            px,
            py,
            s,
            j,
            top,
            radius,
            &frames[f],
            colors[f],
            level,
            k,
            limit,
            frame_sums(fpu, params, None, site, frames, radius, f as nat),
            sum.0 * own,
            sum.1 * own,
            sum.2 * own,
            f * own,
            most,
            area,
        );
        assert(sum.0 * own + level.0 * own == (sum.0 + level.0) * own && sum.1 * own + level.1 * own
            == (sum.1 + level.1) * own && sum.2 * own + level.2 * own == (sum.2 + level.2) * own && f
            * own + own == n * own) by (nonlinear_arith)
            requires
                f == n - 1,
        ;
        assert(limit * f + limit == limit * n) by (nonlinear_arith)
            requires
                f == n - 1,
        ;
    }
}

proof fn lemma_sum_product(sum: int, limit: int, n: int, own: int, full: int)
    requires
        -(limit * n) <= sum <= limit * n,
        0 <= own <= full,
        0 <= n,
        0 <= limit,
    ensures
        -(limit * (n * full)) <= sum * own <= limit * (n * full),
{
    assert(0 <= limit * n) by (nonlinear_arith)
        requires
            0 <= limit,
            0 <= n,
    ;
    lemma_level_product(sum, limit * n, own, full);
    assert((limit * n) * full == limit * (n * full)) by (nonlinear_arith);
}

proof fn lemma_plain_mean<F: Fn(FloatOp) -> u64>(
    fpu: &FloatUnit<F>,
    sum: u64,
    weight: u64,
    parts: int,
    mean: int,
    k: nat,
    j: nat,
)
    requires
        is_exact(fpu),
        wide_stands_for(sum, mean * parts, k + j),
        wide_stands_for(weight, parts, j),
        parts > 0,
        k <= 140,
        fits(mean),
    ensures
        stands_for(fpu.narrow(fpu.wide_div(sum, weight)), mean, k),
{
    exact_wide_div(fpu, sum, weight, mean, parts, j, k);
    exact_narrow(fpu, fpu.wide_div(sum, weight), mean, k);
}

/// Every frame counts, and all alike: frames that each show one color everywhere fuse to the mean of
/// their colors, at every pixel of the output that lies inside the frames. The colors are given by
/// their levels, of which `2^k` make one, and the mean of each has to be a whole level itself.
pub proof fn plain_frames_fuse_to_their_mean<F: Fn(FloatOp) -> u64>(
    fpu: &FloatUnit<F>,
    params: SkrFusionParams,
    frames: Seq<RgbaFrame>,
    out: RgbaFrame,
    colors: Seq<(u32, u32, u32)>,
    levels: Seq<(int, int, int)>,
    k: nat,
    limit: int,
    j: nat,
    top: int,
    scale: int,
    x: int,
    y: int,
    mean: (int, int, int),
)
    requires
        is_exact(fpu),
        turns_by_nothing(fpu),
        weighs_in_parts(fpu, params, j, top),
        is_fusion(fpu, params, frames, None, out),
        frames.len() >= 2,
        have_levels(frames, frames[0].width, frames[0].height, colors, levels, k, limit),
        is_finite(luminance_of(fpu, colors[0].0, colors[0].1, colors[0].2)),
        stands_for(params.output_scale, scale, 0),
        scale == 1 || scale == 2,
        0 <= kernel_radius(fpu, params) <= 0x10_0000,
        wide_fits(window_area(tensor_radius(fpu, params) as int) as int),
        0 <= top,
        j <= 149,
        k <= 140,
        1 <= limit <= 0x40_0000,
        wide_fits(
            limit * (frames.len() * (window_area(kernel_radius(fpu, params) as int) * top)),
        ),
        frames[0].width <= 0x20_0000,
        frames[0].height <= 0x20_0000,
        0 <= x < out.width,
        0 <= y < out.height,
        x < scale * (frames[0].width - 1),
        y < scale * (frames[0].height - 1),
        level_sum(levels, frames.len()) == (
            mean.0 * frames.len(),
            mean.1 * frames.len(),
            mean.2 * frames.len(),
        ),
    ensures
        stands_for(out.at(x, y, 0), mean.0, k),
        stands_for(out.at(x, y, 1), mean.1, k),
        stands_for(out.at(x, y, 2), mean.2, k),
{
    let (width, height) = (frames[0].width, frames[0].height);
    let site = site_of(fpu, params, &frames[0], width, height, x, y);
    let n = frames.len();
    let radius = kernel_radius(fpu, params) as int;
    let area = window_area(radius);
    let s: nat = if scale == 1 {
        0
    } else {
        1
    };
    vstd::arithmetic::power2::lemma2_to64();
    lemma_constants();
    // Where the pixel lies in the frames.
    exact_from(fpu, x);
    exact_from(fpu, y);
    lemma_finer(fpu.from_u64(x as u64), x, 0, s);
    lemma_finer(fpu.from_u64(y as u64), y, 0, s);
    exact_div(fpu, fpu.from_u64(x as u64), params.output_scale, x, scale, 0, s);
    exact_div(fpu, fpu.from_u64(y as u64), params.output_scale, y, scale, 0, s);
    // The first frame has no structure.
    assert(has_level(&frames[0], width, height, colors[0], levels[0], k, limit));
    plain_frames_are_flat(
        fpu,
        &frames[0],
        colors[0],
        held(fpu.to_i32(fpu.round(site.rx)) as int, width as int),
        held(fpu.to_i32(fpu.round(site.ry)) as int, height as int),
        width,
        height,
        tensor_radius(fpu, params) as int,
    );
    assert(is_plain_site(fpu, params, site, x, y, s, j, top));
    lemma_plain_frames(
        fpu,
        params,
        site,
        x,
        y,
        s,
        j,
        top,
        radius,
        frames,
        colors,
        levels,
        k,
        limit,
        n,
    );
    lemma_window_parts(fpu, params, site, x, y, s, j, top, radius, area);
    let own = window_parts(fpu, params, site, radius, j, area);
    lemma_center(fpu, params, site, x, y, s, j, top, radius);
    let sums = frame_sums(fpu, params, None, site, frames, radius, n);
    let parts = n * own;
    assert(own > 0 && parts >= own) by {
        vstd::arithmetic::power2::lemma_pow2_pos(j);
        assert(own > 0) by (nonlinear_arith)
            requires
                own * pow2(20) >= pow2(j),
                pow2(j) > 0,
                pow2(20) > 0,
        ;
        assert(n * own >= own) by (nonlinear_arith)
            requires
                n >= 1,
                own > 0,
        ;
    }
    assert(parts * pow2(33) >= pow2(j)) by {
        vstd::arithmetic::power2::lemma2_to64_rest();
        assert(parts * pow2(33) >= own * pow2(20)) by (nonlinear_arith)
            requires
                parts >= own,
                own > 0,
                pow2(33) >= pow2(20),
                pow2(20) > 0,
        ;
    }
    lemma_not_negligible(sums.weight, parts, j);
    assert((mean.0 * n) * own == mean.0 * (n * own) && (mean.1 * n) * own == mean.1 * (n * own) && (
    mean.2 * n) * own == mean.2 * (n * own)) by (nonlinear_arith);
    lemma_mean_fits(mean.0, limit, n as int);
    lemma_mean_fits(mean.1, limit, n as int);
    lemma_mean_fits(mean.2, limit, n as int);
    lemma_plain_mean(fpu, sums.red, sums.weight, parts, mean.0, k, j);
    lemma_plain_mean(fpu, sums.green, sums.weight, parts, mean.1, k, j);
    lemma_plain_mean(fpu, sums.blue, sums.weight, parts, mean.2, k, j);
    let color = fused_color(fpu, params, None, site, frames);
    assert(out.at(x, y, 0) == color.channel(0));
    assert(out.at(x, y, 1) == color.channel(1));
    assert(out.at(x, y, 2) == color.channel(2));
}

proof fn lemma_mean_fits(mean: int, limit: int, n: int)
    requires
        -(limit * n) <= mean * n <= limit * n,
        n >= 1,
        1 <= limit <= 0x40_0000,
    ensures
        fits(mean),
{
    assert(-limit <= mean <= limit) by (nonlinear_arith)
        requires
            -(limit * n) <= mean * n <= limit * n,
            n >= 1,
    ;
}

proof fn lemma_center<F: Fn(FloatOp) -> u64>(
    fpu: &FloatUnit<F>,
    params: SkrFusionParams,
    site: Site,
    px: int,
    py: int,
    s: nat,
    j: nat,
    top: int,
    radius: int,
)
    requires
        is_plain_site(fpu, params, site, px, py, s, j, top),
        0 <= top,
        0 <= radius <= 0x10_0000,
        site.width <= 0x20_0000,
        site.height <= 0x20_0000,
        0 <= px < (site.width - 1) * pow2(s),
        0 <= py < (site.height - 1) * pow2(s),
    ensures
        window_parts(fpu, params, site, radius, j, window_area(radius)) * pow2(20) >= pow2(j),
{
    vstd::arithmetic::power2::lemma2_to64();
    lemma_part(fpu, params, site, px, py, s, j, top, 0, 0);
    let side = window_side(radius);
    lemma_pixel_index(radius, radius, side, side);
    assert(window_area(radius) == side * side);
    lemma_window_parts(fpu, params, site, px, py, s, j, top, radius, window_area(radius));
    lemma_constants();
    let sx = fpu.add(site.rx, fpu.from_i32(0));
    let sy = fpu.add(site.ry, fpu.from_i32(0));
    assert(0 * pow2(s) == 0);
    exact_from(fpu, site.width as int);
    exact_from(fpu, site.height as int);
    exact_sub(fpu, fpu.from_u64(site.width as u64), ONE, site.width as int, 1, 0);
    exact_sub(fpu, fpu.from_u64(site.height as u64), ONE, site.height as int, 1, 0);
    let right = fpu.sub(fpu.from_u64(site.width as u64), ONE);
    let low = fpu.sub(fpu.from_u64(site.height as u64), ONE);
    lemma_finer(right, site.width - 1, 0, s);
    lemma_finer(low, site.height - 1, 0, s);
    lemma_compare(sx, ZERO, px, 0, s);
    lemma_compare(sy, ZERO, py, 0, s);
    lemma_compare(right, sx, (site.width - 1) * pow2(s), px, s);
    lemma_compare(low, sy, (site.height - 1) * pow2(s), py, s);
    assert(!is_outside(fpu, site, sx, sy));
    let w = spatial_at(fpu, params, site, 0, 0);
    let i = sample_part(fpu, params, site, j, 0, 0);
    lemma_counts(w, i, j);
    let whole = window_parts(fpu, params, site, radius, j, window_area(radius));
    assert(whole * pow2(20) >= i * pow2(20)) by (nonlinear_arith)
        requires
            whole >= i,
            pow2(20) >= 0,
    ;
}

} // verus!
