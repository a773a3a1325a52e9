//! What steering kernel regression makes of frames that show anything: weighted means of the pixels
//! around, in all frames.

use crate::exact::{
    exact_add, exact_div, exact_from, exact_mul, exact_narrow, exact_sub, exact_wide_add,
    exact_wide_div, exact_wide_mul, exact_whole, exact_widen, fits, is_exact, lemma_compare,
    lemma_constants, lemma_finer, lemma_not_negligible, stands_for, wide_fits, wide_stands_for,
};
use crate::float::{lt, FloatOp, FloatUnit, MILLIONTH, ONE, ZERO};
use crate::frame::RgbaFrame;
use crate::motion_detection::MotionMask;
use crate::skr_fusion::{
    color_at, eigen_of, frame_sums, fused_color, is_fusion, is_outside, kernel_radius,
    kernel_weight, lemma_window, sample_at, samples_lie_between_pixels, site_of, stillness, tensor_at,
    tensor_radius, window_area, window_side, window_sums, with_sample, EigenDecomp, SampleSums,
    Site, SkrFusionParams,
};
use vstd::arithmetic::power2::pow2;
use vstd::prelude::*;

verus! {

/// A burst in numbers.
pub struct Scene {
    /// Level of each frame at a column of a row, for each channel.
    pub levels: spec_fn(int, int, int, int) -> int,
    /// The power of two of levels that makes one.
    pub k: nat,
    /// The power of two of parts that makes a pixel wide or high, in which places are told.
    pub s: nat,
    /// Cosine and sine of the angle of the structure.
    pub turn: (int, int),
    /// The power of two of parts that makes a cosine of one.
    pub b: nat,
    /// Weight of a sample by how many columns and rows it lies off.
    pub weights: spec_fn(int, int) -> int,
    /// The power of two of parts that makes a weight of one.
    pub j: nat,
    /// How still a place is, complete without a mask.
    pub stills: spec_fn(int, int) -> int,
    /// The power of two of parts that makes complete stillness.
    pub i: nat,
}

/// Whether a weight is what its number says, which is nothing where the weight is negligible.
pub open spec fn weighs(w: u32, n: int, j: nat) -> bool {
    if lt(w, MILLIONTH) {
        n == 0
    } else {
        stands_for(w, n, j)
    }
}

/// How far an offset reaches along a structure, and across it.
pub open spec fn turned(scene: Scene, dx: int, dy: int) -> (int, int) {
    let (cosine, sine) = scene.turn;
    (dx * cosine + dy * sine, dy * cosine - dx * sine)
}

/// Whether the structure lies at the angle told.
pub open spec fn is_turned<F: Fn(FloatOp) -> u64>(
    fpu: &FloatUnit<F>,
    eigen: EigenDecomp,
    scene: Scene,
    radius: int,
) -> bool {
    &&& stands_for(fpu.cos(eigen.angle), scene.turn.0, scene.b)
    &&& stands_for(fpu.sin(eigen.angle), scene.turn.1, scene.b)
    &&& -pow2(scene.b) <= scene.turn.0 <= pow2(scene.b)
    &&& -pow2(scene.b) <= scene.turn.1 <= pow2(scene.b)
    &&& 0 <= radius
    &&& 2 * (radius * pow2(scene.b)) <= 0x100_0000
    &&& scene.b <= 100
}

/// Whether every offset within `radius` has its weight.
pub open spec fn have_weights<F: Fn(FloatOp) -> u64>(
    fpu: &FloatUnit<F>,
    params: SkrFusionParams,
    eigen: EigenDecomp,
    scene: Scene,
    radius: int,
    top: int,
) -> bool {
    forall|p: u32, q: u32, dx: int, dy: int|
        -radius <= dx <= radius && -radius <= dy <= radius && stands_for(
            p,
            turned(scene, dx, dy).0,
            scene.b,
        ) && stands_for(q, turned(scene, dx, dy).1, scene.b) ==> {
            let n = #[trigger] (scene.weights)(dx, dy);
            0 <= n <= top && weighs(
                #[trigger] kernel_weight(fpu, params, p, q, eigen),
                n,
                scene.j,
            )
        }
}

/// Whether every place is as still as told, and completely so without a mask. Masks are read at whole
/// pixels.
pub open spec fn have_stillness(
    mask: Option<&MotionMask>,
    scene: Scene,
    width: int,
    height: int,
    most: int,
) -> bool {
    forall|a: int, b: int|
        0 <= a < width * pow2(scene.s) && 0 <= b < height * pow2(scene.s) ==> {
            let n = #[trigger] (scene.stills)(a, b);
            0 <= n <= most && match mask {
                Some(m) => scene.s == 0 && weighs(m.at(a, b), n, scene.i),
                None => n == 1 && scene.i == 0,
            }
        }
}

/// Whether every pixel of every frame has its level.
pub open spec fn have_pixels(
    frames: Seq<RgbaFrame>,
    scene: Scene,
    width: int,
    height: int,
    limit: int,
) -> bool {
    forall|f: int, u: int, v: int, c: int|
        0 <= f < frames.len() && 0 <= u < width && 0 <= v < height && 0 <= c < 3 ==> {
            let n = #[trigger] (scene.levels)(f, u, v, c);
            -limit <= n * (pow2(scene.s) * pow2(scene.s)) <= limit && stands_for(
                frames[f].at(u, v, c),
                n,
                scene.k,
            )
        }
}

/// What frame `f` shows at a place, which is told in parts: as many parts of an area of each of the four
/// pixels around it as they are near.
pub open spec fn seen(scene: Scene, f: int, a: int, b: int, c: int) -> int {
    let w = pow2(scene.s) as int;
    let (x, y) = (a / w, b / w);
    let (i, j) = (a % w, b % w);
    let upper = (scene.levels)(f, x, y, c) * (w - i) + (scene.levels)(f, x + 1, y, c) * i;
    let lower = (scene.levels)(f, x, y + 1, c) * (w - i) + (scene.levels)(f, x + 1, y + 1, c) * i;
    upper * (w - j) + lower * j
}

/// What a sample `dx` columns right and `dy` rows down of a place weighs: its weight by distance times
/// the stillness where it lies, and nothing on the last column, the last row or beyond the borders.
pub open spec fn sample_weight(
    scene: Scene,
    width: int,
    height: int,
    u: int,
    v: int,
    dx: int,
    dy: int,
) -> int {
    let w = pow2(scene.s) as int;
    if 0 <= u + dx * w < (width - 1) * w && 0 <= v + dy * w < (height - 1) * w {
        (scene.weights)(dx, dy) * (scene.stills)(u + dx * w, v + dy * w)
    } else {
        0
    }
}

/// The light and the weight of the first `m` samples of frame `f` around a place, row after row, in
/// channel `c`.
pub open spec fn window_light(
    scene: Scene,
    width: int,
    height: int,
    radius: int,
    u: int,
    v: int,
    f: int,
    c: int,
    m: nat,
) -> (int, int)
    decreases m,
{
    if m == 0 {
        (0, 0)
    } else {
        let before = window_light(scene, width, height, radius, u, v, f, c, (m - 1) as nat);
        let side = 2 * radius + 1;
        let (dx, dy) = ((m - 1) % side - radius, (m - 1) / side - radius);
        let weight = sample_weight(scene, width, height, u, v, dx, dy);
        let w = pow2(scene.s) as int;
        (before.0 + seen(scene, f, u + dx * w, v + dy * w, c) * weight, before.1 + weight)
    }
}

/// The light and the weight of the first `n` frames around a place, in channel `c`.
pub open spec fn burst_light(
    scene: Scene,
    width: int,
    height: int,
    radius: int,
    u: int,
    v: int,
    c: int,
    n: nat,
) -> (int, int)
    decreases n,
{
    if n == 0 {
        (0, 0)
    } else {
        let before = burst_light(scene, width, height, radius, u, v, c, (n - 1) as nat);
        let side = 2 * radius + 1;
        let own = window_light(
            scene,
            width,
            height,
            radius,
            u,
            v,
            n - 1,
            c,
            (side * side) as nat,
        );
        (before.0 + own.0, before.1 + own.1)
    }
}

/// The sum of one channel.
spec fn channel_sum(sums: SampleSums, c: int) -> u64 {
    if c == 0 {
        sums.red
    } else if c == 1 {
        sums.green
    } else {
        sums.blue
    }
}

/// Whether sums hold the light and the weight given.
spec fn holds(sums: SampleSums, c: int, light: (int, int), scene: Scene) -> bool {
    &&& wide_stands_for(channel_sum(sums, c), light.0, scene.k + 2 * scene.s + scene.j + scene.i)
    &&& wide_stands_for(sums.weight, light.1, scene.j + scene.i)
}

/// What is known where one output pixel is fused.
spec fn is_scene_site<F: Fn(FloatOp) -> u64>(
    fpu: &FloatUnit<F>,
    params: SkrFusionParams,
    frames: Seq<RgbaFrame>,
    mask: Option<&MotionMask>,
    scene: Scene,
    site: Site,
    radius: int,
    u: int,
    v: int,
    top: int,
    most: int,
    limit: int,
) -> bool {
    &&& is_exact(fpu)
    &&& is_turned(fpu, site.eigen, scene, radius)
    &&& scene.s <= 1
    &&& stands_for(site.rx, u, scene.s)
    &&& stands_for(site.ry, v, scene.s)
    &&& 0 <= u < site.width * pow2(scene.s)
    &&& 0 <= v < site.height * pow2(scene.s)
    &&& 0 < site.width <= 0x20_0000
    &&& 0 < site.height <= 0x20_0000
    &&& 0 <= radius <= 0x10_0000
    &&& have_weights(fpu, params, site.eigen, scene, radius, top)
    &&& have_stillness(mask, scene, site.width as int, site.height as int, most)
    &&& have_pixels(frames, scene, site.width as int, site.height as int, limit)
    &&& scene.k <= 140
    &&& scene.j <= 149
    &&& scene.i <= 149
    &&& 0 <= top
    &&& 0 <= most
    &&& 1 <= limit <= 0x100_0000
}

proof fn lemma_outside<F: Fn(FloatOp) -> u64>(
    fpu: &FloatUnit<F>,
    site: Site,
    sx: u32,
    sy: u32,
    u: int,
    v: int,
    s: nat,
)
    requires
        is_exact(fpu),
        stands_for(sx, u, s),
        stands_for(sy, v, s),
        s <= 1,
        0 < site.width <= 0x20_0000,
        0 < site.height <= 0x20_0000,
    ensures
        is_outside(fpu, site, sx, sy) == !(0 <= u < (site.width - 1) * pow2(s) && 0 <= v < (
        site.height - 1) * pow2(s)),
{
    lemma_constants();
    exact_from(fpu, site.width as int);
    exact_from(fpu, site.height as int);
    exact_sub(fpu, fpu.from_u64(site.width as u64), ONE, site.width as int, 1, 0);
    exact_sub(fpu, fpu.from_u64(site.height as u64), ONE, site.height as int, 1, 0);
    let right = fpu.sub(fpu.from_u64(site.width as u64), ONE);
    let low = fpu.sub(fpu.from_u64(site.height as u64), ONE);
    lemma_finer(right, site.width - 1, 0, s);
    lemma_finer(low, site.height - 1, 0, s);
    lemma_compare(sx, ZERO, u, 0, s);
    lemma_compare(sy, ZERO, v, 0, s);
    lemma_compare(right, sx, (site.width - 1) * pow2(s), u, s);
    lemma_compare(low, sy, (site.height - 1) * pow2(s), v, s);
}

proof fn lemma_halfway(a: int, b: int, i: int)
    requires
        i == 0 || i == 1,
    ensures
        a * (2 - i) + b * i == if i == 0 {
            2 * a
        } else {
            a + b
        },
{
    if i == 0 {
        assert(a * (2 - i) == 2 * a && b * i == 0) by (nonlinear_arith)
            requires
                i == 0,
        ;
    } else {
        assert(a * (2 - i) == a && b * i == b) by (nonlinear_arith)
            requires
                i == 1,
        ;
    }
}

proof fn lemma_four_times(n: int, w: int)
    requires
        w == 1 || w == 2,
    ensures
        n * (w * w) == if w == 1 {
            n
        } else {
            4 * n
        },
        n * w * w == n * (w * w),
{
    assert(n * w * w == n * (w * w)) by (nonlinear_arith);
    if w == 1 {
        assert(n * (w * w) == n) by (nonlinear_arith)
            requires
                w == 1,
        ;
    } else {
        assert(n * (w * w) == 4 * n) by (nonlinear_arith)
            requires
                w == 2,
        ;
    }
}

proof fn lemma_seen_bound(scene: Scene, f: int, a: int, b: int, c: int, limit: int)
    requires
        scene.s <= 1,
        ({
            let w = pow2(scene.s) as int;
            let (x, y) = (a / w, b / w);
            forall|i: int, j: int|
                x <= i <= x + 1 && y <= j <= y + 1 ==> -limit <= #[trigger] (scene.levels)(f, i, j, c)
                    * (w * w) <= limit
        }),
    ensures
        -limit <= seen(scene, f, a, b, c) <= limit,
{
    vstd::arithmetic::power2::lemma2_to64();
    let w = pow2(scene.s) as int;
    assert(w == 1 || w == 2);
    let (x, y) = (a / w, b / w);
    let (i, j) = (a % w, b % w);
    let (n00, n10) = ((scene.levels)(f, x, y, c), (scene.levels)(f, x + 1, y, c));
    let (n01, n11) = ((scene.levels)(f, x, y + 1, c), (scene.levels)(f, x + 1, y + 1, c));
    assert(-limit <= n00 * (w * w) <= limit && -limit <= n10 * (w * w) <= limit);
    assert(-limit <= n01 * (w * w) <= limit && -limit <= n11 * (w * w) <= limit);
    if w == 1 {
        assert(i == 0 && j == 0);
        lemma_four_times(n00, w);
        assert(seen(scene, f, a, b, c) == (n00 * (1 - 0) + n10 * 0) * (1 - 0) + (n01 * (1 - 0) + n11
            * 0) * 0);
    } else {
        assert((i == 0 || i == 1) && (j == 0 || j == 1));
        let (upper, lower) = (n00 * (2 - i) + n10 * i, n01 * (2 - i) + n11 * i);
        lemma_halfway(n00, n10, i);
        lemma_halfway(n01, n11, i);
        let all = upper * (2 - j) + lower * j;
        lemma_halfway(upper, lower, j);
        lemma_four_times(n00, w);
        lemma_four_times(n10, w);
        lemma_four_times(n01, w);
        lemma_four_times(n11, w);
        assert(seen(scene, f, a, b, c) == all);
    }
}

proof fn lemma_seen<F: Fn(FloatOp) -> u64>(
    fpu: &FloatUnit<F>,
    params: SkrFusionParams,
    frames: Seq<RgbaFrame>,
    mask: Option<&MotionMask>,
    scene: Scene,
    site: Site,
    radius: int,
    u: int,
    v: int,
    top: int,
    most: int,
    limit: int,
    f: int,
    c: int,
    a: int,
    b: int,
)
    requires
        is_scene_site(fpu, params, frames, mask, scene, site, radius, u, v, top, most, limit),
        0 <= f < frames.len(),
        0 <= c < 3,
        0 <= a < (site.width - 1) * pow2(scene.s),
        0 <= b < (site.height - 1) * pow2(scene.s),
    ensures
        -limit <= seen(scene, f, a, b, c) <= limit,
        0 <= (scene.stills)(a, b) <= most,
{
    vstd::arithmetic::power2::lemma2_to64();
    let w = pow2(scene.s) as int;
    assert(w == 1 || w == 2);
    assert(0 <= a / w < site.width - 1 && 0 <= b / w < site.height - 1);
    let (x, y) = (a / w, b / w);
    assert forall|i: int, j: int| x <= i <= x + 1 && y <= j <= y + 1 implies -limit <= #[trigger] (
    scene.levels)(f, i, j, c) * (w * w) <= limit by {}
    lemma_seen_bound(scene, f, a, b, c, limit);
    assert(0 <= a < site.width * w && 0 <= b < site.height * w);
    let n = (scene.stills)(a, b);
}

#[verifier::rlimit(40)]
proof fn lemma_reads<F: Fn(FloatOp) -> u64>(
    fpu: &FloatUnit<F>,
    params: SkrFusionParams,
    frames: Seq<RgbaFrame>,
    mask: Option<&MotionMask>,
    scene: Scene,
    site: Site,
    radius: int,
    u: int,
    v: int,
    top: int,
    most: int,
    limit: int,
    f: int,
    c: int,
    sx: u32,
    sy: u32,
    a: int,
    b: int,
)
    requires
        is_scene_site(fpu, params, frames, mask, scene, site, radius, u, v, top, most, limit),
        0 <= f < frames.len(),
        0 <= c < 3,
        stands_for(sx, a, scene.s),
        stands_for(sy, b, scene.s),
        0 <= a < (site.width - 1) * pow2(scene.s),
        0 <= b < (site.height - 1) * pow2(scene.s),
    ensures
        stands_for(
            sample_at(fpu, &frames[f], sx, sy, site.width as int, site.height as int, c),
            seen(scene, f, a, b, c),
            scene.k + 2 * scene.s,
        ),
        weighs(stillness(fpu, mask, site, sx, sy), (scene.stills)(a, b), scene.i),
{
    vstd::arithmetic::power2::lemma2_to64();
    let w = pow2(scene.s) as int;
    assert(w == 1 || w == 2);
    let frame = &frames[f];
    let (width, height) = (site.width as int, site.height as int);
    let (x, y) = (a / w, b / w);
    assert(0 <= x < width - 1 && 0 <= y < height - 1);
    let (n00, n10) = ((scene.levels)(f, x, y, c), (scene.levels)(f, x + 1, y, c));
    let (n01, n11) = ((scene.levels)(f, x, y + 1, c), (scene.levels)(f, x + 1, y + 1, c));
    let most_level = if w == 1 {
        limit
    } else {
        limit / 4
    };
    lemma_four_times(n00, w);
    lemma_four_times(n10, w);
    lemma_four_times(n01, w);
    lemma_four_times(n11, w);
    lemma_four_times(most_level, w);
    samples_lie_between_pixels(
        fpu,
        frame,
        sx,
        sy,
        width,
        height,
        c,
        a,
        b,
        scene.s,
        x,
        x + 1,
        y,
        y + 1,
        n00,
        n10,
        n01,
        n11,
        scene.k,
        most_level,
    );
    assert(0 <= a < width * w && 0 <= b < height * w);
    let n = (scene.stills)(a, b);
    lemma_constants();
    lemma_compare(ONE, ONE, 1, 1, 0);
    assert(!lt(ONE, MILLIONTH));
    if mask is Some {
        exact_whole(fpu, sx, a);
        exact_whole(fpu, sy, b);
        exact_whole(fpu, fpu.round(sx), a);
        exact_whole(fpu, fpu.round(sy), b);
    }
}

proof fn lemma_turned<F: Fn(FloatOp) -> u64>(
    fpu: &FloatUnit<F>,
    eigen: EigenDecomp,
    scene: Scene,
    radius: int,
    dx: i32,
    dy: i32,
)
    requires
        is_exact(fpu),
        is_turned(fpu, eigen, scene, radius),
        radius <= 0x10_0000,
        -radius <= dx <= radius,
        -radius <= dy <= radius,
    ensures
        ({
            let (cos_a, sin_a) = (fpu.cos(eigen.angle), fpu.sin(eigen.angle));
            let (ax, ay, bx) = (fpu.from_i32(dx), fpu.from_i32(dy), fpu.from_i32((-dx) as i32));
            let (along, across) = turned(scene, dx as int, dy as int);
            &&& stands_for(fpu.add(fpu.mul(ax, cos_a), fpu.mul(ay, sin_a)), along, scene.b)
            &&& stands_for(fpu.add(fpu.mul(bx, sin_a), fpu.mul(ay, cos_a)), across, scene.b)
        }),
{
    exact_from(fpu, dx as int);
    exact_from(fpu, dy as int);
    exact_from(fpu, -dx);
    let (ax, ay, bx) = (fpu.from_i32(dx), fpu.from_i32(dy), fpu.from_i32((-dx) as i32));
    let (cos_a, sin_a) = (fpu.cos(eigen.angle), fpu.sin(eigen.angle));
    let (cosine, sine) = scene.turn;
    let b = scene.b;
    let one = pow2(b) as int;
    let most = radius * one;
    let (x, y) = (dx as int, dy as int);
    assert(-most <= x * cosine <= most && -most <= y * sine <= most && -most <= y * cosine <= most
        && -most <= x * sine <= most && (-x) * sine == -(x * sine)) by (nonlinear_arith)
        requires
            most == radius * one,
            -radius <= x <= radius,
            -radius <= y <= radius,
            -one <= cosine <= one,
            -one <= sine <= one,
    ;
    exact_mul(fpu, ax, cos_a, x, cosine, 0, b);
    exact_mul(fpu, ay, sin_a, y, sine, 0, b);
    exact_mul(fpu, bx, sin_a, -x, sine, 0, b);
    exact_mul(fpu, ay, cos_a, y, cosine, 0, b);
    exact_add(fpu, fpu.mul(ax, cos_a), fpu.mul(ay, sin_a), x * cosine, y * sine, b);
    exact_add(fpu, fpu.mul(bx, sin_a), fpu.mul(ay, cos_a), -(x * sine), y * cosine, b);
}

#[verifier::rlimit(40)]
proof fn lemma_sample<F: Fn(FloatOp) -> u64>(
    fpu: &FloatUnit<F>,
    params: SkrFusionParams,
    frames: Seq<RgbaFrame>,
    mask: Option<&MotionMask>,
    scene: Scene,
    site: Site,
    radius: int,
    u: int,
    v: int,
    top: int,
    most: int,
    limit: int,
    f: int,
    c: int,
    dx: i32,
    dy: i32,
    sums: SampleSums,
    light: (int, int),
)
    requires
        is_scene_site(fpu, params, frames, mask, scene, site, radius, u, v, top, most, limit),
        0 <= f < frames.len(),
        0 <= c < 3,
        -radius <= dx <= radius,
        -radius <= dy <= radius,
        holds(sums, c, light, scene),
        ({
            let w = sample_weight(
                scene,
                site.width as int,
                site.height as int,
                u,
                v,
                dx as int,
                dy as int,
            );
            let unit = pow2(scene.s) as int;
            let n = seen(scene, f, u + dx * unit, v + dy * unit, c);
            &&& wide_fits(w) && wide_fits(light.1 + w)
            &&& wide_fits(n * w) && wide_fits(light.0 + n * w)
        }),
    ensures
        ({
            let w = sample_weight(
                scene,
                site.width as int,
                site.height as int,
                u,
                v,
                dx as int,
                dy as int,
            );
            let unit = pow2(scene.s) as int;
            let n = seen(scene, f, u + dx * unit, v + dy * unit, c);
            holds(
                with_sample(fpu, params, mask, site, &frames[f], dx, dy, sums),
                c,
                (light.0 + n * w, light.1 + w),
                scene,
            )
        }),
{
    lemma_constants();
    let unit = pow2(scene.s) as int;
    vstd::arithmetic::power2::lemma2_to64();
    assert(unit == 1 || unit == 2);
    let (a, b) = (u + dx * unit, v + dy * unit);
    assert(-0x20_0000 <= dx * unit <= 0x20_0000 && -0x20_0000 <= dy * unit <= 0x20_0000);
    exact_from(fpu, dx as int);
    exact_from(fpu, dy as int);
    exact_from(fpu, -dx);
    let (ax, ay, bx) = (fpu.from_i32(dx), fpu.from_i32(dy), fpu.from_i32((-dx) as i32));
    let (cos_a, sin_a) = (fpu.cos(site.eigen.angle), fpu.sin(site.eigen.angle));
    lemma_turned(fpu, site.eigen, scene, radius, dx, dy);
    let p = fpu.add(fpu.mul(ax, cos_a), fpu.mul(ay, sin_a));
    let q = fpu.add(fpu.mul(bx, sin_a), fpu.mul(ay, cos_a));
    lemma_finer(ax, dx as int, 0, scene.s);
    lemma_finer(ay, dy as int, 0, scene.s);
    exact_add(fpu, site.rx, ax, u, dx * unit, scene.s);
    exact_add(fpu, site.ry, ay, v, dy * unit, scene.s);
    let (sx, sy) = (fpu.add(site.rx, ax), fpu.add(site.ry, ay));
    lemma_outside(fpu, site, sx, sy, a, b, scene.s);
    let spatial = kernel_weight(fpu, params, p, q, site.eigen);
    let still = stillness(fpu, mask, site, sx, sy);
    let wn = (scene.weights)(dx as int, dy as int);
    assert(weighs(spatial, wn, scene.j));
    let n = seen(scene, f, a, b, c);
    let w = sample_weight(
        scene,
        site.width as int,
        site.height as int,
        u,
        v,
        dx as int,
        dy as int,
    );
    let after = with_sample(fpu, params, mask, site, &frames[f], dx, dy, sums);
    if is_outside(fpu, site, sx, sy) {
        assert(after == sums);
        assert(n * 0 == 0);
    } else {
        lemma_reads(
            fpu,
            params,
            frames,
            mask,
            scene,
            site,
            radius,
            u,
            v,
            top,
            most,
            limit,
            f,
            c,
            sx,
            sy,
            a,
            b,
        );
        let sn = (scene.stills)(a, b);
        if lt(spatial, MILLIONTH) || lt(still, MILLIONTH) {
            assert(after == sums);
            assert(0 * sn == 0 && wn * 0 == 0);
            assert(n * 0 == 0);
        } else {
            exact_widen(fpu, spatial, wn, scene.j);
            exact_widen(fpu, still, sn, scene.i);
            exact_wide_mul(fpu, fpu.widen(spatial), fpu.widen(still), wn, sn, scene.j, scene.i);
            let weight = fpu.wide_mul(fpu.widen(spatial), fpu.widen(still));
            let found = color_at(
                fpu,
                &frames[f],
                sx,
                sy,
                site.width as int,
                site.height as int,
            );
            let color = sample_at(
                fpu,
                &frames[f],
                sx,
                sy,
                site.width as int,
                site.height as int,
                c,
            );
            let deep = scene.k + 2 * scene.s;
            exact_widen(fpu, color, n, deep);
            exact_wide_mul(
                fpu,
                fpu.widen(color),
                weight,
                n,
                w,
                deep,
                scene.j + scene.i,
            );
            exact_wide_add(
                fpu,
                channel_sum(sums, c),
                fpu.wide_mul(fpu.widen(color), weight),
                light.0,
                n * w,
                deep + scene.j + scene.i,
            );
            exact_wide_add(fpu, sums.weight, weight, light.1, w, scene.j + scene.i);
            assert(channel_sum(after, c) == fpu.wide_add(
                channel_sum(sums, c),
                fpu.wide_mul(fpu.widen(color), weight),
            ));
        }
    }
}

proof fn lemma_weight_bounds<F: Fn(FloatOp) -> u64>(
    fpu: &FloatUnit<F>,
    params: SkrFusionParams,
    frames: Seq<RgbaFrame>,
    mask: Option<&MotionMask>,
    scene: Scene,
    site: Site,
    radius: int,
    u: int,
    v: int,
    top: int,
    most: int,
    limit: int,
    f: int,
    c: int,
    dx: int,
    dy: int,
)
    requires
        is_scene_site(fpu, params, frames, mask, scene, site, radius, u, v, top, most, limit),
        0 <= f < frames.len(),
        0 <= c < 3,
        -radius <= dx <= radius,
        -radius <= dy <= radius,
    ensures
        ({
            let w = sample_weight(scene, site.width as int, site.height as int, u, v, dx, dy);
            let unit = pow2(scene.s) as int;
            let n = seen(scene, f, u + dx * unit, v + dy * unit, c);
            &&& 0 <= w <= top * most
            &&& -(limit * (top * most)) <= n * w <= limit * (top * most)
        }),
{
    let unit = pow2(scene.s) as int;
    let (a, b) = (u + dx * unit, v + dy * unit);
    let n = seen(scene, f, a, b, c);
    let cap = top * most;
    assert(0 <= cap && 0 <= limit * cap) by (nonlinear_arith)
        requires
            0 <= top,
            0 <= most,
            1 <= limit,
            cap == top * most,
    ;
    if 0 <= a < (site.width - 1) * unit && 0 <= b < (site.height - 1) * unit {
        lemma_seen(
            fpu,
            params,
            frames,
            mask,
            scene,
            site,
            radius,
            u,
            v,
            top,
            most,
            limit,
            f,
            c,
            a,
            b,
        );
        lemma_turned(fpu, site.eigen, scene, radius, dx as i32, dy as i32);
        let (cos_a, sin_a) = (fpu.cos(site.eigen.angle), fpu.sin(site.eigen.angle));
        let (ax, ay) = (fpu.from_i32(dx as i32), fpu.from_i32(dy as i32));
        let bx = fpu.from_i32((-(dx as i32)) as i32);
        let p = fpu.add(fpu.mul(ax, cos_a), fpu.mul(ay, sin_a));
        let q = fpu.add(fpu.mul(bx, sin_a), fpu.mul(ay, cos_a));
        let (wn, sn) = ((scene.weights)(dx, dy), (scene.stills)(a, b));
        assert(weighs(kernel_weight(fpu, params, p, q, site.eigen), wn, scene.j));
        assert(0 <= wn <= top && 0 <= sn <= most);
        assert(0 <= wn * sn <= top * most) by (nonlinear_arith)
            requires
                0 <= wn <= top,
                0 <= sn <= most,
        ;
        let w = wn * sn;
        assert(-limit <= n <= limit);
        assert(-(limit * cap) <= n * w <= limit * cap) by (nonlinear_arith)
            requires
                -limit <= n <= limit,
                0 <= w <= cap,
                1 <= limit,
        ;
    } else {
        assert(n * 0 == 0);
    }
}

proof fn lemma_window_light<F: Fn(FloatOp) -> u64>(
    fpu: &FloatUnit<F>,
    params: SkrFusionParams,
    frames: Seq<RgbaFrame>,
    mask: Option<&MotionMask>,
    scene: Scene,
    site: Site,
    radius: int,
    u: int,
    v: int,
    top: int,
    most: int,
    limit: int,
    f: int,
    c: int,
    start: SampleSums,
    light: (int, int),
    count: int,
    m: nat,
)
    requires
        is_scene_site(fpu, params, frames, mask, scene, site, radius, u, v, top, most, limit),
        0 <= f < frames.len(),
        0 <= c < 3,
        m <= window_area(radius),
        holds(start, c, light, scene),
        0 <= count,
        0 <= light.1 <= count * (top * most),
        -(limit * (count * (top * most))) <= light.0 <= limit * (count * (top * most)),
        wide_fits(limit * ((count + m) * (top * most))),
    ensures
        ({
            let own = window_light(
                scene,
                site.width as int,
                site.height as int,
                radius,
                u,
                v,
                f,
                c,
                m,
            );
            let all = (light.0 + own.0, light.1 + own.1);
            let cap = (count + m) * (top * most);
            &&& holds(
                window_sums(fpu, params, mask, site, &frames[f], radius, start, m),
                c,
                all,
                scene,
            )
            &&& 0 <= all.1 <= cap
            &&& -(limit * cap) <= all.0 <= limit * cap
        }),
    decreases m,
{
    let cap = top * most;
    if m > 0 {
        let before = window_light(
            scene,
            site.width as int,
            site.height as int,
            radius,
            u,
            v,
            f,
            c,
            (m - 1) as nat,
        );
        assert(0 <= cap) by (nonlinear_arith)
            requires
                0 <= top,
                0 <= most,
                cap == top * most,
        ;
        let (less, more) = ((count + m - 1) * cap, (count + m) * cap);
        assert(less + cap == more && 0 <= less && limit * less + limit * cap == limit * more && more
            <= limit * more && 0 <= limit * less && 0 <= limit * cap) by (nonlinear_arith)
            requires
                less == (count + m - 1) * cap,
                more == (count + m) * cap,
                0 <= cap,
                1 <= limit,
                0 <= count,
                1 <= m,
        ;
        assert((count + (m - 1) as nat) * cap == less);
        lemma_window_light(
            fpu,
            params,
            frames,
            mask,
            scene,
            site,
            radius,
            u,
            v,
            top,
            most,
            limit,
            f,
            c,
            start,
            light,
            count,
            (m - 1) as nat,
        );
        lemma_window(m - 1, radius);
        let side = window_side(radius);
        let (dx, dy) = ((m - 1) % side - radius, (m - 1) / side - radius);
        lemma_weight_bounds(
            fpu,
            params,
            frames,
            mask,
            scene,
            site,
            radius,
            u,
            v,
            top,
            most,
            limit,
            f,
            c,
            dx,
            dy,
        );
        lemma_sample(
            fpu,
            params,
            frames,
            mask,
            scene,
            site,
            radius,
            u,
            v,
            top,
            most,
            limit,
            f,
            c,
            dx as i32,
            dy as i32,
            window_sums(fpu, params, mask, site, &frames[f], radius, start, (m - 1) as nat),
            (light.0 + before.0, light.1 + before.1),
        );
    } else {
        assert((count + m) * cap == count * cap);
    }
}

proof fn lemma_burst_light<F: Fn(FloatOp) -> u64>(
    fpu: &FloatUnit<F>,
    params: SkrFusionParams,
    frames: Seq<RgbaFrame>,
    mask: Option<&MotionMask>,
    scene: Scene,
    site: Site,
    radius: int,
    u: int,
    v: int,
    top: int,
    most: int,
    limit: int,
    c: int,
    n: nat,
)
    requires
        is_scene_site(fpu, params, frames, mask, scene, site, radius, u, v, top, most, limit),
        0 <= c < 3,
        n <= frames.len(),
        wide_fits(limit * ((frames.len() * window_area(radius)) * (top * most))),
    ensures
        ({
            let light = burst_light(
                scene,
                site.width as int,
                site.height as int,
                radius,
                u,
                v,
                c,
                n,
            );
            let cap = (n * window_area(radius)) * (top * most);
            &&& holds(frame_sums(fpu, params, mask, site, frames, radius, n), c, light, scene)
            &&& 0 <= light.1 <= cap
            &&& -(limit * cap) <= light.0 <= limit * cap
        }),
    decreases n,
{
    let area = window_area(radius);
    let cap = top * most;
    lemma_constants();
    if n == 0 {
        assert((0 * area) * cap == 0 && limit * 0 == 0) by (nonlinear_arith);
    } else {
        lemma_burst_light(
            fpu,
            params,
            frames,
            mask,
            scene,
            site,
            radius,
            u,
            v,
            top,
            most,
            limit,
            c,
            (n - 1) as nat,
        );
        let before = burst_light(
            scene,
            site.width as int,
            site.height as int,
            radius,
            u,
            v,
            c,
            (n - 1) as nat,
        );
        let count = (n - 1) * area;
        let all = frames.len() * area;
        assert(count + area == n * area && 0 <= count && n * area <= all) by (nonlinear_arith)
            requires
                count == (n - 1) * area,
                1 <= n,
                n <= frames.len(),
                all == frames.len() * area,
                0 <= area,
        ;
        let now = count + area;
        assert(0 <= limit * (now * cap) <= limit * (all * cap)) by (nonlinear_arith)
            requires
                0 <= now <= all,
                0 <= top,
                0 <= most,
                cap == top * most,
                1 <= limit,
        ;
        lemma_window_light(
            fpu,
            params,
            frames,
            mask,
            scene,
            site,
            radius,
            u,
            v,
            top,
            most,
            limit,
            n - 1,
            c,
            frame_sums(fpu, params, mask, site, frames, radius, (n - 1) as nat),
            before,
            count,
            area,
        );
        assert(area == (2 * radius + 1) * (2 * radius + 1));
    }
}

/// Each output pixel is the weighted mean of what all frames show around the place of the pixel: its
/// column and row over the scale, told in whole or half pixels. A sample weighs what its stillness and
/// its offset give it, along and across the structure that the first frame has at the place, and all
/// frames weigh alike. The mean has to be a whole number of parts.
pub proof fn pixels_are_weighted_means<F: Fn(FloatOp) -> u64>(
    fpu: &FloatUnit<F>,
    params: SkrFusionParams,
    frames: Seq<RgbaFrame>,
    mask: Option<&MotionMask>,
    out: RgbaFrame,
    eigen: EigenDecomp,
    scene: Scene,
    scale: int,
    x: int,
    y: int,
    u: int,
    v: int,
    c: int,
    top: int,
    most: int,
    limit: int,
    mean: int,
)
    requires
        is_exact(fpu),
        is_fusion(fpu, params, frames, mask, out),
        frames.len() >= 2,
        eigen == site_of(
            fpu,
            params,
            &frames[0],
            frames[0].width,
            frames[0].height,
            x,
            y,
        ).eigen,
        is_turned(fpu, eigen, scene, kernel_radius(fpu, params) as int),
        stands_for(params.output_scale, scale, 0),
        1 <= scale,
        scene.s <= 1,
        x * pow2(scene.s) == u * scale,
        y * pow2(scene.s) == v * scale,
        0 < frames[0].width <= 0x20_0000,
        0 < frames[0].height <= 0x20_0000,
        0 <= u < frames[0].width * pow2(scene.s),
        0 <= v < frames[0].height * pow2(scene.s),
        0 <= x < out.width,
        0 <= y < out.height,
        fits(x),
        fits(y),
        0 <= c < 3,
        0 <= kernel_radius(fpu, params) <= 0x10_0000,
        have_weights(fpu, params, eigen, scene, kernel_radius(fpu, params) as int, top),
        have_stillness(mask, scene, frames[0].width as int, frames[0].height as int, most),
        have_pixels(frames, scene, frames[0].width as int, frames[0].height as int, limit),
        scene.k <= 140,
        scene.j <= 149,
        scene.i <= 149,
        0 <= top,
        0 <= most,
        1 <= limit <= 0x100_0000,
        wide_fits(
            limit * ((frames.len() * window_area(kernel_radius(fpu, params) as int)) * (top * most)),
        ),
        ({
            let light = burst_light(
                scene,
                frames[0].width as int,
                frames[0].height as int,
                kernel_radius(fpu, params) as int,
                u,
                v,
                c,
                frames.len(),
            );
            light.1 * pow2(33) >= pow2(scene.j + scene.i) && light.0 == mean * light.1
        }),
        fits(mean),
    ensures
        stands_for(out.at(x, y, c), mean, scene.k + 2 * scene.s),
{
    let (width, height) = (frames[0].width, frames[0].height);
    let s = scene.s;
    let site = site_of(fpu, params, &frames[0], width, height, x, y);
    let radius = kernel_radius(fpu, params) as int;
    let n = frames.len();
    vstd::arithmetic::power2::lemma2_to64();
    exact_from(fpu, x);
    exact_from(fpu, y);
    let (fx, fy) = (fpu.from_u64(x as u64), fpu.from_u64(y as u64));
    lemma_finer(fx, x, 0, s);
    lemma_finer(fy, y, 0, s);
    assert(pow2(s) == 1 || pow2(s) == 2);
    assert(fits(u) && fits(v));
    exact_div(fpu, fx, params.output_scale, u, scale, 0, s);
    exact_div(fpu, fy, params.output_scale, v, scale, 0, s);
    assert(is_scene_site(
        fpu,
        params,
        frames,
        mask,
        scene,
        site,
        radius,
        u,
        v,
        top,
        most,
        limit,
    ));
    lemma_burst_light(
        fpu,
        params,
        frames,
        mask,
        scene,
        site,
        radius,
        u,
        v,
        top,
        most,
        limit,
        c,
        n,
    );
    let light = burst_light(scene, width as int, height as int, radius, u, v, c, n);
    let sums = frame_sums(fpu, params, mask, site, frames, radius, n);
    lemma_not_negligible(sums.weight, light.1, scene.j + scene.i);
    vstd::arithmetic::power2::lemma_pow2_pos(scene.j + scene.i);
    assert(light.1 != 0);
    let deep = scene.k + 2 * s;
    exact_wide_div(
        fpu,
        channel_sum(sums, c),
        sums.weight,
        mean,
        light.1,
        scene.j + scene.i,
        deep,
    );
    exact_narrow(fpu, fpu.wide_div(channel_sum(sums, c), sums.weight), mean, deep);
    let fused = fused_color(fpu, params, mask, site, frames);
    assert(out.at(x, y, c) == fused.channel(c));
}

/// Where an output pixel shows a whole pixel of the frames, its structure is that of the first frame at
/// this pixel.
pub proof fn structure_is_found_in_place<F: Fn(FloatOp) -> u64>(
    fpu: &FloatUnit<F>,
    params: SkrFusionParams,
    frame: &RgbaFrame,
    scale: int,
    u: int,
    v: int,
)
    requires
        is_exact(fpu),
        stands_for(params.output_scale, scale, 0),
        1 <= scale,
        0 <= u < frame.width <= 0x20_0000,
        0 <= v < frame.height <= 0x20_0000,
        fits(u * scale),
        fits(v * scale),
    ensures
        site_of(fpu, params, frame, frame.width, frame.height, u * scale, v * scale).eigen
            == eigen_of(
            fpu,
            tensor_at(
                fpu,
                frame,
                u,
                v,
                frame.width as int,
                frame.height as int,
                tensor_radius(fpu, params) as int,
            ),
        ),
{
    let (x, y) = (u * scale, v * scale);
    assert(0 <= x && 0 <= y) by (nonlinear_arith)
        requires
            x == u * scale,
            y == v * scale,
            0 <= u,
            0 <= v,
            1 <= scale,
    ;
    exact_from(fpu, x);
    exact_from(fpu, y);
    let site = site_of(fpu, params, frame, frame.width, frame.height, x, y);
    exact_div(fpu, fpu.from_u64(x as u64), params.output_scale, u, scale, 0, 0);
    exact_div(fpu, fpu.from_u64(y as u64), params.output_scale, v, scale, 0, 0);
    exact_whole(fpu, site.rx, u);
    exact_whole(fpu, site.ry, v);
    exact_whole(fpu, fpu.round(site.rx), u);
    exact_whole(fpu, fpu.round(site.ry), v);
}

} // verus!
