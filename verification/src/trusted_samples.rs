//! How a noise model decides which samples of mosaics count.

use crate::cfa_fusion::{
    are_bayer, are_values, bayer_letter, collected, corner_share, corrected, fits_first, fused_at,
    gathered, is_fused, is_read_at, lemma_corner_share, lemma_reads_at, lemma_site_band,
    letter_band, nearest_place, noise_confidence, normalized, resolved, with_corner, with_frame,
    CfaFrame, ChannelSum, PixelSums, Reading, LEAST_CONFIDENCE,
};
use crate::exact::{
    exact_add, exact_cut, exact_div, exact_mul, exact_sub, fits, is_exact, lemma_compare,
    lemma_constants, lemma_finer, stands_for,
};
use crate::float::{clamp, lt, units, FloatOp, FloatUnit, ONE, WORD_MAX, ZERO};
use crate::frame::RgbaFrame;
use crate::noise_model::NoiseModel;
use vstd::arithmetic::power2::pow2;
use vstd::prelude::*;

verus! {

/// How much a noise model trusts two counts of a channel to show the same, in numbers.
pub struct Trust {
    /// Trust in a count, given the count of the reference and the channel.
    pub amounts: spec_fn(int, int, int) -> int,
    /// The power of two of parts that makes full trust.
    pub t: nat,
}

/// Whether a model trusts as told.
pub open spec fn has_trust<F: Fn(FloatOp) -> u64>(
    fpu: &FloatUnit<F>,
    model: &NoiseModel,
    trust: Trust,
) -> bool {
    forall|a: u16, b: u16, channel: int|
        0 <= channel < 3 ==> {
            let n = #[trigger] (trust.amounts)(a as int, b as int, channel);
            0 <= n <= pow2(trust.t) && stands_for(
                model.confidence_of(fpu, a, b, channel),
                n,
                trust.t,
            )
        }
}

/// Whether trust is high enough for a sample to count: a thousandth, to the digits of single precision.
pub open spec fn counts(n: int, t: nat) -> bool {
    n * pow2(33) >= 8589935 * pow2(t)
}

/// The channel of a noise model for a letter.
pub open spec fn letter_channel(letter: char) -> int {
    if letter == 'R' {
        0
    } else if letter == 'B' {
        2
    } else {
        1
    }
}

/// The light of a letter, its weight, and the count of the first frame if that shows it, after the first
/// `n` frames. Each is read at the position less its shift. Its sample counts by the trust in its count
/// next to that of the first frame, or next to itself if the first frame does not show the letter.
pub open spec fn trusted_light(
    frames: Seq<CfaFrame>,
    reading: Reading,
    trust: Trust,
    letter: char,
    n: nat,
) -> (int, int, Option<int>)
    decreases n,
{
    if n == 0 {
        (0, 0, None)
    } else {
        let f = n - 1;
        let before = trusted_light(frames, reading, trust, letter, f as nat);
        let col = nearest_place(reading.x - reading.moves[f].0, frames[0].width as int);
        let row = nearest_place(reading.y - reading.moves[f].1, frames[0].height as int);
        let v = (reading.values)(f, col, row);
        let count = v * 65535 / (pow2(reading.k) as int);
        let reference = match before.2 {
            Some(r) => r,
            None => count,
        };
        let amount = (trust.amounts)(reference, count, letter_channel(letter));
        if bayer_letter(frames[0].cfa.name@, col, row) == letter && counts(amount, trust.t) {
            (
                before.0 + v * amount,
                before.1 + amount,
                if f == 0 {
                    Some(count)
                } else {
                    before.2
                },
            )
        } else {
            before
        }
    }
}

/// Whether a reading at whole pixels tells what mosaics show.
pub open spec fn is_whole_reading<F: Fn(FloatOp) -> u64>(
    fpu: &FloatUnit<F>,
    frames: Seq<CfaFrame>,
    shifts: Seq<(u32, u32)>,
    reading: Reading,
    trust: Trust,
) -> bool {
    &&& are_bayer(frames)
    &&& are_values(fpu, frames, reading.values, reading.k)
    &&& reading.s == 0
    &&& reading.k <= 8
    &&& trust.t <= 24
    &&& frames.len() * (pow2(trust.t) * pow2(reading.k)) <= 0x100_0000
    &&& fits(reading.x)
    &&& fits(reading.y)
    &&& reading.moves.len() >= frames.len()
    &&& forall|f: int|
        0 <= f < frames.len() ==> {
            &&& stands_for(shifts[f].0, (#[trigger] reading.moves[f]).0, 0)
            &&& stands_for(shifts[f].1, reading.moves[f].1, 0)
            &&& fits(reading.x - reading.moves[f].0)
            &&& fits(reading.y - reading.moves[f].1)
        }
}

spec fn band_sum(sums: PixelSums, letter: char) -> ChannelSum {
    if letter == 'R' {
        sums.red
    } else if letter == 'B' {
        sums.blue
    } else {
        sums.green
    }
}

spec fn holds(sums: PixelSums, letter: char, light: (int, int, Option<int>), k: nat, t: nat) -> bool {
    let c = band_sum(sums, letter);
    &&& stands_for(c.sum, light.0, k + t)
    &&& stands_for(c.weight, light.1, t)
    &&& match (c.reference, light.2) {
        (Some(a), Some(b)) => a == b,
        (None, None) => true,
        _ => false,
    }
}

proof fn lemma_counts(w: u32, c: u32, n: int, t: nat)
    requires
        stands_for(w, n, t),
        stands_for(c, n, t),
        t <= 24,
    ensures
        lt(w, LEAST_CONFIDENCE) == !counts(n, t),
{
    assert(stands_for(LEAST_CONFIDENCE, 8589935, 33)) by {
        reveal(stands_for);
        assert(units(LEAST_CONFIDENCE as int) == 8589935 * pow2(116));
    }
    lemma_finer(LEAST_CONFIDENCE, 8589935, 33, t);
    lemma_finer(w, n, t, 33);
    lemma_compare(w, LEAST_CONFIDENCE, n * pow2(33), (8589935 * pow2(t)) as int, t + 33);
}

#[verifier::rlimit(40)]
proof fn lemma_first_corner<F: Fn(FloatOp) -> u64>(
    fpu: &FloatUnit<F>,
    model: &NoiseModel,
    frames: Seq<CfaFrame>,
    shifts: Seq<(u32, u32)>,
    reading: Reading,
    trust: Trust,
    letter: char,
    f: int,
    sx: u32,
    sy: u32,
    sums: PixelSums,
)
    requires
        is_exact(fpu),
        has_trust(fpu, model, trust),
        is_whole_reading(fpu, frames, shifts, reading, trust),
        letter == 'R' || letter == 'G' || letter == 'B',
        0 <= f < frames.len(),
        stands_for(sx, reading.x - reading.moves[f].0, 0),
        stands_for(sy, reading.y - reading.moves[f].1, 0),
        f == 0 ==> sums == PixelSums::empty(),
        ({
            let light = trusted_light(frames, reading, trust, letter, f as nat);
            &&& holds(sums, letter, light, reading.k, trust.t)
            &&& 0 <= light.1 <= f * pow2(trust.t)
            &&& 0 <= light.0 <= f * (pow2(trust.t) * pow2(reading.k))
        }),
    ensures
        ({
            let light = trusted_light(frames, reading, trust, letter, (f + 1) as nat);
            let after = with_corner(
                fpu,
                Some(model),
                frames[0].cfa.name@,
                frames[f],
                f == 0,
                sx,
                sy,
                0,
                sums,
            );
            &&& holds(after, letter, light, reading.k, trust.t)
            &&& 0 <= light.1 <= (f + 1) * pow2(trust.t)
            &&& 0 <= light.0 <= (f + 1) * (pow2(trust.t) * pow2(reading.k))
        }),
{
    let (k, t) = (reading.k, trust.t);
    let name = frames[0].cfa.name@;
    let frame = frames[f];
    let (px, py) = (reading.x - reading.moves[f].0, reading.y - reading.moves[f].1);
    vstd::arithmetic::power2::lemma2_to64();
    vstd::arithmetic::power2::lemma_pow2_pos(k);
    vstd::arithmetic::power2::lemma_pow2_pos(t);
    assert(fits_first(frames, f));
    let c0 = lemma_corner_share(fpu, sx, sy, px, py, 0, 0);
    assert(px % 1 == 0 && py % 1 == 0 && px / 1 == px && py / 1 == py);
    let s0 = with_corner(fpu, Some(model), name, frame, f == 0, sx, sy, 0, sums);
    let col = nearest_place(px, frames[0].width as int);
    let row = nearest_place(py, frames[0].height as int);
    let v = (reading.values)(f, col, row);
    let here = bayer_letter(name, col, row);
    let band = letter_band(here);
    lemma_site_band(frames, col, row);
    let value = corrected(fpu, frame, band, normalized(fpu, frame, row * frames[0].width + col));
    assert(0 <= v <= pow2(k) && stands_for(value, v, k));
    let before = trusted_light(frames, reading, trust, letter, f as nat);
    let (one, full) = (pow2(t) as int, pow2(t) * pow2(k));
    assert((f + 1) * one == f * one + one && (f + 1) * full == f * full + full && 0 <= full)
        by (nonlinear_arith)
        requires
            full >= 0,
    ;
    if here == letter {
        lemma_word(fpu, value, v, k);
        let p = pow2(k) as int;
        let count = v * 65535 / p;
        let reference = match before.2 {
            Some(r) => r,
            None => count,
        };
        assert(fpu.to_u16(fpu.mul(value, WORD_MAX)) == count && 0 <= count <= 65535);
        let channel = letter_channel(letter);
        assert(band.noise_channel() == channel);
        let amount = (trust.amounts)(reference, count, channel);
        let r16 = reference as u16;
        let c16 = count as u16;
        assert(sums.reference(band) == band_sum(sums, letter).reference);
        assert(r16 == reference);
        assert((trust.amounts)(r16 as int, c16 as int, channel) == amount);
        let conf = model.confidence_of(fpu, r16, c16, channel);
        assert(noise_confidence(fpu, Some(model), sums, band, value, f == 0) == conf);
        assert(stands_for(conf, amount, t));
        let x0 = fpu.to_i32(fpu.floor(sx));
        let y0 = fpu.to_i32(fpu.floor(sy));
        let weight = fpu.mul(
            fpu.sub(ONE, fpu.sub(sx, fpu.from_i32(x0))),
            fpu.sub(ONE, fpu.sub(sy, fpu.from_i32(y0))),
        );
        assert(stands_for(weight, 1, 0));
        if t < 24 {
            vstd::arithmetic::power2::lemma_pow2_strictly_increases(t, 24);
        }
        exact_mul(fpu, weight, conf, 1, amount, 0, t);
        let confidence = fpu.mul(weight, conf);
        lemma_counts(confidence, conf, amount, t);
        assert(0 <= v * amount <= full) by (nonlinear_arith)
            requires
                0 <= v <= p,
                0 <= amount <= one,
                full == one * p,
        ;
        if counts(amount, t) {
            let c = band_sum(sums, letter);
            let most = frames.len() * full;
            assert((f + 1) * full <= most && (f + 1) * one <= (f + 1) * full) by (nonlinear_arith)
                requires
                    f + 1 <= frames.len(),
                    0 <= f,
                    0 <= full,
                    most == frames.len() * full,
                    full == one * p,
                    p >= 1,
                    one >= 1,
            ;
            exact_mul(fpu, value, confidence, v, amount, k, t);
            exact_add(fpu, c.sum, fpu.mul(value, confidence), before.0, v * amount, k + t);
            exact_add(fpu, c.weight, confidence, before.1, amount, t);
            let after = collected(fpu, c, value, confidence, f == 0);
            assert(band_sum(s0, letter) == after);
        } else {
            assert(s0 == sums);
        }
    } else {
        assert(band_sum(s0, letter) == band_sum(sums, letter));
    }
}

proof fn lemma_trusted_frame<F: Fn(FloatOp) -> u64>(
    fpu: &FloatUnit<F>,
    model: &NoiseModel,
    frames: Seq<CfaFrame>,
    shifts: Seq<(u32, u32)>,
    reading: Reading,
    trust: Trust,
    letter: char,
    f: int,
    sx: u32,
    sy: u32,
    sums: PixelSums,
)
    requires
        is_exact(fpu),
        has_trust(fpu, model, trust),
        is_whole_reading(fpu, frames, shifts, reading, trust),
        letter == 'R' || letter == 'G' || letter == 'B',
        0 <= f < frames.len(),
        stands_for(sx, reading.x - reading.moves[f].0, 0),
        stands_for(sy, reading.y - reading.moves[f].1, 0),
        f == 0 ==> sums == PixelSums::empty(),
        ({
            let light = trusted_light(frames, reading, trust, letter, f as nat);
            &&& holds(sums, letter, light, reading.k, trust.t)
            &&& 0 <= light.1 <= f * pow2(trust.t)
            &&& 0 <= light.0 <= f * (pow2(trust.t) * pow2(reading.k))
        }),
    ensures
        ({
            let light = trusted_light(frames, reading, trust, letter, (f + 1) as nat);
            let after = with_frame(
                fpu,
                Some(model),
                frames[0].cfa.name@,
                frames[f],
                f == 0,
                sx,
                sy,
                sums,
            );
            &&& holds(after, letter, light, reading.k, trust.t)
            &&& 0 <= light.1 <= (f + 1) * pow2(trust.t)
            &&& 0 <= light.0 <= (f + 1) * (pow2(trust.t) * pow2(reading.k))
        }),
{
    let name = frames[0].cfa.name@;
    let (px, py) = (reading.x - reading.moves[f].0, reading.y - reading.moves[f].1);
    lemma_first_corner(
        fpu,
        model,
        frames,
        shifts,
        reading,
        trust,
        letter,
        f,
        sx,
        sy,
        sums,
    );
    let s0 = with_corner(fpu, Some(model), name, frames[f], f == 0, sx, sy, 0, sums);
    lemma_far_corner(fpu, model, name, frames[f], f == 0, sx, sy, px, py, 1, s0);
    lemma_far_corner(fpu, model, name, frames[f], f == 0, sx, sy, px, py, 2, s0);
    lemma_far_corner(fpu, model, name, frames[f], f == 0, sx, sy, px, py, 3, s0);
}

proof fn lemma_far_corner<F: Fn(FloatOp) -> u64>(
    fpu: &FloatUnit<F>,
    model: &NoiseModel,
    name: Seq<char>,
    frame: CfaFrame,
    first: bool,
    sx: u32,
    sy: u32,
    px: int,
    py: int,
    corner: int,
    sums: PixelSums,
)
    requires
        is_exact(fpu),
        stands_for(sx, px, 0),
        stands_for(sy, py, 0),
        fits(px),
        fits(py),
        1 <= corner < 4,
    ensures
        with_corner(fpu, Some(model), name, frame, first, sx, sy, corner, sums) == sums,
{
    vstd::arithmetic::power2::lemma2_to64();
    let c = lemma_corner_share(fpu, sx, sy, px, py, 0, corner);
    assert(px % 1 == 0 && py % 1 == 0);
    let near = corner_share(1, px, py, corner % 2 == 1, corner / 2 == 1);
    let (right, low): (int, int) = (
        if corner % 2 == 1 {
            0
        } else {
            1
        },
        if corner / 2 == 1 {
            0
        } else {
            1
        },
    );
    assert(near == right * low);
    assert(right * low == 0) by (nonlinear_arith)
        requires
            right == 0 || low == 0,
    ;
}

proof fn lemma_word<F: Fn(FloatOp) -> u64>(fpu: &FloatUnit<F>, value: u32, v: int, k: nat)
    requires
        is_exact(fpu),
        stands_for(value, v, k),
        0 <= v <= pow2(k),
        k <= 8,
    ensures
        fpu.to_u16(fpu.mul(value, WORD_MAX)) == v * 65535 / (pow2(k) as int),
        0 <= v * 65535 / (pow2(k) as int) <= 65535,
{
    assert(stands_for(WORD_MAX, 65535, 0)) by {
        reveal(stands_for);
        vstd::arithmetic::power2::lemma2_to64();
        vstd::arithmetic::power2::lemma_pow2_adds(8, 141);
        assert(units(WORD_MAX as int) == 0xff_ff00 * pow2(141));
        assert(pow2(149) == 256 * pow2(141));
    }
    vstd::arithmetic::power2::lemma2_to64();
    vstd::arithmetic::power2::lemma_pow2_pos(k);
    if k < 8 {
        vstd::arithmetic::power2::lemma_pow2_strictly_increases(k, 8);
    }
    let p = pow2(k) as int;
    exact_mul(fpu, value, WORD_MAX, v, 65535, k, 0);
    exact_cut(fpu, fpu.mul(value, WORD_MAX), v * 65535, k);
    assert(0 <= v * 65535 / p <= 65535) by (nonlinear_arith)
        requires
            0 <= v <= p,
            0 < p,
    ;
}

proof fn lemma_trusted<F: Fn(FloatOp) -> u64>(
    fpu: &FloatUnit<F>,
    model: &NoiseModel,
    frames: Seq<CfaFrame>,
    shifts: Seq<(u32, u32)>,
    reading: Reading,
    trust: Trust,
    letter: char,
    x: u32,
    y: u32,
    n: nat,
)
    requires
        is_exact(fpu),
        has_trust(fpu, model, trust),
        is_whole_reading(fpu, frames, shifts, reading, trust),
        letter == 'R' || letter == 'G' || letter == 'B',
        n <= frames.len(),
        stands_for(x, reading.x, 0),
        stands_for(y, reading.y, 0),
    ensures
        ({
            let light = trusted_light(frames, reading, trust, letter, n);
            &&& holds(
                gathered(fpu, Some(model), frames, shifts, x, y, n),
                letter,
                light,
                reading.k,
                trust.t,
            )
            &&& 0 <= light.1 <= n * pow2(trust.t)
            &&& 0 <= light.0 <= n * (pow2(trust.t) * pow2(reading.k))
        }),
    decreases n,
{
    if n == 0 {
        lemma_constants();
        assert(0 * pow2(trust.t) == 0 && 0 * (pow2(trust.t) * pow2(reading.k)) == 0);
    } else {
        let f = n - 1;
        lemma_trusted(fpu, model, frames, shifts, reading, trust, letter, x, y, f as nat);
        assert(reading.moves[f].0 == reading.moves[f].0);
        exact_sub(fpu, x, shifts[f].0, reading.x, reading.moves[f].0, 0);
        exact_sub(fpu, y, shifts[f].1, reading.y, reading.moves[f].1, 0);
        lemma_trusted_frame(
            fpu,
            model,
            frames,
            shifts,
            reading,
            trust,
            letter,
            f,
            fpu.sub(x, shifts[f].0),
            fpu.sub(y, shifts[f].1),
            gathered(fpu, Some(model), frames, shifts, x, y, f as nat),
        );
    }
}

/// With a noise model, each color of an output pixel is the mean of what all frames show of it, weighted
/// by the trust of the model in each count next to that of the first frame. Samples with less than a
/// thousandth of trust do not count.
pub proof fn colors_are_means_of_trusted_samples<F: Fn(FloatOp) -> u64>(
    fpu: &FloatUnit<F>,
    model: &NoiseModel,
    frames: Seq<CfaFrame>,
    shifts: Seq<(u32, u32)>,
    scale: u32,
    out: RgbaFrame,
    reading: Reading,
    trust: Trust,
    letter: char,
    x: int,
    y: int,
    mean: int,
)
    requires
        is_exact(fpu),
        has_trust(fpu, model, trust),
        is_whole_reading(fpu, frames, shifts, reading, trust),
        is_fused(fpu, Some(model), frames, shifts, scale, out),
        scale == 1 || scale == 2,
        0 <= x < out.width,
        0 <= y < out.height,
        fits(x),
        fits(y),
        is_read_at(reading, scale, x, y),
        letter == 'R' || letter == 'G' || letter == 'B',
        ({
            let light = trusted_light(frames, reading, trust, letter, frames.len());
            light.1 > 0 && light.0 == mean * light.1
        }),
    ensures
        stands_for(
            out.at(
                x,
                y,
                if letter == 'R' {
                    0
                } else if letter == 'G' {
                    1
                } else {
                    2
                },
            ),
            mean,
            reading.k,
        ),
{
    let k = reading.k;
    let (sx, sy) = (
        fpu.div(fpu.from_u64(x as u64), fpu.from_u64(scale as u64)),
        fpu.div(fpu.from_u64(y as u64), fpu.from_u64(scale as u64)),
    );
    lemma_reads_at(fpu, reading, scale, x, reading.x);
    lemma_reads_at(fpu, reading, scale, y, reading.y);
    let n = frames.len();
    lemma_trusted(fpu, model, frames, shifts, reading, trust, letter, sx, sy, n);
    let light = trusted_light(frames, reading, trust, letter, n);
    lemma_mean_bound(frames, reading, trust, letter, n, fpu, shifts, model);
    let sums = gathered(fpu, Some(model), frames, shifts, sx, sy, n);
    let c = band_sum(sums, letter);
    lemma_constants();
    vstd::arithmetic::power2::lemma2_to64();
    vstd::arithmetic::power2::lemma_pow2_pos(k);
    if k < 8 {
        vstd::arithmetic::power2::lemma_pow2_strictly_increases(k, 8);
    }
    let p = pow2(k) as int;
    let w = light.1;
    assert(0 <= mean <= p) by (nonlinear_arith)
        requires
            0 <= mean * w <= w * p,
            w > 0,
    ;
    lemma_compare(ZERO, c.weight, 0, w, trust.t);
    exact_div(fpu, c.sum, c.weight, mean, w, trust.t, k);
    let m = fpu.div(c.sum, c.weight);
    lemma_finer(ONE, 1, 0, k);
    lemma_compare(m, ZERO, mean, 0, k);
    lemma_compare(ONE, m, p, mean, k);
    assert(clamp(m, ZERO, ONE) == m);
    let color = fused_at(fpu, Some(model), frames, shifts, scale, x, y);
    assert(color == resolved(fpu, sums));
    if letter == 'R' {
        assert(out.at(x, y, 0) == color.channel(0));
    } else if letter == 'G' {
        assert(out.at(x, y, 1) == color.channel(1));
    } else {
        assert(out.at(x, y, 2) == color.channel(2));
    }
}

proof fn lemma_mean_bound<F: Fn(FloatOp) -> u64>(
    frames: Seq<CfaFrame>,
    reading: Reading,
    trust: Trust,
    letter: char,
    n: nat,
    fpu: &FloatUnit<F>,
    shifts: Seq<(u32, u32)>,
    model: &NoiseModel,
)
    requires
        is_exact(fpu),
        has_trust(fpu, model, trust),
        is_whole_reading(fpu, frames, shifts, reading, trust),
        letter == 'R' || letter == 'G' || letter == 'B',
        n <= frames.len(),
    ensures
        ({
            let light = trusted_light(frames, reading, trust, letter, n);
            0 <= light.1 && 0 <= light.0 <= light.1 * pow2(reading.k)
        }),
        trusted_light(frames, reading, trust, letter, n).2 matches Some(r) ==> 0 <= r <= 65535,
    decreases n,
{
    let p = pow2(reading.k) as int;
    if n == 0 {
        assert(0 * p == 0);
    } else {
        let f = n - 1;
        lemma_mean_bound(frames, reading, trust, letter, f as nat, fpu, shifts, model);
        let before = trusted_light(frames, reading, trust, letter, f as nat);
        let col = nearest_place(reading.x - reading.moves[f].0, frames[0].width as int);
        let row = nearest_place(reading.y - reading.moves[f].1, frames[0].height as int);
        let v = (reading.values)(f, col, row);
        assert(0 <= v <= p);
        vstd::arithmetic::power2::lemma_pow2_pos(reading.k);
        let count = v * 65535 / p;
        assert(0 <= count <= 65535) by (nonlinear_arith)
            requires
                count == v * 65535 / p,
                0 <= v <= p,
                0 < p,
        ;
        let reference = match before.2 {
            Some(r) => r,
            None => count,
        };
        let amount = (trust.amounts)(reference, count, letter_channel(letter));
        let (r16, c16) = (reference as u16, count as u16);
        assert(amount == (trust.amounts)(r16 as int, c16 as int, letter_channel(letter)));
        assert(0 <= amount);
        assert(before.1 * p + v * amount <= (before.1 + amount) * p && 0 <= v * amount)
            by (nonlinear_arith)
            requires
                0 <= v <= p,
                0 <= amount,
        ;
    }
}

} // verus!
