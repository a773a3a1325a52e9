//! What the frame of a raw file holds of the record, and where a camera is asked to shift.

use crate::cfa_fusion::{
    counts_of, halves, ideal_shift, ideal_shifts, is_frame_of, level_value, unique_positions,
    CfaFrame, ONE_AND_A_HALF,
};
use crate::exact::{
    exact_cut, exact_div, exact_from, exact_mul, fits, is_exact, lemma_compare, lemma_constants,
    lemma_finer, stands_for,
};
use crate::float::{clamp, units, FloatOp, FloatUnit, ONE, WORD_MAX, ZERO};
use crate::raw::{RawRecord, RawSamples};
use vstd::arithmetic::power2::pow2;
use vstd::prelude::*;

verus! {

/// Black levels are the ratios that a record gives, each filter position its own, or all the only one
/// there is; without any they are nothing. The ratio has to be a whole number of parts.
pub proof fn black_levels_are_ratios<F: Fn(FloatOp) -> u64>(
    fpu: &FloatUnit<F>,
    raw: RawRecord,
    frame: CfaFrame,
    i: int,
    q: int,
    t: nat,
)
    requires
        is_exact(fpu),
        is_frame_of(fpu, raw, frame),
        0 <= i < 4,
        ({
            let levels = raw.black_levels@;
            let (n, d) = if levels.len() == 1 {
                levels[0]
            } else {
                levels[i]
            };
            levels.len() == 1 || levels.len() >= 4 ==> {
                &&& fits(n as int)
                &&& fits(d as int)
                &&& d > 0
                &&& q * d == n * pow2(t)
            }
        }),
        fits(q),
        t <= 149,
    ensures
        raw.black_levels@.len() == 1 || raw.black_levels@.len() >= 4 ==> stands_for(
            frame.black_levels@[i],
            q,
            t,
        ),
        raw.black_levels@.len() == 0 || 2 <= raw.black_levels@.len() <= 3 ==> stands_for(
            frame.black_levels@[i],
            0,
            0,
        ),
{
    lemma_constants();
    let levels = raw.black_levels@;
    let (n, d) = if levels.len() == 1 {
        levels[0]
    } else {
        levels[i]
    };
    if levels.len() == 1 || levels.len() >= 4 {
        exact_from(fpu, n as int);
        exact_from(fpu, d as int);
        lemma_finer(fpu.from_u64(n as u64), n as int, 0, t);
        exact_div(fpu, fpu.from_u64(n as u64), fpu.from_u64(d as u64), q, d as int, 0, t);
        assert(frame.black_levels@[i] == level_value(fpu, (n, d)));
    }
}

/// The white level is the first one of a record, and the largest count without any.
pub proof fn white_level_is_the_first<F: Fn(FloatOp) -> u64>(
    fpu: &FloatUnit<F>,
    raw: RawRecord,
    frame: CfaFrame,
)
    requires
        is_exact(fpu),
        is_frame_of(fpu, raw, frame),
        raw.white_levels@.len() > 0 ==> fits(raw.white_levels@[0] as int),
    ensures
        stands_for(
            frame.white_level,
            if raw.white_levels@.len() > 0 {
                raw.white_levels@[0] as int
            } else {
                65535
            },
            0,
        ),
{
    if raw.white_levels@.len() > 0 {
        exact_from(fpu, raw.white_levels@[0] as int);
    } else {
        exact_from(fpu, 65535);
    }
}

/// Samples that come as counts stay as they are, and samples that come as parts of full light are spread
/// over the range of counts.
pub proof fn samples_are_spread_over_counts<F: Fn(FloatOp) -> u64>(
    fpu: &FloatUnit<F>,
    raw: RawRecord,
    frame: CfaFrame,
    i: int,
    n: int,
    k: nat,
)
    requires
        is_exact(fpu),
        is_frame_of(fpu, raw, frame),
        raw.samples matches RawSamples::Float(d) ==> 0 <= i < d@.len() && stands_for(d@[i], n, k),
        0 <= n <= pow2(k),
        k <= 8,
    ensures
        raw.samples matches RawSamples::Integer(d) ==> frame.data@ == d@,
        raw.samples matches RawSamples::Float(d) ==> frame.data@.len() == d@.len() && frame.data@[i]
            == n * 65535 / (pow2(k) as int),
{
    match raw.samples {
        RawSamples::Integer(d) => {},
        RawSamples::Float(d) => {
            let v = d@[i];
            lemma_constants();
            vstd::arithmetic::power2::lemma2_to64();
            vstd::arithmetic::power2::lemma_pow2_pos(k);
            if k < 8 {
                vstd::arithmetic::power2::lemma_pow2_strictly_increases(k, 8);
            }
            assert(stands_for(WORD_MAX, 65535, 0)) by {
                reveal(stands_for);
                vstd::arithmetic::power2::lemma_pow2_adds(8, 141);
                assert(units(WORD_MAX as int) == 0xff_ff00 * pow2(141));
                assert(pow2(149) == 256 * pow2(141));
            }
            let p = pow2(k) as int;
            lemma_finer(ONE, 1, 0, k);
            lemma_compare(v, ZERO, n, 0, k);
            lemma_compare(ONE, v, p, n, k);
            assert(clamp(v, ZERO, ONE) == v);
            exact_mul(fpu, v, WORD_MAX, n, 65535, k, 0);
            exact_cut(fpu, fpu.mul(v, WORD_MAX), n * 65535, k);
            assert(0 <= n * 65535 / p <= 65535) by (nonlinear_arith)
                requires
                    0 <= n <= p,
                    0 < p,
            ;
            assert(frame.data@ == counts_of(fpu, raw.samples));
        },
    }
}

proof fn lemma_halves(n: int)
    requires
        0 <= n <= 3,
    ensures
        stands_for(halves(n), n, 1),
{
    lemma_constants();
    vstd::arithmetic::power2::lemma2_to64();
    lemma_finer(ONE, 1, 0, 1);
    assert(stands_for(ONE_AND_A_HALF, 3, 1)) by {
        reveal(stands_for);
        vstd::arithmetic::power2::lemma_pow2_adds(22, 126);
        assert(units(ONE_AND_A_HALF as int) == 0xc0_0000 * pow2(126));
        assert(pow2(148) == 0x40_0000 * pow2(126));
    }
}

/// The camera goes row by row, round after round: over two by two pixels, or for sixteen and thirty-two
/// frames over four by four half pixels.
pub proof fn offsets_go_row_by_row(frame_count: int, i: int)
    requires
        0 <= i < frame_count,
    ensures
        ideal_shifts(frame_count).len() == frame_count,
        frame_count == 16 || frame_count == 32 ==> {
            &&& stands_for(ideal_shifts(frame_count)[i].0, i % 16 % 4, 1)
            &&& stands_for(ideal_shifts(frame_count)[i].1, i % 16 / 4, 1)
        },
        frame_count != 16 && frame_count != 32 ==> {
            &&& stands_for(ideal_shifts(frame_count)[i].0, 2 * (i % 4 % 2), 1)
            &&& stands_for(ideal_shifts(frame_count)[i].1, 2 * (i % 4 / 2), 1)
        },
{
    let u = unique_positions(frame_count);
    let j = i % u;
    assert(ideal_shifts(frame_count)[i] == ideal_shift(u, j));
    if frame_count == 16 || frame_count == 32 {
        lemma_halves(j % 4);
        lemma_halves(j / 4);
    } else {
        lemma_halves(2 * (j % 2));
        lemma_halves(2 * (j / 2));
    }
}

} // verus!
