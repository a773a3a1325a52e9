//! What a noise model makes of its counters.

use crate::exact::{
    exact_cut, exact_div, exact_from, exact_mul, exact_narrow, exact_wide_div,
    exact_wide_from, exact_widen, fits, is_exact, lemma_compare, lemma_constants, lemma_finer,
    stands_for,
};
use crate::float::{units, FloatOp, FloatUnit, BYTE_MAX, ONE, WORD_MAX, ZERO};
use crate::noise_model::{
    accumulated, is_normalized, normalized_at, peak, peak_from, row_at, total, NoiseModel, COUNTERS,
};
use vstd::arithmetic::power2::pow2;
use vstd::prelude::*;

verus! {

/// The sum of the first `n` counters from counter `from` on.
pub open spec fn count_sum(counters: Seq<u32>, from: int, n: nat) -> int
    decreases n,
{
    if n == 0 {
        0
    } else {
        count_sum(counters, from, (n - 1) as nat) + counters[from + n - 1]
    }
}

/// Whether `m` is the largest of the counters from `from` to before `end`.
pub open spec fn is_largest(counters: Seq<u32>, from: int, end: int, m: int) -> bool {
    &&& exists|i: int| from <= i < end && #[trigger] counters[i] == m
    &&& forall|i: int| from <= i < end ==> #[trigger] counters[i] <= m
}

/// Where the row of a reference value begins, in the histogram of a channel: the third serves for all
/// that follow.
pub open spec fn row_start(ref_val: u16, channel: nat) -> int {
    let c = if channel < 2 {
        channel as int
    } else {
        2
    };
    (c * 256 + ref_val as int / 256) * 256
}

proof fn lemma_count_sum(counters: Seq<u32>, row: int, n: nat)
    requires
        0 <= row,
        row * 256 + 256 <= counters.len(),
        n <= 256,
    ensures
        count_sum(counters, row * 256, n) == total(row_at(counters, row), n as int),
        0 <= count_sum(counters, row * 256, n) <= n * 0xffff_ffff,
    decreases n,
{
    if n > 0 {
        lemma_count_sum(counters, row, (n - 1) as nat);
        assert(row_at(counters, row)[n - 1] == counters[row * 256 + n - 1]);
    }
}

/// Before a model is normalized, a confidence is the share of its counter in the counters of all samples
/// of the reference value. The share has to be a whole number of parts.
pub proof fn counted_confidences_are_shares<F: Fn(FloatOp) -> u64>(
    fpu: &FloatUnit<F>,
    model: NoiseModel,
    ref_val: u16,
    sample_val: u16,
    channel: nat,
    q: int,
    t: nat,
)
    requires
        is_exact(fpu),
        model.wf(),
        !model.normalized,
        ({
            let from = row_start(ref_val, channel);
            let count = model.histograms@[from + sample_val as int / 256] as int;
            let sum = count_sum(model.histograms@, from, 256);
            fits(count) && 0 < sum && q * sum == count * pow2(t)
        }),
        t <= 24,
    ensures
        stands_for(model.confidence_of(fpu, ref_val, sample_val, channel as int), q, t),
{
    let from = row_start(ref_val, channel);
    let row = from / 256;
    assert(from == row * 256 && 0 <= row && row * 256 + 256 <= COUNTERS);
    lemma_count_sum(model.histograms@, row, 256);
    let count = model.histograms@[from + sample_val as int / 256] as int;
    let sum = count_sum(model.histograms@, from, 256);
    lemma_counter_in_sum(model.histograms@, from, 256, sample_val as int / 256);
    vstd::arithmetic::power2::lemma2_to64();
    vstd::arithmetic::power2::lemma_pow2_pos(t);
    if t < 24 {
        vstd::arithmetic::power2::lemma_pow2_strictly_increases(t, 24);
    }
    let p = pow2(t) as int;
    assert(0 <= q <= p) by (nonlinear_arith)
        requires
            q * sum == count * p,
            0 <= count <= sum,
            0 < sum,
            0 < p,
    ;
    exact_from(fpu, count);
    let raw = fpu.from_u64(count as u64);
    lemma_finer(raw, count, 0, t);
    exact_widen(fpu, raw, count * pow2(t), t);
    exact_wide_from(fpu, sum);
    exact_wide_div(fpu, fpu.widen(raw), fpu.wide_from_u64(sum as u64), q, sum, 0, t);
    exact_narrow(fpu, fpu.wide_div(fpu.widen(raw), fpu.wide_from_u64(sum as u64)), q, t);
}

proof fn lemma_counter_in_sum(counters: Seq<u32>, from: int, n: nat, i: int)
    requires
        0 <= i < n,
    ensures
        counters[from + i] <= count_sum(counters, from, n),
        0 <= count_sum(counters, from, n),
    decreases n,
{
    if n > 1 {
        if i < n - 1 {
            lemma_counter_in_sum(counters, from, (n - 1) as nat, i);
        } else {
            lemma_counter_in_sum(counters, from, (n - 1) as nat, 0);
        }
    } else {
        assert(count_sum(counters, from, 0) == 0);
    }
}

proof fn lemma_peak_is_largest(s: Seq<u32>, n: int)
    requires
        1 <= n <= s.len(),
    ensures
        is_largest(s, 0, n, peak(s, n) as int),
    decreases n,
{
    reveal_with_fuel(peak, 2);
    if n > 1 {
        lemma_peak_is_largest(s, n - 1);
        let i = choose|i: int| 0 <= i < n - 1 && #[trigger] s[i] == peak(s, n - 1);
        if peak(s, n - 1) < s[n - 1] {
            assert(s[n - 1] == peak(s, n));
        } else {
            assert(s[i] == peak(s, n));
        }
    } else {
        assert(s[0] == peak(s, 1));
    }
}

proof fn lemma_peak_from_is_largest(s: Seq<u32>, j: int)
    requires
        0 <= j < s.len(),
    ensures
        is_largest(s, j, s.len() as int, peak_from(s, j) as int),
    decreases s.len() - j,
{
    reveal_with_fuel(peak_from, 2);
    if j < s.len() - 1 {
        lemma_peak_from_is_largest(s, j + 1);
        let i = choose|i: int| j + 1 <= i < s.len() && #[trigger] s[i] == peak_from(s, j + 1);
        if peak_from(s, j + 1) < s[j] {
            assert(s[j] == peak_from(s, j));
        } else {
            assert(s[i] == peak_from(s, j));
        }
    } else {
        assert(s[j] == peak_from(s, j));
    }
}

/// Accumulated from both ends, a counter is the largest one from the nearer end up to its own place, and
/// the one on the diagonal is the largest of all.
pub proof fn accumulated_counters_are_largest(line: Seq<u32>, center: int, j: int)
    requires
        0 <= center < line.len(),
        0 <= j < line.len(),
    ensures
        j < center ==> is_largest(line, 0, j + 1, accumulated(line, center, j) as int),
        j > center ==> is_largest(line, j, line.len() as int, accumulated(line, center, j) as int),
        j == center ==> is_largest(line, 0, line.len() as int, accumulated(line, center, j) as int),
{
    lemma_peak_is_largest(line, j + 1);
    lemma_peak_from_is_largest(line, j);
    if j == center {
        let (a, b) = (peak(line, j + 1), peak_from(line, j));
        let m = accumulated(line, center, j);
        let i = choose|i: int| 0 <= i < j + 1 && #[trigger] line[i] == a;
        let k = choose|k: int| j <= k < line.len() && #[trigger] line[k] == b;
        if a < b {
            assert(line[k] == m);
        } else {
            assert(line[i] == m);
        }
        assert forall|n: int| 0 <= n < line.len() implies #[trigger] line[n] <= m by {
            if n <= j {
                assert(line[n] <= a);
            } else {
                assert(line[n] <= b);
            }
        }
    }
}

proof fn lemma_maxima()
    ensures
        stands_for(WORD_MAX, 65535, 0),
        stands_for(BYTE_MAX, 255, 0),
{
    reveal(stands_for);
    vstd::arithmetic::power2::lemma2_to64();
    vstd::arithmetic::power2::lemma_pow2_adds(8, 141);
    vstd::arithmetic::power2::lemma_pow2_adds(16, 133);
    assert(units(WORD_MAX as int) == 0xff_ff00 * pow2(141));
    assert(units(BYTE_MAX as int) == 0xff_0000 * pow2(133));
    assert(pow2(149) == 256 * pow2(141) && pow2(149) == 65536 * pow2(133));
}

/// Normalized with an exponent of one, a counter tells how its accumulated count compares to the one on
/// the diagonal, in parts of which 65535 make one.
pub proof fn normalized_counters_are_ratios<F: Fn(FloatOp) -> u64>(
    fpu: &FloatUnit<F>,
    before: Seq<u32>,
    after: NoiseModel,
    row: int,
    j: int,
    own: int,
    top: int,
    q: int,
    t: nat,
)
    requires
        is_exact(fpu),
        forall|a: u32| #[trigger] fpu.powf(a, ONE) == a,
        before.len() == COUNTERS,
        is_normalized(fpu, before, ONE, after),
        0 <= row < 768,
        0 <= j < 256,
        ({
            let from = row * 256;
            let center = row % 256;
            &&& j < center ==> is_largest(before, from, from + j + 1, own)
            &&& j > center ==> is_largest(before, from + j, from + 256, own)
            &&& j == center ==> own == top
            &&& is_largest(before, from, from + 256, top)
        }),
        0 < top,
        fits(top),
        q * top == own * pow2(t),
        t <= 8,
    ensures
        after.histograms@[row * 256 + j] == q * 65535 / (pow2(t) as int),
{
    let from = row * 256;
    let center = row % 256;
    let line = row_at(before, row);
    accumulated_counters_are_largest(line, center, j);
    accumulated_counters_are_largest(line, center, center);
    let (m, n) = (accumulated(line, center, j) as int, accumulated(line, center, center) as int);
    lemma_same_largest(before, line, from, 0, 256, top, n);
    if j < center {
        lemma_same_largest(before, line, from, 0, j + 1, own, m);
    } else if j > center {
        lemma_same_largest(before, line, from, j, 256, own, m);
    }
    assert(m == own && n == top);
    assert(own <= top) by {
        if j < center {
            let i = choose|i: int| from <= i < from + j + 1 && #[trigger] before[i] == own;
            assert(before[i] <= top);
        } else if j > center {
            let i = choose|i: int| from + j <= i < from + 256 && #[trigger] before[i] == own;
            assert(before[i] <= top);
        }
    }
    assert(after.histograms@[row * 256 + j] == normalized_at(fpu, before, row, j, ONE));
    lemma_constants();
    lemma_maxima();
    vstd::arithmetic::power2::lemma2_to64();
    vstd::arithmetic::power2::lemma_pow2_pos(t);
    if t < 8 {
        vstd::arithmetic::power2::lemma_pow2_strictly_increases(t, 8);
    }
    let p = pow2(t) as int;
    assert(0 <= q <= p) by (nonlinear_arith)
        requires
            q * top == own * p,
            0 <= own <= top,
            0 < top,
            0 < p,
    ;
    exact_from(fpu, own);
    exact_from(fpu, top);
    let (a, b) = (fpu.from_u64(own as u64), fpu.from_u64(top as u64));
    lemma_compare(ZERO, b, 0, top, 0);
    lemma_finer(a, own, 0, t);
    exact_div(fpu, a, b, q, top, 0, t);
    let ratio = fpu.div(a, b);
    lemma_finer(ONE, 1, 0, t);
    lemma_compare(ratio, ZERO, q, 0, t);
    lemma_compare(ONE, ratio, p, q, t);
    exact_mul(fpu, ratio, WORD_MAX, q, 65535, t, 0);
    exact_cut(fpu, fpu.mul(ratio, WORD_MAX), q * 65535, t);
}

proof fn lemma_same_largest(
    counters: Seq<u32>,
    line: Seq<u32>,
    from: int,
    start: int,
    end: int,
    a: int,
    b: int,
)
    requires
        0 <= from,
        from + 256 <= counters.len(),
        line == counters.subrange(from, from + 256),
        0 <= start <= end <= 256,
        is_largest(counters, from + start, from + end, a),
        is_largest(line, start, end, b),
    ensures
        a == b,
{
    let i = choose|i: int| from + start <= i < from + end && #[trigger] counters[i] == a;
    let k = choose|k: int| start <= k < end && #[trigger] line[k] == b;
    assert(line[i - from] <= b);
    assert(counters[from + k] <= a);
}

/// After a model was normalized, a confidence is its counter in proportion to 65535.
pub proof fn normalized_confidences_are_ratios<F: Fn(FloatOp) -> u64>(
    fpu: &FloatUnit<F>,
    model: NoiseModel,
    ref_val: u16,
    sample_val: u16,
    channel: nat,
    q: int,
    t: nat,
)
    requires
        is_exact(fpu),
        model.wf(),
        model.normalized,
        ({
            let counter = model.histograms@[row_start(ref_val, channel) + sample_val as int / 256];
            counter <= 65535 && q * 65535 == counter * pow2(t)
        }),
        t <= 24,
    ensures
        stands_for(model.confidence_of(fpu, ref_val, sample_val, channel as int), q, t),
{
    let n = model.histograms@[row_start(ref_val, channel) + sample_val as int / 256] as int;
    lemma_maxima();
    vstd::arithmetic::power2::lemma2_to64();
    if t < 24 {
        vstd::arithmetic::power2::lemma_pow2_strictly_increases(t, 24);
    }
    let p = pow2(t) as int;
    assert(0 <= q <= p) by (nonlinear_arith)
        requires
            q * 65535 == n * p,
            0 <= n <= 65535,
            0 <= p,
    ;
    exact_from(fpu, n);
    lemma_finer(fpu.from_u64(n as u64), n, 0, t);
    exact_div(fpu, fpu.from_u64(n as u64), WORD_MAX, q, 65535, 0, t);
}

/// The picture of a histogram is as bright as its counters compare to the largest one, which is white.
pub proof fn pictures_compare_counters<F: Fn(FloatOp) -> u64>(
    fpu: &FloatUnit<F>,
    model: NoiseModel,
    channel: int,
    reference: int,
    sample: int,
    top: int,
    q: int,
    t: nat,
)
    requires
        is_exact(fpu),
        model.wf(),
        0 <= channel < 3,
        0 <= reference < 256,
        0 <= sample < 256,
        is_largest(model.histograms@, channel * 65536, channel * 65536 + 65536, top),
        0 < top,
        fits(top),
        q * top == model.histograms@[channel * 65536 + reference * 256 + sample] * pow2(t),
        t <= 16,
    ensures
        model.gray_of(fpu, channel, reference, sample) == q * 255 / (pow2(t) as int),
{
    let h = model.histograms@;
    let base = channel * 65536;
    let plane = h.subrange(base, base + 65536);
    lemma_peak_is_largest(plane, 65536);
    let m = peak(plane, 65536) as int;
    let i = choose|i: int| base <= i < base + 65536 && #[trigger] h[i] == top;
    let k = choose|k: int| 0 <= k < 65536 && #[trigger] plane[k] == m;
    assert(plane[i - base] <= m && h[base + k] <= top);
    assert(m == top);
    let own = h[base + reference * 256 + sample] as int;
    assert(own <= top);
    lemma_maxima();
    vstd::arithmetic::power2::lemma2_to64();
    vstd::arithmetic::power2::lemma_pow2_pos(t);
    if t < 16 {
        vstd::arithmetic::power2::lemma_pow2_strictly_increases(t, 16);
    }
    let p = pow2(t) as int;
    assert(0 <= q <= p) by (nonlinear_arith)
        requires
            q * top == own * p,
            0 <= own <= top,
            0 < top,
            0 < p,
    ;
    exact_from(fpu, own);
    exact_from(fpu, top);
    let (a, b) = (fpu.from_u64(own as u64), fpu.from_u64(top as u64));
    lemma_finer(a, own, 0, t);
    exact_div(fpu, a, b, q, top, 0, t);
    let ratio = fpu.div(a, b);
    exact_mul(fpu, ratio, BYTE_MAX, q, 255, t, 0);
    exact_cut(fpu, fpu.mul(ratio, BYTE_MAX), q * 255, t);
    assert(0 <= q * 255 / p <= 255) by (nonlinear_arith)
        requires
            0 <= q <= p,
            0 < p,
    ;
}

} // verus!
