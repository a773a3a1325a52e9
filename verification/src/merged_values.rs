//! What merging frames sample by sample makes of their values.

use crate::basic_merge::{column, is_merge, is_trimmed_mean, MergeError, MergeMethod};
use crate::cfa_fusion::median_value;
use crate::exact::{
    exact_add, exact_div, exact_from, exact_mul, exact_narrow, exact_wide_add, exact_wide_div, exact_widen,
    is_exact, lemma_compare, lemma_constants, lemma_finer, stands_for, wide_fits, wide_stands_for,
};
use crate::float::{FloatOp, FloatUnit, HALF, TWO};
use crate::frame::RgbaFrame;
use crate::order::{
    by_place, place_follows_lt, ranked, ranked_is_sorted, ranking_ignores_order, wide_sum,
};
use vstd::prelude::*;

verus! {

/// Whether patterns stand for the numbers given, in parts of which `2^k` make one.
pub open spec fn stand_for(s: Seq<u32>, values: Seq<int>, k: nat, limit: int) -> bool {
    &&& s.len() == values.len()
    &&& forall|i: int|
        0 <= i < s.len() ==> stands_for(#[trigger] s[i], values[i], k) && -limit <= values[i] <= limit
}

/// The sum of the first `n` numbers from number `from` on.
pub open spec fn sum_of(values: Seq<int>, from: int, n: nat) -> int
    decreases n,
{
    if n == 0 {
        0
    } else {
        sum_of(values, from, (n - 1) as nat) + values[from + n - 1]
    }
}

proof fn lemma_sum<F: Fn(FloatOp) -> u64>(
    fpu: &FloatUnit<F>,
    s: Seq<u32>,
    values: Seq<int>,
    from: int,
    k: nat,
    limit: int,
)
    requires
        is_exact(fpu),
        0 <= from,
        from + s.len() <= values.len(),
        forall|i: int|
            0 <= i < s.len() ==> stands_for(#[trigger] s[i], values[from + i], k) && -limit
                <= values[from + i] <= limit,
        0 <= limit,
        wide_fits(limit * s.len()),
        k <= 149,
    ensures
        wide_stands_for(wide_sum(fpu, s), sum_of(values, from, s.len()), k),
        -(limit * s.len()) <= sum_of(values, from, s.len()) <= limit * s.len(),
    decreases s.len(),
{
    lemma_constants();
    let n = s.len() as int;
    if n == 0 {
        assert(limit * 0 == 0);
    } else {
        let d = s.drop_last();
        assert forall|i: int| 0 <= i < d.len() implies stands_for(
            #[trigger] d[i],
            values[from + i],
            k,
        ) && -limit <= values[from + i] <= limit by {
            assert(d[i] == s[i]);
        }
        assert(limit * (n - 1) + limit == limit * n && 0 <= limit * (n - 1)) by (nonlinear_arith)
            requires
                0 <= limit,
                1 <= n,
        ;
        lemma_sum(fpu, d, values, from, k, limit);
        assert(s.last() == s[n - 1]);
        let v = values[from + n - 1];
        exact_widen(fpu, s.last(), v, k);
        exact_wide_add(
            fpu,
            wide_sum(fpu, d),
            fpu.widen(s.last()),
            sum_of(values, from, (n - 1) as nat),
            v,
            k,
        );
    }
}

proof fn lemma_mean<F: Fn(FloatOp) -> u64>(
    fpu: &FloatUnit<F>,
    sum: u64,
    count: u64,
    mean: int,
    n: int,
    k: nat,
    limit: int,
)
    requires
        is_exact(fpu),
        wide_stands_for(sum, mean * n, k),
        wide_stands_for(count, n, 0),
        1 <= n,
        -(limit * n) <= mean * n <= limit * n,
        0 <= limit <= 0x100_0000,
        k <= 149,
    ensures
        stands_for(fpu.narrow(fpu.wide_div(sum, count)), mean, k),
{
    assert(-limit <= mean <= limit) by (nonlinear_arith)
        requires
            -(limit * n) <= mean * n <= limit * n,
            1 <= n,
    ;
    exact_wide_div(fpu, sum, count, mean, n, 0, k);
    exact_narrow(fpu, fpu.wide_div(sum, count), mean, k);
}

/// Merged by average, each sample is the sum of the samples of all frames, divided by their number.
/// The mean has to be a whole number of parts.
pub proof fn averages_are_means<F: Fn(FloatOp) -> u64>(
    fpu: &FloatUnit<F>,
    frames: Seq<RgbaFrame>,
    out: RgbaFrame,
    i: int,
    values: Seq<int>,
    k: nat,
    limit: int,
    mean: int,
)
    requires
        is_exact(fpu),
        is_merge(fpu, frames, MergeMethod::Average, Ok::<RgbaFrame, MergeError>(out)),
        2 <= frames.len() <= 0x100_0000,
        0 <= i < out.samples@.len(),
        values.len() == frames.len(),
        forall|f: int|
            0 <= f < frames.len() ==> stands_for((#[trigger] frames[f]).samples@[i], values[f], k)
                && -limit <= values[f] <= limit,
        0 <= limit <= 0x100_0000,
        k <= 149,
        sum_of(values, 0, frames.len()) == mean * frames.len(),
    ensures
        stands_for(out.samples@[i], mean, k),
{
    let s = column(frames, i);
    let n = s.len() as int;
    assert forall|f: int| 0 <= f < s.len() implies stands_for(#[trigger] s[f], values[0 + f], k)
        && -limit <= values[0 + f] <= limit by {
        assert(s[f] == frames[f].samples@[i]);
    }
    assert(0 <= limit * n <= 0x100_0000 * 0x100_0000) by (nonlinear_arith)
        requires
            0 <= limit <= 0x100_0000,
            0 <= n <= 0x100_0000,
    ;
    lemma_sum(fpu, s, values, 0, k, limit);
    exact_from(fpu, n);
    exact_widen(fpu, fpu.from_u64(n as u64), n, 0);
    lemma_mean(
        fpu,
        wide_sum(fpu, s),
        fpu.widen(fpu.from_u64(n as u64)),
        mean,
        n,
        k,
        limit,
    );
}

/// Whether numbers ascend.
pub open spec fn ascend(values: Seq<int>) -> bool {
    forall|i: int, j: int| 0 <= i < j < values.len() ==> #[trigger] values[i] < #[trigger] values[j]
}

proof fn lemma_ranked(s: Seq<u32>, sorted: Seq<u32>, values: Seq<int>, k: nat, limit: int)
    requires
        s.to_multiset() == sorted.to_multiset(),
        stand_for(sorted, values, k, limit),
        ascend(values),
    ensures
        ranked(s) == sorted,
        s.len() == sorted.len(),
{
    broadcast use vstd::seq_lib::group_to_multiset_ensures;

    assert(s.len() == s.to_multiset().len());
    ranking_ignores_order(s, sorted);
    ranked_is_sorted(sorted);
    let leq = by_place();
    assert forall|x: u32, y: u32| #[trigger] leq(x, y) && #[trigger] leq(y, x) implies x == y by {
        place_follows_lt(x, y);
    }
    assert(vstd::relations::total_ordering(leq));
    assert forall|i: int, j: int| 0 <= i < j < sorted.len() implies #[trigger] leq(
        sorted[i],
        sorted[j],
    ) by {
        lemma_compare(sorted[i], sorted[j], values[i], values[j], k);
        place_follows_lt(sorted[i], sorted[j]);
    }
    assert(vstd::relations::sorted_by(ranked(sorted), leq));
    assert(vstd::relations::sorted_by(sorted, leq));
    vstd::seq_lib::lemma_sorted_unique(ranked(sorted), sorted, leq);
}

/// Merged by median, each sample is the middle one of the samples of all frames, or the mean of the two
/// in the middle, in whatever order the frames come.
pub proof fn medians_lie_in_the_middle<F: Fn(FloatOp) -> u64>(
    fpu: &FloatUnit<F>,
    frames: Seq<RgbaFrame>,
    method: MergeMethod,
    out: RgbaFrame,
    i: int,
    sorted: Seq<u32>,
    values: Seq<int>,
    k: nat,
)
    requires
        is_exact(fpu),
        method != MergeMethod::Average,
        is_merge(fpu, frames, method, Ok::<RgbaFrame, MergeError>(out)),
        2 <= frames.len(),
        0 <= i < out.samples@.len(),
        sorted.to_multiset() == Seq::new(frames.len(), |f: int| frames[f].samples@[i]).to_multiset(),
        stand_for(sorted, values, k, 0x80_0000),
        ascend(values),
        k <= 148,
    ensures
        values.len() % 2 == 1 ==> stands_for(out.samples@[i], values[values.len() as int / 2], k),
        values.len() % 2 == 0 ==> stands_for(
            out.samples@[i],
            values[values.len() as int / 2 - 1] + values[values.len() as int / 2],
            k + 1,
        ),
{
    let s = column(frames, i);
    lemma_ranked(s, sorted, values, k, 0x80_0000);
    let n = s.len() as int;
    lemma_constants();
    let h = n / 2;
    if n % 2 == 1 {
        assert(stands_for(sorted[h], values[h], k));
    } else {
        let (a, b) = (values[h - 1], values[h]);
        assert(stands_for(sorted[h - 1], a, k) && stands_for(sorted[h], b, k));
        exact_add(fpu, sorted[h - 1], sorted[h], a, b, k);
        let sum = fpu.add(sorted[h - 1], sorted[h]);
        vstd::arithmetic::power2::lemma2_to64();
        lemma_finer(sum, a + b, k, 1);
        exact_div(fpu, sum, TWO, a + b, 2, 0, k + 1);
    }
}

/// The median of some values is the middle one, or the mean of the two in the middle, in whatever order
/// they come; of none it is nothing.
pub proof fn medians_of_values_lie_in_the_middle<F: Fn(FloatOp) -> u64>(
    fpu: &FloatUnit<F>,
    s: Seq<u32>,
    sorted: Seq<u32>,
    values: Seq<int>,
    k: nat,
)
    requires
        is_exact(fpu),
        sorted.to_multiset() == s.to_multiset(),
        stand_for(sorted, values, k, 0x80_0000),
        ascend(values),
        k <= 148,
    ensures
        values.len() == 0 ==> stands_for(median_value(fpu, s), 0, 0),
        values.len() % 2 == 1 ==> stands_for(
            median_value(fpu, s),
            values[values.len() as int / 2],
            k,
        ),
        values.len() > 0 && values.len() % 2 == 0 ==> stands_for(
            median_value(fpu, s),
            values[values.len() as int / 2 - 1] + values[values.len() as int / 2],
            k + 1,
        ),
{
    lemma_ranked(s, sorted, values, k, 0x80_0000);
    let n = s.len() as int;
    lemma_constants();
    let h = n / 2;
    if n % 2 == 1 {
        assert(stands_for(sorted[h], values[h], k));
    } else if n > 0 {
        let (a, b) = (values[h - 1], values[h]);
        assert(stands_for(sorted[h - 1], a, k) && stands_for(sorted[h], b, k));
        exact_add(fpu, sorted[h - 1], sorted[h], a, b, k);
        exact_mul(fpu, fpu.add(sorted[h - 1], sorted[h]), HALF, a + b, 1, k, 1);
    }
}

/// Merged by trimmed mean, each sample is the mean of the samples of all frames without as many of the
/// smallest and of the largest as asked for, in whatever order the frames come.
pub proof fn trimmed_means_leave_out_extremes<F: Fn(FloatOp) -> u64>(
    fpu: &FloatUnit<F>,
    frames: Seq<RgbaFrame>,
    width: u32,
    height: u32,
    trim: int,
    out: RgbaFrame,
    i: int,
    sorted: Seq<u32>,
    values: Seq<int>,
    k: nat,
    mean: int,
)
    requires
        is_exact(fpu),
        is_trimmed_mean(fpu, frames, width, height, trim, out),
        0 <= trim,
        2 * trim + 1 < frames.len() <= 0x100_0000,
        0 <= i < out.samples@.len(),
        sorted.to_multiset() == Seq::new(frames.len(), |f: int| frames[f].samples@[i]).to_multiset(),
        stand_for(sorted, values, k, 0x80_0000),
        ascend(values),
        k <= 149,
        sum_of(values, trim, (frames.len() - 2 * trim) as nat) == mean * (frames.len() - 2 * trim),
    ensures
        stands_for(out.samples@[i], mean, k),
{
    let s = column(frames, i);
    lemma_ranked(s, sorted, values, k, 0x80_0000);
    let n = s.len() as int;
    let kept = sorted.subrange(trim, n - trim);
    let m = n - 2 * trim;
    assert(kept.len() == m);
    assert forall|j: int| 0 <= j < kept.len() implies stands_for(
        #[trigger] kept[j],
        values[trim + j],
        k,
    ) && -0x80_0000 <= values[trim + j] <= 0x80_0000 by {
        assert(kept[j] == sorted[trim + j]);
    }
    lemma_sum(fpu, kept, values, trim, k, 0x80_0000);
    exact_from(fpu, m);
    lemma_mean(
        fpu,
        wide_sum(fpu, kept),
        fpu.wide_from_u64(m as u64),
        mean,
        m,
        k,
        0x80_0000,
    );
}

} // verus!
