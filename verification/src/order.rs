//! Arranging sequences, and order statistics of single-precision values.

use crate::float::{self, FloatOp, FloatUnit, TWO, WIDE_ZERO, ZERO};
use vstd::prelude::*;

verus! {

/// `s` with `a` put behind the last item that does not come after it.
pub open spec fn put_in<A>(s: Seq<A>, a: A, leq: spec_fn(A, A) -> bool) -> Seq<A>
    decreases s.len(),
{
    if s.len() == 0 || leq(s.last(), a) {
        s.push(a)
    } else {
        put_in(s.drop_last(), a, leq).push(s.last())
    }
}

/// The items of `s` in ascending order, equal ones in the order in which `s` holds them.
pub open spec fn arranged<A>(s: Seq<A>, leq: spec_fn(A, A) -> bool) -> Seq<A>
    decreases s.len(),
{
    if s.len() == 0 {
        s
    } else {
        put_in(arranged(s.drop_last(), leq), s.last(), leq)
    }
}

/// Whether no item of `s` comes before an earlier one.
pub open spec fn ascending<A>(s: Seq<A>, leq: spec_fn(A, A) -> bool) -> bool {
    forall|i: int, j: int| 0 <= i <= j < s.len() ==> #[trigger] leq(s[i], s[j])
}

/// Whether `leq` compares any two items, and agrees along chains.
pub open spec fn compares_all<A>(leq: spec_fn(A, A) -> bool) -> bool {
    &&& forall|a: A, b: A| #[trigger] leq(a, b) || leq(b, a)
    &&& forall|a: A, b: A, c: A| #[trigger] leq(a, b) && #[trigger] leq(b, c) ==> leq(a, c)
}

/// Where `put_in` puts an item: behind the first `j` items if none of the others may stand
/// before it.
pub proof fn lemma_put_in_at<A>(s: Seq<A>, a: A, leq: spec_fn(A, A) -> bool, j: int)
    requires
        0 <= j <= s.len(),
        forall|k: int| j <= k < s.len() ==> !#[trigger] leq(s[k], a),
        j == 0 || leq(s[j - 1], a),
    ensures
        put_in(s, a, leq) == s.take(j).push(a) + s.skip(j),
    decreases s.len(),
{
    if j == s.len() {
        assert(s.take(j) =~= s);
        assert(put_in(s, a, leq) =~= s.take(j).push(a) + s.skip(j));
    } else {
        let d = s.drop_last();
        lemma_put_in_at(d, a, leq, j);
        assert(d.take(j) =~= s.take(j));
        assert(!leq(s[s.len() - 1], a));
        assert((d.take(j).push(a) + d.skip(j)).push(s.last()) =~= s.take(j).push(a) + s.skip(j));
    }
}

proof fn lemma_put_in<A>(s: Seq<A>, a: A, leq: spec_fn(A, A) -> bool)
    requires
        compares_all(leq),
        ascending(s, leq),
    ensures
        ascending(put_in(s, a, leq), leq),
        put_in(s, a, leq).to_multiset() == s.to_multiset().insert(a),
        put_in(s, a, leq).len() == s.len() + 1,
    decreases s.len(),
{
    broadcast use vstd::seq_lib::group_to_multiset_ensures;

    let r = put_in(s, a, leq);
    if s.len() == 0 || leq(s.last(), a) {
        assert forall|i: int, j: int| 0 <= i <= j < r.len() implies #[trigger] leq(r[i], r[j]) by {
            if j == s.len() {
                if i < j {
                    assert(leq(s[i], s[s.len() - 1]));
                } else {
                    assert(leq(a, a));
                }
            } else {
                assert(leq(s[i], s[j]));
            }
        }
    } else {
        let d = s.drop_last();
        assert forall|i: int, j: int| 0 <= i <= j < d.len() implies #[trigger] leq(d[i], d[j]) by {
            assert(leq(s[i], s[j]));
        }
        lemma_put_in(d, a, leq);
        let q = put_in(d, a, leq);
        assert forall|i: int, j: int| 0 <= i <= j < r.len() implies #[trigger] leq(r[i], r[j]) by {
            if j == q.len() {
                if i < j {
                    assert(q.to_multiset().count(q[i]) > 0) by {
                        assert(q.contains(q[i]));
                    }
                    assert(d.to_multiset().count(q[i]) > 0 || q[i] == a);
                    if q[i] == a {
                        assert(leq(a, s.last()));
                    } else {
                        assert(d.contains(q[i]));
                        let k = choose|k: int| 0 <= k < d.len() && d[k] == q[i];
                        assert(leq(s[k], s[s.len() - 1]));
                    }
                } else {
                    assert(leq(s.last(), s.last()));
                }
            } else {
                assert(leq(q[i], q[j]));
            }
        }
        assert(d.push(s.last()) =~= s);
        assert(s.to_multiset() == d.to_multiset().insert(s.last()));
        assert(r.to_multiset() =~= s.to_multiset().insert(a));
    }
}

/// Arranging a sequence gives its own items, each as often as it occurs, in ascending order.
pub proof fn arranged_is_ascending<A>(s: Seq<A>, leq: spec_fn(A, A) -> bool)
    requires
        compares_all(leq),
    ensures
        ascending(arranged(s, leq), leq),
        arranged(s, leq).to_multiset() == s.to_multiset(),
        arranged(s, leq).len() == s.len(),
    decreases s.len(),
{
    broadcast use vstd::seq_lib::group_to_multiset_ensures;

    if s.len() > 0 {
        arranged_is_ascending(s.drop_last(), leq);
        lemma_put_in(arranged(s.drop_last(), leq), s.last(), leq);
        assert(s.drop_last().push(s.last()) =~= s);
    }
}

proof fn lemma_put_in_items<A>(s: Seq<A>, a: A, leq: spec_fn(A, A) -> bool)
    ensures
        put_in(s, a, leq).len() == s.len() + 1,
        forall|i: int|
            0 <= i <= s.len() ==> #[trigger] put_in(s, a, leq)[i] == a || s.contains(
                put_in(s, a, leq)[i],
            ),
    decreases s.len(),
{
    let r = put_in(s, a, leq);
    if s.len() == 0 || leq(s.last(), a) {
        assert forall|i: int| 0 <= i <= s.len() implies #[trigger] r[i] == a || s.contains(r[i]) by {
            if i < s.len() {
                assert(r[i] == s[i]);
            }
        }
    } else {
        let d = s.drop_last();
        lemma_put_in_items(d, a, leq);
        assert forall|i: int| 0 <= i <= s.len() implies #[trigger] r[i] == a || s.contains(r[i]) by {
            if i < s.len() {
                assert(r[i] == put_in(d, a, leq)[i]);
                if r[i] != a {
                    let k = choose|k: int| 0 <= k < d.len() && d[k] == r[i];
                    assert(s[k] == r[i]);
                }
            } else {
                assert(r[i] == s[s.len() - 1]);
            }
        }
    }
}

/// Arranging keeps the number of items and brings in no others.
pub proof fn arranged_keeps_items<A>(s: Seq<A>, leq: spec_fn(A, A) -> bool)
    ensures
        arranged(s, leq).len() == s.len(),
        forall|i: int| 0 <= i < s.len() ==> s.contains(#[trigger] arranged(s, leq)[i]),
    decreases s.len(),
{
    if s.len() > 0 {
        let d = s.drop_last();
        arranged_keeps_items(d, leq);
        lemma_put_in_items(arranged(d, leq), s.last(), leq);
        assert forall|i: int| 0 <= i < s.len() implies s.contains(#[trigger] arranged(s, leq)[i]) by {
            let x = arranged(s, leq)[i];
            if x == s.last() {
                assert(s[s.len() - 1] == x);
            } else {
                let k = choose|k: int| 0 <= k < d.len() && arranged(d, leq)[k] == x;
                assert(d.contains(arranged(d, leq)[k]));
                let j = choose|j: int| 0 <= j < d.len() && d[j] == x;
                assert(s[j] == x);
            }
        }
    }
}


/// The place of a single-precision pattern in the order of all patterns: by number, the negative
/// zero before the positive one, patterns that are no numbers at the ends.
pub open spec fn place(a: u32) -> int {
    if a < 0x8000_0000 {
        a as int
    } else {
        0x7fff_ffff - a
    }
}

/// Whether `a` may stand before `b` in the order of all patterns.
pub open spec fn not_after(a: u32, b: u32) -> bool {
    place(a) <= place(b)
}

/// The order of all patterns as a function value.
pub open spec fn by_place() -> spec_fn(u32, u32) -> bool {
    |a: u32, b: u32| not_after(a, b)
}

/// The values of `s` in ascending order.
pub open spec fn ranked(s: Seq<u32>) -> Seq<u32> {
    arranged(s, by_place())
}

/// The order of all patterns agrees with the comparison of numbers.
pub proof fn place_follows_lt(a: u32, b: u32)
    ensures
        float::lt(a, b) ==> place(a) < place(b),
        place(a) == place(b) <==> a == b,
{
}

/// Ranking is sorting: the ranked values are the given ones, each as often as it occurs, and none
/// is smaller than one before it.
pub proof fn ranked_is_sorted(s: Seq<u32>)
    ensures
        ranked(s).len() == s.len(),
        ranked(s).to_multiset() == s.to_multiset(),
        forall|i: int, j: int| 0 <= i <= j < s.len() ==> place(#[trigger] ranked(s)[i]) <= place(#[trigger] ranked(s)[j]),
        forall|i: int, j: int| 0 <= i <= j < s.len() ==> !float::lt(#[trigger] ranked(s)[j], #[trigger] ranked(s)[i]),
{
    arranged_is_ascending(s, by_place());
    assert forall|i: int, j: int| 0 <= i <= j < s.len() implies place(#[trigger] ranked(s)[i]) <= place(#[trigger] ranked(s)[j]) by {
        assert(by_place()(ranked(s)[i], ranked(s)[j]));
    }
}

/// Ranking does not depend on the order in which values are given.
pub proof fn ranking_ignores_order(a: Seq<u32>, b: Seq<u32>)
    requires
        a.to_multiset() == b.to_multiset(),
    ensures
        ranked(a) == ranked(b),
{
    ranked_is_sorted(a);
    ranked_is_sorted(b);
    let leq = by_place();
    assert forall|x: u32, y: u32| #[trigger] leq(x, y) && #[trigger] leq(y, x) implies x == y by {
        place_follows_lt(x, y);
    }
    assert(vstd::relations::total_ordering(leq));
    assert(vstd::relations::sorted_by(ranked(a), leq));
    assert(vstd::relations::sorted_by(ranked(b), leq));
    vstd::seq_lib::lemma_sorted_unique(ranked(a), ranked(b), leq);
}

/// Whether the pattern `a` may stand before the pattern `b`.
fn stands_before(a: u32, b: u32) -> (r: bool)
    ensures
        r == not_after(a, b),
{
    if a < 0x8000_0000 {
        b < 0x8000_0000 && a <= b
    } else {
        b < 0x8000_0000 || b <= a
    }
}

/// Sort values in place.
pub fn sort_samples(values: &mut Vec<u32>)
    ensures
        final(values)@ == ranked(old(values)@),
{
    let n = values.len();
    let ghost s = values@;
    assert(s.take(0) =~= Seq::<u32>::empty());
    let mut i: usize = 0;
    while i < n
        invariant
            i <= n,
            n == s.len(),
            values@.len() == n,
            values@.take(i as int) == ranked(s.take(i as int)),
            values@.skip(i as int) == s.skip(i as int),
        decreases n - i,
    {
        let ghost r = values@.take(i as int);
        let a = values[i];
        assert(a == s[i as int]) by {
            assert(values@.skip(i as int)[0] == s.skip(i as int)[0]);
        }
        let ghost rest = values@.skip(i + 1);
        assert(rest =~= s.skip(i + 1)) by {
            assert(rest =~= values@.skip(i as int).skip(1));
            assert(s.skip(i + 1) =~= s.skip(i as int).skip(1));
        }
        let mut j: usize = i;
        while j > 0 && !stands_before(values[j - 1], a)
            invariant
                j <= i < n,
                n == values@.len(),
                r.len() == i,
                values@.take(j as int) == r.take(j as int),
                forall|k: int| j <= k < i ==> #[trigger] values@[k + 1] == r[k],
                forall|k: int| j <= k < i ==> !#[trigger] by_place()(r[k], a),
                values@.skip(i + 1) == rest,
            decreases j,
        {
            let ghost before = values@;
            let b = values[j - 1];
            assert(b == r[j - 1]) by {
                assert(before.take(j as int)[j - 1] == r.take(j as int)[j - 1]);
            }
            values[j] = b;
            j = j - 1;
            assert(values@.take(j as int) =~= r.take(j as int)) by {
                assert forall|k: int| 0 <= k < j implies values@[k] == r[k] by {
                    assert(before.take(j + 1)[k] == r.take(j + 1)[k]);
                }
            }
            assert(values@.skip(i + 1) =~= rest) by {
                assert forall|k: int| 0 <= k < rest.len() implies values@[i + 1 + k] == rest[k] by {
                    assert(before.skip(i + 1)[k] == rest[k]);
                }
            }
            assert forall|k: int| j <= k < i implies #[trigger] values@[k + 1] == r[k] by {
                if k > j {
                    assert(before[k + 1] == r[k]);
                }
            }
        }
        let ghost before = values@;
        values[j] = a;
        proof {
            if j > 0 {
                assert(by_place()(r[j - 1], a)) by {
                    assert(before.take(j as int)[j - 1] == r.take(j as int)[j - 1]);
                }
            }
            lemma_put_in_at(r, a, by_place(), j as int);
            assert(values@.take(i + 1) =~= r.take(j as int).push(a) + r.skip(j as int)) by {
                assert forall|k: int| 0 <= k < i + 1 implies values@[k] == (r.take(j as int).push(a) + r.skip(j as int))[k] by {
                    if k < j {
                        assert(before.take(j as int)[k] == r.take(j as int)[k]);
                    } else if k > j {
                        assert(before[(k - 1) + 1] == r[k - 1]);
                    }
                }
            }
            assert(s.take(i + 1).drop_last() =~= s.take(i as int));
            assert(values@.skip(i + 1) =~= rest) by {
                assert forall|k: int| 0 <= k < rest.len() implies values@[i + 1 + k] == rest[k] by {
                    assert(before.skip(i + 1)[k] == rest[k]);
                }
            }
        }
        i = i + 1;
    }
    assert(values@.take(n as int) =~= values@);
    assert(s.take(n as int) =~= s);
}

/// The median of `s`: its middle value in ascending order, half the sum of the two middle ones
/// where their number is even, and zero where there is none.
pub open spec fn median_of<F: Fn(FloatOp) -> u64>(fpu: &FloatUnit<F>, s: Seq<u32>) -> u32 {
    let r = ranked(s);
    let n = s.len() as int;
    if n == 0 {
        ZERO
    } else if n % 2 == 1 {
        r[n / 2]
    } else {
        fpu.div(fpu.add(r[n / 2 - 1], r[n / 2]), TWO)
    }
}

/// The median of the values, which are left in ascending order.
pub fn median_f32<F: Fn(FloatOp) -> u64>(fpu: &FloatUnit<F>, values: &mut Vec<u32>) -> (r: u32)
    ensures
        r == median_of(fpu, old(values)@),
        final(values)@ == ranked(old(values)@),
{
    proof {
        ranked_is_sorted(values@);
    }
    sort_samples(values);
    let len = values.len();
    if len == 0 {
        return ZERO;
    }
    if len % 2 == 0 {
        fpu.div(fpu.add(values[len / 2 - 1], values[len / 2]), TWO)
    } else {
        values[len / 2]
    }
}

/// The sum of `s` in double precision, from the first value to the last.
pub open spec fn wide_sum<F: Fn(FloatOp) -> u64>(fpu: &FloatUnit<F>, s: Seq<u32>) -> u64
    decreases s.len(),
{
    if s.len() == 0 {
        WIDE_ZERO
    } else {
        fpu.wide_add(wide_sum(fpu, s.drop_last()), fpu.widen(s.last()))
    }
}

/// The mean of `s` without its `trim` smallest and `trim` largest values; its median where that
/// would leave at most one value.
pub open spec fn trimmed_mean_of<F: Fn(FloatOp) -> u64>(
    fpu: &FloatUnit<F>,
    s: Seq<u32>,
    trim: int,
) -> u32 {
    let n = s.len() as int;
    if trim >= n / 2 {
        median_of(fpu, s)
    } else {
        fpu.narrow(
            fpu.wide_div(
                wide_sum(fpu, ranked(s).subrange(trim, n - trim)),
                fpu.wide_from_u64((n - 2 * trim) as u64),
            ),
        )
    }
}

/// The trimmed mean of the values, which are left in ascending order.
pub fn trimmed_mean<F: Fn(FloatOp) -> u64>(
    fpu: &FloatUnit<F>,
    values: &mut Vec<u32>,
    trim: usize,
) -> (r: u32)
    ensures
        r == trimmed_mean_of(fpu, old(values)@, trim as int),
        final(values)@ == ranked(old(values)@),
{
    let len = values.len();
    if trim >= len / 2 {
        return median_f32(fpu, values);
    }
    proof {
        ranked_is_sorted(values@);
    }
    let ghost s = values@;
    sort_samples(values);
    let ghost r = values@;
    let mut sum: u64 = WIDE_ZERO;
    let mut i: usize = trim;
    let end = len - trim;
    assert(r.subrange(trim as int, trim as int) =~= Seq::<u32>::empty());
    while i < end
        invariant
            trim <= i <= end,
            end == len - trim,
            len == values@.len(),
            r == values@,
            sum == wide_sum(fpu, r.subrange(trim as int, i as int)),
        decreases end - i,
    {
        sum = fpu.wide_add(sum, fpu.widen(values[i]));
        assert(r.subrange(trim as int, i + 1).drop_last() =~= r.subrange(trim as int, i as int));
        i = i + 1;
    }
    fpu.narrow(fpu.wide_div(sum, fpu.wide_from_u64((len - 2 * trim) as u64)))
}

/// The median of equal values is that value, where their number is odd or the mean of the value
/// with itself is the value.
pub proof fn median_of_equal_values<F: Fn(FloatOp) -> u64>(
    fpu: &FloatUnit<F>,
    s: Seq<u32>,
    v: u32,
)
    requires
        s.len() > 0,
        forall|i: int| 0 <= i < s.len() ==> s[i] == v,
        s.len() % 2 == 1 || fpu.div(fpu.add(v, v), TWO) == v,
    ensures
        median_of(fpu, s) == v,
        ranked(s) == s,
{
    broadcast use vstd::seq_lib::group_to_multiset_ensures;

    ranked_is_sorted(s);
    let r = ranked(s);
    assert forall|i: int| 0 <= i < r.len() implies r[i] == v by {
        assert(r.contains(r[i]));
        assert(s.to_multiset().count(r[i]) > 0);
        assert(s.contains(r[i]));
    }
    assert(r =~= s);
}

/// The median does not depend on the order in which values are given.
pub proof fn median_ignores_order<F: Fn(FloatOp) -> u64>(
    fpu: &FloatUnit<F>,
    a: Seq<u32>,
    b: Seq<u32>,
)
    requires
        a.to_multiset() == b.to_multiset(),
    ensures
        median_of(fpu, a) == median_of(fpu, b),
{
    broadcast use vstd::seq_lib::group_to_multiset_ensures;

    ranking_ignores_order(a, b);
    assert(a.len() == a.to_multiset().len());
}

/// The median of an odd number of values is one of them.
pub proof fn median_is_a_value<F: Fn(FloatOp) -> u64>(fpu: &FloatUnit<F>, s: Seq<u32>)
    requires
        s.len() % 2 == 1,
    ensures
        s.contains(median_of(fpu, s)),
{
    broadcast use vstd::seq_lib::group_to_multiset_ensures;

    ranked_is_sorted(s);
    let r = ranked(s);
    let m = s.len() as int / 2;
    assert(r.contains(r[m]));
    assert(r.to_multiset().count(r[m]) > 0);
}

proof fn lemma_count_in_range(s: Seq<u32>, v: u32, low: int, high: int)
    requires
        0 <= low <= high <= s.len(),
        forall|i: int| 0 <= i < s.len() && s[i] == v ==> low <= i < high,
    ensures
        s.to_multiset().count(v) <= high - low,
    decreases s.len(),
{
    broadcast use vstd::seq_lib::group_to_multiset_ensures;

    if s.len() > 0 {
        let d = s.drop_last();
        assert(d.push(s.last()) =~= s);
        if high == s.len() {
            if low == high {
                assert(s.last() != v) by {
                    assert(s[s.len() - 1] == s.last());
                }
                assert forall|i: int| 0 <= i < d.len() && d[i] == v implies low - 1 <= i < high - 1 by {
                    assert(s[i] == v);
                }
                lemma_count_in_range(d, v, low - 1, high - 1);
            } else {
                assert forall|i: int| 0 <= i < d.len() && d[i] == v implies low <= i < high - 1 by {
                    assert(s[i] == v);
                }
                lemma_count_in_range(d, v, low, high - 1);
            }
        } else {
            assert(s.last() != v) by {
                assert(s[s.len() - 1] == s.last());
            }
            assert forall|i: int| 0 <= i < d.len() && d[i] == v implies low <= i < high by {
                assert(s[i] == v);
            }
            lemma_count_in_range(d, v, low, high);
        }
    }
}

/// A value that more than half of an odd number of values equal is their median.
pub proof fn majority_is_median<F: Fn(FloatOp) -> u64>(fpu: &FloatUnit<F>, s: Seq<u32>, v: u32)
    requires
        s.len() % 2 == 1,
        2 * s.to_multiset().count(v) > s.len(),
    ensures
        median_of(fpu, s) == v,
{
    ranked_is_sorted(s);
    let r = ranked(s);
    let n = s.len() as int;
    let m = n / 2;
    if r[m] != v {
        if place(r[m]) < place(v) {
            assert forall|i: int| 0 <= i < r.len() && r[i] == v implies m + 1 <= i < n by {
                if i <= m {
                    assert(place(ranked(s)[i]) <= place(ranked(s)[m]));
                }
            }
            lemma_count_in_range(r, v, m + 1, n);
        } else {
            place_follows_lt(r[m], v);
            assert forall|i: int| 0 <= i < r.len() && r[i] == v implies 0 <= i < m by {
                if i >= m {
                    assert(place(ranked(s)[m]) <= place(ranked(s)[i]));
                }
            }
            lemma_count_in_range(r, v, 0, m);
        }
    }
}

} // verus!
