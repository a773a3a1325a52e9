//! Merging frames sample by sample: mean, median and trimmed mean.

use crate::float::{self, FloatOp, FloatUnit, WIDE_ZERO};
use crate::frame::RgbaFrame;
use crate::order::{self, median_f32, trimmed_mean, wide_sum};
use vstd::prelude::*;

verus! {

/// The ways to merge a burst.
#[derive(Debug, Clone, Copy, PartialEq, Eq, Structural)]
pub enum MergeMethod {
    /// The mean of all frames, channel by channel.
    Average,
    /// The median over all frames, which passes over outliers.
    Median,
    /// Steering kernel regression, which follows the structure of the image.
    SKR,
}

/// Why frames could not be merged.
#[derive(Debug, Clone, Copy, PartialEq, Eq, Structural)]
pub enum MergeError {
    /// There was no frame.
    NoFrames,
}

impl MergeError {
    /// What went wrong, in words.
    pub fn message(&self) -> (r: String)
        ensures
            r@ == "No frames provided for merging"@,
    {
        "No frames provided for merging".to_owned()
    }
}

/// The values that the frames hold at index `i` of their buffers, frame after frame.
pub open spec fn column(frames: Seq<RgbaFrame>, i: int) -> Seq<u32> {
    Seq::new(frames.len(), |f: int| frames[f].samples@[i])
}

/// The mean of the values of all frames.
pub open spec fn mean_of<F: Fn(FloatOp) -> u64>(fpu: &FloatUnit<F>, s: Seq<u32>) -> u32 {
    fpu.narrow(fpu.wide_div(wide_sum(fpu, s), fpu.widen(fpu.from_u64(s.len() as u64))))
}

/// Whether each frame has a sample for each channel of `width` by `height` pixels, and the
/// pixels can be counted.
pub open spec fn cover(frames: Seq<RgbaFrame>, width: u32, height: u32) -> bool {
    &&& width * height <= u32::MAX
    &&& width * height * 4 <= usize::MAX
    &&& forall|f: int| 0 <= f < frames.len() ==> #[trigger] frames[f].samples@.len() >= width * height * 4
}

/// Whether `r` is the frame of `width` by `height` pixels that holds the means of the frames.
pub open spec fn is_average<F: Fn(FloatOp) -> u64>(
    fpu: &FloatUnit<F>,
    frames: Seq<RgbaFrame>,
    width: u32,
    height: u32,
    r: RgbaFrame,
) -> bool {
    &&& r.width == width
    &&& r.height == height
    &&& r.wf()
    &&& forall|i: int| 0 <= i < r.samples@.len() ==> #[trigger] r.samples@[i] == mean_of(fpu, column(frames, i))
}

/// Whether `r` is the frame of `width` by `height` pixels that holds the medians of the frames.
pub open spec fn is_median<F: Fn(FloatOp) -> u64>(
    fpu: &FloatUnit<F>,
    frames: Seq<RgbaFrame>,
    width: u32,
    height: u32,
    r: RgbaFrame,
) -> bool {
    &&& r.width == width
    &&& r.height == height
    &&& r.wf()
    &&& forall|i: int|
        0 <= i < r.samples@.len() ==> #[trigger] r.samples@[i] == order::median_of(fpu, column(frames, i))
}

/// Whether `r` is the frame of `width` by `height` pixels that holds the trimmed means of the
/// frames.
pub open spec fn is_trimmed_mean<F: Fn(FloatOp) -> u64>(
    fpu: &FloatUnit<F>,
    frames: Seq<RgbaFrame>,
    width: u32,
    height: u32,
    trim: int,
    r: RgbaFrame,
) -> bool {
    &&& r.width == width
    &&& r.height == height
    &&& r.wf()
    &&& forall|i: int|
        0 <= i < r.samples@.len() ==> #[trigger] r.samples@[i] == order::trimmed_mean_of(
            fpu,
            column(frames, i),
            trim,
        )
}

/// Whether `r` is what merging the frames by a method gives: a single frame stays as it is, several
/// give their means or medians, and none give no frame.
pub open spec fn is_merge<F: Fn(FloatOp) -> u64>(
    fpu: &FloatUnit<F>,
    frames: Seq<RgbaFrame>,
    method: MergeMethod,
    r: Result<RgbaFrame, MergeError>,
) -> bool {
    match r {
        Err(e) => frames.len() == 0 && e == MergeError::NoFrames,
        Ok(out) => {
            &&& frames.len() > 0
            &&& if frames.len() == 1 {
                out.same_as(&frames[0])
            } else if method == MergeMethod::Average {
                is_average(fpu, frames, frames[0].width, frames[0].height, out)
            } else {
                is_median(fpu, frames, frames[0].width, frames[0].height, out)
            }
        },
    }
}

/// Whether the frames can be merged by [`merge_frames`].
pub fn can_merge(frames: &Vec<RgbaFrame>) -> (r: bool)
    ensures
        r == (frames@.len() >= 2 ==> cover(frames@, frames@[0].width, frames@[0].height)),
{
    if frames.len() < 2 {
        return true;
    }
    let width: u64 = frames[0].width as u64;
    let height: u64 = frames[0].height as u64;
    proof {
        crate::frame::lemma_pixel_product(frames@[0].width, frames@[0].height);
    }
    let pixels: u64 = width * height;
    if pixels > u32::MAX as u64 || pixels * 4 > usize::MAX as u64 {
        return false;
    }
    let mut f: usize = 0;
    while f < frames.len()
        invariant
            f <= frames@.len(),
            frames@.len() >= 2,
            pixels == frames@[0].width * frames@[0].height,
            pixels <= u32::MAX,
            forall|k: int| 0 <= k < f ==> #[trigger] frames@[k].samples@.len() >= pixels * 4,
        decreases frames@.len() - f,
    {
        if (frames[f].samples.len() as u64) < pixels * 4 {
            assert(frames@[f as int].samples@.len() < pixels * 4);
            return false;
        }
        f = f + 1;
    }
    true
}

/// Merge frames of one size into a single frame.
///
/// One frame is returned as it is. Steering kernel regression is a pipeline of its own; asked for
/// here, it is answered by the median.
pub fn merge_frames<F: Fn(FloatOp) -> u64>(
    fpu: &FloatUnit<F>,
    frames: &Vec<RgbaFrame>,
    method: MergeMethod,
    _motion_compensation: bool,
) -> (r: Result<RgbaFrame, MergeError>)
    requires
        frames@.len() >= 2 ==> cover(frames@, frames@[0].width, frames@[0].height),
    ensures
        is_merge(fpu, frames@, method, r),
{
    if frames.len() == 0 {
        return Err(MergeError::NoFrames);
    }
    if frames.len() == 1 {
        return Ok(frames[0].copied());
    }
    let width = frames[0].width;
    let height = frames[0].height;
    match method {
        MergeMethod::Average => Ok(merge_average_cpu(fpu, frames, width, height)),
        MergeMethod::Median => Ok(merge_median_cpu(fpu, frames, width, height)),
        MergeMethod::SKR => Ok(merge_median_cpu(fpu, frames, width, height)),
    }
}

/// The number of samples of an image.
fn sample_count(width: u32, height: u32) -> (n: usize)
    requires
        width * height * 4 <= usize::MAX,
    ensures
        n == width * height * 4,
{
    assert(width * height <= usize::MAX);
    (width as usize * height as usize) * 4
}

/// The values of all frames at one index.
fn gather(frames: &Vec<RgbaFrame>, i: usize) -> (values: Vec<u32>)
    requires
        forall|f: int| 0 <= f < frames@.len() ==> i < #[trigger] frames@[f].samples@.len(),
    ensures
        values@ == column(frames@, i as int),
{
    let mut values: Vec<u32> = Vec::with_capacity(frames.len());
    let mut f: usize = 0;
    while f < frames.len()
        invariant
            f <= frames@.len(),
            forall|k: int| 0 <= k < frames@.len() ==> i < #[trigger] frames@[k].samples@.len(),
            values@ == column(frames@, i as int).take(f as int),
        decreases frames@.len() - f,
    {
        values.push(frames[f].samples[i]);
        assert(values@ =~= column(frames@, i as int).take(f + 1));
        f = f + 1;
    }
    assert(values@ =~= column(frames@, i as int));
    values
}

/// Average merge: sum all frames in double precision, divide by their number.
fn merge_average_cpu<F: Fn(FloatOp) -> u64>(
    fpu: &FloatUnit<F>,
    frames: &Vec<RgbaFrame>,
    width: u32,
    height: u32,
) -> (out: RgbaFrame)
    requires
        cover(frames@, width, height),
    ensures
        is_average(fpu, frames@, width, height, out),
{
    let total = sample_count(width, height);
    let num_frames: u32 = fpu.from_u64(frames.len() as u64);
    let mut samples: Vec<u32> = Vec::with_capacity(total);
    let mut i: usize = 0;
    while i < total
        invariant
            i <= total,
            total == width * height * 4,
            cover(frames@, width, height),
            num_frames == fpu.from_u64(frames@.len() as u64),
            samples@.len() == i,
            forall|k: int| 0 <= k < i ==> #[trigger] samples@[k] == mean_of(fpu, column(frames@, k)),
        decreases total - i,
    {
        let values = gather(frames, i);
        let mut sum: u64 = WIDE_ZERO;
        let mut f: usize = 0;
        assert(values@.take(0) =~= Seq::<u32>::empty());
        while f < values.len()
            invariant
                f <= values@.len(),
                sum == wide_sum(fpu, values@.take(f as int)),
            decreases values@.len() - f,
        {
            sum = fpu.wide_add(sum, fpu.widen(values[f]));
            assert(values@.take(f + 1).drop_last() =~= values@.take(f as int));
            f = f + 1;
        }
        assert(values@.take(f as int) =~= values@);
        samples.push(fpu.narrow(fpu.wide_div(sum, fpu.widen(num_frames))));
        i = i + 1;
    }
    RgbaFrame { width, height, samples }
}

/// Median merge: for each sample the median over all frames.
fn merge_median_cpu<F: Fn(FloatOp) -> u64>(
    fpu: &FloatUnit<F>,
    frames: &Vec<RgbaFrame>,
    width: u32,
    height: u32,
) -> (out: RgbaFrame)
    requires
        cover(frames@, width, height),
    ensures
        is_median(fpu, frames@, width, height, out),
{
    let total = sample_count(width, height);
    let mut samples: Vec<u32> = Vec::with_capacity(total);
    let mut i: usize = 0;
    while i < total
        invariant
            i <= total,
            total == width * height * 4,
            cover(frames@, width, height),
            samples@.len() == i,
            forall|k: int| 0 <= k < i ==> #[trigger] samples@[k] == order::median_of(fpu, column(frames@, k)),
        decreases total - i,
    {
        let mut values = gather(frames, i);
        samples.push(median_f32(fpu, &mut values));
        i = i + 1;
    }
    RgbaFrame { width, height, samples }
}

/// Merge frames by the mean that leaves out the `trim_count` smallest and largest values of each
/// sample; by the plain mean where there are too few frames to leave any out.
pub fn robust_merge<F: Fn(FloatOp) -> u64>(
    fpu: &FloatUnit<F>,
    frames: &Vec<RgbaFrame>,
    width: u32,
    height: u32,
    trim_count: usize,
) -> (r: Result<RgbaFrame, MergeError>)
    requires
        cover(frames@, width, height),
        trim_count * 2 <= usize::MAX,
    ensures
        r matches Ok(out) && {
            if frames@.len() <= trim_count * 2 {
                is_average(fpu, frames@, width, height, out)
            } else {
                is_trimmed_mean(fpu, frames@, width, height, trim_count as int, out)
            }
        },
{
    if frames.len() <= trim_count * 2 {
        return Ok(merge_average_cpu(fpu, frames, width, height));
    }
    let total = sample_count(width, height);
    let mut samples: Vec<u32> = Vec::with_capacity(total);
    let mut i: usize = 0;
    while i < total
        invariant
            i <= total,
            total == width * height * 4,
            cover(frames@, width, height),
            samples@.len() == i,
            forall|k: int|
                0 <= k < i ==> #[trigger] samples@[k] == order::trimmed_mean_of(
                    fpu,
                    column(frames@, k),
                    trim_count as int,
                ),
        decreases total - i,
    {
        let mut values = gather(frames, i);
        samples.push(trimmed_mean(fpu, &mut values, trim_count));
        i = i + 1;
    }
    Ok(RgbaFrame { width, height, samples })
}

/// A median merge of an odd number of frames invents nothing: each sample is that of some frame.
pub proof fn median_merge_picks_samples<F: Fn(FloatOp) -> u64>(
    fpu: &FloatUnit<F>,
    frames: Seq<RgbaFrame>,
    width: u32,
    height: u32,
    out: RgbaFrame,
    i: int,
)
    requires
        frames.len() % 2 == 1,
        is_median(fpu, frames, width, height, out),
        0 <= i < out.samples@.len(),
    ensures
        exists|f: int| 0 <= f < frames.len() && out.samples@[i] == #[trigger] frames[f].samples@[i],
{
    order::median_is_a_value(fpu, column(frames, i));
    let f = choose|f: int| 0 <= f < frames.len() && column(frames, i)[f] == out.samples@[i];
    assert(out.samples@[i] == frames[f].samples@[i]);
}

/// A value that more than half of the frames share is the median of an odd number of frames: the
/// outliers of the others leave no trace.
pub proof fn median_passes_over_outliers<F: Fn(FloatOp) -> u64>(
    fpu: &FloatUnit<F>,
    s: Seq<u32>,
    v: u32,
)
    requires
        s.len() % 2 == 1,
        2 * s.to_multiset().count(v) > s.len(),
    ensures
        order::median_of(fpu, s) == v,
{
    order::majority_is_median(fpu, s, v);
}

proof fn lemma_same_column(a: Seq<RgbaFrame>, b: Seq<RgbaFrame>, i: int)
    requires
        a.to_multiset() == b.to_multiset(),
    ensures
        column(a, i).to_multiset() == column(b, i).to_multiset(),
    decreases a.len(),
{
    broadcast use {
        vstd::seq_lib::group_to_multiset_ensures,
        vstd::multiset::group_multiset_axioms,
    };

    assert(a.len() == a.to_multiset().len() && b.len() == b.to_multiset().len());
    if a.len() > 0 {
        let x = a.last();
        assert(a.contains(x));
        assert(b.to_multiset().count(x) > 0);
        assert(b.contains(x));
        let k = choose|k: int| 0 <= k < b.len() && b[k] == x;
        let d = a.drop_last();
        let e = b.remove(k);
        assert(d =~= a.remove(a.len() - 1));
        lemma_same_column(d, e, i);
        assert(column(d, i) =~= column(a, i).remove(a.len() - 1));
        assert(column(e, i) =~= column(b, i).remove(k));
        assert(column(a, i)[a.len() - 1] == column(b, i)[k]);
        let v = x.samples@[i];
        assert(column(a, i).contains(v) && column(b, i).contains(v)) by {
            assert(column(a, i)[a.len() - 1] == v);
            assert(column(b, i)[k] == v);
        }
        assert(column(a, i).to_multiset() =~= column(a, i).to_multiset().remove(v).insert(v));
        assert(column(b, i).to_multiset() =~= column(b, i).to_multiset().remove(v).insert(v));
    } else {
        assert(column(a, i) =~= column(b, i));
    }
}

/// A median merge does not depend on the order of the frames.
pub proof fn median_merge_ignores_order<F: Fn(FloatOp) -> u64>(
    fpu: &FloatUnit<F>,
    a: Seq<RgbaFrame>,
    b: Seq<RgbaFrame>,
    width: u32,
    height: u32,
    out_a: RgbaFrame,
    out_b: RgbaFrame,
)
    requires
        a.to_multiset() == b.to_multiset(),
        is_median(fpu, a, width, height, out_a),
        is_median(fpu, b, width, height, out_b),
    ensures
        out_a.same_as(&out_b),
{
    assert forall|i: int| 0 <= i < out_a.samples@.len() implies out_a.samples@[i]
        == out_b.samples@[i] by {
        lemma_same_column(a, b, i);
        order::median_ignores_order(fpu, column(a, i), column(b, i));
    }
    assert(out_a.samples@ =~= out_b.samples@);
}

/// Whether all frames are copies of the first.
pub open spec fn are_copies(frames: Seq<RgbaFrame>) -> bool {
    &&& frames.len() > 0
    &&& frames[0].wf()
    &&& forall|f: int| 0 <= f < frames.len() ==> (#[trigger] frames[f]).same_as(&frames[0])
}

/// Copies of a frame merge to that frame by the median, where their number is odd or the mean of
/// each sample with itself is the sample.
pub proof fn copies_have_the_frame_as_median<F: Fn(FloatOp) -> u64>(
    fpu: &FloatUnit<F>,
    frames: Seq<RgbaFrame>,
    out: RgbaFrame,
)
    requires
        are_copies(frames),
        is_median(fpu, frames, frames[0].width, frames[0].height, out),
        frames.len() % 2 == 1 || forall|i: int|
            0 <= i < frames[0].samples@.len() ==> {
                let v = #[trigger] frames[0].samples@[i];
                fpu.div(fpu.add(v, v), float::TWO) == v
            },
    ensures
        out.same_as(&frames[0]),
{
    assert forall|i: int| 0 <= i < out.samples@.len() implies out.samples@[i]
        == frames[0].samples@[i] by {
        let s = column(frames, i);
        assert forall|f: int| 0 <= f < s.len() implies s[f] == frames[0].samples@[i] by {
            assert(frames[f].same_as(&frames[0]));
        }
        order::median_of_equal_values(fpu, s, frames[0].samples@[i]);
    }
    assert(out.samples@ =~= frames[0].samples@);
}

/// Copies of a frame merge to that frame by the mean, where the mean of as many copies of each
/// sample is the sample.
pub proof fn copies_have_the_frame_as_mean<F: Fn(FloatOp) -> u64>(
    fpu: &FloatUnit<F>,
    frames: Seq<RgbaFrame>,
    out: RgbaFrame,
)
    requires
        are_copies(frames),
        is_average(fpu, frames, frames[0].width, frames[0].height, out),
        forall|i: int|
            0 <= i < frames[0].samples@.len() ==> {
                let v = #[trigger] frames[0].samples@[i];
                mean_of(fpu, Seq::new(frames.len(), |f: int| v)) == v
            },
    ensures
        out.same_as(&frames[0]),
{
    assert forall|i: int| 0 <= i < out.samples@.len() implies out.samples@[i]
        == frames[0].samples@[i] by {
        let v = frames[0].samples@[i];
        let s = column(frames, i);
        assert forall|f: int| 0 <= f < s.len() implies s[f] == v by {
            assert(frames[f].same_as(&frames[0]));
        }
        assert(s =~= Seq::new(frames.len(), |f: int| v));
    }
    assert(out.samples@ =~= frames[0].samples@);
}

/// Whether a frame is left by means of its samples with themselves, of two and of `n` copies.
pub open spec fn keeps_samples<F: Fn(FloatOp) -> u64>(
    fpu: &FloatUnit<F>,
    frame: &RgbaFrame,
    n: nat,
) -> bool {
    forall|i: int|
        0 <= i < frame.samples@.len() ==> {
            let v = #[trigger] frame.samples@[i];
            fpu.div(fpu.add(v, v), float::TWO) == v && mean_of(fpu, Seq::new(n, |f: int| v)) == v
        }
}

/// Copies of a frame merge to that frame by every method, where means of equal samples are exact.
pub proof fn copies_merge_to_the_frame<F: Fn(FloatOp) -> u64>(
    fpu: &FloatUnit<F>,
    frames: Seq<RgbaFrame>,
    method: MergeMethod,
    r: Result<RgbaFrame, MergeError>,
)
    requires
        are_copies(frames),
        keeps_samples(fpu, &frames[0], frames.len()),
        is_merge(fpu, frames, method, r),
    ensures
        r matches Ok(out) && out.same_as(&frames[0]),
{
    let out = r->Ok_0;
    if frames.len() > 1 && method == MergeMethod::Average {
        copies_have_the_frame_as_mean(fpu, frames, out);
    } else if frames.len() > 1 {
        copies_have_the_frame_as_median(fpu, frames, out);
    }
}

/// Merging by any method but the mean gives the medians, whatever the order of frames of one size:
/// two such merges of the same frames agree, and both fail only on no frames.
pub proof fn merges_by_median_agree<F: Fn(FloatOp) -> u64>(
    fpu: &FloatUnit<F>,
    a: Seq<RgbaFrame>,
    b: Seq<RgbaFrame>,
    method_a: MergeMethod,
    method_b: MergeMethod,
    r_a: Result<RgbaFrame, MergeError>,
    r_b: Result<RgbaFrame, MergeError>,
)
    requires
        a.to_multiset() == b.to_multiset(),
        forall|f: int|
            0 <= f < a.len() ==> (#[trigger] a[f]).width == a[0].width && a[f].height == a[0].height,
        method_a != MergeMethod::Average,
        method_b != MergeMethod::Average,
        is_merge(fpu, a, method_a, r_a),
        is_merge(fpu, b, method_b, r_b),
    ensures
        r_a is Err <==> a.len() == 0,
        r_b is Err <==> a.len() == 0,
        a.len() > 0 ==> r_a->Ok_0.same_as(&r_b->Ok_0),
{
    broadcast use vstd::seq_lib::group_to_multiset_ensures;

    assert(a.len() == a.to_multiset().len() && b.len() == b.to_multiset().len());
    if a.len() > 0 {
        assert(b.contains(b[0]));
        assert(a.to_multiset().count(b[0]) > 0);
        assert(a.contains(b[0]));
        let k = choose|k: int| 0 <= k < a.len() && a[k] == b[0];
        assert(b[0].width == a[0].width && b[0].height == a[0].height) by {
            assert(a[k].width == a[0].width);
        }
        if a.len() > 1 {
            median_merge_ignores_order(
                fpu,
                a,
                b,
                a[0].width,
                a[0].height,
                r_a->Ok_0,
                r_b->Ok_0,
            );
        }
    }
}

} // verus!
