//! Merging raw mosaics: measuring their shifts, modeling their noise, and fusing them.

use crate::alignment::{
    align_frames, is_alignment, refinable, spans, AlignError, AlignmentShift,
};
use crate::cfa_fusion::{
    fuse_cfa_frames_with_shifts, fusible, is_fused, is_refusal, one_size, scale_of, CfaFrame,
    FusionError,
};
use crate::exact::{exact_mul, fits, is_exact, lemma_constants, lemma_opposite, stands_for};
use crate::float::{neg, FloatOp, FloatUnit, ONE, TWO};
use crate::frame::{lemma_index_pixel, lemma_pixel_index, GrayFrame, RgbaFrame};
use crate::noise_model::{
    is_normalized, pairs_at, sample_grid, saturated, Burst, NoiseModel, COUNTERS,
};
use crate::progress::{listens, MergeStep};
use vstd::prelude::*;

verus! {

/// The brightness of a mosaic cell: the upper eight bits of the mean of its four samples, and a
/// middle gray where the samples are missing.
pub open spec fn cell_brightness(data: Seq<u16>, width: int, x: int, y: int) -> u8 {
    let base = y * 2 * width + x * 2;
    if base + width + 1 < data.len() {
        ((data[base] + data[base + 1] + data[base + width] + data[base + width + 1]) / 4 / 256) as u8
    } else {
        128
    }
}

/// Whether the first samples of all cells can be counted.
pub open spec fn has_proxy(width: u32, height: u32) -> bool {
    width >= 2 && height >= 2 ==> (height / 2 - 1) * 2 * width + (width / 2 - 1) * 2 <= u32::MAX
}

/// Whether `luma` is the brightness image of a mosaic, one pixel per cell of two by two samples.
pub open spec fn is_proxy(frame: CfaFrame, luma: GrayFrame) -> bool {
    &&& luma.wf()
    &&& luma.width == frame.width / 2
    &&& luma.height == frame.height / 2
    &&& forall|x: int, y: int|
        0 <= x < luma.width && 0 <= y < luma.height ==> #[trigger] luma.at(x, y) == cell_brightness(
            frame.data@,
            frame.width as int,
            x,
            y,
        )
}

proof fn lemma_proxy_area(width: u32, height: u32)
    requires
        has_proxy(width, height),
    ensures
        0 <= (width / 2) * (height / 2) <= u32::MAX,
{
    let (w, h) = (width as int / 2, height as int / 2);
    if w == 0 || h == 0 {
        assert(w * h == 0) by (nonlinear_arith)
            requires
                w == 0 || h == 0,
        ;
    } else if w > 1 || h > 1 {
        assert((h - 1) * 2 * width >= (h - 1) * 4 * w) by (nonlinear_arith)
            requires
                h >= 1,
                width >= 2 * w,
        ;
        assert(0 <= w * h <= (h - 1) * 4 * w + (w - 1) * 2) by (nonlinear_arith)
            requires
                w > 1 || h > 1,
                w >= 1,
                h >= 1,
        ;
    } else {
        assert(w * h == 1) by (nonlinear_arith)
            requires
                w == 1,
                h == 1,
        ;
    }
}

/// A brightness image of a mosaic, one pixel per cell of two by two samples.
pub fn luma_proxy(frame: &CfaFrame) -> (luma: GrayFrame)
    requires
        has_proxy(frame.width, frame.height),
    ensures
        is_proxy(*frame, luma),
{
    let lw: u32 = frame.width / 2;
    let lh: u32 = frame.height / 2;
    proof {
        lemma_proxy_area(frame.width, frame.height);
    }
    let stride: u64 = frame.width as u64;
    let len: u64 = frame.data.len() as u64;
    let count: usize = (lw * lh) as usize;
    let mut pixels: Vec<u8> = Vec::with_capacity(count);
    let mut i: usize = 0;
    while i < count
        invariant
            i <= count,
            count == lw * lh,
            lw == frame.width / 2,
            lh == frame.height / 2,
            stride == frame.width,
            len == frame.data@.len(),
            pixels@.len() == i,
            forall|k: int|
                0 <= k < i ==> #[trigger] pixels@[k] == cell_brightness(
                    frame.data@,
                    frame.width as int,
                    k % (lw as int),
                    k / (lw as int),
                ),
        decreases count - i,
    {
        proof {
            lemma_index_pixel(i as int, lw as int, lh as int);
        }
        let x: u64 = (i % lw as usize) as u64;
        let y: u64 = (i / lw as usize) as u64;
        proof {
            assert(0 <= y * 2 * stride <= 0xffff_ffff * 0xffff_ffff) by (nonlinear_arith)
                requires
                    0 <= y * 2 <= 0xffff_ffff,
                    0 <= stride <= 0xffff_ffff,
            ;
        }
        let base: u64 = y * 2 * stride + x * 2;
        if base + stride + 1 < len {
            let a = frame.data[base as usize] as u32;
            let b = frame.data[(base + 1) as usize] as u32;
            let c = frame.data[(base + stride) as usize] as u32;
            let d = frame.data[(base + stride + 1) as usize] as u32;
            proof {
                assert(frame.data.len() == frame.data@.len());
                assert(a == frame.data@[base as int]);
                assert(b == frame.data@[base + 1]);
                assert(c == frame.data@[base + stride]);
                assert(d == frame.data@[base + stride + 1]);
            }
            pixels.push(((a + b + c + d) / 4 / 256) as u8);
        } else {
            pixels.push(128);
        }
        i = i + 1;
    }
    let luma = GrayFrame { width: lw, height: lh, pixels };
    assert forall|x: int, y: int| 0 <= x < luma.width && 0 <= y < luma.height implies #[trigger] luma.at(
        x,
        y,
    ) == cell_brightness(frame.data@, frame.width as int, x, y) by {
        lemma_pixel_index(x, y, lw as int, lh as int);
    }
    luma
}

/// The offsets by which mosaics are laid over the first, in sensor pixels: the opposite of their
/// displacements. A pixel of a brightness image is two sensor pixels wide and high.
pub open spec fn pairs_of<F: Fn(FloatOp) -> u64>(
    fpu: &FloatUnit<F>,
    shifts: Seq<AlignmentShift>,
) -> Seq<(u32, u32)> {
    Seq::new(
        shifts.len(),
        |i: int| (fpu.mul(neg(shifts[i].dx), TWO), fpu.mul(neg(shifts[i].dy), TWO)),
    )
}

/// The offsets by which mosaics are laid over the first, in sensor pixels.
pub fn shift_pairs<F: Fn(FloatOp) -> u64>(
    fpu: &FloatUnit<F>,
    shifts: &Vec<AlignmentShift>,
) -> (r: Vec<(u32, u32)>)
    ensures
        r@ == pairs_of(fpu, shifts@),
{
    let ghost goal = pairs_of(fpu, shifts@);
    let mut r: Vec<(u32, u32)> = Vec::with_capacity(shifts.len());
    let mut i: usize = 0;
    while i < shifts.len()
        invariant
            i <= shifts@.len(),
            goal == pairs_of(fpu, shifts@),
            r@ == goal.take(i as int),
        decreases shifts@.len() - i,
    {
        r.push((fpu.mul(neg(shifts[i].dx), TWO), fpu.mul(neg(shifts[i].dy), TWO)));
        assert(r@ =~= goal.take(i + 1));
        i = i + 1;
    }
    assert(r@ =~= goal);
    r
}

/// The mosaics as a burst for a noise model.
pub open spec fn mosaic_burst(frames: Seq<CfaFrame>, shifts: Seq<(u32, u32)>) -> Burst {
    Burst {
        frames: Seq::new(frames.len(), |f: int| frames[f].data@),
        width: frames[0].width as int,
        height: frames[0].height as int,
        shifts,
        is_cfa: true,
        pattern: Some(frames[0].cfa.name@),
    }
}

/// The counters of a model of the mosaics before it is normalized.
pub open spec fn mosaic_counts<F: Fn(FloatOp) -> u64>(
    fpu: &FloatUnit<F>,
    frames: Seq<CfaFrame>,
    shifts: Seq<(u32, u32)>,
) -> Seq<u32> {
    Seq::new(
        COUNTERS as nat,
        |i: int|
            saturated(
                pairs_at(
                    fpu,
                    mosaic_burst(frames, shifts),
                    sample_grid(frames[0].width, frames[0].height),
                    i,
                    frames.len(),
                ) as int,
            ) as u32,
    )
}

/// Whether `model` is the noise model of aligned mosaics, normalized with an exponent of one.
pub open spec fn is_mosaic_model<F: Fn(FloatOp) -> u64>(
    fpu: &FloatUnit<F>,
    frames: Seq<CfaFrame>,
    shifts: Seq<(u32, u32)>,
    model: NoiseModel,
) -> bool {
    is_normalized(fpu, mosaic_counts(fpu, frames, shifts), ONE, model)
}

/// The noise model of aligned mosaics, normalized with an exponent of one.
pub fn mosaic_noise_model<F: Fn(FloatOp) -> u64>(
    fpu: &FloatUnit<F>,
    frames: &Vec<CfaFrame>,
    shifts: &Vec<(u32, u32)>,
) -> (model: NoiseModel)
    requires
        frames@.len() > 0,
        frames@.len() >= 2 ==> shifts@.len() >= frames@.len(),
    ensures
        is_mosaic_model(fpu, frames@, shifts@, model),
{
    let mut data: Vec<Vec<u16>> = Vec::with_capacity(frames.len());
    let mut f: usize = 0;
    while f < frames.len()
        invariant
            f <= frames@.len(),
            data@.len() == f,
            forall|k: int| 0 <= k < f ==> (#[trigger] data@[k])@ == frames@[k].data@,
        decreases frames@.len() - f,
    {
        data.push(frames[f].data.clone());
        f = f + 1;
    }
    let mut model = NoiseModel::new();
    let name = frames[0].cfa.name.as_str();
    model.build(fpu, &data, frames[0].width, frames[0].height, shifts, true, Some(name));
    proof {
        let burst = crate::noise_model::burst_of(
            data@,
            frames@[0].width,
            frames@[0].height,
            shifts@,
            true,
            Some(name),
        );
        assert(burst.frames =~= mosaic_burst(frames@, shifts@).frames);
        assert(burst == mosaic_burst(frames@, shifts@));
        assert(model.histograms@ =~= mosaic_counts(fpu, frames@, shifts@));
    }
    model.normalize(fpu, ONE);
    model
}

/// Whether the shifts of mosaics can be measured: their brightness images can be counted, that of
/// the first is not too small to be refined, and no other is smaller.
pub open spec fn measurable(frames: Seq<CfaFrame>) -> bool {
    &&& forall|f: int|
        0 <= f < frames.len() ==> has_proxy((#[trigger] frames[f]).width, frames[f].height)
    &&& frames.len() >= 2 ==> {
        &&& refinable(frames[0].width / 2, frames[0].height / 2)
        &&& forall|f: int|
            0 <= f < frames.len() ==> (#[trigger] frames[f]).width / 2 >= frames[0].width / 2
                && frames[f].height / 2 >= frames[0].height / 2
    }
}

/// Whether the shifts of mosaics can be measured by [`measure_shifts`].
pub fn can_measure(frames: &Vec<CfaFrame>) -> (r: bool)
    ensures
        r == measurable(frames@),
{
    let mut f: usize = 0;
    while f < frames.len()
        invariant
            f <= frames@.len(),
            forall|k: int|
                0 <= k < f ==> has_proxy((#[trigger] frames@[k]).width, frames@[k].height),
            frames@.len() >= 2 ==> forall|k: int|
                0 <= k < f ==> (#[trigger] frames@[k]).width / 2 >= frames@[0].width / 2
                    && frames@[k].height / 2 >= frames@[0].height / 2,
        decreases frames@.len() - f,
    {
        let width: u64 = frames[f].width as u64;
        let height: u64 = frames[f].height as u64;
        let ghost k = f as int;
        if width >= 2 && height >= 2 {
            let rows: u64 = (height / 2 - 1) * 2;
            assert(0 <= rows * width <= 0xffff_ffff * 0xffff_ffff) by (nonlinear_arith)
                requires
                    0 <= rows <= 0xffff_ffff,
                    0 <= width <= 0xffff_ffff,
            ;
            if rows * width + (width / 2 - 1) * 2 > u32::MAX as u64 {
                assert(!has_proxy(frames@[k].width, frames@[k].height));
                return false;
            }
        }
        if frames.len() >= 2 && (frames[f].width / 2 < frames[0].width / 2 || frames[f].height / 2
            < frames[0].height / 2) {
            assert(!(frames@[k].width / 2 >= frames@[0].width / 2 && frames@[k].height / 2
                >= frames@[0].height / 2));
            return false;
        }
        f = f + 1;
    }
    if frames.len() >= 2 {
        let width: u32 = frames[0].width / 2;
        let height: u32 = frames[0].height / 2;
        height >= 2 && (height < 3 || width >= 1) && (height < 5 || width >= 2)
    } else {
        true
    }
}

/// Whether `lumas` are the brightness images of the mosaics.
pub open spec fn are_proxies(frames: Seq<CfaFrame>, lumas: Seq<GrayFrame>) -> bool {
    &&& lumas.len() == frames.len()
    &&& forall|f: int| 0 <= f < frames.len() ==> is_proxy(frames[f], #[trigger] lumas[f])
}

/// Whether `r` is what the brightness images of the mosaics give when they are aligned to the
/// first.
pub open spec fn is_measured<F: Fn(FloatOp) -> u64>(
    fpu: &FloatUnit<F>,
    frames: Seq<CfaFrame>,
    r: Result<Vec<AlignmentShift>, AlignError>,
) -> bool {
    exists|lumas: Seq<GrayFrame>| #[trigger] are_proxies(frames, lumas) && is_alignment(
        fpu,
        lumas,
        0,
        r,
    )
}

/// Measure the shifts of mosaics against the first, in pixels of their brightness images.
pub fn measure_shifts<F: Fn(FloatOp) -> u64, P: Fn(MergeStep)>(
    fpu: &FloatUnit<F>,
    frames: &Vec<CfaFrame>,
    progress: &P,
) -> (r: Result<Vec<AlignmentShift>, AlignError>)
    requires
        listens(progress),
        measurable(frames@),
    ensures
        is_measured(fpu, frames@, r),
{
    progress(MergeStep::Measuring);
    let mut lumas: Vec<GrayFrame> = Vec::with_capacity(frames.len());
    let mut f: usize = 0;
    while f < frames.len()
        invariant
            f <= frames@.len(),
            measurable(frames@),
            lumas@.len() == f,
            forall|k: int| 0 <= k < f ==> is_proxy(frames@[k], #[trigger] lumas@[k]),
        decreases frames@.len() - f,
    {
        assert(has_proxy(frames@[f as int].width, frames@[f as int].height));
        lumas.push(luma_proxy(&frames[f]));
        f = f + 1;
    }
    proof {
        if frames@.len() >= 2 {
            assert(has_proxy(frames@[0].width, frames@[0].height));
            lemma_proxy_area(frames@[0].width, frames@[0].height);
            assert(is_proxy(frames@[0], lumas@[0]));
            assert forall|k: int| 0 <= k < lumas@.len() implies spans(
                &#[trigger] lumas@[k],
                lumas@[0].width,
                lumas@[0].height,
            ) by {
                assert(is_proxy(frames@[k], lumas@[k]));
                assert(frames@[k].width / 2 >= frames@[0].width / 2);
            }
        }
        assert(are_proxies(frames@, lumas@));
    }
    align_frames(fpu, &lumas, 0)
}

/// Whether `out` is the fusion of the mosaics with the given shifts, weighed by the noise model
/// that belongs to them.
pub open spec fn is_mosaic_merge<F: Fn(FloatOp) -> u64>(
    fpu: &FloatUnit<F>,
    frames: Seq<CfaFrame>,
    shifts: Seq<(u32, u32)>,
    out: RgbaFrame,
) -> bool {
    exists|model: NoiseModel| #[trigger] is_mosaic_model(fpu, frames, shifts, model) && is_fused(
        fpu,
        Some(&model),
        frames,
        shifts,
        scale_of(fpu, shifts),
        out,
    )
}

/// Fuse mosaics with their measured shifts, which are brought to sensor pixels: a noise model is
/// built of them, and each sample is weighed by it.
pub fn fuse_measured<F: Fn(FloatOp) -> u64, P: Fn(MergeStep)>(
    fpu: &FloatUnit<F>,
    frames: &Vec<CfaFrame>,
    shifts: &Vec<AlignmentShift>,
    progress: &P,
) -> (r: Result<RgbaFrame, FusionError>)
    requires
        listens(progress),
        frames@.len() > 0,
        frames@.len() >= 2 ==> shifts@.len() >= frames@.len(),
        one_size(frames@) ==> fusible(
            frames@,
            pairs_of(fpu, shifts@),
            scale_of(fpu, pairs_of(fpu, shifts@)) as int,
        ),
    ensures
        r is Ok <==> one_size(frames@),
        r matches Err(e) ==> is_refusal(frames@, e),
        r matches Ok(out) ==> is_mosaic_merge(fpu, frames@, pairs_of(fpu, shifts@), out),
{
    progress(MergeStep::FusingMeasured(frames.len(), frames[0].width, frames[0].height));
    let pairs = shift_pairs(fpu, shifts);
    progress(MergeStep::ModelingNoise);
    let model = mosaic_noise_model(fpu, frames, &pairs);
    progress(MergeStep::FusingWeighted(frames.len()));
    fuse_cfa_frames_with_shifts(fpu, frames, &pairs, Some(&model))
}

/// Each pixel of a brightness image shows a cell of two by two samples: the upper eight bits of their
/// mean.
pub proof fn proxies_show_cells(frame: CfaFrame, luma: GrayFrame, x: int, y: int)
    requires
        is_proxy(frame, luma),
        frame.data@.len() == frame.width * frame.height,
        0 <= x,
        2 * x + 1 < frame.width,
        0 <= y,
        2 * y + 1 < frame.height,
    ensures
        ({
            let data = frame.data@;
            let upper = 2 * y * frame.width + 2 * x;
            let lower = (2 * y + 1) * frame.width + 2 * x;
            let light = data[upper] + data[upper + 1] + data[lower] + data[lower + 1];
            luma.at(x, y) * 1024 <= light < (luma.at(x, y) + 1) * 1024
        }),
{
    let (w, h) = (frame.width as int, frame.height as int);
    let base = y * 2 * w + x * 2;
    assert(base == 2 * y * w + 2 * x && base + w == (2 * y + 1) * w + 2 * x) by (nonlinear_arith)
        requires
            base == y * 2 * w + x * 2,
    ;
    assert((2 * y + 1) * w + w <= w * h) by (nonlinear_arith)
        requires
            2 * y + 2 <= h,
            0 <= w,
    ;
    assert(luma.at(x, y) == cell_brightness(frame.data@, w, x, y));
}

/// A displacement measured on brightness images is laid back, by twice as many sensor pixels.
pub proof fn displacements_are_laid_back<F: Fn(FloatOp) -> u64>(
    fpu: &FloatUnit<F>,
    shifts: Seq<AlignmentShift>,
    pairs: Seq<(u32, u32)>,
    i: int,
    right: int,
    down: int,
    k: nat,
)
    requires
        is_exact(fpu),
        pairs == pairs_of(fpu, shifts),
        0 <= i < shifts.len(),
        stands_for(shifts[i].dx, right, k),
        stands_for(shifts[i].dy, down, k),
        fits(2 * right),
        fits(2 * down),
        k <= 149,
    ensures
        pairs.len() == shifts.len(),
        stands_for(pairs[i].0, -2 * right, k),
        stands_for(pairs[i].1, -2 * down, k),
{
    lemma_constants();
    lemma_opposite(shifts[i].dx, right, k);
    lemma_opposite(shifts[i].dy, down, k);
    exact_mul(fpu, neg(shifts[i].dx), TWO, -right, 2, k, 0);
    exact_mul(fpu, neg(shifts[i].dy), TWO, -down, 2, k, 0);
}

} // verus!
