//! Merging developed frames by steering kernel regression: aligning them, masking what moved, and
//! fusing them, on a graphics processor or without.

use crate::alignment::{
    align_frames, alignable, is_alignment, warp_frame, warped_at, whole_shifts_move_samples,
    AlignError, AlignmentShift,
};
use crate::exact::{fits, is_exact, is_ordinary, lemma_opposite, stands_for};
use crate::float::{neg, FloatOp, FloatUnit, FOUR, ONE, THREE};
use crate::frame::{is_nearest, GrayFrame, RgbaFrame};
use crate::motion_detection::{
    detect_motion, detectable, is_motion_mask, MotionDetectionParams, MotionMask,
};
use crate::progress::{listens, MergeStep};
use crate::skr_fusion::{fusable, is_fusion, SkrFusion, SkrFusionParams};
use vstd::prelude::*;

verus! {

/// Whether `aligned` are the frames moved onto the first one: each is warped back by its own shift,
/// and the first stays.
pub open spec fn is_moved<F: Fn(FloatOp) -> u64>(
    fpu: &FloatUnit<F>,
    frames: Seq<RgbaFrame>,
    shifts: Seq<AlignmentShift>,
    aligned: Seq<RgbaFrame>,
) -> bool {
    &&& aligned.len() == frames.len()
    &&& frames.len() > 0 ==> aligned[0].same_as(&frames[0])
    &&& forall|f: int|
        0 <= f < frames.len() ==> (#[trigger] aligned[f]).wf() && aligned[f].width
            == frames[f].width && aligned[f].height == frames[f].height
    &&& forall|f: int, x: int, y: int, c: int|
        0 < f < frames.len() && 0 <= x < frames[f].width && 0 <= y < frames[f].height && 0 <= c < 4
            ==> #[trigger] aligned[f].at(x, y, c) == warped_at(
            fpu,
            &frames[f],
            neg(shifts[f].dx),
            neg(shifts[f].dy),
            x,
            y,
            c,
        )
}

/// The frames moved onto the first one: each is warped back by its own shift, and the first stays.
pub fn align_to_first<F: Fn(FloatOp) -> u64>(
    fpu: &FloatUnit<F>,
    frames: &Vec<RgbaFrame>,
    shifts: &Vec<AlignmentShift>,
) -> (aligned: Vec<RgbaFrame>)
    requires
        shifts@.len() >= frames@.len(),
        forall|f: int| 0 <= f < frames@.len() ==> (#[trigger] frames@[f]).wf(),
    ensures
        is_moved(fpu, frames@, shifts@, aligned@),
{
    let mut aligned: Vec<RgbaFrame> = Vec::with_capacity(frames.len());
    let mut i: usize = 0;
    while i < frames.len()
        invariant
            i <= frames@.len(),
            shifts@.len() >= frames@.len(),
            forall|f: int| 0 <= f < frames@.len() ==> (#[trigger] frames@[f]).wf(),
            aligned@.len() == i,
            i > 0 ==> aligned@[0].same_as(&frames@[0]),
            forall|f: int|
                0 <= f < i ==> (#[trigger] aligned@[f]).wf() && aligned@[f].width == frames@[f].width
                    && aligned@[f].height == frames@[f].height,
            forall|f: int, x: int, y: int, c: int|
                0 < f < i && 0 <= x < frames@[f].width && 0 <= y < frames@[f].height && 0 <= c < 4
                    ==> #[trigger] aligned@[f].at(x, y, c) == warped_at(
                    fpu,
                    &frames@[f],
                    neg(shifts@[f].dx),
                    neg(shifts@[f].dy),
                    x,
                    y,
                    c,
                ),
        decreases frames@.len() - i,
    {
        assert(frames@[i as int].wf());
        if i == 0 {
            aligned.push(frames[0].copied());
        } else {
            aligned.push(warp_frame(fpu, &frames[i], neg(shifts[i].dx), neg(shifts[i].dy)));
        }
        i = i + 1;
    }
    aligned
}

/// The parameters by which moving subjects are found in a merge.
pub open spec fn motion_settings() -> MotionDetectionParams {
    MotionDetectionParams {
        mad_threshold: THREE,
        neighborhood_radius: 2,
        blur_sigma: 0x3fc0_0000,
        min_weight: 0x3dcc_cccd,
    }
}

/// Frames that are ready to be fused.
pub struct AlignedBurst {
    /// The shifts that were found.
    pub shifts: Vec<AlignmentShift>,
    /// The frames, moved onto the first.
    pub frames: Vec<RgbaFrame>,
    /// Where subjects moved, if that was asked.
    pub mask: Option<MotionMask>,
}

/// Prepare developed frames for a fusion. They are aligned to the first by their brightness, moved
/// onto it, and searched for moving subjects if that is asked.
pub fn prepare_skr<F: Fn(FloatOp) -> u64, P: Fn(MergeStep)>(
    fpu: &FloatUnit<F>,
    frames: &Vec<RgbaFrame>,
    lumas: &Vec<GrayFrame>,
    motion_compensation: bool,
    progress: &P,
) -> (r: Result<AlignedBurst, AlignError>)
    requires
        listens(progress),
        lumas@.len() == frames@.len(),
        alignable(lumas@, 0),
        forall|f: int| 0 <= f < frames@.len() ==> (#[trigger] frames@[f]).wf(),
        motion_compensation ==> detectable(fpu, frames@, motion_settings()),
    ensures
        r matches Err(e) ==> is_alignment(fpu, lumas@, 0, Err(e)),
        r matches Ok(burst) ==> {
            &&& is_alignment(fpu, lumas@, 0, Ok(burst.shifts))
            &&& is_moved(fpu, frames@, burst.shifts@, burst.frames@)
            &&& match burst.mask {
                Some(mask) => motion_compensation && is_motion_mask(
                    fpu,
                    motion_settings(),
                    burst.frames@,
                    mask,
                ),
                None => !motion_compensation,
            }
        },
{
    progress(MergeStep::Aligning);
    let shifts = match align_frames(fpu, lumas, 0) {
        Ok(shifts) => shifts,
        Err(e) => {
            return Err(e);
        },
    };
    let aligned = align_to_first(fpu, frames, &shifts);
    let mask = if motion_compensation {
        progress(MergeStep::DetectingMotion);
        proof {
            if frames@.len() > 0 {
                assert(aligned@[0].same_as(&frames@[0]));
                assert forall|f: int|
                    #![trigger aligned@[f]]
                    0 <= f < aligned@.len() implies aligned@[f].wf() && aligned@[f].width
                    == frames@[f].width && aligned@[f].height == frames@[f].height by {}
            }
            assert(detectable(fpu, aligned@, motion_settings()));
        }
        Some(detect_motion(fpu, &aligned, MotionDetectionParams::default()))
    } else {
        None
    };
    progress(MergeStep::Regressing);
    Ok(AlignedBurst { shifts, frames: aligned, mask })
}

/// What came of asking a graphics processor.
pub enum GpuOutcome {
    /// There is none.
    Absent,
    /// It fused the frames.
    Fused(RgbaFrame),
    /// It failed or panicked.
    Failed,
}

/// The parameters of a steering kernel regression merge.
pub fn skr_settings() -> (r: SkrFusionParams)
    ensures
        r.kernel_sigma == 0x3fc0_0000u32,
        r.stretch == FOUR,
        r.structure_sigma == ONE,
        r.output_scale == ONE,
        r.robust_iterations == 1,
        r.min_samples == 4,
{
    SkrFusionParams {
        kernel_sigma: 0x3fc0_0000,
        stretch: FOUR,
        structure_sigma: ONE,
        output_scale: ONE,
        robust_iterations: 1,
        min_samples: 4,
    }
}

/// Finish a steering kernel regression merge: take what a graphics processor made, and fuse the
/// frames here where it made nothing.
pub fn finish_skr<F: Fn(FloatOp) -> u64, P: Fn(MergeStep)>(
    fpu: &FloatUnit<F>,
    outcome: GpuOutcome,
    aligned: &Vec<RgbaFrame>,
    motion_mask: Option<&MotionMask>,
    params: SkrFusionParams,
    progress: &P,
) -> (out: RgbaFrame)
    requires
        listens(progress),
        motion_mask matches Some(m) ==> m.wf(),
        outcome !is Fused ==> fusable(fpu, params, aligned@),
    ensures
        outcome matches GpuOutcome::Fused(img) ==> out == img,
        outcome !is Fused && aligned@.len() == 0 ==> out.width == 0 && out.height == 0,
        outcome !is Fused && aligned@.len() == 1 ==> out.same_as(&aligned@[0]),
        outcome !is Fused && aligned@.len() >= 2 ==> is_fusion(
            fpu,
            params,
            aligned@,
            motion_mask,
            out,
        ),
{
    match outcome {
        GpuOutcome::Fused(img) => img,
        _ => {
            progress(MergeStep::RunningCpu);
            SkrFusion::new(params).fuse(fpu, aligned, motion_mask)
        },
    }
}

/// Frames that are displaced by whole pixels are brought back onto the first: after that, a frame shows
/// at each place what it showed as many columns right and rows down as its shift tells, held to its
/// borders.
pub proof fn displaced_frames_are_brought_back<F: Fn(FloatOp) -> u64>(
    fpu: &FloatUnit<F>,
    frames: Seq<RgbaFrame>,
    shifts: Seq<AlignmentShift>,
    aligned: Seq<RgbaFrame>,
    f: int,
    right: int,
    down: int,
    x: int,
    y: int,
    c: int,
    col: int,
    row: int,
    n: int,
    k: nat,
)
    requires
        is_exact(fpu),
        is_moved(fpu, frames, shifts, aligned),
        0 < f < frames.len(),
        stands_for(shifts[f].dx, right, 0),
        stands_for(shifts[f].dy, down, 0),
        0 <= x < frames[f].width,
        0 <= y < frames[f].height,
        0 <= c < 4,
        fits(x) && fits(y) && fits(x + right) && fits(y + down),
        is_nearest(col, x + right, frames[f].width as int),
        is_nearest(row, y + down, frames[f].height as int),
        forall|u: int, v: int|
            0 <= u < frames[f].width && 0 <= v < frames[f].height ==> is_ordinary(
                #[trigger] frames[f].at(u, v, c),
            ),
        stands_for(frames[f].at(col, row, c), n, k),
        fits(n),
    ensures
        stands_for(aligned[f].at(x, y, c), n, k),
{
    lemma_opposite(shifts[f].dx, right, 0);
    lemma_opposite(shifts[f].dy, down, 0);
    whole_shifts_move_samples(
        fpu,
        &frames[f],
        neg(shifts[f].dx),
        neg(shifts[f].dy),
        &aligned[f],
        -right,
        -down,
        x,
        y,
        c,
        col,
        row,
        n,
        k,
    );
}

} // verus!
