//! What a graphics processor is handed for a fusion, and what it hands back.
//!
//! Structure tensors and motion masks are computed here; the steering kernel regression itself
//! runs in a compute shader.

use crate::float::{FloatOp, FloatUnit, ONE, TWO, ZERO};
use crate::frame::{lemma_index_pixel, lemma_pixel_product, RgbaFrame};
use crate::motion_detection::MotionMask;
use crate::skr_fusion::{
    are_tensors, output_side, tensor_at, tensor_from, tensor_radius, SkrFusionParams, StructureTensor,
};
use vstd::prelude::*;

verus! {

/// Pixels per side of a work group.
pub const GROUP_SIDE: u32 = 8;

/// How a buffer is bound to a shader.
#[derive(Debug, Clone, Copy, PartialEq, Eq, Structural)]
pub enum BindingKind {
    /// A storage buffer that is only read.
    ReadOnlyStorage,
    /// A storage buffer that is read and written.
    ReadWriteStorage,
    /// A uniform buffer.
    Uniform,
}

/// The buffers of the structure tensor pass: the reference frame, the tensors, the parameters.
pub open spec fn tensor_layout() -> Seq<BindingKind> {
    seq![BindingKind::ReadOnlyStorage, BindingKind::ReadWriteStorage, BindingKind::Uniform]
}

/// The buffers of the fusion pass: all frames, the tensors, the motion mask, the output, the
/// parameters.
pub open spec fn fusion_layout() -> Seq<BindingKind> {
    seq![
        BindingKind::ReadOnlyStorage,
        BindingKind::ReadOnlyStorage,
        BindingKind::ReadOnlyStorage,
        BindingKind::ReadWriteStorage,
        BindingKind::Uniform,
    ]
}

/// The buffers of the structure tensor pass, in the order of their binding numbers.
pub fn tensor_bindings() -> (r: Vec<BindingKind>)
    ensures
        r@ == tensor_layout(),
{
    let r = vec![
        BindingKind::ReadOnlyStorage,
        BindingKind::ReadWriteStorage,
        BindingKind::Uniform,
    ];
    assert(r@ =~= tensor_layout());
    r
}

/// The buffers of the fusion pass, in the order of their binding numbers.
pub fn fusion_bindings() -> (r: Vec<BindingKind>)
    ensures
        r@ == fusion_layout(),
{
    let r = vec![
        BindingKind::ReadOnlyStorage,
        BindingKind::ReadOnlyStorage,
        BindingKind::ReadOnlyStorage,
        BindingKind::ReadWriteStorage,
        BindingKind::Uniform,
    ];
    assert(r@ =~= fusion_layout());
    r
}

/// The parameters of the fusion shader, in the order in which it declares them.
#[derive(Debug, Clone, Copy)]
pub struct GpuFusionParams {
    /// Pixels per row of the output.
    pub output_width: u32,
    /// Rows of the output.
    pub output_height: u32,
    /// Pixels per row of a frame.
    pub input_width: u32,
    /// Rows of a frame.
    pub input_height: u32,
    /// Number of frames.
    pub num_frames: u32,
    /// Global kernel scale.
    pub kernel_sigma: u32,
    /// Maximum stretch factor.
    pub stretch: u32,
    /// Sigma of the structure tensors.
    pub structure_sigma: u32,
    /// Whether there is a motion mask.
    pub motion_compensation: u32,
}

impl GpuFusionParams {
    /// The parameters as words, with two words of padding.
    pub open spec fn as_words(self) -> Seq<u32> {
        seq![
            self.output_width,
            self.output_height,
            self.input_width,
            self.input_height,
            self.num_frames,
            self.kernel_sigma,
            self.stretch,
            self.structure_sigma,
            self.motion_compensation,
            0u32,
            0u32,
        ]
    }

    /// The parameters as words, with two words of padding.
    pub fn words(&self) -> (r: Vec<u32>)
        ensures
            r@ == self.as_words(),
    {
        let r = vec![
            self.output_width,
            self.output_height,
            self.input_width,
            self.input_height,
            self.num_frames,
            self.kernel_sigma,
            self.stretch,
            self.structure_sigma,
            self.motion_compensation,
            0u32,
            0u32,
        ];
        assert(r@ =~= self.as_words());
        r
    }
}

/// Everything that the fusion shader is handed.
pub struct GpuFusionJob {
    /// Colors of all frames, three words per pixel, frame after frame.
    pub frames: Vec<u32>,
    /// Structure tensors of the first frame, three words per pixel.
    pub tensors: Vec<u32>,
    /// Motion weights.
    pub mask: Vec<u32>,
    /// Parameters.
    pub params: GpuFusionParams,
    /// Words of the output: four per pixel, all zero before the shader runs.
    pub output: Vec<u32>,
    /// Work groups along a row and a column.
    pub workgroups: (u32, u32),
}

/// What is to be done for a fusion.
pub enum GpuPlan {
    /// The result is there without running a shader.
    Done(RgbaFrame),
    /// The shader is to be run.
    Run(GpuFusionJob),
}

/// The colors of a frame without alpha, three words per pixel.
pub open spec fn rgb_words(frame: &RgbaFrame) -> Seq<u32> {
    Seq::new(
        (frame.width * frame.height * 3) as nat,
        |i: int| frame.samples@[(i / 3) * 4 + i % 3],
    )
}

/// The colors of the first `n` frames, one behind the other.
pub open spec fn packed(frames: Seq<RgbaFrame>, n: nat) -> Seq<u32>
    decreases n,
{
    if n == 0 {
        Seq::empty()
    } else {
        packed(frames, (n - 1) as nat) + rgb_words(&frames[n - 1])
    }
}

/// The structure tensors of a frame, three words per pixel.
pub open spec fn tensor_words<F: Fn(FloatOp) -> u64>(
    fpu: &FloatUnit<F>,
    frame: &RgbaFrame,
    radius: int,
) -> Seq<u32> {
    Seq::new(
        (frame.width * frame.height * 3) as nat,
        |i: int|
            {
                let p = i / 3;
                let t = tensor_at(
                    fpu,
                    frame,
                    p % (frame.width as int),
                    p / (frame.width as int),
                    frame.width as int,
                    frame.height as int,
                    radius,
                );
                if i % 3 == 0 {
                    t.ixx
                } else if i % 3 == 1 {
                    t.ixy
                } else {
                    t.iyy
                }
            },
    )
}

/// How far the window of a structure tensor reaches.
pub open spec fn sigma_radius<F: Fn(FloatOp) -> u64>(
    fpu: &FloatUnit<F>,
    structure_sigma: u32,
) -> i32 {
    fpu.to_i32(fpu.ceil(fpu.mul(structure_sigma, TWO)))
}

/// The colors of a frame without alpha, three words per pixel, row after row.
pub fn extract_rgb_data(frame: &RgbaFrame) -> (data: Vec<u32>)
    requires
        frame.wf(),
    ensures
        data@ == rgb_words(frame),
{
    proof {
        assert(frame.samples.len() == frame.samples@.len());
        assert(0 <= frame.width * frame.height) by (nonlinear_arith)
            requires
                0 <= frame.width,
                0 <= frame.height,
        ;
    }
    let ghost goal = rgb_words(frame);
    let count: usize = frame.width as usize * frame.height as usize;
    let mut data: Vec<u32> = Vec::with_capacity(count * 3);
    let mut p: usize = 0;
    while p < count
        invariant
            p <= count,
            count == frame.width * frame.height,
            frame.wf(),
            frame.samples@.len() <= usize::MAX,
            goal == rgb_words(frame),
            data@ == goal.take(p * 3),
        decreases count - p,
    {
        data.push(frame.samples[p * 4]);
        data.push(frame.samples[p * 4 + 1]);
        data.push(frame.samples[p * 4 + 2]);
        assert(data@ =~= goal.take((p + 1) * 3));
        p = p + 1;
    }
    assert(data@ =~= goal);
    data
}

/// The structure tensors of a frame, row after row.
pub fn compute_tensors_cpu<F: Fn(FloatOp) -> u64>(
    fpu: &FloatUnit<F>,
    frame: &RgbaFrame,
    structure_sigma: u32,
) -> (tensors: Vec<StructureTensor>)
    requires
        frame.wf(),
    ensures
        are_tensors(fpu, frame, sigma_radius(fpu, structure_sigma) as int, tensors@),
{
    let radius = fpu.to_i32(fpu.ceil(fpu.mul(structure_sigma, TWO)));
    proof {
        assert(frame.samples.len() == frame.samples@.len());
        assert(0 <= frame.width * frame.height) by (nonlinear_arith)
            requires
                0 <= frame.width,
                0 <= frame.height,
        ;
    }
    let count: usize = frame.width as usize * frame.height as usize;
    let mut tensors: Vec<StructureTensor> = Vec::with_capacity(count);
    let mut i: usize = 0;
    while i < count
        invariant
            i <= count,
            count == frame.width * frame.height,
            frame.wf(),
            radius == sigma_radius(fpu, structure_sigma),
            tensors@.len() == i,
            forall|k: int|
                0 <= k < i ==> #[trigger] tensors@[k] == tensor_at(
                    fpu,
                    frame,
                    k % (frame.width as int),
                    k / (frame.width as int),
                    frame.width as int,
                    frame.height as int,
                    radius as int,
                ),
        decreases count - i,
    {
        proof {
            lemma_index_pixel(i as int, frame.width as int, frame.height as int);
        }
        let x: u32 = (i % frame.width as usize) as u32;
        let y: u32 = (i / frame.width as usize) as u32;
        tensors.push(tensor_from(fpu, frame, x, y, frame.width, frame.height, radius));
        i = i + 1;
    }
    tensors
}

/// The number of work groups that cover a side of `len` pixels.
pub open spec fn groups_for(len: u32) -> int {
    (len + GROUP_SIDE - 1) / (GROUP_SIDE as int)
}

/// The number of work groups that cover a side of `len` pixels.
pub fn group_count(len: u32) -> (r: u32)
    ensures
        r == groups_for(len),
{
    ((len as u64 + GROUP_SIDE as u64 - 1) / GROUP_SIDE as u64) as u32
}

/// Whether `job` hands the shader these frames, mask and parameters.
pub open spec fn is_job<F: Fn(FloatOp) -> u64>(
    fpu: &FloatUnit<F>,
    frames: Seq<RgbaFrame>,
    mask: Option<&MotionMask>,
    params: SkrFusionParams,
    job: GpuFusionJob,
) -> bool {
    let first = frames[0];
    let out_w = output_side(fpu, params, first.width);
    let out_h = output_side(fpu, params, first.height);
    &&& job.frames@ == packed(frames, frames.len())
    &&& job.tensors@ == tensor_words(
        fpu,
        &first,
        sigma_radius(fpu, params.structure_sigma) as int,
    )
    &&& job.mask@ == mask_words(mask, (first.width * first.height) as nat)
    &&& job.params == (GpuFusionParams {
        output_width: out_w,
        output_height: out_h,
        input_width: first.width,
        input_height: first.height,
        num_frames: frames.len() as u32,
        kernel_sigma: params.kernel_sigma,
        stretch: params.stretch,
        structure_sigma: params.structure_sigma,
        motion_compensation: if mask is Some {
            1
        } else {
            0
        },
    })
    &&& job.output@ == Seq::new((out_w * out_h * 4) as nat, |i: int| ZERO)
    &&& job.workgroups.0 == groups_for(out_w)
    &&& job.workgroups.1 == groups_for(out_h)
}

/// The weights of a mask, or as many full weights as there are pixels.
pub open spec fn mask_words(mask: Option<&MotionMask>, count: nat) -> Seq<u32> {
    match mask {
        Some(m) => m.weights@,
        None => Seq::new(count, |i: int| ONE),
    }
}

/// Whether the frames and the output can be counted.
pub open spec fn countable<F: Fn(FloatOp) -> u64>(
    fpu: &FloatUnit<F>,
    frames: Seq<RgbaFrame>,
    params: SkrFusionParams,
) -> bool {
    let out_w = output_side(fpu, params, frames[0].width);
    let out_h = output_side(fpu, params, frames[0].height);
    &&& frames.len() <= u32::MAX
    &&& forall|f: int|
        0 <= f < frames.len() ==> (#[trigger] frames[f]).wf() && frames[f].width * frames[f].height
            <= u32::MAX
    &&& out_w * out_h <= u32::MAX
    &&& out_w * out_h * 4 <= usize::MAX
}

/// Whether a fusion can be prepared by [`plan_fusion`].
pub fn can_plan<F: Fn(FloatOp) -> u64>(
    fpu: &FloatUnit<F>,
    frames: &Vec<RgbaFrame>,
    skr_params: &SkrFusionParams,
) -> (r: bool)
    ensures
        r == (frames@.len() >= 2 ==> countable(fpu, frames@, *skr_params)),
{
    if frames.len() < 2 {
        return true;
    }
    let scale = skr_params.output_scale;
    let out_w = fpu.to_u32(fpu.mul(fpu.from_u64(frames[0].width as u64), scale));
    let out_h = fpu.to_u32(fpu.mul(fpu.from_u64(frames[0].height as u64), scale));
    proof {
        lemma_pixel_product(out_w, out_h);
    }
    let out_pixels: u64 = out_w as u64 * out_h as u64;
    if frames.len() as u64 > u32::MAX as u64 || out_pixels > u32::MAX as u64 || out_pixels * 4
        > usize::MAX as u64 {
        return false;
    }
    let mut f: usize = 0;
    while f < frames.len()
        invariant
            f <= frames@.len(),
            frames@.len() >= 2,
            forall|k: int|
                0 <= k < f ==> (#[trigger] frames@[k]).wf() && frames@[k].width * frames@[k].height
                    <= u32::MAX,
        decreases frames@.len() - f,
    {
        let frame = &frames[f];
        proof {
            lemma_pixel_product(frame.width, frame.height);
        }
        if !frame.is_complete() || frame.width as u64 * frame.height as u64 > u32::MAX as u64 {
            let ghost k = f as int;
            assert(!(frames@[k].wf() && frames@[k].width * frames@[k].height <= u32::MAX));
            return false;
        }
        f = f + 1;
    }
    true
}

/// Prepare a fusion for the graphics processor.
///
/// No frame gives an empty image, and a single one is returned as it is; otherwise the shader is to
/// be run.
pub fn plan_fusion<F: Fn(FloatOp) -> u64>(
    fpu: &FloatUnit<F>,
    frames: &Vec<RgbaFrame>,
    motion_mask: Option<&MotionMask>,
    skr_params: &SkrFusionParams,
) -> (plan: GpuPlan)
    requires
        frames@.len() >= 2 ==> countable(fpu, frames@, *skr_params),
    ensures
        frames@.len() < 2 <==> plan is Done,
        plan matches GpuPlan::Done(out) ==> if frames@.len() == 0 {
            out.width == 0 && out.height == 0 && out.samples@.len() == 0
        } else {
            out.same_as(&frames@[0])
        },
        plan matches GpuPlan::Run(job) ==> is_job(fpu, frames@, motion_mask, *skr_params, job),
{
    if frames.len() == 0 {
        return GpuPlan::Done(RgbaFrame { width: 0, height: 0, samples: Vec::new() });
    }
    if frames.len() == 1 {
        return GpuPlan::Done(frames[0].copied());
    }
    let width = frames[0].width;
    let height = frames[0].height;
    let scale = skr_params.output_scale;
    let out_w = fpu.to_u32(fpu.mul(fpu.from_u64(width as u64), scale));
    let out_h = fpu.to_u32(fpu.mul(fpu.from_u64(height as u64), scale));
    assert(frames@[0].wf());
    let pixel_count: usize = (width * height) as usize;

    let structure_tensors = compute_tensors_cpu(fpu, &frames[0], skr_params.structure_sigma);
    let tensors = pack_tensors(
        fpu,
        &structure_tensors,
        Ghost(frames@[0]),
        Ghost(sigma_radius(fpu, skr_params.structure_sigma) as int),
    );

    let mut all_frames_data: Vec<u32> = Vec::new();
    let mut f: usize = 0;
    while f < frames.len()
        invariant
            f <= frames@.len(),
            forall|k: int| 0 <= k < frames@.len() ==> (#[trigger] frames@[k]).wf(),
            all_frames_data@ == packed(frames@, f as nat),
        decreases frames@.len() - f,
    {
        let mut data = extract_rgb_data(&frames[f]);
        all_frames_data.append(&mut data);
        f = f + 1;
    }

    let mask: Vec<u32> = match motion_mask {
        Some(m) => m.weights.clone(),
        None => {
            let mut full: Vec<u32> = Vec::new();
            full.resize(pixel_count, ONE);
            assert(full@ =~= mask_words(None, pixel_count as nat));
            full
        },
    };

    let mut output: Vec<u32> = Vec::new();
    output.resize((out_w * out_h) as usize * 4, ZERO);
    assert(output@ =~= Seq::new((out_w * out_h * 4) as nat, |i: int| ZERO));

    let params = GpuFusionParams {
        output_width: out_w,
        output_height: out_h,
        input_width: width,
        input_height: height,
        num_frames: frames.len() as u32,
        kernel_sigma: skr_params.kernel_sigma,
        stretch: skr_params.stretch,
        structure_sigma: skr_params.structure_sigma,
        motion_compensation: if motion_mask.is_some() {
            1
        } else {
            0
        },
    };
    GpuPlan::Run(
        GpuFusionJob {
            frames: all_frames_data,
            tensors,
            mask,
            params,
            output,
            workgroups: (group_count(out_w), group_count(out_h)),
        },
    )
}

/// Structure tensors as words.
fn pack_tensors<F: Fn(FloatOp) -> u64>(
    fpu: &FloatUnit<F>,
    tensors: &Vec<StructureTensor>,
    Ghost(frame): Ghost<RgbaFrame>,
    Ghost(radius): Ghost<int>,
) -> (words: Vec<u32>)
    requires
        tensors@.len() == frame.width * frame.height,
        forall|i: int|
            0 <= i < tensors@.len() ==> #[trigger] tensors@[i] == tensor_at(
                fpu,
                &frame,
                i % (frame.width as int),
                i / (frame.width as int),
                frame.width as int,
                frame.height as int,
                radius,
            ),
    ensures
        words@ == tensor_words(fpu, &frame, radius),
{
    let ghost goal = tensor_words(fpu, &frame, radius);
    let mut words: Vec<u32> = Vec::new();
    let mut i: usize = 0;
    while i < tensors.len()
        invariant
            i <= tensors@.len(),
            goal == tensor_words(fpu, &frame, radius),
            goal.len() == tensors@.len() * 3,
            forall|k: int|
                0 <= k < tensors@.len() ==> #[trigger] tensors@[k] == tensor_at(
                    fpu,
                    &frame,
                    k % (frame.width as int),
                    k / (frame.width as int),
                    frame.width as int,
                    frame.height as int,
                    radius,
                ),
            words@ == goal.take(i * 3),
        decreases tensors@.len() - i,
    {
        let t = tensors[i];
        words.push(t.ixx);
        words.push(t.ixy);
        words.push(t.iyy);
        assert(words@ =~= goal.take((i + 1) * 3));
        i = i + 1;
    }
    assert(words@ =~= goal);
    words
}

/// The little-endian bytes of some words.
pub open spec fn little_endian(words: Seq<u32>) -> Seq<u8> {
    Seq::new(words.len() * 4, |i: int| byte_of(words[i / 4], i % 4))
}

/// The big-endian bytes of some words.
pub open spec fn big_endian(words: Seq<u32>) -> Seq<u8> {
    Seq::new(words.len() * 4, |i: int| byte_of(words[i / 4], 3 - i % 4))
}

/// Byte `k` of a word, from the lowest up.
pub open spec fn byte_of(word: u32, k: int) -> u8 {
    if k == 0 {
        (word % 0x100) as u8
    } else if k == 1 {
        (word / 0x100 % 0x100) as u8
    } else if k == 2 {
        (word / 0x1_0000 % 0x100) as u8
    } else {
        (word / 0x100_0000) as u8
    }
}

/// The bytes of some words as they lie in memory, with `bytemuck::cast_slice`.
///
/// Believed of it: each word gives four bytes, in the byte order of the machine.
#[verifier::external_body]
pub(crate) fn memory_bytes(words: &Vec<u32>) -> (r: Vec<u8>)
    ensures
        r@ == little_endian(words@) || r@ == big_endian(words@),
{
    bytemuck::cast_slice::<u32, u8>(words).to_vec()
}

/// The contents of the buffers of a job.
pub struct JobBuffers {
    /// Colors of all frames.
    pub frames: Vec<u8>,
    /// Structure tensors.
    pub tensors: Vec<u8>,
    /// Motion weights.
    pub mask: Vec<u8>,
    /// The output before the shader runs.
    pub output: Vec<u8>,
    /// Parameters.
    pub params: Vec<u8>,
}

/// Whether `bytes` are the bytes of the words in some byte order.
pub open spec fn are_bytes_of(bytes: Seq<u8>, words: Seq<u32>) -> bool {
    bytes == little_endian(words) || bytes == big_endian(words)
}

impl GpuFusionJob {
    /// The contents of the buffers, in the byte order of the machine.
    pub fn buffers(&self) -> (b: JobBuffers)
        ensures
            are_bytes_of(b.frames@, self.frames@),
            are_bytes_of(b.tensors@, self.tensors@),
            are_bytes_of(b.mask@, self.mask@),
            are_bytes_of(b.output@, self.output@),
            are_bytes_of(b.params@, self.params.as_words()),
    {
        let params = self.params.words();
        JobBuffers {
            frames: memory_bytes(&self.frames),
            tensors: memory_bytes(&self.tensors),
            mask: memory_bytes(&self.mask),
            output: memory_bytes(&self.output),
            params: memory_bytes(&params),
        }
    }
}

/// The image that a shader left in its output buffer.
pub fn read_output(words: &Vec<u32>, out_w: u32, out_h: u32) -> (out: RgbaFrame)
    requires
        out_w * out_h * 4 <= words@.len(),
    ensures
        out.wf(),
        out.width == out_w,
        out.height == out_h,
        out.samples@ == words@.take(out_w * out_h * 4),
{
    proof {
        assert(words.len() == words@.len());
        assert(0 <= out_w * out_h) by (nonlinear_arith)
            requires
                0 <= out_w,
                0 <= out_h,
        ;
    }
    let count: usize = out_w as usize * out_h as usize * 4;
    let mut samples: Vec<u32> = Vec::with_capacity(count);
    let mut i: usize = 0;
    while i < count
        invariant
            i <= count,
            count <= words@.len(),
            samples@ == words@.take(i as int),
        decreases count - i,
    {
        samples.push(words[i]);
        assert(samples@ =~= words@.take(i + 1));
        i = i + 1;
    }
    RgbaFrame { width: out_w, height: out_h, samples }
}

/// The words that some bytes are in memory, with `bytemuck::pod_collect_to_vec`.
///
/// Believed of it: each four bytes give a word, in the byte order of the machine.
#[verifier::external_body]
fn memory_words(bytes: &[u8]) -> (r: Vec<u32>)
    requires
        bytes@.len() % 4 == 0,
    ensures
        bytes@ == little_endian(r@) || bytes@ == big_endian(r@),
{
    bytemuck::pod_collect_to_vec::<u8, u32>(bytes)
}

/// The image whose words, in the byte order of the machine, a shader left in its output buffer.
pub fn read_buffer(bytes: &[u8], out_w: u32, out_h: u32) -> (out: RgbaFrame)
    requires
        bytes@.len() == out_w * out_h * 16,
    ensures
        out.wf(),
        out.width == out_w,
        out.height == out_h,
        are_bytes_of(bytes@, out.samples@),
{
    let words = memory_words(bytes);
    assert(words@.take(out_w * out_h * 4) =~= words@);
    read_output(&words, out_w, out_h)
}

/// Whether a graphics processor may be asked. Whether one answers is found out when it is.
pub fn is_gpu_available() -> (r: bool)
    ensures
        r,
{
    true
}

/// The tensors that are handed to the shader are those of the regression.
pub proof fn tensors_agree_with_the_regression<F: Fn(FloatOp) -> u64>(
    fpu: &FloatUnit<F>,
    frame: &RgbaFrame,
    params: SkrFusionParams,
    here: Seq<StructureTensor>,
    there: Seq<StructureTensor>,
)
    requires
        are_tensors(fpu, frame, sigma_radius(fpu, params.structure_sigma) as int, here),
        are_tensors(fpu, frame, tensor_radius(fpu, params) as int, there),
    ensures
        here == there,
{
    assert(here =~= there);
}

/// The work groups cover every pixel of a side, and none of them lies wholly beyond it.
pub proof fn groups_cover_a_side(len: u32, p: int)
    requires
        0 <= p < len,
    ensures
        0 <= p / (GROUP_SIDE as int) < groups_for(len),
        (groups_for(len) - 1) * GROUP_SIDE < len,
{
}

proof fn lemma_word_value(a: u32)
    ensures
        a == byte_of(a, 0) + byte_of(a, 1) * 0x100 + byte_of(a, 2) * 0x1_0000 + byte_of(a, 3)
            * 0x100_0000,
{
    assert(a == a % 0x100 + (a / 0x100 % 0x100) * 0x100 + (a / 0x1_0000 % 0x100) * 0x1_0000 + (a
        / 0x100_0000) * 0x100_0000) by (bit_vector);
}

proof fn lemma_word_bytes(a: u32, b: u32)
    requires
        forall|k: int| 0 <= k < 4 ==> #[trigger] byte_of(a, k) == byte_of(b, k),
    ensures
        a == b,
{
    assert(byte_of(a, 0) == byte_of(b, 0));
    assert(byte_of(a, 1) == byte_of(b, 1));
    assert(byte_of(a, 2) == byte_of(b, 2));
    assert(byte_of(a, 3) == byte_of(b, 3));
    lemma_word_value(a);
    lemma_word_value(b);
}

/// Words are told by their bytes: in either byte order, other words have other bytes.
pub proof fn bytes_tell_words(a: Seq<u32>, b: Seq<u32>)
    requires
        little_endian(a) == little_endian(b) || big_endian(a) == big_endian(b),
    ensures
        a == b,
{
    if little_endian(a) == little_endian(b) {
        assert(little_endian(a).len() == little_endian(b).len());
    } else {
        assert(big_endian(a).len() == big_endian(b).len());
    }
    assert forall|i: int| 0 <= i < a.len() implies a[i] == b[i] by {
        assert forall|k: int| 0 <= k < 4 implies #[trigger] byte_of(a[i], k) == byte_of(b[i], k) by {
            if little_endian(a) == little_endian(b) {
                let p = i * 4 + k;
                assert(p / 4 == i && p % 4 == k);
                assert(little_endian(a)[p] == little_endian(b)[p]);
            } else {
                let p = i * 4 + (3 - k);
                assert(p / 4 == i && p % 4 == 3 - k);
                assert(big_endian(a)[p] == big_endian(b)[p]);
            }
        }
        lemma_word_bytes(a[i], b[i]);
    }
    assert(a =~= b);
}

proof fn lemma_packed_len(frames: Seq<RgbaFrame>, size: int, n: nat)
    requires
        n <= frames.len(),
        forall|f: int|
            0 <= f < frames.len() ==> (#[trigger] frames[f]).width * frames[f].height == size,
        size >= 0,
    ensures
        packed(frames, n).len() == n * size * 3,
    decreases n,
{
    if n > 0 {
        lemma_packed_len(frames, size, (n - 1) as nat);
        assert(frames[n - 1].width * frames[n - 1].height == size);
        assert((n - 1) * size * 3 + size * 3 == n * size * 3) by (nonlinear_arith);
    } else {
        assert(n * size * 3 == 0) by (nonlinear_arith)
            requires
                n == 0,
        ;
    }
}

/// Where the shader finds a color: channel `c` of pixel `p` of frame `f` stands behind the frames
/// before it and the pixels before it, where all frames have `size` pixels.
pub proof fn packed_color_place(frames: Seq<RgbaFrame>, size: int, n: nat, f: int, p: int, c: int)
    requires
        0 <= f < n <= frames.len(),
        forall|k: int|
            0 <= k < frames.len() ==> (#[trigger] frames[k]).width * frames[k].height == size,
        0 <= p < size,
        0 <= c < 3,
    ensures
        packed(frames, n)[f * size * 3 + p * 3 + c] == frames[f].samples@[p * 4 + c],
    decreases n,
{
    lemma_packed_len(frames, size, (n - 1) as nat);
    assert(frames[n - 1].width * frames[n - 1].height == size);
    if f < n - 1 {
        packed_color_place(frames, size, (n - 1) as nat, f, p, c);
        assert(0 <= f * size * 3 && f * size * 3 + size * 3 <= (n - 1) * size * 3)
            by (nonlinear_arith)
            requires
                0 <= f <= n - 2,
                0 <= size,
        ;
    } else {
        let i = p * 3 + c;
        assert(i / 3 == p && i % 3 == c);
        assert(rgb_words(&frames[f])[i] == frames[f].samples@[p * 4 + c]);
    }
}

} // verus!
