//! The steps of a merge, as they are told to whoever waits for it.

use crate::basic_merge::MergeMethod;
use crate::cfa_fusion::{size_letters, size_text};
use crate::text::{number_letters, number_text};
use vstd::prelude::*;
use vstd::string::*;

verus! {

/// A step of a merge.
pub enum MergeStep {
    /// A number of frames is about to be loaded.
    Loading(usize),
    /// The mosaic of the named file is extracted.
    Extracting(String),
    /// The shifts between mosaics are measured.
    Measuring,
    /// A number of mosaics of the given size is about to be fused.
    FusingMeasured(usize, u32, u32),
    /// A noise model is built.
    ModelingNoise,
    /// A number of mosaics is fused, weighed by their noise.
    FusingWeighted(usize),
    /// The named file is developed.
    Processing(String),
    /// A number of developed frames is merged.
    Merging(usize, MergeMethod),
    /// Developed frames are aligned.
    Aligning,
    /// Moving subjects are searched.
    DetectingMotion,
    /// Developed frames are fused by regression.
    Regressing,
    /// The graphics processor is asked.
    RunningGpu,
    /// The frames are fused without a graphics processor.
    RunningCpu,
    /// The preview is made.
    Previewing,
    /// Files are searched for bursts.
    Scanning,
}

/// The name of a method.
pub open spec fn method_letters(method: MergeMethod) -> Seq<char> {
    match method {
        MergeMethod::Average => "Average"@,
        MergeMethod::Median => "Median"@,
        MergeMethod::SKR => "SKR"@,
    }
}

/// The name of a method.
fn method_text(method: MergeMethod) -> (r: &'static str)
    ensures
        r@ == method_letters(method),
{
    match method {
        MergeMethod::Average => "Average",
        MergeMethod::Median => "Median",
        MergeMethod::SKR => "SKR",
    }
}

impl MergeStep {
    /// The step in words.
    pub open spec fn letters(&self) -> Seq<char> {
        match *self {
            MergeStep::Loading(n) => "Loading "@ + number_letters(n as nat) + " frames..."@,
            MergeStep::Extracting(name) => "Extracting raw Bayer data from '"@ + name@ + "'..."@,
            MergeStep::Measuring => "Measuring actual frame displacements..."@,
            MergeStep::FusingMeasured(n, width, height) => "Fusing "@ + number_letters(n as nat)
                + " Bayer frames ("@ + size_letters(width, height) + ") with measured shifts..."@,
            MergeStep::ModelingNoise => "Building noise model..."@,
            MergeStep::FusingWeighted(n) => "Fusing "@ + number_letters(n as nat)
                + " Bayer frames with confidence-weighted fusion..."@,
            MergeStep::Processing(name) => "Processing '"@ + name@ + "'..."@,
            MergeStep::Merging(n, method) => "Merging "@ + number_letters(n as nat)
                + " frames using "@ + method_letters(method) + " method..."@,
            MergeStep::Aligning => "Aligning frames with sub-pixel precision..."@,
            MergeStep::DetectingMotion => "Detecting subject motion..."@,
            MergeStep::Regressing => "Fusing frames with steering kernel regression..."@,
            MergeStep::RunningGpu => "Running GPU-accelerated fusion..."@,
            MergeStep::RunningCpu => "Running CPU fusion..."@,
            MergeStep::Previewing => "Creating preview..."@,
            MergeStep::Scanning => "Scanning for pixel-shift frames..."@,
        }
    }

    /// The step in words.
    pub fn text(&self) -> (r: String)
        ensures
            r@ == self.letters(),
    {
        match self {
            MergeStep::Loading(n) => "Loading ".to_owned().concat(
                number_text(*n as u64).as_str(),
            ).concat(" frames..."),
            MergeStep::Extracting(name) => "Extracting raw Bayer data from '".to_owned().concat(
                name.as_str(),
            ).concat("'..."),
            MergeStep::Measuring => "Measuring actual frame displacements...".to_owned(),
            MergeStep::FusingMeasured(n, width, height) => "Fusing ".to_owned().concat(
                number_text(*n as u64).as_str(),
            ).concat(" Bayer frames (").concat(size_text(*width, *height).as_str()).concat(
                ") with measured shifts...",
            ),
            MergeStep::ModelingNoise => "Building noise model...".to_owned(),
            MergeStep::FusingWeighted(n) => "Fusing ".to_owned().concat(
                number_text(*n as u64).as_str(),
            ).concat(" Bayer frames with confidence-weighted fusion..."),
            MergeStep::Processing(name) => "Processing '".to_owned().concat(
                name.as_str(),
            ).concat("'..."),
            MergeStep::Merging(n, method) => "Merging ".to_owned().concat(
                number_text(*n as u64).as_str(),
            ).concat(" frames using ").concat(method_text(*method)).concat(" method..."),
            MergeStep::Aligning => "Aligning frames with sub-pixel precision...".to_owned(),
            MergeStep::DetectingMotion => "Detecting subject motion...".to_owned(),
            MergeStep::Regressing => "Fusing frames with steering kernel regression...".to_owned(),
            MergeStep::RunningGpu => "Running GPU-accelerated fusion...".to_owned(),
            MergeStep::RunningCpu => "Running CPU fusion...".to_owned(),
            MergeStep::Previewing => "Creating preview...".to_owned(),
            MergeStep::Scanning => "Scanning for pixel-shift frames...".to_owned(),
        }
    }
}

/// Whether `progress` can be told every step.
pub open spec fn listens<P: Fn(MergeStep)>(progress: &P) -> bool {
    forall|step: MergeStep| call_requires(*progress, (step,))
}

} // verus!
