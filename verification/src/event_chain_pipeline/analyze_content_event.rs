//! The analysis stage: measure an image and classify its content.

use vstd::prelude::*;
use crate::content_analysis::{analysis_spec, ContentAnalysis};
use crate::image::Image;

verus! {

/// Analyzes image content to pick a processing strategy.
#[derive(Debug, Clone, Copy)]
pub struct AnalyzeContentEvent;

impl AnalyzeContentEvent {
    /// The analysis stage.
    pub fn new() -> (r: AnalyzeContentEvent) {
        AnalyzeContentEvent
    }

    /// Measure and classify the image; the result is a function of the pixel
    /// content alone, so repeated runs agree.
    pub fn run(&self, image: &Image) -> (r: ContentAnalysis)
        requires
            image.wf(),
            image@.w >= 1,
            image@.h >= 1,
            image@.w * image@.h <= 0x1_0000_0000,
        ensures
            r == analysis_spec(image@),
            r.edge_sharpness.wf(),
            r.gradient_smoothness.wf(),
            r.text_likelihood.wf(),
            r.noise_level.wf(),
    {
        ContentAnalysis::analyze(image)
    }
}

impl Default for AnalyzeContentEvent {
    /// The analysis stage.
    fn default() -> (r: AnalyzeContentEvent) {
        AnalyzeContentEvent::new()
    }
}

} // verus!
