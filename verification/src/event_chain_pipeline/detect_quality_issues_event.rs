//! The quality-issue detection stage: decide from the measured metrics
//! whether denoising or sharpening is needed.

use vstd::prelude::*;
use crate::content_analysis::ContentAnalysis;
use crate::content_type::ContentType;

verus! {

/// The preprocessing needs detected from a content analysis.
#[derive(Debug, Clone, Copy, PartialEq, Eq, Structural)]
pub struct QualityIssues {
    pub needs_denoising: bool,
    pub needs_sharpening: bool,
}

/// Detects quality issues that preprocessing may correct.
#[derive(Debug, Clone, Copy)]
pub struct DetectQualityIssuesEvent;

impl DetectQualityIssuesEvent {
    /// The quality-issue detection stage.
    pub fn new() -> (r: DetectQualityIssuesEvent) {
        DetectQualityIssuesEvent
    }

    /// Denoising is needed exactly when the noise level exceeds 0.15;
    /// sharpening exactly when the edge sharpness is below 0.3 and the
    /// content is not photography.
    pub fn detect(&self, analysis: &ContentAnalysis) -> (r: QualityIssues)
        requires
            analysis.noise_level.wf(),
            analysis.edge_sharpness.wf(),
        ensures
            r.needs_denoising == analysis.noise_level.exceeds_spec(15, 100),
            r.needs_sharpening == (analysis.edge_sharpness.below_spec(3, 10)
                && analysis.content_type != ContentType::Photography),
    {
        let needs_denoising = analysis.noise_level.exceeds(15, 100);
        let needs_sharpening = analysis.edge_sharpness.below(3, 10) && analysis.content_type
            != ContentType::Photography;
        QualityIssues { needs_denoising, needs_sharpening }
    }
}

impl Default for DetectQualityIssuesEvent {
    /// The quality-issue detection stage.
    fn default() -> (r: DetectQualityIssuesEvent) {
        DetectQualityIssuesEvent::new()
    }
}

} // verus!
