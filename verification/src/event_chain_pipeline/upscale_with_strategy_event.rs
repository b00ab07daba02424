//! The strategy stage: resolve the algorithm to run from the classifier's
//! recommendation and an optional user override.

use vstd::prelude::*;
use crate::content_analysis::ContentAnalysis;
use crate::fast::{Bicubic, Lanczos};
use crate::instant::{Bilinear, NearestNeighbor};
use crate::slow::IterativeBackProjection;
use crate::upscaler::Upscaler;
use crate::{eq_exact, traditional_spec, UpscaleError};

verus! {

/// Selects and applies the optimal upscaling algorithm.
#[derive(Debug, Clone, Copy)]
pub struct UpscaleWithStrategyEvent;

/// The name the strategy resolves: the forced name when one is given,
/// otherwise the classifier's recommendation.
pub open spec fn strategy_name(analysis: ContentAnalysis, force: Option<String>) -> Seq<char> {
    match force {
        Some(f) => f@,
        None => analysis.content_type.recommended_algorithm_spec(),
    }
}

/// Resolve an exact algorithm name from the strategy table (the forced-name
/// path matches names exactly, without case folding).
fn resolve_strategy(name: &str) -> (r: Result<Upscaler, UpscaleError>)
    ensures
        traditional_spec(name@) is Some ==> r == Ok::<Upscaler, UpscaleError>(
            traditional_spec(name@)->0,
        ),
        traditional_spec(name@) is None ==> r == Err::<Upscaler, UpscaleError>(
            UpscaleError::UnknownAlgorithm,
        ),
        r is Ok ==> r->Ok_0.wf(),
{
    if eq_exact(name, "nearest") {
        Ok(Upscaler::NearestNeighbor(NearestNeighbor))
    } else if eq_exact(name, "bilinear") {
        Ok(Upscaler::Bilinear(Bilinear))
    } else if eq_exact(name, "bicubic") {
        Ok(Upscaler::Bicubic(Bicubic))
    } else if eq_exact(name, "lanczos2") {
        Ok(Upscaler::Lanczos(Lanczos::fast()))
    } else if eq_exact(name, "lanczos3") {
        Ok(Upscaler::Lanczos(Lanczos::new()))
    } else if eq_exact(name, "lanczos4") {
        Ok(Upscaler::Lanczos(Lanczos::high_quality()))
    } else if eq_exact(name, "ibp-fast") {
        Ok(Upscaler::IterativeBackProjection(IterativeBackProjection::fast()))
    } else if eq_exact(name, "ibp") || eq_exact(name, "ibp-standard") {
        Ok(Upscaler::IterativeBackProjection(IterativeBackProjection::new()))
    } else if eq_exact(name, "ibp-quality") {
        Ok(Upscaler::IterativeBackProjection(IterativeBackProjection::quality()))
    } else {
        Err(UpscaleError::UnknownAlgorithm)
    }
}

impl UpscaleWithStrategyEvent {
    /// The strategy stage.
    pub fn new() -> (r: UpscaleWithStrategyEvent) {
        UpscaleWithStrategyEvent
    }

    /// Resolve the upscaler to run: the forced name when one is given,
    /// otherwise the classifier's recommendation; an unregistered name fails
    /// with `UnknownAlgorithm`.
    pub fn select(&self, analysis: &ContentAnalysis, force: &Option<String>) -> (r: Result<
        Upscaler,
        UpscaleError,
    >)
        ensures
            traditional_spec(strategy_name(*analysis, *force)) is Some ==> r == Ok::<
                Upscaler,
                UpscaleError,
            >(traditional_spec(strategy_name(*analysis, *force))->0),
            traditional_spec(strategy_name(*analysis, *force)) is None ==> r == Err::<
                Upscaler,
                UpscaleError,
            >(UpscaleError::UnknownAlgorithm),
            r is Ok ==> r->Ok_0.wf(),
    {
        match force {
            Some(f) => resolve_strategy(f.as_str()),
            None => resolve_strategy(analysis.content_type.recommended_algorithm()),
        }
    }
}

impl Default for UpscaleWithStrategyEvent {
    /// The strategy stage.
    fn default() -> (r: UpscaleWithStrategyEvent) {
        UpscaleWithStrategyEvent::new()
    }
}

} // verus!
