//! Descriptive cost classes for the upscaling algorithms; used for grouping
//! and filtering, never for scheduling.

use vstd::prelude::*;

verus! {

/// Asymptotic cost class of an algorithm, from cheapest to dearest.
#[derive(Debug, Clone, Copy, PartialEq, Eq, Structural)]
pub enum UpscaleTier {
    /// Linear with a tiny constant: nearest neighbor, bilinear.
    Instant,
    /// Linear with larger constants: bicubic, Lanczos.
    Fast,
    /// Gradient analysis or pattern rules: edge-directed, pattern-rule.
    Medium,
    /// Iterative refinement: back-projection, total-variation.
    Slow,
}

impl UpscaleTier {
    /// A short human-readable account of the tier.
    pub fn description(&self) -> (r: &'static str)
        ensures
            r@ == self.description_spec(),
    {
        match self {
            UpscaleTier::Instant => "Instant (nearest neighbor)",
            UpscaleTier::Fast => "Fast (bilinear, bicubic, Lanczos)",
            UpscaleTier::Medium => "Medium (edge-directed, fractal)",
            UpscaleTier::Slow => "Slow (iterative optimization)",
        }
    }

    /// The text `description` returns for each tier.
    pub open spec fn description_spec(self) -> Seq<char> {
        match self {
            UpscaleTier::Instant => "Instant (nearest neighbor)"@,
            UpscaleTier::Fast => "Fast (bilinear, bicubic, Lanczos)"@,
            UpscaleTier::Medium => "Medium (edge-directed, fractal)"@,
            UpscaleTier::Slow => "Slow (iterative optimization)"@,
        }
    }
}

} // verus!
