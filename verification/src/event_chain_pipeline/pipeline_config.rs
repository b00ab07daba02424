//! Configuration threaded through the multi-stage pipeline.

use vstd::prelude::*;
use crate::scale::Scale;

verus! {

/// Configuration for one pipeline run: the scale factor, an optional forced
/// algorithm name, and the preprocessing/postprocessing toggles.
#[derive(Debug, Clone)]
pub struct PipelineConfig {
    pub scale: Scale,
    pub force_algorithm: Option<String>,
    pub enable_preprocessing: bool,
    pub enable_postprocessing: bool,
}

impl PipelineConfig {
    /// A configuration with the given scale factor, no forced algorithm and
    /// both processing stages enabled.
    pub fn new(scale: Scale) -> (r: PipelineConfig)
        ensures
            r.scale == scale,
            r.force_algorithm is None,
            r.enable_preprocessing,
            r.enable_postprocessing,
    {
        PipelineConfig {
            scale,
            force_algorithm: None,
            enable_preprocessing: true,
            enable_postprocessing: true,
        }
    }

    /// The same configuration with a forced algorithm name.
    pub fn with_algorithm(self, algorithm: String) -> (r: PipelineConfig)
        ensures
            r.scale == self.scale,
            r.force_algorithm == Some(algorithm),
            r.enable_preprocessing == self.enable_preprocessing,
            r.enable_postprocessing == self.enable_postprocessing,
    {
        PipelineConfig { force_algorithm: Some(algorithm), ..self }
    }

    /// The same configuration with preprocessing switched on or off.
    pub fn with_preprocessing(self, enabled: bool) -> (r: PipelineConfig)
        ensures
            r.scale == self.scale,
            r.force_algorithm == self.force_algorithm,
            r.enable_preprocessing == enabled,
            r.enable_postprocessing == self.enable_postprocessing,
    {
        PipelineConfig { enable_preprocessing: enabled, ..self }
    }

    /// The same configuration with postprocessing switched on or off.
    pub fn with_postprocessing(self, enabled: bool) -> (r: PipelineConfig)
        ensures
            r.scale == self.scale,
            r.force_algorithm == self.force_algorithm,
            r.enable_preprocessing == self.enable_preprocessing,
            r.enable_postprocessing == enabled,
    {
        PipelineConfig { enable_postprocessing: enabled, ..self }
    }
}

} // verus!
