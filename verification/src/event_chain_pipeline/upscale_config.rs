//! Configuration for the single-algorithm upscaling stages.

use vstd::prelude::*;
use crate::scale::Scale;

verus! {

/// The scale factor handed to a single-algorithm upscaling stage.
#[derive(Debug, Clone, Copy)]
pub struct UpscaleConfig {
    pub scale: Scale,
}

impl UpscaleConfig {
    /// A configuration with the given scale factor.
    pub fn new(scale: Scale) -> (r: UpscaleConfig)
        ensures
            r.scale == scale,
    {
        UpscaleConfig { scale }
    }
}

} // verus!
