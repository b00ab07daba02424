//! The nearest-neighbor upscaling stage.

use vstd::prelude::*;
use crate::image::Image;
use crate::instant::{nn_grid, NearestNeighbor, upscale_req};
use crate::scale::Scale;

verus! {

/// Upscales by nearest-neighbor replication.
#[derive(Debug, Clone, Copy)]
pub struct NearestNeighborEvent;

impl NearestNeighborEvent {
    /// Upscale the image by pixel replication.
    pub fn upscale(&self, image: &Image, scale: Scale) -> (out: Image)
        requires
            upscale_req(image@, scale),
        ensures
            out.wf(),
            out@ == nn_grid(image@, scale),
    {
        NearestNeighbor.upscale(image, scale)
    }
}

} // verus!
