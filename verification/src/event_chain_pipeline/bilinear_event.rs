//! The bilinear upscaling stage.

use vstd::prelude::*;
use crate::image::Image;
use crate::instant::{bilin_grid, Bilinear, upscale_req};
use crate::scale::Scale;

verus! {

/// Upscales by bilinear interpolation.
#[derive(Debug, Clone, Copy)]
pub struct BilinearEvent;

impl BilinearEvent {
    /// Upscale the image by separable linear interpolation.
    pub fn upscale(&self, image: &Image, scale: Scale) -> (out: Image)
        requires
            upscale_req(image@, scale),
        ensures
            out.wf(),
            out@ == bilin_grid(image@, scale),
    {
        Bilinear.upscale(image, scale)
    }
}

} // verus!
