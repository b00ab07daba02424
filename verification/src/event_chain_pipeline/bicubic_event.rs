//! The bicubic upscaling stage.

use vstd::prelude::*;
use crate::fast::{bicubic_grid, Bicubic};
use crate::image::Image;
use crate::instant::upscale_req;
use crate::scale::Scale;

verus! {

/// Upscales by bicubic (Catmull-Rom) interpolation.
#[derive(Debug, Clone, Copy)]
pub struct BicubicEvent;

impl BicubicEvent {
    /// Upscale the image by bicubic interpolation.
    pub fn upscale(&self, image: &Image, scale: Scale) -> (out: Image)
        requires
            upscale_req(image@, scale),
        ensures
            out.wf(),
            out@ == bicubic_grid(image@, scale),
    {
        Bicubic.upscale(image, scale)
    }
}

} // verus!
