//! The Lanczos upscaling stage.

use vstd::prelude::*;
use crate::fast::{lanczos_grid, Lanczos};
use crate::image::Image;
use crate::instant::upscale_req;
use crate::scale::Scale;

verus! {

/// Upscales by Lanczos resampling, parametrized by the lobe count.
#[derive(Debug, Clone, Copy)]
pub struct LanczosEvent {
    /// Kernel half-width; 2, 3 or 4 lobes.
    pub lobes: i32,
}

impl LanczosEvent {
    /// The lobe count is one the kernel supports.
    pub open spec fn wf(self) -> bool {
        2 <= self.lobes <= 4
    }

    /// Lanczos with 3 lobes.
    pub fn new() -> (r: LanczosEvent)
        ensures
            r.lobes == 3,
            r.wf(),
    {
        LanczosEvent { lobes: 3 }
    }

    /// Lanczos with 2 lobes.
    pub fn fast() -> (r: LanczosEvent)
        ensures
            r.lobes == 2,
            r.wf(),
    {
        LanczosEvent { lobes: 2 }
    }

    /// Lanczos with 4 lobes.
    pub fn high_quality() -> (r: LanczosEvent)
        ensures
            r.lobes == 4,
            r.wf(),
    {
        LanczosEvent { lobes: 4 }
    }

    /// Upscale the image by Lanczos resampling.
    pub fn upscale(&self, image: &Image, scale: Scale) -> (out: Image)
        requires
            self.wf(),
            upscale_req(image@, scale),
        ensures
            out.wf(),
            out@ == lanczos_grid(image@, scale, self.lobes as int),
    {
        let l = Lanczos { lobes: self.lobes };
        l.upscale(image, scale)
    }

    /// The display name of this stage, by lobe count.
    pub fn name(&self) -> (r: &'static str)
        ensures
            r@ == (Lanczos { lobes: self.lobes }).name_spec(),
    {
        let l = Lanczos { lobes: self.lobes };
        l.name()
    }
}

impl Default for LanczosEvent {
    /// The 3-lobe kernel.
    fn default() -> (r: LanczosEvent)
        ensures
            r.lobes == 3,
    {
        LanczosEvent::new()
    }
}

} // verus!
