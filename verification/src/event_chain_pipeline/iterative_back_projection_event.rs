//! The iterative back-projection upscaling stage.

use vstd::prelude::*;
use crate::image::Image;
use crate::instant::upscale_req;
use crate::scale::Scale;
use crate::slow::{ibp_iterate, IterativeBackProjection};

verus! {

/// Upscales by iterative back-projection, parametrized by the iteration
/// count and learning rate.
#[derive(Debug, Clone, Copy)]
pub struct IterativeBackProjectionEvent {
    /// Number of refinement passes.
    pub iterations: usize,
    /// Learning-rate numerator.
    pub rate_num: u32,
    /// Learning-rate denominator.
    pub rate_den: u32,
}

impl IterativeBackProjectionEvent {
    /// The learning rate is a positive rational no greater than one, with
    /// small parts.
    pub open spec fn wf(self) -> bool {
        &&& 1 <= self.rate_den <= 1000
        &&& 1 <= self.rate_num <= self.rate_den
    }

    /// Standard preset: 10 iterations at learning rate 1/2.
    pub fn new() -> (r: IterativeBackProjectionEvent)
        ensures
            r.iterations == 10,
            r.rate_num == 1,
            r.rate_den == 2,
            r.wf(),
    {
        IterativeBackProjectionEvent { iterations: 10, rate_num: 1, rate_den: 2 }
    }

    /// Fast preset: 5 iterations at learning rate 1/2.
    pub fn fast() -> (r: IterativeBackProjectionEvent)
        ensures
            r.iterations == 5,
            r.rate_num == 1,
            r.rate_den == 2,
            r.wf(),
    {
        IterativeBackProjectionEvent { iterations: 5, rate_num: 1, rate_den: 2 }
    }

    /// Quality preset: 20 iterations at learning rate 3/10.
    pub fn quality() -> (r: IterativeBackProjectionEvent)
        ensures
            r.iterations == 20,
            r.rate_num == 3,
            r.rate_den == 10,
            r.wf(),
    {
        IterativeBackProjectionEvent { iterations: 20, rate_num: 3, rate_den: 10 }
    }

    /// Upscale the image by back-projection refinement of a bilinear seed.
    pub fn upscale(&self, image: &Image, scale: Scale) -> (out: Image)
        requires
            self.wf(),
            upscale_req(image@, scale),
        ensures
            out.wf(),
            out@ == ibp_iterate(
                image@,
                scale,
                self.rate_num as int,
                self.rate_den as int,
                self.iterations as nat,
            ),
    {
        let algo = IterativeBackProjection {
            iterations: self.iterations,
            rate_num: self.rate_num,
            rate_den: self.rate_den,
        };
        algo.upscale(image, scale)
    }

    /// The display name of this stage, by iteration count.
    pub fn name(&self) -> (r: &'static str)
        ensures
            r@ == self.name_spec(),
    {
        if self.iterations == 5 {
            "IBP-Fast"
        } else if self.iterations == 10 {
            "IBP-Standard"
        } else if self.iterations == 20 {
            "IBP-Quality"
        } else {
            "IBP"
        }
    }

    /// The text `name` returns for each preset.
    pub open spec fn name_spec(self) -> Seq<char> {
        if self.iterations == 5 {
            "IBP-Fast"@
        } else if self.iterations == 10 {
            "IBP-Standard"@
        } else if self.iterations == 20 {
            "IBP-Quality"@
        } else {
            "IBP"@
        }
    }
}

impl Default for IterativeBackProjectionEvent {
    /// The standard preset.
    fn default() -> (r: IterativeBackProjectionEvent)
        ensures
            r.iterations == 10,
    {
        IterativeBackProjectionEvent::new()
    }
}

} // verus!
