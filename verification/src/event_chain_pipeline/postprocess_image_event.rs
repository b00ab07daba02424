//! The post-processing stage; currently a checkpoint with no image
//! transformation of its own.

use vstd::prelude::*;

verus! {

/// Applies post-processing effects when enabled; currently minimal.
#[derive(Debug, Clone, Copy)]
pub struct PostProcessImageEvent;

impl PostProcessImageEvent {
    /// The post-processing stage.
    pub fn new() -> (r: PostProcessImageEvent) {
        PostProcessImageEvent
    }
}

impl Default for PostProcessImageEvent {
    /// The post-processing stage.
    fn default() -> (r: PostProcessImageEvent) {
        PostProcessImageEvent::new()
    }
}

} // verus!
