//! Validation of image dimensions against configurable limits.

use vstd::prelude::*;
use crate::image::Image;

verus! {

/// Why a validation failed: a dimension under the minimum or over the
/// maximum.
#[derive(Debug, Clone, Copy, PartialEq, Eq, Structural)]
pub enum ValidationError {
    TooSmall,
    TooLarge,
}

/// Validates that both image dimensions lie within configured limits.
#[derive(Debug, Clone, Copy)]
pub struct ValidateImageEvent {
    pub min_size: usize,
    pub max_size: usize,
}

impl ValidateImageEvent {
    /// The default limits: at least 1 and at most 16384 pixels per axis.
    pub fn new() -> (r: ValidateImageEvent)
        ensures
            r.min_size == 1,
            r.max_size == 16384,
    {
        ValidateImageEvent { min_size: 1, max_size: 16384 }
    }

    /// Custom limits.
    pub fn with_limits(min_size: usize, max_size: usize) -> (r: ValidateImageEvent)
        ensures
            r.min_size == min_size,
            r.max_size == max_size,
    {
        ValidateImageEvent { min_size, max_size }
    }

    /// Check the image dimensions: too-small is reported before too-large,
    /// and success comes exactly when both dimensions are within limits.
    pub fn check(&self, image: &Image) -> (r: Result<(), ValidationError>)
        ensures
            (image@.w < self.min_size || image@.h < self.min_size) ==> r == Err::<
                (),
                ValidationError,
            >(ValidationError::TooSmall),
            !(image@.w < self.min_size || image@.h < self.min_size) && (image@.w > self.max_size
                || image@.h > self.max_size) ==> r == Err::<(), ValidationError>(
                ValidationError::TooLarge,
            ),
            (self.min_size <= image@.w <= self.max_size && self.min_size <= image@.h
                <= self.max_size) ==> r is Ok,
    {
        if image.width < self.min_size || image.height < self.min_size {
            return Err(ValidationError::TooSmall);
        }
        if image.width > self.max_size || image.height > self.max_size {
            return Err(ValidationError::TooLarge);
        }
        Ok(())
    }
}

impl Default for ValidateImageEvent {
    /// The default limits.
    fn default() -> (r: ValidateImageEvent)
        ensures
            r.min_size == 1,
            r.max_size == 16384,
    {
        ValidateImageEvent::new()
    }
}

} // verus!
