//! Content categories the classifier can assign, each carrying one fixed
//! recommended algorithm name.

use vstd::prelude::*;

verus! {

/// The six content categories of the classifier.
#[derive(Debug, Clone, Copy, PartialEq, Eq, Structural)]
pub enum ContentType {
    /// Low color count, sharp edges.
    PixelArt,
    /// Natural gradients, high detail.
    Photography,
    /// High contrast, sharp edges.
    Text,
    /// Mix of text and graphics.
    Screenshot,
    /// Hand-drawn, painterly.
    Artwork,
    /// Multiple content types.
    Mixed,
}

impl ContentType {
    /// A short human-readable account of the category.
    pub fn description(&self) -> (r: &'static str)
        ensures
            r@ == self.description_spec(),
    {
        match self {
            ContentType::PixelArt => "Pixel art with sharp edges and limited colors",
            ContentType::Photography => "Natural photography with smooth gradients",
            ContentType::Text => "Text or line art with high contrast",
            ContentType::Screenshot => "Screenshot with mixed content",
            ContentType::Artwork => "Digital artwork or paintings",
            ContentType::Mixed => "Mixed content types",
        }
    }

    /// The text `description` returns for each category.
    pub open spec fn description_spec(self) -> Seq<char> {
        match self {
            ContentType::PixelArt => "Pixel art with sharp edges and limited colors"@,
            ContentType::Photography => "Natural photography with smooth gradients"@,
            ContentType::Text => "Text or line art with high contrast"@,
            ContentType::Screenshot => "Screenshot with mixed content"@,
            ContentType::Artwork => "Digital artwork or paintings"@,
            ContentType::Mixed => "Mixed content types"@,
        }
    }

    /// The fixed registry key of the algorithm recommended for this
    /// category.
    pub fn recommended_algorithm(&self) -> (r: &'static str)
        ensures
            r@ == self.recommended_algorithm_spec(),
    {
        match self {
            ContentType::PixelArt => "nearest",
            ContentType::Photography => "lanczos3",
            ContentType::Text => "nearest",
            ContentType::Screenshot => "bicubic",
            ContentType::Artwork => "lanczos3",
            ContentType::Mixed => "bicubic",
        }
    }

    /// The key `recommended_algorithm` returns for each category.
    pub open spec fn recommended_algorithm_spec(self) -> Seq<char> {
        match self {
            ContentType::PixelArt => "nearest"@,
            ContentType::Photography => "lanczos3"@,
            ContentType::Text => "nearest"@,
            ContentType::Screenshot => "bicubic"@,
            ContentType::Artwork => "lanczos3"@,
            ContentType::Mixed => "bicubic"@,
        }
    }
}

} // verus!
