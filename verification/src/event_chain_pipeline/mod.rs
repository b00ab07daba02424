//! The decision and compute stages of the upscaling pipeline: configuration,
//! validation, content analysis, quality detection, preprocessing, strategy
//! selection, and the per-algorithm upscaling stages. The orchestration that
//! sequences these stages, loads and saves files, and logs progress lives
//! outside the verified library.

pub mod analyze_content_event;
pub mod bicubic_event;
pub mod bilinear_event;
pub mod detect_quality_issues_event;
pub mod iterative_back_projection_event;
pub mod lanczos_event;
pub mod nearest_neighbor_event;
pub mod pipeline_config;
pub mod postprocess_image_event;
pub mod preprocess_image_event;
pub mod upscale_config;
pub mod upscale_with_strategy_event;
pub mod validate_image_event;
