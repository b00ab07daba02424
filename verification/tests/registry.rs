use image_upscaling::content_analysis::ContentAnalysis;
use image_upscaling::event_chain_pipeline::detect_quality_issues_event::DetectQualityIssuesEvent;
use image_upscaling::event_chain_pipeline::lanczos_event::LanczosEvent;
use image_upscaling::event_chain_pipeline::nearest_neighbor_event::NearestNeighborEvent;
use image_upscaling::event_chain_pipeline::pipeline_config::PipelineConfig;
use image_upscaling::event_chain_pipeline::preprocess_image_event::PreprocessImageEvent;
use image_upscaling::event_chain_pipeline::upscale_with_strategy_event::UpscaleWithStrategyEvent;
use image_upscaling::event_chain_pipeline::validate_image_event::{
    ValidateImageEvent, ValidationError,
};
use image_upscaling::image::{Image, Pixel};
use image_upscaling::scale::Scale;
use image_upscaling::upscale_tier::UpscaleTier;
use image_upscaling::{all_upscalers, get_traditional_upscaler, get_upscaler, upscalers_by_tier, UpscaleError};

#[test]
fn test_get_upscaler() {
    assert!(get_upscaler("nearest").is_some());
    assert!(get_upscaler("bilinear").is_some());
    assert!(get_upscaler("bicubic").is_some());
    assert!(get_upscaler("lanczos").is_some());
    assert!(get_upscaler("invalid").is_none());
}

#[test]
fn test_all_upscalers() {
    let upscalers = all_upscalers();
    assert!(upscalers.len() >= 10);
}

#[test]
fn test_upscalers_by_tier() {
    let instant = upscalers_by_tier(UpscaleTier::Instant);
    let fast = upscalers_by_tier(UpscaleTier::Fast);
    let medium = upscalers_by_tier(UpscaleTier::Medium);
    let slow = upscalers_by_tier(UpscaleTier::Slow);

    assert!(!instant.is_empty());
    assert!(!fast.is_empty());
    assert!(!medium.is_empty());
    assert!(!slow.is_empty());
}

#[test]
fn test_get_upscaler_is_case_insensitive() {
    assert!(get_upscaler("NEAREST").is_some());
    assert!(get_upscaler("Lanczos3").is_some());
    assert_eq!(get_upscaler("XBR").unwrap().name(), "Scale-by-Rules (xBR-like)");
}

#[test]
fn test_upscaler_names_and_tiers() {
    let u = get_upscaler("nearest").unwrap();
    assert_eq!(u.name(), "Nearest Neighbor");
    assert_eq!(u.tier(), UpscaleTier::Instant);

    let u = get_upscaler("lanczos2").unwrap();
    assert_eq!(u.name(), "Lanczos2");
    assert_eq!(u.tier(), UpscaleTier::Fast);

    let u = get_upscaler("tv").unwrap();
    assert_eq!(u.name(), "Total Variation Regularization");
    assert_eq!(u.tier(), UpscaleTier::Slow);
}

#[test]
fn test_get_traditional_upscaler() {
    assert!(get_traditional_upscaler("BICUBIC").is_ok());
    assert!(get_traditional_upscaler("ibp-quality").is_ok());
    assert!(matches!(
        get_traditional_upscaler("no_such_algorithm"),
        Err(UpscaleError::UnknownAlgorithm)
    ));
}

#[test]
fn test_registry_upscaler_runs() {
    let img = Image::new(4, 4);
    let two = Scale::whole(2).unwrap();
    let u = get_upscaler("bilinear").unwrap();
    let out = u.upscale(&img, two);
    assert_eq!(out.width, 8);
    assert_eq!(out.height, 8);
}

#[test]
fn test_validate_image_event() {
    let v = ValidateImageEvent::new();
    assert_eq!(v.min_size, 1);
    assert_eq!(v.max_size, 16384);

    let v = ValidateImageEvent::with_limits(4, 8);
    let small = Image::new(2, 6);
    let big = Image::new(6, 9);
    let good = Image::new(5, 6);
    assert_eq!(v.check(&small), Err(ValidationError::TooSmall));
    assert_eq!(v.check(&big), Err(ValidationError::TooLarge));
    assert!(v.check(&good).is_ok());
}

#[test]
fn test_pipeline_config_builders() {
    let scale = Scale::whole(2).unwrap();
    let config = PipelineConfig::new(scale)
        .with_algorithm(String::from("bicubic"))
        .with_preprocessing(false)
        .with_postprocessing(true);
    assert_eq!(config.force_algorithm.as_deref(), Some("bicubic"));
    assert!(!config.enable_preprocessing);
    assert!(config.enable_postprocessing);
}

#[test]
fn test_strategy_selection() {
    let mut img = Image::new(16, 16);
    for y in 0..16 {
        for x in 0..16 {
            let pixel = if (x / 4 + y / 4) % 2 == 0 {
                Pixel::new(255, 0, 0)
            } else {
                Pixel::new(0, 0, 255)
            };
            img.set_pixel(x, y, pixel);
        }
    }
    let analysis = ContentAnalysis::analyze(&img);
    let strategy = UpscaleWithStrategyEvent::new();

    // the checker recommendation resolves to the nearest-neighbor upscaler
    let auto = strategy.select(&analysis, &None).unwrap();
    assert_eq!(auto.name(), "Nearest Neighbor");

    // a forced name wins over the recommendation
    let forced = strategy.select(&analysis, &Some(String::from("ibp-fast"))).unwrap();
    assert_eq!(forced.name(), "Iterative Back-Projection");

    // an unknown forced name fails
    let unknown = strategy.select(&analysis, &Some(String::from("sharpest")));
    assert!(matches!(unknown, Err(UpscaleError::UnknownAlgorithm)));

    // the forced-name path matches exactly, without case folding
    let uppercase = strategy.select(&analysis, &Some(String::from("NEAREST")));
    assert!(matches!(uppercase, Err(UpscaleError::UnknownAlgorithm)));
}

#[test]
fn test_quality_issue_detection() {
    let mut noisy = Image::new(12, 12);
    for y in 0..12 {
        for x in 0..12 {
            let pixel = if (x + y) % 2 == 0 {
                Pixel::white()
            } else {
                Pixel::black()
            };
            noisy.set_pixel(x, y, pixel);
        }
    }
    let analysis = ContentAnalysis::analyze(&noisy);
    let issues = DetectQualityIssuesEvent::new().detect(&analysis);
    assert!(issues.needs_denoising);

    let flat = Image::new(12, 12);
    let flat_analysis = ContentAnalysis::analyze(&flat);
    let flat_issues = DetectQualityIssuesEvent::new().detect(&flat_analysis);
    assert!(!flat_issues.needs_denoising);
    assert!(flat_issues.needs_sharpening);
}

#[test]
fn test_preprocess_denoise_averages_neighborhood() {
    let mut img = Image::new(3, 3);
    img.set_pixel(1, 1, Pixel::new(90, 9, 18));
    let out = PreprocessImageEvent::new().run(&img, true, false);
    // the interior pixel becomes the truncated mean of its 3x3 neighborhood
    assert_eq!(out.get_pixel(1, 1).unwrap(), Pixel::new(10, 1, 2));
    // border pixels are unchanged
    assert_eq!(out.get_pixel(0, 0).unwrap(), Pixel::black());
}

#[test]
fn test_preprocess_sharpen_exact_value() {
    let mut img = Image::new(3, 3);
    for y in 0..3 {
        for x in 0..3 {
            img.set_pixel(x, y, Pixel::new(100, 100, 100));
        }
    }
    img.set_pixel(1, 1, Pixel::new(120, 120, 120));
    let out = PreprocessImageEvent::new().run(&img, false, true);
    // center 120, neighbor average 100: sharpened to 120 + (120 - 100) / 2
    assert_eq!(out.get_pixel(1, 1).unwrap(), Pixel::new(130, 130, 130));
}

#[test]
fn test_event_upscalers_match_algorithms() {
    let img = Image::new(4, 4);
    let two = Scale::whole(2).unwrap();
    let via_event = NearestNeighborEvent.upscale(&img, two);
    assert_eq!(via_event.width, 8);

    let lanczos_event = LanczosEvent::fast();
    assert_eq!(lanczos_event.lobes, 2);
    assert_eq!(lanczos_event.name(), "Lanczos2");
    let out = lanczos_event.upscale(&img, two);
    assert_eq!(out.height, 8);
}
