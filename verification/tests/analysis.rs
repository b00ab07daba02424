use image_upscaling::content_analysis::{classify_content, ContentAnalysis, Ratio};
use image_upscaling::content_type::ContentType;
use image_upscaling::image::{Image, Pixel};

fn checker_16x16() -> Image {
    // A simple pixel art pattern: 4x4 blocks of two alternating colors
    let mut img = Image::new(16, 16);
    for y in 0..16 {
        for x in 0..16 {
            let pixel = if (x / 4 + y / 4) % 2 == 0 {
                Pixel::new(255, 0, 0)
            } else {
                Pixel::new(0, 0, 255)
            };
            img.set_pixel(x, y, pixel);
        }
    }
    img
}

#[test]
fn test_pixel_art_detection() {
    let img = checker_16x16();

    let analysis = ContentAnalysis::analyze(&img);
    assert!(analysis.color_count < 10);
    assert!(analysis.edge_sharpness.exceeds(1, 2));
}

#[test]
fn test_gradient_detection() {
    // Create a smooth gradient
    let mut img = Image::new(100, 100);
    for y in 0..100 {
        for x in 0..100 {
            let val = ((x + y) * 255 / 200) as u8;
            img.set_pixel(x, y, Pixel::new(val, val, val));
        }
    }

    let analysis = ContentAnalysis::analyze(&img);
    assert!(analysis.gradient_smoothness.exceeds(1, 2));
}

#[test]
fn test_checker_classifies_as_pixel_art() {
    let img = checker_16x16();
    let analysis = ContentAnalysis::analyze(&img);
    assert_eq!(analysis.content_type, ContentType::PixelArt);
    assert_eq!(analysis.content_type.recommended_algorithm(), "nearest");
}

#[test]
fn test_analysis_is_deterministic() {
    let img = checker_16x16();
    let first = ContentAnalysis::analyze(&img);
    let second = ContentAnalysis::analyze(&img);
    assert_eq!(first, second);
}

#[test]
fn test_classify_decision_table() {
    let lo = Ratio { num: 1, den: 10 };
    let mid = Ratio { num: 4, den: 10 };
    let hi = Ratio { num: 9, den: 10 };

    // few colors + sharp edges
    assert_eq!(classify_content(8, hi, lo, lo), ContentType::PixelArt);
    // high text likelihood + sharp edges, but too many colors for pixel art
    assert_eq!(classify_content(500, hi, lo, hi), ContentType::Text);
    // moderate text likelihood
    assert_eq!(classify_content(500, lo, lo, mid), ContentType::Screenshot);
    // smooth gradients over many colors
    assert_eq!(classify_content(5000, lo, hi, lo), ContentType::Photography);
    // moderate color complexity
    assert_eq!(classify_content(500, lo, lo, lo), ContentType::Artwork);
    // nothing matches
    assert_eq!(classify_content(8, lo, lo, lo), ContentType::Mixed);
}

#[test]
fn test_color_count_short_circuits() {
    // 80x80 distinct colors: more than 4096 distinct values stop the count
    let mut img = Image::new(80, 80);
    for y in 0..80 {
        for x in 0..80 {
            let i = y * 80 + x;
            img.set_pixel(x, y, Pixel::new((i / 256) as u8, (i % 256) as u8, 7));
        }
    }
    let analysis = ContentAnalysis::analyze(&img);
    assert_eq!(analysis.color_count, 4097);
}

#[test]
fn test_content_type_descriptions() {
    assert_eq!(ContentType::PixelArt.recommended_algorithm(), "nearest");
    assert_eq!(ContentType::Photography.recommended_algorithm(), "lanczos3");
    assert_eq!(ContentType::Text.recommended_algorithm(), "nearest");
    assert_eq!(ContentType::Screenshot.recommended_algorithm(), "bicubic");
    assert_eq!(ContentType::Artwork.recommended_algorithm(), "lanczos3");
    assert_eq!(ContentType::Mixed.recommended_algorithm(), "bicubic");
    assert_eq!(ContentType::Mixed.description(), "Mixed content types");
}
