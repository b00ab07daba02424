use image_upscaling::fast::{Bicubic, Lanczos};
use image_upscaling::image::{Image, Pixel};
use image_upscaling::instant::{Bilinear, NearestNeighbor};
use image_upscaling::medium::{EdgeDirected, ScaleByRules};
use image_upscaling::scale::Scale;
use image_upscaling::slow::{IterativeBackProjection, TotalVariation};

fn scale2() -> Scale {
    Scale::whole(2).unwrap()
}

fn create_small_test_image() -> Image {
    let mut img = Image::new(2, 2);
    img.set_pixel(0, 0, Pixel::new(0, 0, 0)); // Black
    img.set_pixel(1, 0, Pixel::new(255, 255, 255)); // White
    img.set_pixel(0, 1, Pixel::new(255, 0, 0)); // Red
    img.set_pixel(1, 1, Pixel::new(0, 255, 0)); // Green
    img
}

fn create_gradient_image(step: usize) -> Image {
    let mut img = Image::new(4, 4);
    for y in 0..4 {
        for x in 0..4 {
            let val = ((x + y) * step) as u8;
            img.set_pixel(x, y, Pixel::new(val, val, val));
        }
    }
    img
}

fn create_edge_image() -> Image {
    let mut img = Image::new(8, 8);
    for y in 0..8 {
        for x in 0..8 {
            if x < 4 {
                img.set_pixel(x, y, Pixel::new(0, 0, 0));
            } else {
                img.set_pixel(x, y, Pixel::new(255, 255, 255));
            }
        }
    }
    img
}

#[test]
fn test_nearest_neighbor_2x() {
    let img = create_small_test_image();
    let upscaler = NearestNeighbor;
    let result = upscaler.upscale(&img, scale2());

    assert_eq!(result.width, 4);
    assert_eq!(result.height, 4);

    // Check that pixels are replicated
    assert_eq!(result.get_pixel(0, 0).unwrap(), Pixel::new(0, 0, 0));
    assert_eq!(result.get_pixel(1, 0).unwrap(), Pixel::new(0, 0, 0));
}

#[test]
fn test_bilinear_2x() {
    let img = create_small_test_image();
    let upscaler = Bilinear;
    let result = upscaler.upscale(&img, scale2());

    assert_eq!(result.width, 4);
    assert_eq!(result.height, 4);

    // Center pixels should be interpolated
    assert!(result.get_pixel(1, 1).is_some());
}

#[test]
fn test_bicubic_upscale() {
    let img = create_gradient_image(30);
    let upscaler = Bicubic;
    let result = upscaler.upscale(&img, scale2());

    assert_eq!(result.width, 8);
    assert_eq!(result.height, 8);
}

#[test]
fn test_lanczos_upscale() {
    let img = create_gradient_image(30);
    let upscaler = Lanczos::new();
    let result = upscaler.upscale(&img, scale2());

    assert_eq!(result.width, 8);
    assert_eq!(result.height, 8);
}

#[test]
fn test_lanczos_variants() {
    let img = create_gradient_image(30);

    let fast = Lanczos::fast();
    let normal = Lanczos::new();
    let hq = Lanczos::high_quality();

    assert_eq!(fast.lobes, 2);
    assert_eq!(normal.lobes, 3);
    assert_eq!(hq.lobes, 4);

    let _ = fast.upscale(&img, scale2());
    let _ = normal.upscale(&img, scale2());
    let _ = hq.upscale(&img, scale2());
}

#[test]
fn test_edge_directed() {
    let img = create_edge_image();
    let upscaler = EdgeDirected;
    let result = upscaler.upscale(&img, scale2());

    assert_eq!(result.width, 16);
    assert_eq!(result.height, 16);
}

#[test]
fn test_scale_by_rules() {
    let img = create_edge_image();
    let upscaler = ScaleByRules;
    let result = upscaler.upscale(&img, scale2());

    assert_eq!(result.width, 16);
    assert_eq!(result.height, 16);
}

#[test]
fn test_ibp() {
    let img = create_gradient_image(40);
    let upscaler = IterativeBackProjection::fast();
    let result = upscaler.upscale(&img, scale2());

    assert_eq!(result.width, 8);
    assert_eq!(result.height, 8);
}

#[test]
fn test_tv() {
    let img = create_gradient_image(40);
    let upscaler = TotalVariation::new();
    let result = upscaler.upscale(&img, scale2());

    assert_eq!(result.width, 8);
    assert_eq!(result.height, 8);
}

#[test]
fn test_output_dimensions_rounding() {
    // round(3 * 1/2) = round(1.5) = 2, rounding halves up
    let img = Image::new(3, 3);
    let half = Scale::new(1, 2).unwrap();
    let result = NearestNeighbor.upscale(&img, half);
    assert_eq!(result.width, 2);
    assert_eq!(result.height, 2);

    // round(4 * 3/2) = 6, round(3 * 3/2) = round(4.5) = 5
    let img2 = Image::new(4, 3);
    let one_and_half = Scale::new(3, 2).unwrap();
    let result2 = Bilinear.upscale(&img2, one_and_half);
    assert_eq!(result2.width, 6);
    assert_eq!(result2.height, 5);
}

#[test]
fn test_nearest_identity_at_scale_one() {
    let img = create_small_test_image();
    let one = Scale::whole(1).unwrap();
    let result = NearestNeighbor.upscale(&img, one);
    assert_eq!(result.width, 2);
    assert_eq!(result.height, 2);
    assert_eq!(result.pixels, img.pixels);
}

#[test]
fn test_lanczos_identity_at_scale_one() {
    // At scale 1 every sample lands on an integer kernel argument, where the
    // kernel is exactly one at zero and exactly zero elsewhere.
    let img = create_small_test_image();
    let one = Scale::whole(1).unwrap();
    for upscaler in [Lanczos::fast(), Lanczos::new(), Lanczos::high_quality()] {
        let result = upscaler.upscale(&img, one);
        assert_eq!(result.pixels, img.pixels);
    }
}

#[test]
fn test_bilinear_corners_2x() {
    let img = create_small_test_image();
    let result = Bilinear.upscale(&img, scale2());
    assert_eq!(result.get_pixel(0, 0).unwrap(), img.get_pixel(0, 0).unwrap());
    assert_eq!(result.get_pixel(3, 0).unwrap(), img.get_pixel(1, 0).unwrap());
    assert_eq!(result.get_pixel(0, 3).unwrap(), img.get_pixel(0, 1).unwrap());
    assert_eq!(result.get_pixel(3, 3).unwrap(), img.get_pixel(1, 1).unwrap());
}

#[test]
fn test_bicubic_corners_2x_locally_flat_image() {
    // On an image whose quadrants are constant, every corner's 4x4 clamped
    // neighborhood is constant, so the bicubic corner samples reproduce the
    // source corners exactly.
    let mut img = Image::new(4, 4);
    for y in 0..4 {
        for x in 0..4 {
            let val = match (x < 2, y < 2) {
                (true, true) => 40,
                (false, true) => 90,
                (true, false) => 150,
                (false, false) => 220,
            };
            img.set_pixel(x, y, Pixel::new(val, val, val));
        }
    }
    let result = Bicubic.upscale(&img, scale2());
    for (out, src) in [((0, 0), (0, 0)), ((7, 0), (3, 0)), ((0, 7), (0, 3)), ((7, 7), (3, 3))] {
        let got = result.get_pixel(out.0, out.1).unwrap();
        let want = img.get_pixel(src.0, src.1).unwrap();
        assert_eq!(got, want, "corner {:?}", out);
    }
}

#[test]
fn test_all_black_stays_black_under_kernel_resamplers() {
    let img = Image::new(8, 8);
    let expected = Image::new(16, 16);

    assert_eq!(NearestNeighbor.upscale(&img, scale2()).pixels, expected.pixels);
    assert_eq!(Bilinear.upscale(&img, scale2()).pixels, expected.pixels);
    assert_eq!(Bicubic.upscale(&img, scale2()).pixels, expected.pixels);
    assert_eq!(Lanczos::fast().upscale(&img, scale2()).pixels, expected.pixels);
    assert_eq!(Lanczos::new().upscale(&img, scale2()).pixels, expected.pixels);
    assert_eq!(Lanczos::high_quality().upscale(&img, scale2()).pixels, expected.pixels);
}

#[test]
fn test_zero_iteration_refiners_match_their_seeds() {
    let img = create_gradient_image(40);

    let ibp0 = IterativeBackProjection { iterations: 0, rate_num: 1, rate_den: 2 };
    let bilinear = Bilinear.upscale(&img, scale2());
    let refined = ibp0.upscale(&img, scale2());
    assert_eq!(refined.pixels, bilinear.pixels);

    let tv0 = TotalVariation { iterations: 0, lambda_num: 1, lambda_den: 10 };
    let bicubic = Bicubic.upscale(&img, scale2());
    let smoothed = tv0.upscale(&img, scale2());
    assert_eq!(smoothed.pixels, bicubic.pixels);
}

#[test]
fn test_ibp_identity_at_scale_one() {
    // At scale 1 the bilinear seed reproduces the source, the simulated
    // downsampling reproduces the seed, and every biased error channel is
    // exactly 128; since back-projection subtracts the bias before applying
    // the learning rate, the image must come through all iterations
    // unchanged rather than brighten.
    let img = create_small_test_image();
    let one = Scale::whole(1).unwrap();
    let result = IterativeBackProjection::new().upscale(&img, one);
    assert_eq!(result.pixels, img.pixels);
}

#[test]
fn test_weighted_average_zero_weight_is_black() {
    let empty: Vec<(Pixel, i128)> = Vec::new();
    assert_eq!(Pixel::weighted_average(&empty), Pixel::black());

    let zeros = vec![(Pixel::white(), 0i128), (Pixel::new(12, 34, 56), 0i128)];
    assert_eq!(Pixel::weighted_average(&zeros), Pixel::black());

    let cancelling = vec![(Pixel::white(), 5i128), (Pixel::new(12, 34, 56), -5i128)];
    assert_eq!(Pixel::weighted_average(&cancelling), Pixel::black());
}

#[test]
fn test_weighted_average_exact_value() {
    let pairs = vec![(Pixel::white(), 1i128), (Pixel::black(), 1i128)];
    assert_eq!(Pixel::weighted_average(&pairs), Pixel::new(127, 127, 127));
}

#[test]
fn test_lerp_exact_values() {
    let a = Pixel::new(10, 20, 30);
    let b = Pixel::new(20, 40, 60);
    assert_eq!(Pixel::lerp(a, b, 1, 2), Pixel::new(15, 30, 45));
    assert_eq!(Pixel::lerp(a, b, 3, 10), Pixel::new(13, 26, 39));
    // The weight clamps to [0, 1]
    assert_eq!(Pixel::lerp(a, b, -7, 2), a);
    assert_eq!(Pixel::lerp(a, b, 9, 2), b);
}

#[test]
fn test_get_pixel_clamped_far_out_of_range() {
    let img = create_small_test_image();
    assert_eq!(img.get_pixel_clamped(-1000, -1000), img.get_pixel(0, 0).unwrap());
    assert_eq!(img.get_pixel_clamped(1000, -5), img.get_pixel(1, 0).unwrap());
    assert_eq!(img.get_pixel_clamped(-3, 1000), img.get_pixel(0, 1).unwrap());
    assert_eq!(img.get_pixel_clamped(2, 2), img.get_pixel(1, 1).unwrap());
}

#[test]
fn test_image_accessors() {
    let mut img = Image::new(2, 2);
    assert!(img.get_pixel(2, 0).is_none());
    assert!(img.get_pixel(0, 2).is_none());

    // writes out of range are silently ignored
    img.set_pixel(5, 5, Pixel::white());
    assert_eq!(img.get_pixel(0, 0).unwrap(), Pixel::black());

    assert!(Image::from_pixels(2, 2, vec![Pixel::black(); 3]).is_none());
    let ok = Image::from_pixels(2, 2, vec![Pixel::black(); 4]);
    assert!(ok.is_some());
    assert_eq!(ok.unwrap().width, 2);
}

#[test]
fn test_scale_rejects_zero_parts() {
    assert!(Scale::new(0, 1).is_none());
    assert!(Scale::new(1, 0).is_none());
    assert!(Scale::new(2, 1).is_some());
    assert!(Scale::whole(0).is_none());
}
