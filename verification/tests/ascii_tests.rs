use video_ascii_cli::ascii::{convert_frame_to_ascii, convert_to_transparent, AsciiOptions};
use video_ascii_cli::raster::GrayImage;
use video_ascii_cli::tone::map_luma_to_char;

#[test]
fn maps_luma_extremes_to_expected_charset_bounds() {
    let charset: Vec<char> = "# ".chars().collect();
    assert_eq!(map_luma_to_char(0, &charset), '#');
    assert_eq!(map_luma_to_char(255, &charset), ' ');
}

#[test]
fn conversion_creates_expected_dimensions() {
    let source = GrayImage::from_pixel(64, 32, 120);
    let options = AsciiOptions::new(16, "# ", 1);
    let output = convert_frame_to_ascii(&source, &options);

    // Source 64x32 → 8 columns x 4 rows (64/8, 32/8)
    // Output: 8*8 x 4*8 = 64 x 32
    assert_eq!(output.width(), 8 * 8);
    assert_eq!(output.height(), 4 * 8);
}

#[test]
fn conversion_is_strictly_black_and_white() {
    let mut source = GrayImage::from_pixel(16, 16, 0);
    for y in 8..16 {
        for x in 8..16 {
            source.put_pixel(x, y, 255);
        }
    }

    let options = AsciiOptions::new(4, "@ ", 1);
    let output = convert_frame_to_ascii(&source, &options);

    for pixel in output.pixels() {
        assert!(pixel == 0 || pixel == 255);
    }
}

#[test]
fn transparent_exact_match_makes_bg_transparent() {
    // 4x1 image: pixels 0, 100, 200, 255
    let mut img = GrayImage::new(4, 1);
    img.put_pixel(0, 0, 0);
    img.put_pixel(1, 0, 100);
    img.put_pixel(2, 0, 200);
    img.put_pixel(3, 0, 255);

    let rgba = convert_to_transparent(&img, 255, 0);

    // Only pixel at value 255 should be transparent
    assert_eq!(rgba.get_pixel(0, 0).3, 255, "pixel 0 should be opaque");
    assert_eq!(rgba.get_pixel(1, 0).3, 255, "pixel 100 should be opaque");
    assert_eq!(rgba.get_pixel(2, 0).3, 255, "pixel 200 should be opaque");
    assert_eq!(rgba.get_pixel(3, 0).3, 0, "pixel 255 (bg) should be transparent");
}

#[test]
fn transparent_threshold_removes_nearby_colors() {
    // bg_color = 240, threshold = 20 → values 220..=255 become transparent
    let mut img = GrayImage::new(4, 1);
    img.put_pixel(0, 0, 219); // outside threshold (219 < 220)
    img.put_pixel(1, 0, 220); // exactly at boundary (240 - 20 = 220)
    img.put_pixel(2, 0, 255); // within threshold (255 - 240 = 15 <= 20)
    img.put_pixel(3, 0, 100); // well outside threshold

    let rgba = convert_to_transparent(&img, 240, 20);

    assert_eq!(rgba.get_pixel(0, 0).3, 255, "219 should be opaque");
    assert_eq!(rgba.get_pixel(1, 0).3, 0, "220 should be transparent (|220-240|=20)");
    assert_eq!(rgba.get_pixel(2, 0).3, 0, "255 should be transparent (|255-240|=15)");
    assert_eq!(rgba.get_pixel(3, 0).3, 255, "100 should be opaque");
}

#[test]
fn ascii_conversion_outputs_black_and_white_pixels() {
    let mut source = GrayImage::from_pixel(32, 24, 255);
    for y in 0..12 {
        for x in 0..16 {
            source.put_pixel(x, y, 0);
        }
    }

    let options = AsciiOptions::new(8, "@ ", 1);
    let converted = convert_frame_to_ascii(&source, &options);

    // Source 32x24 → 4 columns x 3 rows (32/8, 24/8)
    // Output: 4*8 x 3*8 = 32 x 24
    assert_eq!(converted.width(), 4 * 8);
    assert_eq!(converted.height(), 3 * 8);
    assert!(converted.pixels().iter().all(|p| *p == 0 || *p == 255));
}
