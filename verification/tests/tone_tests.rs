use video_ascii_cli::ascii::AsciiOptions;
use video_ascii_cli::render::{graded_shade, RenderMode};
use video_ascii_cli::tone::{enhance_contrast, map_luma_to_char, quantize};

/// The contrast stretch evaluated in floating point.
fn stretch_in_floats(luma: u8) -> u8 {
    let f = luma as f32 / 255.0;
    let enhanced = ((f - 0.5) * 1.5 + 0.5).clamp(0.0, 1.0);
    (enhanced * 255.0) as u8
}

/// The quantisation evaluated in floating point.
fn quantize_in_floats(brightness: u8, shades: u32) -> u8 {
    let step = 255.0 / (shades as f32 - 1.0);
    let index = (brightness as f32 / step).round().clamp(0.0, shades as f32 - 1.0) as u8;
    (index as f32 * 255.0 / (shades as f32 - 1.0)).round() as u8
}

#[test]
fn contrast_stretch_has_exact_values() {
    assert_eq!(enhance_contrast(0), 0);
    assert_eq!(enhance_contrast(42), 0);
    assert_eq!(enhance_contrast(43), 0);
    assert_eq!(enhance_contrast(44), 2);
    assert_eq!(enhance_contrast(120), 116);
    assert_eq!(enhance_contrast(127), 126);
    assert_eq!(enhance_contrast(128), 128);
    assert_eq!(enhance_contrast(212), 254);
    assert_eq!(enhance_contrast(213), 255);
    assert_eq!(enhance_contrast(255), 255);
}

#[test]
fn contrast_stretch_agrees_with_floating_point() {
    for luma in 0..=255u8 {
        assert_eq!(enhance_contrast(luma), stretch_in_floats(luma), "luma {luma}");
    }
}

#[test]
fn contrast_stretch_is_monotone() {
    for luma in 0..255u8 {
        assert!(enhance_contrast(luma) <= enhance_contrast(luma + 1));
    }
}

#[test]
fn single_glyph_gradient_always_yields_that_glyph() {
    let charset = vec!['x'];
    for luma in 0..=255u8 {
        assert_eq!(map_luma_to_char(luma, &charset), 'x');
    }
}

#[test]
fn glyph_index_rounds_down() {
    let charset: Vec<char> = "@#*+=-:. ".chars().collect();
    // 128 * 8 / 255 = 4.01…
    assert_eq!(map_luma_to_char(128, &charset), '=');
    // 127 * 8 / 255 = 3.98…
    assert_eq!(map_luma_to_char(127, &charset), '+');
    // 254 * 8 / 255 = 7.96…
    assert_eq!(map_luma_to_char(254, &charset), '.');
    assert_eq!(map_luma_to_char(255, &charset), ' ');
    assert_eq!(map_luma_to_char(0, &charset), '@');
    assert_eq!(map_luma_to_char(31, &charset), '@');
    assert_eq!(map_luma_to_char(32, &charset), '#');
}

#[test]
fn glyph_selection_keeps_positions_of_repeated_glyphs() {
    let charset = vec!['a', 'b', 'a'];
    assert_eq!(map_luma_to_char(0, &charset), 'a');
    assert_eq!(map_luma_to_char(128, &charset), 'b');
    assert_eq!(map_luma_to_char(255, &charset), 'a');
}

#[test]
fn quantisation_has_exact_values() {
    // Three shades: 0, 128 (127.5 rounded up), 255.
    assert_eq!(quantize(0, 3), 0);
    assert_eq!(quantize(63, 3), 0);
    assert_eq!(quantize(64, 3), 128);
    assert_eq!(quantize(128, 3), 128);
    assert_eq!(quantize(191, 3), 128);
    assert_eq!(quantize(192, 3), 255);
    assert_eq!(quantize(255, 3), 255);
    // Four shades: 0, 85, 170, 255.
    assert_eq!(quantize(42, 4), 0);
    assert_eq!(quantize(43, 4), 85);
    assert_eq!(quantize(100, 4), 85);
    assert_eq!(quantize(128, 4), 170);
    assert_eq!(quantize(213, 4), 255);
    // One shade per byte value changes nothing.
    for tone in 0..=255u8 {
        assert_eq!(quantize(tone, 256), tone);
    }
}

#[test]
fn quantisation_agrees_with_floating_point() {
    for shades in 3..=256u32 {
        for tone in 0..=255u8 {
            assert_eq!(
                quantize(tone, shades),
                quantize_in_floats(tone, shades),
                "tone {tone}, shades {shades}"
            );
        }
    }
}

#[test]
fn quantisation_keeps_the_extremes_for_any_shade_count() {
    for shades in [2u32, 3, 7, 256, 257, 1000, 65_536, u32::MAX] {
        assert_eq!(quantize(0, shades), 0);
        assert_eq!(quantize(255, shades), 255);
    }
}

#[test]
fn two_shades_threshold_at_128() {
    assert_eq!(graded_shade(0, 2), 0);
    assert_eq!(graded_shade(127, 2), 0);
    assert_eq!(graded_shade(128, 2), 255);
    assert_eq!(graded_shade(255, 2), 255);
    for tone in 0..=255u8 {
        assert_eq!(graded_shade(tone, 2), quantize(tone, 2));
    }
}

#[test]
fn graded_shade_uses_the_steps_from_three_shades_on() {
    assert_eq!(graded_shade(100, 4), 85);
    assert_eq!(graded_shade(128, 3), 128);
}

#[test]
fn render_mode_follows_the_shade_count() {
    assert_eq!(RenderMode::from_shades(0), RenderMode::BlackWhite);
    assert_eq!(RenderMode::from_shades(1), RenderMode::BlackWhite);
    assert_eq!(RenderMode::from_shades(2), RenderMode::Graded { shades: 2 });
    assert_eq!(RenderMode::from_shades(256), RenderMode::Graded { shades: 256 });
}

#[test]
fn render_mode_inks() {
    for tone in [0u8, 1, 127, 128, 200, 255] {
        assert_eq!(RenderMode::BlackWhite.ink(tone), 0);
    }
    assert_eq!(RenderMode::Graded { shades: 2 }.ink(127), 0);
    assert_eq!(RenderMode::Graded { shades: 2 }.ink(128), 255);
    assert_eq!(RenderMode::Graded { shades: 4 }.ink(100), 85);
}

#[test]
fn options_keep_a_given_charset() {
    let options = AsciiOptions::new(120, "@%#*+=-:. ", 4);
    assert_eq!(options.columns, 120);
    assert_eq!(options.charset, "@%#*+=-:. ".chars().collect::<Vec<char>>());
    assert_eq!(options.shades, 4);
}

#[test]
fn options_replace_an_empty_charset_by_the_default() {
    let options = AsciiOptions::new(10, "", 1);
    assert_eq!(options.charset, vec!['@', '#', '*', '+', '=', '-', ':', '.', ' ']);
}

#[test]
fn options_keep_characters_beyond_ascii() {
    let options = AsciiOptions::new(10, "█▓▒░ ", 1);
    assert_eq!(options.charset, vec!['█', '▓', '▒', '░', ' ']);
}

#[test]
fn options_clamp_columns_and_shades() {
    assert_eq!(AsciiOptions::new(0, "#", 1).columns, 1);
    assert_eq!(AsciiOptions::new(1, "#", 1).columns, 1);
    assert_eq!(AsciiOptions::new(u32::MAX, "#", 1).columns, u32::MAX);
    assert_eq!(AsciiOptions::new(1, "#", 0).shades, 1);
    assert_eq!(AsciiOptions::new(1, "#", 1).shades, 1);
    assert_eq!(AsciiOptions::new(1, "#", 256).shades, 256);
    assert_eq!(AsciiOptions::new(1, "#", 257).shades, 256);
    assert_eq!(AsciiOptions::new(1, "#", u32::MAX).shades, 256);
}
