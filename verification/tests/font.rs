use handterm::font::{codepoint_span_cells, grapheme_span_cells};
use handterm::font::{resize_alpha_pixels, resize_rgba_pixels, sample_source_coords};
use handterm::font::{
    blend_alpha_pixel, blend_rgba_pixel, cell_width_cache_path_in, emoji_font_cache_path_in,
    font_cache_path_in, font_metrics_cache_path_in, is_last_resort_font, procedural_glyph,
    should_try_emoji_fallback, GlyphFormat,
};

#[test]
fn cache_paths_live_under_given_cache_dir() {
    let cache_dir = "/tmp/handterm-cache-root";
    assert_eq!(font_cache_path_in(cache_dir), "/tmp/handterm-cache-root/font_path");
    assert_eq!(
        font_metrics_cache_path_in(cache_dir),
        "/tmp/handterm-cache-root/font_metrics_v1"
    );
    assert_eq!(
        emoji_font_cache_path_in(cache_dir),
        "/tmp/handterm-cache-root/emoji_fonts_v1"
    );
    assert_eq!(
        cell_width_cache_path_in(cache_dir),
        "/tmp/handterm-cache-root/cell_width_v1"
    );
}

#[test]
fn cache_path_join_does_not_double_separators() {
    assert_eq!(font_cache_path_in("/cache/"), "/cache/font_path");
    assert_eq!(font_cache_path_in(""), "font_path");
}

#[test]
fn only_emoji_ranges_use_fallback_path() {
    assert!(should_try_emoji_fallback('😀' as u32));
    assert!(should_try_emoji_fallback('❤' as u32));
    assert!(!should_try_emoji_fallback('A' as u32));
    assert!(!should_try_emoji_fallback('é' as u32));
}

#[test]
fn procedural_block_glyphs_fill_expected_regions() {
    let glyph = procedural_glyph(0x258C, 8, 4, 1).expect("left half block should be procedural");
    for y in 0..4 {
        for x in 0..8 {
            let filled = glyph.pixels[y * 8 + x] == 255;
            assert_eq!(filled, x < 4, "unexpected left-half fill at ({x}, {y})");
        }
    }
}

#[test]
fn procedural_glyph_shapes_and_metrics() {
    let full = procedural_glyph(0x2588, 3, 5, 4).expect("full block");
    assert!(full.pixels.iter().all(|&p| p == 255));
    assert_eq!((full.width, full.height, full.bearing_y, full.advance), (3, 5, 1, 3));
    assert_eq!(full.format, GlyphFormat::Alpha);

    let upper = procedural_glyph(0x2580, 2, 5, 4).expect("upper half");
    for y in 0..5 {
        assert_eq!(upper.pixels[y * 2] == 255, y < 3);
    }
    let lower = procedural_glyph(0x2584, 2, 5, 4).expect("lower half");
    for y in 0..5 {
        assert_eq!(lower.pixels[y * 2] == 255, y >= 2);
    }
    let right = procedural_glyph(0x2590, 5, 1, 0).expect("right half");
    assert_eq!(right.pixels, vec![0, 0, 255, 255, 255]);

    let shade = procedural_glyph(0x2591, 4, 4, 3).expect("light shade");
    assert_eq!(shade.pixels.iter().filter(|&&p| p == 255).count(), 4);
    assert!(shade.pixels.contains(&0));

    let tiny = procedural_glyph(0x2588, 0, 0, 9).expect("degenerate cell");
    assert_eq!((tiny.width, tiny.height, tiny.bearing_y), (1, 1, 0));
    assert!(procedural_glyph('A' as u32, 8, 16, 12).is_none());
}

#[test]
fn rgba_glyph_pixels_alpha_blend_against_existing_rgb() {
    let mut pixel = 0x204060;
    blend_rgba_pixel(&mut pixel, &[0xff, 0x00, 0x00, 0x80]);
    assert_eq!(pixel, 0x8f1f2f);
}

#[test]
fn alpha_blend_extremes_keep_or_replace() {
    let mut pixel = 0x123456;
    blend_alpha_pixel(&mut pixel, 0xffffff, 0);
    assert_eq!(pixel, 0x123456);
    blend_alpha_pixel(&mut pixel, 0xabcdef, 255);
    assert_eq!(pixel, 0xabcdef);
    let mut pixel = 0x000000;
    blend_alpha_pixel(&mut pixel, 0xff8000, 128);
    assert_eq!(pixel, 0x804000);
}

#[test]
fn last_resort_font_is_recognized_by_file_name() {
    assert!(is_last_resort_font("/System/Library/Fonts/LastResort.otf"));
    assert!(is_last_resort_font("/Library/Fonts/.LastResort.ttf"));
    assert!(is_last_resort_font("lastresort"));
    assert!(!is_last_resort_font("/fonts/lastresort/Mono.ttf"));
    assert!(!is_last_resort_font("/fonts/DejaVuSansMono.ttf"));
}

#[test]
fn resizing_samples_pixel_centres() {
    assert_eq!(sample_source_coords(0, 0, 4, 4, 2, 2), (1, 1));
    assert_eq!(sample_source_coords(1, 1, 4, 4, 2, 2), (3, 3));
    assert_eq!(sample_source_coords(3, 0, 2, 1, 4, 1), (1, 0));
    let src = [1u8, 2, 3, 4];
    assert_eq!(resize_alpha_pixels(&src, 2, 2, 4, 1), vec![3, 3, 4, 4]);
    assert_eq!(resize_alpha_pixels(&src, 2, 2, 1, 1), vec![4]);
    let rgba = [1u8, 2, 3, 4, 5, 6, 7, 8];
    assert_eq!(resize_rgba_pixels(&rgba, 2, 1, 1, 2), vec![5, 6, 7, 8, 5, 6, 7, 8]);
}

#[test]
fn glyph_spans_follow_display_width() {
    assert_eq!(codepoint_span_cells('A' as u32), 1);
    assert_eq!(codepoint_span_cells('中' as u32), 2);
    assert_eq!(codepoint_span_cells(0x07), 1);
    assert_eq!(codepoint_span_cells(0xD800), 1);
    assert_eq!(grapheme_span_cells(""), 1);
    assert_eq!(grapheme_span_cells("ab"), 2);
    assert_eq!(grapheme_span_cells("中文"), 4);
}
