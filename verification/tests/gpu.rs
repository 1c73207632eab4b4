use handterm::font::{GlyphData, GlyphFormat};
use handterm::gpu::build_gpu_glyph_tile;

#[test]
fn gpu_glyph_tile_spans_requested_cells() {
    let pixels = [255u8, 128, 64, 32];
    let glyph = GlyphData {
        pixels: &pixels,
        width: 2,
        height: 2,
        format: GlyphFormat::Alpha,
        bearing_x: 0,
        bearing_y: 2,
    };

    let (tile, width, height, left_pad, top_pad) = build_gpu_glyph_tile(&glyph, 2, 8, 4, 2);

    assert_eq!(width, 16);
    assert_eq!(height, 4);
    assert_eq!(left_pad, 0);
    assert_eq!(top_pad, 0);
    assert_eq!(tile.len(), 16 * 4 * 4);
    assert_eq!(&tile[0..8], &[0xff, 0xff, 0xff, 255, 0xff, 0xff, 0xff, 128]);
}

#[test]
fn gpu_glyph_tile_expands_for_right_overhang() {
    let pixels = [255u8, 255, 255, 255];
    let glyph = GlyphData {
        pixels: &pixels,
        width: 4,
        height: 1,
        format: GlyphFormat::Alpha,
        bearing_x: 6,
        bearing_y: 1,
    };

    let (_tile, width, height, left_pad, top_pad) = build_gpu_glyph_tile(&glyph, 1, 8, 4, 1);

    assert_eq!(width, 10);
    assert_eq!(height, 4);
    assert_eq!(left_pad, 0);
    assert_eq!(top_pad, 0);
}

#[test]
fn gpu_glyph_tile_preserves_left_overhang() {
    let pixels = [255u8, 255, 255, 255];
    let glyph = GlyphData {
        pixels: &pixels,
        width: 4,
        height: 1,
        format: GlyphFormat::Alpha,
        bearing_x: -2,
        bearing_y: 1,
    };

    let (_tile, width, height, left_pad, top_pad) = build_gpu_glyph_tile(&glyph, 1, 8, 4, 1);

    assert_eq!(width, 10);
    assert_eq!(height, 4);
    assert_eq!(left_pad, 2);
    assert_eq!(top_pad, 0);
}

#[test]
fn gpu_glyph_tile_preserves_top_overhang() {
    let pixels = [255u8, 255, 255, 255];
    let glyph = GlyphData {
        pixels: &pixels,
        width: 2,
        height: 2,
        format: GlyphFormat::Alpha,
        bearing_x: 0,
        bearing_y: 5,
    };

    let (_tile, width, height, left_pad, top_pad) = build_gpu_glyph_tile(&glyph, 1, 8, 4, 1);

    assert_eq!(width, 8);
    assert_eq!(height, 6);
    assert_eq!(left_pad, 0);
    assert_eq!(top_pad, 2);
}

#[test]
fn gpu_glyph_tile_copies_rgba_pixels_at_their_offset() {
    let pixels = [1u8, 2, 3, 4, 5, 6, 7, 8];
    let glyph = GlyphData {
        pixels: &pixels,
        width: 2,
        height: 1,
        format: GlyphFormat::Rgba,
        bearing_x: 1,
        bearing_y: 1,
    };
    let (tile, width, height, _, _) = build_gpu_glyph_tile(&glyph, 1, 4, 2, 1);
    assert_eq!((width, height), (4, 2));
    // Row 0 (the glyph's row), columns 1 and 2.
    assert_eq!(&tile[4..12], &[1, 2, 3, 4, 5, 6, 7, 8]);
    assert!(tile[0..4].iter().all(|&b| b == 0));
    assert!(tile[16..].iter().all(|&b| b == 0));
}
