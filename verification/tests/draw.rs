use handterm::draw::{draw_bg, draw_rasterized_glyph};
use handterm::font::{GlyphFormat, RasterizedGlyph};

#[test]
fn cell_background_fills_only_the_cell() {
    let mut buf = vec![7u32; 4 * 3];
    draw_bg(&mut buf, 4, 3, 1, 0, 2, 2, 0xabcdef);
    let f = 0xabcdef;
    assert_eq!(buf, vec![7, 7, f, f, 7, 7, f, f, 7, 7, 7, 7]);
}

#[test]
fn cell_background_is_clipped_to_the_framebuffer() {
    let mut buf = vec![0u32; 4 * 4];
    draw_bg(&mut buf, 4, 4, 1, 1, 3, 3, 1);
    let mut expected = vec![0u32; 16];
    expected[3 * 4 + 3] = 1;
    assert_eq!(buf, expected);
}

fn glyph(pixels: Vec<u8>, width: usize, height: usize, format: GlyphFormat, bx: i32, by: i32) -> RasterizedGlyph {
    RasterizedGlyph {
        pixels,
        width,
        height,
        format,
        bearing_x: bx,
        bearing_y: by,
        advance: width as i32,
    }
}

#[test]
fn coverage_glyph_blends_the_foreground_and_is_clipped_above() {
    let mut buf = vec![0u32; 4 * 4];
    let g = glyph(vec![255, 0, 128, 255], 2, 2, GlyphFormat::Alpha, 1, 2);
    // Top row lands at 0 + (4 - 3) - 2 = -1, so only the second glyph row shows.
    draw_rasterized_glyph(&mut buf, 4, 4, 0, 0, 4, 4, 3, &g, 0xffffff);
    let mut expected = vec![0u32; 16];
    expected[1] = 0x808080;
    expected[2] = 0xffffff;
    assert_eq!(buf, expected);
}

#[test]
fn colour_glyph_blends_its_own_colour() {
    let mut buf = vec![0x000000u32; 2 * 2];
    let g = glyph(vec![0xff, 0x00, 0x00, 0xff], 1, 1, GlyphFormat::Rgba, 1, 1);
    // One-pixel cells, baseline at the bottom: the pixel lands at row 1, column 2 - clipped
    // to the right edge when the cell is the second one.
    draw_rasterized_glyph(&mut buf, 2, 2, 0, 1, 1, 1, 0, &g, 0);
    assert_eq!(buf, vec![0, 0, 0, 0xff0000]);
    let mut clipped = vec![5u32; 4];
    draw_rasterized_glyph(&mut clipped, 2, 2, 1, 1, 1, 1, 0, &g, 0);
    assert_eq!(clipped, vec![5, 5, 5, 5]);
}
