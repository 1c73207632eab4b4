use handterm::bitmap::{copy_bitmap, PixelMode};
use handterm::font::GlyphFormat;

#[test]
fn converts_bgra_bitmap_to_rgba() {
    let bgra = [0x33, 0x22, 0x11, 0x80];
    let (pixels, format) = copy_bitmap(&bgra, 1, 1, 4, PixelMode::Bgra).unwrap();
    assert_eq!(format, GlyphFormat::Rgba);
    assert_eq!(pixels, vec![0x11, 0x22, 0x33, 0x80]);
}

#[test]
fn gray_bitmap_rows_drop_the_pitch_padding() {
    let gray = [1, 2, 3, 99, 4, 5, 6, 99];
    let (pixels, format) = copy_bitmap(&gray, 3, 2, 4, PixelMode::Gray).unwrap();
    assert_eq!(format, GlyphFormat::Alpha);
    assert_eq!(pixels, vec![1, 2, 3, 4, 5, 6]);
}

#[test]
fn mono_bitmap_bits_become_full_or_no_coverage() {
    // Two rows of ten pixels, two bytes each, most significant bit first.
    let mono = [0b1010_0000, 0b1100_0000, 0b0000_0001, 0b0100_0000];
    let (pixels, format) = copy_bitmap(&mono, 10, 2, 2, PixelMode::Mono).unwrap();
    assert_eq!(format, GlyphFormat::Alpha);
    assert_eq!(
        pixels,
        vec![
            255, 0, 255, 0, 0, 0, 0, 0, 255, 255, //
            0, 0, 0, 0, 0, 0, 0, 255, 0, 255,
        ]
    );
}

#[test]
fn bgra_bitmap_with_two_rows_and_padding() {
    let bgra = [1, 2, 3, 4, 5, 6, 7, 8, 0, 0, 9, 10, 11, 12, 13, 14, 15, 16, 0, 0];
    let (pixels, _) = copy_bitmap(&bgra, 2, 2, 10, PixelMode::Bgra).unwrap();
    assert_eq!(
        pixels,
        vec![3, 2, 1, 4, 7, 6, 5, 8, 11, 10, 9, 12, 15, 14, 13, 16]
    );
}

#[test]
fn other_pixel_modes_are_not_converted() {
    assert_eq!(copy_bitmap(&[0; 4], 2, 2, 2, PixelMode::Lcd), None);
    assert_eq!(copy_bitmap(&[0; 4], 2, 2, 2, PixelMode::Gray4), None);
}
