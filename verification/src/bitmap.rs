//! Converting a rasterizer's glyph bitmap, stored row by row with a pitch,
//! into the tightly packed coverage or RGBA pixels the renderers draw.
use crate::font::GlyphFormat;
use vstd::arithmetic::div_mod::lemma_fundamental_div_mod_converse;
use vstd::prelude::*;

verus! {

/// How a rasterized bitmap stores its pixels.
#[derive(Debug, Clone, Copy, PartialEq, Eq, Structural)]
pub enum PixelMode {
    NotSet,
    /// One bit per pixel, most significant bit first.
    Mono,
    /// One coverage byte per pixel.
    Gray,
    Gray2,
    Gray4,
    Lcd,
    LcdV,
    /// Four bytes per pixel: blue, green, red, alpha.
    Bgra,
}

/// The pixel modes that can be converted.
pub open spec fn convertible(mode: PixelMode) -> bool {
    mode is Gray || mode is Mono || mode is Bgra
}

/// Bytes per converted pixel.
pub open spec fn out_bytes(mode: PixelMode) -> int {
    if mode is Bgra {
        4
    } else {
        1
    }
}

/// Full coverage where the bit of column `x` in its byte is set, none elsewhere.
pub open spec fn mono_level(byte: u8, x: int) -> u8 {
    if (byte >> ((7 - x % 8) as u8)) & 1u8 == 1u8 {
        255
    } else {
        0
    }
}

/// Byte `i` of the converted pixels: pixel `i / width` of a coverage bitmap
/// comes from row `i / width`, column `i % width`; byte `i` of an RGBA
/// bitmap is channel `i % 4` of pixel `i / 4`, blue and red swapped.
pub open spec fn converted_byte(buffer: Seq<u8>, width: int, pitch: int, mode: PixelMode, i: int) -> u8 {
    match mode {
        PixelMode::Gray => buffer[(i / width) * pitch + i % width],
        PixelMode::Mono => mono_level(buffer[(i / width) * pitch + (i % width) / 8], i % width),
        PixelMode::Bgra => {
            let px = i / 4;
            let c = i % 4;
            buffer[(px / width) * pitch + (px % width) * 4 + if c == 3 {
                3
            } else {
                2 - c
            }]
        },
        _ => 0,
    }
}

/// The bitmap's rows lie within its buffer, and the converted pixels fit in
/// memory.
pub open spec fn bitmap_fits(len: int, width: int, height: int, pitch: int, mode: PixelMode) -> bool {
    match mode {
        PixelMode::Gray => width * height <= usize::MAX && (height > 0 ==> (height - 1) * pitch
            + width <= len),
        PixelMode::Mono => width * height <= usize::MAX && height * pitch <= len && (width > 0
            ==> (width - 1) / 8 < pitch),
        PixelMode::Bgra => width * height * 4 <= usize::MAX && (height > 0 ==> (height - 1)
            * pitch + width * 4 <= len),
        _ => true,
    }
}

/// Bytes of a row that a conversion reads.
pub open spec fn row_span(width: int, pitch: int, mode: PixelMode) -> int {
    match mode {
        PixelMode::Mono => pitch,
        PixelMode::Bgra => width * 4,
        _ => width,
    }
}

proof fn lemma_row_index(y: int, x: int, width: int, height: int)
    requires
        0 <= y < height,
        0 <= x < width,
    ensures
        (y * width + x) / width == y,
        (y * width + x) % width == x,
        y * width + x < width * height,
{
    lemma_fundamental_div_mod_converse(y * width + x, width, y, x);
    assert(y * width + x < width * height) by (nonlinear_arith)
        requires
            0 <= y < height,
            0 <= x < width,
    ;
}

proof fn lemma_row_start(y: int, height: int, pitch: int)
    requires
        0 <= y < height,
        0 <= pitch,
    ensures
        y * pitch <= (height - 1) * pitch,
        (y + 1) * pitch <= height * pitch,
        0 <= y * pitch,
{
    assert(y * pitch <= (height - 1) * pitch) by (nonlinear_arith)
        requires
            0 <= y < height,
            0 <= pitch,
    ;
    assert((y + 1) * pitch <= height * pitch) by (nonlinear_arith)
        requires
            0 <= y < height,
            0 <= pitch,
    ;
    assert(0 <= y * pitch) by (nonlinear_arith)
        requires
            0 <= y,
            0 <= pitch,
    ;
}

/// Converts a `width` x `height` bitmap whose rows start `pitch` bytes apart
/// into packed pixels: coverage bytes for gray and one-bit bitmaps, RGBA for
/// BGRA ones. Other pixel modes are not converted.
pub fn copy_bitmap(buffer: &[u8], width: usize, height: usize, pitch: usize, pixel_mode: PixelMode) -> (r:
    Option<(Vec<u8>, GlyphFormat)>)
    requires
        bitmap_fits(buffer@.len() as int, width as int, height as int, pitch as int, pixel_mode),
    ensures
        match r {
            Some((pixels, format)) => {
                &&& convertible(pixel_mode)
                &&& format == (if pixel_mode is Bgra {
                    GlyphFormat::Rgba
                } else {
                    GlyphFormat::Alpha
                })
                &&& pixels@.len() == width * height * out_bytes(pixel_mode)
                &&& forall|i: int|
                    0 <= i < pixels@.len() ==> #[trigger] pixels@[i] == converted_byte(
                        buffer@,
                        width as int,
                        pitch as int,
                        pixel_mode,
                        i,
                    )
            },
            None => !convertible(pixel_mode),
        },
{
    if !(pixel_mode == PixelMode::Gray || pixel_mode == PixelMode::Mono || pixel_mode
        == PixelMode::Bgra) {
        return None;
    }
    let ghost w = width as int;
    let ghost p = pitch as int;
    let ghost per = out_bytes(pixel_mode);
    let mut pixels: Vec<u8> = Vec::new();
    let mut y: usize = 0;
    while y < height
        invariant
            y <= height,
            convertible(pixel_mode),
            per == out_bytes(pixel_mode),
            w == width,
            p == pitch,
            bitmap_fits(buffer@.len() as int, width as int, height as int, pitch as int, pixel_mode),
            pixels@.len() == y * width * per,
            forall|i: int|
                0 <= i < pixels@.len() ==> #[trigger] pixels@[i] == converted_byte(
                    buffer@,
                    w,
                    p,
                    pixel_mode,
                    i,
                ),
        decreases height - y,
    {
        let len = buffer.len();
        proof {
            lemma_row_start(y as int, height as int, p);
            match pixel_mode {
                PixelMode::Mono => {
                    assert((y + 1) * pitch == y * pitch + pitch) by (nonlinear_arith);
                },
                _ => {
                    if height > 0 {
                        assert(y * pitch + row_span(w, p, pixel_mode) <= (height - 1) * pitch
                            + row_span(w, p, pixel_mode));
                    }
                },
            }
            assert(y * pitch + row_span(w, p, pixel_mode) <= len);
        }
        let row = y * pitch;
        let mut x: usize = 0;
        while x < width
            invariant
                y < height,
                x <= width,
                row == y * pitch,
                convertible(pixel_mode),
                per == out_bytes(pixel_mode),
                w == width,
                p == pitch,
                y * pitch + row_span(w, p, pixel_mode) <= buffer@.len(),
                buffer@.len() <= usize::MAX,
                bitmap_fits(buffer@.len() as int, width as int, height as int, pitch as int, pixel_mode),
                pixels@.len() == (y * width + x) * per,
                forall|i: int|
                    0 <= i < pixels@.len() ==> #[trigger] pixels@[i] == converted_byte(
                        buffer@,
                        w,
                        p,
                        pixel_mode,
                        i,
                    ),
            decreases width - x,
        {
            let ghost n = y * width + x;
            proof {
                lemma_row_index(y as int, x as int, w, height as int);
                assert(x * 4 + 4 <= width * 4);
            }
            match pixel_mode {
                PixelMode::Gray => {
                    pixels.push(buffer[row + x]);
                },
                PixelMode::Mono => {
                    assert(x / 8 <= (width - 1) / 8) by (nonlinear_arith)
                        requires
                            x < width,
                    ;
                    let byte = buffer[row + x / 8];
                    let bit: u8 = (7 - x % 8) as u8;
                    pixels.push(
                        if (byte >> bit) & 1u8 == 1u8 {
                            255u8
                        } else {
                            0u8
                        },
                    );
                },
                _ => {
                    let src = row + x * 4;
                    let ghost base = n * 4;
                    proof {
                        lemma_fundamental_div_mod_converse(base, 4, n, 0);
                        lemma_fundamental_div_mod_converse(base + 1, 4, n, 1);
                        lemma_fundamental_div_mod_converse(base + 2, 4, n, 2);
                        lemma_fundamental_div_mod_converse(base + 3, 4, n, 3);
                    }
                    pixels.push(buffer[src + 2]);
                    pixels.push(buffer[src + 1]);
                    pixels.push(buffer[src]);
                    pixels.push(buffer[src + 3]);
                },
            }
            assert((y * width + x + 1) * per == (y * width + x) * per + per) by (nonlinear_arith);
            x = x + 1;
        }
        assert(y * width + width == (y + 1) * width) by (nonlinear_arith);
        y = y + 1;
    }
    let format = if pixel_mode == PixelMode::Bgra {
        GlyphFormat::Rgba
    } else {
        GlyphFormat::Alpha
    };
    assert(height * width * per == width * height * per) by (nonlinear_arith);
    Some((pixels, format))
}

} // verus!
