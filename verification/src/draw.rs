//! Drawing cells into the CPU renderer's framebuffer: `buf_w` x `buf_h`
//! pixels of `0xRRGGBB`, row by row. A cell at column `cell_x`, row `cell_y`
//! covers the pixels from `(cell_x * cell_width, cell_y * cell_height)`.
use crate::font::{blend_alpha_pixel, blend_rgba_pixel, blended_pixel, GlyphFormat, RasterizedGlyph};
use vstd::arithmetic::div_mod::lemma_fundamental_div_mod_converse;
use vstd::prelude::*;

verus! {

pub open spec fn min_int(a: int, b: int) -> int {
    if a <= b {
        a
    } else {
        b
    }
}

/// Whether framebuffer pixel `i` lies in the cell's rectangle, clipped to the
/// framebuffer.
pub open spec fn in_cell(
    i: int,
    buf_w: int,
    buf_h: int,
    cell_x: int,
    cell_y: int,
    cell_width: int,
    cell_height: int,
) -> bool {
    &&& 0 <= i < buf_w * buf_h
    &&& cell_x * cell_width <= i % buf_w < min_int(cell_x * cell_width + cell_width, buf_w)
    &&& cell_y * cell_height <= i / buf_w < min_int(cell_y * cell_height + cell_height, buf_h)
}

proof fn lemma_pixel_index(y: int, x: int, w: int, h: int)
    requires
        0 <= y < h,
        0 <= x < w,
    ensures
        (y * w + x) / w == y,
        (y * w + x) % w == x,
        0 <= y * w + x < w * h,
{
    lemma_fundamental_div_mod_converse(y * w + x, w, y, x);
    assert(0 <= y * w + x < w * h) by (nonlinear_arith)
        requires
            0 <= y < h,
            0 <= x < w,
    ;
}

proof fn lemma_pixel_coords(i: int, w: int, h: int)
    requires
        0 <= i < w * h,
        w > 0,
    ensures
        0 <= i / w < h,
        0 <= i % w < w,
        (i / w) * w + i % w == i,
{
    assert(0 <= i / w < h) by (nonlinear_arith)
        requires
            0 <= i < w * h,
            w > 0,
    ;
    assert((i / w) * w + i % w == i) by (nonlinear_arith)
        requires
            w > 0,
    ;
}

/// Fills the cell's background (the part of it inside the framebuffer) with
/// `bg`, leaving the other pixels as they were.
pub fn draw_bg(
    buffer: &mut [u32],
    buf_w: usize,
    buf_h: usize,
    cell_x: usize,
    cell_y: usize,
    cell_width: usize,
    cell_height: usize,
    bg: u32,
)
    requires
        buf_w * buf_h <= old(buffer)@.len(),
        cell_x * cell_width + cell_width <= usize::MAX,
        cell_y * cell_height + cell_height <= usize::MAX,
    ensures
        final(buffer)@.len() == old(buffer)@.len(),
        forall|i: int|
            0 <= i < final(buffer)@.len() ==> #[trigger] final(buffer)@[i] == if in_cell(
                i,
                buf_w as int,
                buf_h as int,
                cell_x as int,
                cell_y as int,
                cell_width as int,
                cell_height as int,
            ) {
                bg
            } else {
                old(buffer)@[i]
            },
{
    let px_x = cell_x * cell_width;
    let px_y = cell_y * cell_height;
    let x_end = if px_x + cell_width < buf_w {
        px_x + cell_width
    } else {
        buf_w
    };
    let y_end = if px_y + cell_height < buf_h {
        px_y + cell_height
    } else {
        buf_h
    };
    let ghost w = buf_w as int;
    let ghost h = buf_h as int;
    let ghost orig = buffer@;
    let len = buffer.len();
    assert(orig.len() == len);
    let mut y: usize = px_y;
    while y < y_end
        invariant
            px_y <= y,
            y <= y_end || y == px_y,
            y_end <= buf_h,
            x_end <= buf_w,
            px_x == cell_x * cell_width,
            px_y == cell_y * cell_height,
            x_end == min_int(px_x + cell_width, buf_w as int),
            y_end == min_int(px_y + cell_height, buf_h as int),
            w == buf_w,
            h == buf_h,
            buf_w * buf_h <= orig.len() <= usize::MAX,
            buffer@.len() == orig.len(),
            forall|i: int|
                0 <= i < buffer@.len() ==> #[trigger] buffer@[i] == if in_cell(
                    i,
                    w,
                    h,
                    cell_x as int,
                    cell_y as int,
                    cell_width as int,
                    cell_height as int,
                ) && i / w < y {
                    bg
                } else {
                    orig[i]
                },
        decreases y_end - y,
    {
        let mut x: usize = px_x;
        while x < x_end
            invariant
                px_y <= y < y_end <= buf_h,
                px_x <= x,
                x <= x_end || x == px_x,
                x_end <= buf_w,
                px_x == cell_x * cell_width,
                px_y == cell_y * cell_height,
                x_end == min_int(px_x + cell_width, buf_w as int),
                y_end == min_int(px_y + cell_height, buf_h as int),
                w == buf_w,
                h == buf_h,
                buf_w * buf_h <= orig.len() <= usize::MAX,
                buffer@.len() == orig.len(),
                forall|i: int|
                    0 <= i < buffer@.len() ==> #[trigger] buffer@[i] == if in_cell(
                        i,
                        w,
                        h,
                        cell_x as int,
                        cell_y as int,
                        cell_width as int,
                        cell_height as int,
                    ) && (i / w < y || (i / w == y && i % w < x)) {
                        bg
                    } else {
                        orig[i]
                    },
            decreases x_end - x,
        {
            proof {
                lemma_pixel_index(y as int, x as int, w, h);
            }
            let idx = y * buf_w + x;
            let ghost before = buffer@;
            buffer[idx] = bg;
            assert forall|i: int| 0 <= i < buffer@.len() implies #[trigger] buffer@[i] == if in_cell(
                i,
                w,
                h,
                cell_x as int,
                cell_y as int,
                cell_width as int,
                cell_height as int,
            ) && (i / w < y || (i / w == y && i % w < x + 1)) {
                bg
            } else {
                orig[i]
            } by {
                if i != idx {
                    assert(buffer@[i] == before[i]);
                    if 0 <= i < w * h && w > 0 {
                        lemma_pixel_coords(i, w, h);
                        if i / w == y && i % w == x {
                            assert(i == idx);
                        }
                    }
                }
            }
            x = x + 1;
        }
        assert forall|i: int| 0 <= i < buffer@.len() implies #[trigger] buffer@[i] == if in_cell(
            i,
            w,
            h,
            cell_x as int,
            cell_y as int,
            cell_width as int,
            cell_height as int,
        ) && i / w < y + 1 {
            bg
        } else {
            orig[i]
        } by {}
        y = y + 1;
    }
}

/// The framebuffer row of a glyph's top row: the cell's top, down to the
/// baseline, up by the glyph's bearing.
pub open spec fn glyph_top_row(cell_y: int, cell_height: int, baseline: int, bearing_y: int) -> int {
    cell_y * cell_height + (cell_height - baseline) - bearing_y
}

/// The framebuffer column of a glyph's left column.
pub open spec fn glyph_left_col(cell_x: int, cell_width: int, bearing_x: int) -> int {
    cell_x * cell_width + bearing_x
}

/// The colour pixel `(gy, gx)` of a glyph drawn in `fg` leaves over `under`:
/// a coverage glyph blends `fg` by its coverage, a colour glyph blends its
/// own colour by its alpha.
pub open spec fn glyph_over(under: u32, glyph: RasterizedGlyph, gy: int, gx: int, fg: u32) -> u32 {
    let k = gy * glyph.width + gx;
    match glyph.format {
        GlyphFormat::Alpha => blended_pixel(under, fg, glyph.pixels@[k] as u32),
        GlyphFormat::Rgba => blended_pixel(
            under,
            (glyph.pixels@[k * 4] as int * 0x10000 + glyph.pixels@[k * 4 + 1] as int * 0x100
                + glyph.pixels@[k * 4 + 2] as int) as u32,
            glyph.pixels@[k * 4 + 3] as u32,
        ),
    }
}

/// Framebuffer pixel `i` after drawing a glyph whose top-left pixel lands at
/// row `top`, column `left`: blended where the glyph covers it, as it was
/// elsewhere.
pub open spec fn drawn_glyph_pixel(
    under: u32,
    i: int,
    buf_w: int,
    buf_h: int,
    top: int,
    left: int,
    glyph: RasterizedGlyph,
    fg: u32,
) -> u32 {
    if 0 <= i < buf_w * buf_h && 0 <= i / buf_w - top < glyph.height && 0 <= i % buf_w - left
        < glyph.width {
        glyph_over(under, glyph, i / buf_w - top, i % buf_w - left, fg)
    } else {
        under
    }
}

/// The positions a glyph is drawn at stay within the 32-bit arithmetic they
/// are computed in, and the glyph's pixels cover its size.
pub open spec fn glyph_draw_fits(
    buf_w: int,
    buf_h: int,
    cell_x: int,
    cell_y: int,
    cell_width: int,
    cell_height: int,
    baseline: int,
    glyph: RasterizedGlyph,
) -> bool {
    let small = |v: int| i32::MIN <= v <= i32::MAX;
    let top = glyph_top_row(cell_y, cell_height, baseline, glyph.bearing_y as int);
    let left = glyph_left_col(cell_x, cell_width, glyph.bearing_x as int);
    &&& buf_w <= i32::MAX && buf_h <= i32::MAX
    &&& cell_x * cell_width <= i32::MAX && cell_y * cell_height <= i32::MAX
    &&& cell_height <= i32::MAX && baseline <= i32::MAX
    &&& small(cell_height - baseline) && small(cell_y * cell_height + (cell_height - baseline))
    &&& small(top) && small(left) && small(buf_h - top) && small(buf_w - left)
    &&& match glyph.format {
        GlyphFormat::Alpha => glyph.width * glyph.height <= glyph.pixels@.len(),
        GlyphFormat::Rgba => glyph.width * glyph.height * 4 <= glyph.pixels@.len(),
    }
}

/// Draws a rasterized glyph in colour `fg` over the cell, its origin on the
/// cell's baseline; the parts of the glyph outside the framebuffer are cut
/// off, and the pixels it does not cover keep their colour.
pub fn draw_rasterized_glyph(
    buffer: &mut [u32],
    buf_w: usize,
    buf_h: usize,
    cell_x: usize,
    cell_y: usize,
    cell_width: usize,
    cell_height: usize,
    baseline: usize,
    glyph: &RasterizedGlyph,
    fg: u32,
)
    requires
        buf_w * buf_h <= old(buffer)@.len(),
        glyph_draw_fits(
            buf_w as int,
            buf_h as int,
            cell_x as int,
            cell_y as int,
            cell_width as int,
            cell_height as int,
            baseline as int,
            *glyph,
        ),
    ensures
        final(buffer)@.len() == old(buffer)@.len(),
        forall|i: int|
            0 <= i < final(buffer)@.len() ==> #[trigger] final(buffer)@[i] == drawn_glyph_pixel(
                old(buffer)@[i],
                i,
                buf_w as int,
                buf_h as int,
                glyph_top_row(
                    cell_y as int,
                    cell_height as int,
                    baseline as int,
                    glyph.bearing_y as int,
                ),
                glyph_left_col(cell_x as int, cell_width as int, glyph.bearing_x as int),
                *glyph,
                fg,
            ),
{
    let px_x = (cell_x * cell_width) as i64;
    let px_y = (cell_y * cell_height) as i64;
    let origin_y = px_y + (cell_height as i64 - baseline as i64);
    let glyph_top = origin_y - glyph.bearing_y as i64;
    let glyph_left = px_x + glyph.bearing_x as i64;
    let ghost top = glyph_top as int;
    let ghost left = glyph_left as int;
    let ghost w = buf_w as int;
    let ghost h = buf_h as int;
    let ghost gw = glyph.width as int;
    let ghost gh = glyph.height as int;
    let gy_start: usize = if glyph_top < 0 {
        (-glyph_top) as usize
    } else {
        0
    };
    let rows_left = buf_h as i64 - glyph_top;
    let gy_end: usize = if rows_left <= 0 {
        0
    } else if (rows_left as usize) < glyph.height {
        rows_left as usize
    } else {
        glyph.height
    };
    let gx_start: usize = if glyph_left < 0 {
        (-glyph_left) as usize
    } else {
        0
    };
    let cols_left = buf_w as i64 - glyph_left;
    let gx_end: usize = if cols_left <= 0 {
        0
    } else if (cols_left as usize) < glyph.width {
        cols_left as usize
    } else {
        glyph.width
    };
    let ghost orig = buffer@;
    let len = buffer.len();
    let plen = glyph.pixels.len();
    assert(orig.len() == len);
    assert forall|i: int| 0 <= i < buffer@.len() implies #[trigger] buffer@[i] == if 0 <= i < w * h
        && 0 <= i / w - top < gy_start && 0 <= i % w - left < gw {
        drawn_glyph_pixel(orig[i], i, w, h, top, left, *glyph, fg)
    } else {
        orig[i]
    } by {
        if 0 <= i < w * h && w > 0 {
            lemma_pixel_coords(i, w, h);
        }
    }
    let mut gy: usize = gy_start;
    while gy < gy_end
        invariant
            gy_start <= gy,
            gy <= gy_end || gy == gy_start,
            gy_end == min_int(gh, if h - top > 0 { h - top } else { 0 }),
            gy_start == (if top < 0 { -top } else { 0 }),
            gx_end == min_int(gw, if w - left > 0 { w - left } else { 0 }),
            gx_start == (if left < 0 { -left } else { 0 }),
            glyph.pixels@.len() <= usize::MAX,
            h - top < 0x1_0000_0000,
            w - left < 0x1_0000_0000,
            i32::MIN <= top <= i32::MAX,
            i32::MIN <= left <= i32::MAX,
            top == glyph_top,
            left == glyph_left,
            w == buf_w,
            h == buf_h,
            gw == glyph.width,
            gh == glyph.height,
            match glyph.format {
                GlyphFormat::Alpha => glyph.width * glyph.height <= glyph.pixels@.len(),
                GlyphFormat::Rgba => glyph.width * glyph.height * 4 <= glyph.pixels@.len(),
            },
            buf_w * buf_h <= orig.len() <= usize::MAX,
            buffer@.len() == orig.len(),
            forall|i: int|
                0 <= i < buffer@.len() ==> #[trigger] buffer@[i] == if 0 <= i < w * h && 0 <= i / w
                    - top < gy && 0 <= i % w - left < gw {
                    drawn_glyph_pixel(orig[i], i, w, h, top, left, *glyph, fg)
                } else {
                    orig[i]
                },
        decreases gy_end - gy,
    {
        let sy = (glyph_top + gy as i64) as usize;
        assert forall|i: int| 0 <= i < buffer@.len() implies #[trigger] buffer@[i] == if 0 <= i < w * h
            && 0 <= i / w - top < gh && 0 <= i % w - left < gw && (i / w - top < gy || (i / w - top
            == gy && i % w - left < gx_start)) {
            drawn_glyph_pixel(orig[i], i, w, h, top, left, *glyph, fg)
        } else {
            orig[i]
        } by {
            if 0 <= i < w * h && w > 0 {
                lemma_pixel_coords(i, w, h);
            }
        }
        let mut gx: usize = gx_start;
        while gx < gx_end
            invariant
                gy_start <= gy < gy_end,
                gx_start <= gx,
                gx <= gx_end || gx == gx_start,
                gy_end == min_int(gh, if h - top > 0 { h - top } else { 0 }),
                gy_start == (if top < 0 { -top } else { 0 }),
                gx_end == min_int(gw, if w - left > 0 { w - left } else { 0 }),
                gx_start == (if left < 0 { -left } else { 0 }),
                glyph.pixels@.len() <= usize::MAX,
                h - top < 0x1_0000_0000,
                w - left < 0x1_0000_0000,
                i32::MIN <= top <= i32::MAX,
                i32::MIN <= left <= i32::MAX,
                sy == top + gy,
                top == glyph_top,
                left == glyph_left,
                w == buf_w,
                h == buf_h,
                gw == glyph.width,
                gh == glyph.height,
                match glyph.format {
                    GlyphFormat::Alpha => glyph.width * glyph.height <= glyph.pixels@.len(),
                    GlyphFormat::Rgba => glyph.width * glyph.height * 4 <= glyph.pixels@.len(),
                },
                buf_w * buf_h <= orig.len() <= usize::MAX,
                buffer@.len() == orig.len(),
                forall|i: int|
                    0 <= i < buffer@.len() ==> #[trigger] buffer@[i] == if 0 <= i < w * h && 0 <= i
                        / w - top < gh && 0 <= i % w - left < gw && (i / w - top < gy || (i / w
                        - top == gy && i % w - left < gx)) {
                        drawn_glyph_pixel(orig[i], i, w, h, top, left, *glyph, fg)
                    } else {
                        orig[i]
                    },
            decreases gx_end - gx,
        {
            let sx = (glyph_left + gx as i64) as usize;
            proof {
                lemma_pixel_index(sy as int, sx as int, w, h);
                assert(gy * glyph.width + gx < glyph.width * glyph.height) by (nonlinear_arith)
                    requires
                        gy < glyph.height,
                        gx < glyph.width,
                ;
                assert((gy * glyph.width + gx) * 4 + 3 < glyph.width * glyph.height * 4)
                    by (nonlinear_arith)
                    requires
                        gy < glyph.height,
                        gx < glyph.width,
                ;
            }
            let idx = sy * buf_w + sx;
            let k = gy * glyph.width + gx;
            let ghost before = buffer@;
            let mut pixel = buffer[idx];
            match glyph.format {
                GlyphFormat::Alpha => {
                    blend_alpha_pixel(&mut pixel, fg, glyph.pixels[k] as u32);
                },
                GlyphFormat::Rgba => {
                    let o = k * 4;
                    let rgba = [glyph.pixels[o], glyph.pixels[o + 1], glyph.pixels[o + 2], glyph.pixels[o + 3]];
                    blend_rgba_pixel(&mut pixel, &rgba);
                },
            }
            assert(pixel == glyph_over(orig[idx as int], *glyph, gy as int, gx as int, fg)) by {
                assert(before[idx as int] == orig[idx as int]);
            }
            buffer[idx] = pixel;
            assert forall|i: int| 0 <= i < buffer@.len() implies #[trigger] buffer@[i] == if 0 <= i < w
                * h && 0 <= i / w - top < gh && 0 <= i % w - left < gw && (i / w - top < gy || (i / w
                - top == gy && i % w - left < gx + 1)) {
                drawn_glyph_pixel(orig[i], i, w, h, top, left, *glyph, fg)
            } else {
                orig[i]
            } by {
                if i == idx {
                } else {
                    assert(buffer@[i] == before[i]);
                    if 0 <= i < w * h && w > 0 {
                        lemma_pixel_coords(i, w, h);
                        if i / w == sy && i % w == sx {
                            assert(i == idx);
                        }
                    }
                }
            }
            gx = gx + 1;
        }
        assert forall|i: int| 0 <= i < buffer@.len() implies #[trigger] buffer@[i] == if 0 <= i < w * h
            && 0 <= i / w - top < gy + 1 && 0 <= i % w - left < gw {
            drawn_glyph_pixel(orig[i], i, w, h, top, left, *glyph, fg)
        } else {
            orig[i]
        } by {
            if 0 <= i < w * h && w > 0 {
                lemma_pixel_coords(i, w, h);
            }
        }
        gy = gy + 1;
    }
    assert forall|i: int| 0 <= i < buffer@.len() implies #[trigger] buffer@[i] == drawn_glyph_pixel(
        orig[i],
        i,
        w,
        h,
        top,
        left,
        *glyph,
        fg,
    ) by {
        if 0 <= i < w * h && w > 0 {
            lemma_pixel_coords(i, w, h);
        }
    }
}

} // verus!
