//! The GPU renderer's CPU-side work: laying a rasterized glyph into an RGBA
//! atlas tile, and the timing records of surface creation and rendering.
use crate::clock::Span;
use crate::font::{GlyphData, GlyphFormat};
use vstd::arithmetic::div_mod::lemma_fundamental_div_mod_converse;
use vstd::prelude::*;

verus! {

/// Time spent in each step of creating a window's GPU surface.
#[derive(Debug, Clone, Copy, Default)]
pub struct GpuSurfaceCreateProfile {
    pub window_create: Span,
    pub ime_setup: Span,
    pub surface_create: Span,
    pub default_config: Span,
    pub capabilities: Span,
    pub configure: Span,
    pub atlas_texture: Span,
    pub uniform_buffer: Span,
    pub instance_buffers: Span,
    pub bind_group: Span,
    pub pipeline_lookup: Span,
    pub total: Span,
    pub pipeline_cache_hit: bool,
    pub reused_surface_defaults: bool,
}

/// Time spent in each step of rendering a frame.
#[derive(Debug, Clone, Copy, Default)]
pub struct GpuRenderProfile {
    pub acquire_surface: Span,
    pub build_display_list: Span,
    pub upload_buffers: Span,
    pub encode_pass: Span,
    pub submit: Span,
    pub present: Span,
    pub total: Span,
}

pub open spec fn max_int(a: int, b: int) -> int {
    if a >= b {
        a
    } else {
        b
    }
}

/// The columns of padding left of the pen for a glyph that starts left of it.
pub open spec fn left_pad_of(bearing_x: int) -> int {
    max_int(-bearing_x, 0)
}

/// The top of the glyph relative to the top of the cell, before padding.
pub open spec fn glyph_top_of(cell_height: int, baseline: int, bearing_y: int) -> int {
    cell_height - baseline - bearing_y
}

/// The rows of padding above the cell for a glyph that rises above it.
pub open spec fn top_pad_of(cell_height: int, baseline: int, bearing_y: int) -> int {
    max_int(-glyph_top_of(cell_height, baseline, bearing_y), 0)
}

/// The tile width: the cells the glyph spans (at least one), widened for a
/// glyph that overhangs them on either side.
pub open spec fn tile_width_of(width: int, bearing_x: int, cells: int, cell_width: int) -> int {
    let nominal = max_int(cells, 1) * cell_width;
    let pad = left_pad_of(bearing_x);
    max_int(max_int(nominal + pad, bearing_x + width + pad), 1)
}

/// The tile height: the cell, heightened for a glyph that overhangs it above
/// or below.
pub open spec fn tile_height_of(height: int, bearing_y: int, cell_height: int, baseline: int) -> int {
    let top = glyph_top_of(cell_height, baseline, bearing_y);
    let pad = top_pad_of(cell_height, baseline, bearing_y);
    max_int(max_int(cell_height + pad, top + height + pad), 1)
}

/// The byte `k` of the tile pixel at row `y`, column `x`: the glyph's pixel
/// there (white with the glyph's coverage as alpha for a coverage glyph),
/// transparent black outside the glyph.
pub open spec fn tile_byte(
    pixels: Seq<u8>,
    format: GlyphFormat,
    width: int,
    height: int,
    left: int,
    top: int,
    y: int,
    x: int,
    k: int,
) -> u8 {
    let gx = x - left;
    let gy = y - top;
    if 0 <= gx < width && 0 <= gy < height {
        match format {
            GlyphFormat::Alpha => if k < 3 {
                0xffu8
            } else {
                pixels[gy * width + gx]
            },
            GlyphFormat::Rgba => pixels[(gy * width + gx) * 4 + k],
        }
    } else {
        0u8
    }
}

/// The glyph's geometry stays within the 32-bit arithmetic the tile layout
/// is done in, its pixels cover its size, and the tile fits in memory.
pub open spec fn tile_layout_fits(
    g_len: int,
    format: GlyphFormat,
    width: int,
    height: int,
    bearing_x: int,
    bearing_y: int,
    cells: int,
    cell_width: int,
    cell_height: int,
    baseline: int,
) -> bool {
    let small = |v: int| i32::MIN < v <= i32::MAX;
    &&& small(width) && small(height) && small(bearing_x) && small(bearing_y)
    &&& small(cell_height) && small(baseline as int)
    &&& small(max_int(cells, 1) * cell_width)
    &&& small(max_int(cells, 1) * cell_width + left_pad_of(bearing_x))
    &&& small(bearing_x + width + left_pad_of(bearing_x))
    &&& small(cell_height - baseline)
    &&& small(glyph_top_of(cell_height, baseline, bearing_y))
    &&& small(cell_height + top_pad_of(cell_height, baseline, bearing_y))
    &&& small(glyph_top_of(cell_height, baseline, bearing_y) + height + top_pad_of(
        cell_height,
        baseline,
        bearing_y,
    ))
    &&& tile_width_of(width, bearing_x, cells, cell_width) * tile_height_of(
        height,
        bearing_y,
        cell_height,
        baseline,
    ) * 4 <= usize::MAX
    &&& match format {
        GlyphFormat::Alpha => width * height <= g_len,
        GlyphFormat::Rgba => width * height * 4 <= g_len,
    }
}

proof fn lemma_tile_index(y: int, x: int, k: int, tw: int, th: int)
    requires
        0 <= y < th,
        0 <= x < tw,
        0 <= k < 4,
    ensures
        ((y * tw + x) * 4 + k) / 4 == y * tw + x,
        ((y * tw + x) * 4 + k) % 4 == k,
        (y * tw + x) / tw == y,
        (y * tw + x) % tw == x,
        0 <= (y * tw + x) * 4 + k < tw * th * 4,
{
    lemma_fundamental_div_mod_converse((y * tw + x) * 4 + k, 4, y * tw + x, k);
    assert(y * tw + x == y * tw + x);
    lemma_fundamental_div_mod_converse(y * tw + x, tw, y, x);
    assert(0 <= (y * tw + x) * 4 + k < tw * th * 4) by (nonlinear_arith)
        requires
            0 <= y < th,
            0 <= x < tw,
            0 <= k < 4,
    ;
}

/// Two tile coordinates name the same byte only when they are equal.
proof fn lemma_tile_index_injective(
    y1: int,
    x1: int,
    k1: int,
    y2: int,
    x2: int,
    k2: int,
    tw: int,
    th: int,
)
    requires
        0 <= y1 < th,
        0 <= x1 < tw,
        0 <= k1 < 4,
        0 <= y2 < th,
        0 <= x2 < tw,
        0 <= k2 < 4,
        (y1 * tw + x1) * 4 + k1 == (y2 * tw + x2) * 4 + k2,
    ensures
        y1 == y2 && x1 == x2 && k1 == k2,
{
    lemma_tile_index(y1, x1, k1, tw, th);
    lemma_tile_index(y2, x2, k2, tw, th);
}

/// Lays a glyph into an RGBA tile of `cells` cells of `cell_width` by
/// `cell_height` pixels with the given baseline, padded so that parts of the
/// glyph outside the cells are kept. Returns the tile and its width and
/// height, and the left and top padding.
pub fn build_gpu_glyph_tile(
    glyph: &GlyphData<'_>,
    cells: usize,
    cell_width: usize,
    cell_height: usize,
    baseline: usize,
) -> (r: (Vec<u8>, u32, u32, u32, u32))
    requires
        tile_layout_fits(
            glyph.pixels@.len() as int,
            glyph.format,
            glyph.width as int,
            glyph.height as int,
            glyph.bearing_x as int,
            glyph.bearing_y as int,
            cells as int,
            cell_width as int,
            cell_height as int,
            baseline as int,
        ),
    ensures
        ({
            let tw = tile_width_of(
                glyph.width as int,
                glyph.bearing_x as int,
                cells as int,
                cell_width as int,
            );
            let th = tile_height_of(
                glyph.height as int,
                glyph.bearing_y as int,
                cell_height as int,
                baseline as int,
            );
            let lp = left_pad_of(glyph.bearing_x as int);
            let tp = top_pad_of(cell_height as int, baseline as int, glyph.bearing_y as int);
            &&& r.1 == tw
            &&& r.2 == th
            &&& r.3 == lp
            &&& r.4 == tp
            &&& r.0@.len() == tw * th * 4
            &&& forall|y: int, x: int, k: int|
                0 <= y < th && 0 <= x < tw && 0 <= k < 4 ==> #[trigger] r.0@[(y * tw + x) * 4 + k]
                    == tile_byte(
                    glyph.pixels@,
                    glyph.format,
                    glyph.width as int,
                    glyph.height as int,
                    glyph.bearing_x + lp,
                    glyph_top_of(cell_height as int, baseline as int, glyph.bearing_y as int)
                        + tp,
                    y,
                    x,
                    k,
                )
        }),
{
    let gw = glyph.width as i64;
    let gh = glyph.height as i64;
    let bx = glyph.bearing_x as i64;
    let by = glyph.bearing_y as i64;
    let ch = cell_height as i64;
    let bl = baseline as i64;
    let span = if cells > 1 {
        cells
    } else {
        1
    };
    assert(span * cell_width <= i32::MAX);
    let nominal_width = (span * cell_width) as i64;
    let left_pad: i64 = if -bx > 0 {
        -bx
    } else {
        0
    };
    let glyph_right = bx + gw;
    let mut tile_width = nominal_width + left_pad;
    if glyph_right + left_pad > tile_width {
        tile_width = glyph_right + left_pad;
    }
    if tile_width < 1 {
        tile_width = 1;
    }
    let glyph_top0 = ch - bl - by;
    let top_pad: i64 = if -glyph_top0 > 0 {
        -glyph_top0
    } else {
        0
    };
    let mut tile_height = ch + top_pad;
    if glyph_top0 + gh + top_pad > tile_height {
        tile_height = glyph_top0 + gh + top_pad;
    }
    if tile_height < 1 {
        tile_height = 1;
    }
    let tw = tile_width as usize;
    let th = tile_height as usize;
    let len = tw * th * 4;
    let ghost lp = left_pad as int;
    let ghost tp = top_pad as int;
    let glyph_top = glyph_top0 + top_pad;
    let glyph_left = bx + left_pad;
    let ghost pixels = glyph.pixels@;
    let mut tile: Vec<u8> = vec![0u8; len];
    assert forall|y: int, x: int, k: int|
        0 <= y < th && 0 <= x < tw && 0 <= k < 4 implies #[trigger] tile@[(y * tw + x) * 4 + k]
        == if y - glyph_top < 0 {
        tile_byte(pixels, glyph.format, gw as int, gh as int, glyph_left as int, glyph_top as int, y, x, k)
    } else {
        0u8
    } by {
        lemma_tile_index(y, x, k, tw as int, th as int);
    }
    let mut gy: usize = 0;
    while gy < glyph.height
        invariant
            gy <= glyph.height,
            gw == glyph.width,
            gh == glyph.height,
            tile@.len() == len == tw * th * 4,
            0 <= glyph_left,
            0 <= glyph_top,
            glyph_left + gw <= tw,
            glyph_top + gh <= th,
            tw == tile_width,
            th == tile_height,
            tw >= 1,
            th >= 1,
            pixels == glyph.pixels@,
            match glyph.format {
                GlyphFormat::Alpha => glyph.width * glyph.height <= glyph.pixels.len(),
                GlyphFormat::Rgba => glyph.width * glyph.height * 4 <= glyph.pixels.len(),
            },
            forall|y: int, x: int, k: int|
                0 <= y < th && 0 <= x < tw && 0 <= k < 4 ==> #[trigger] tile@[(y * tw + x) * 4 + k]
                    == if y - glyph_top < gy {
                    tile_byte(pixels, glyph.format, gw as int, gh as int, glyph_left as int, glyph_top as int, y, x, k)
                } else {
                    0u8
                },
        decreases glyph.height - gy,
    {
        let dst_y = glyph_top + gy as i64;
        if 0 <= dst_y && dst_y < tile_height {
            let mut gx: usize = 0;
            assert forall|y: int, x: int, k: int|
                0 <= y < th && 0 <= x < tw && 0 <= k < 4 implies #[trigger] tile@[(y * tw + x) * 4
                + k] == if y - glyph_top < gy || (y - glyph_top == gy && x - glyph_left < 0) {
                tile_byte(pixels, glyph.format, gw as int, gh as int, glyph_left as int, glyph_top as int, y, x, k)
            } else {
                0u8
            } by {}
            while gx < glyph.width
                invariant
                    gy < glyph.height,
                    gx <= glyph.width,
                    gw == glyph.width,
                    gh == glyph.height,
                    dst_y == glyph_top + gy,
                    tile@.len() == len == tw * th * 4,
                    0 <= glyph_left,
                    0 <= glyph_top,
                    glyph_left + gw <= tw,
                    glyph_top + gh <= th,
                    tw == tile_width,
                    th == tile_height,
                    tw >= 1,
                    th >= 1,
                    pixels == glyph.pixels@,
                    match glyph.format {
                        GlyphFormat::Alpha => glyph.width * glyph.height <= glyph.pixels.len(),
                        GlyphFormat::Rgba => glyph.width * glyph.height * 4 <= glyph.pixels.len(),
                    },
                    forall|y: int, x: int, k: int|
                        0 <= y < th && 0 <= x < tw && 0 <= k < 4 ==> #[trigger] tile@[(y * tw + x)
                            * 4 + k] == if y - glyph_top < gy || (y - glyph_top == gy && x
                            - glyph_left < gx) {
                            tile_byte(pixels, glyph.format, gw as int, gh as int, glyph_left as int, glyph_top as int, y, x, k)
                        } else {
                            0u8
                        },
                decreases glyph.width - gx,
            {
                let dst_x = glyph_left + gx as i64;
                if 0 <= dst_x && dst_x < tile_width {
                    let ghost yy = dst_y as int;
                    let ghost xx = dst_x as int;
                    proof {
                        lemma_tile_index(yy, xx, 0, tw as int, th as int);
                        assert(gy * glyph.width + gx < glyph.width * glyph.height) by (nonlinear_arith)
                            requires
                                gy < glyph.height,
                                gx < glyph.width,
                        ;
                        assert((gy * glyph.width + gx) * 4 + 3 < glyph.width * glyph.height * 4)
                            by (nonlinear_arith)
                            requires
                                gy < glyph.height,
                                gx < glyph.width,
                        ;
                    }
                    let dst_offset = ((dst_y as usize) * tw + dst_x as usize) * 4;
                    let ghost before = tile@;
                    let (b0, b1, b2, b3) = match glyph.format {
                        GlyphFormat::Alpha => {
                            let alpha = glyph.pixels[gy * glyph.width + gx];
                            (0xffu8, 0xffu8, 0xffu8, alpha)
                        },
                        GlyphFormat::Rgba => {
                            let src_offset = (gy * glyph.width + gx) * 4;
                            (
                                glyph.pixels[src_offset],
                                glyph.pixels[src_offset + 1],
                                glyph.pixels[src_offset + 2],
                                glyph.pixels[src_offset + 3],
                            )
                        },
                    };
                    proof {
                        lemma_tile_index(yy, xx, 3, tw as int, th as int);
                    }
                    tile.set(dst_offset, b0);
                    tile.set(dst_offset + 1, b1);
                    tile.set(dst_offset + 2, b2);
                    tile.set(dst_offset + 3, b3);
                    assert forall|y: int, x: int, k: int|
                        0 <= y < th && 0 <= x < tw && 0 <= k < 4 implies #[trigger] tile@[(y
                        * tw + x) * 4 + k] == if y - glyph_top < gy || (y - glyph_top == gy && x
                        - glyph_left < gx + 1) {
                        tile_byte(pixels, glyph.format, gw as int, gh as int, glyph_left as int, glyph_top as int, y, x, k)
                    } else {
                        0u8
                    } by {
                        lemma_tile_index(y, x, k, tw as int, th as int);
                        if y == yy && x == xx {
                            assert((y * tw + x) * 4 + k == dst_offset + k);
                        } else {
                            if (y * tw + x) * 4 + k == dst_offset + k {
                                lemma_tile_index_injective(y, x, k, yy, xx, k, tw as int, th as int);
                            }
                            assert(tile@[(y * tw + x) * 4 + k] == before[(y * tw + x) * 4 + k]) by {
                                let i = (y * tw + x) * 4 + k;
                                if dst_offset <= i < dst_offset + 4 {
                                    lemma_tile_index_injective(
                                        y,
                                        x,
                                        k,
                                        yy,
                                        xx,
                                        i - dst_offset,
                                        tw as int,
                                        th as int,
                                    );
                                }
                            }
                        }
                    }
                }
                gx = gx + 1;
            }
            assert forall|y: int, x: int, k: int|
                0 <= y < th && 0 <= x < tw && 0 <= k < 4 implies #[trigger] tile@[(y * tw + x) * 4
                + k] == if y - glyph_top < gy + 1 {
                tile_byte(pixels, glyph.format, gw as int, gh as int, glyph_left as int, glyph_top as int, y, x, k)
            } else {
                0u8
            } by {}
        }
        gy = gy + 1;
    }
    (tile, tile_width as u32, tile_height as u32, left_pad as u32, top_pad as u32)
}

/// The tile keeps the whole glyph: its pixels land inside the tile after
/// padding, and the tile covers the cells the glyph spans (at least one)
/// and the full cell height.
pub proof fn lemma_glyph_fits_tile(
    width: int,
    height: int,
    bearing_x: int,
    bearing_y: int,
    cells: int,
    cell_width: int,
    cell_height: int,
    baseline: int,
)
    requires
        width >= 0,
        height >= 0,
        cells >= 0,
        cell_width >= 0,
        cell_height >= 0,
    ensures
        ({
            let tw = tile_width_of(width, bearing_x, cells, cell_width);
            let th = tile_height_of(height, bearing_y, cell_height, baseline);
            let left = bearing_x + left_pad_of(bearing_x);
            let top = glyph_top_of(cell_height, baseline, bearing_y) + top_pad_of(
                cell_height,
                baseline,
                bearing_y,
            );
            &&& 0 <= left && left + width <= tw
            &&& 0 <= top && top + height <= th
            &&& tw >= max_int(cells, 1) * cell_width
            &&& th >= cell_height
            &&& tw >= 1 && th >= 1
        }),
{
    assert(max_int(cells, 1) * cell_width >= 0) by (nonlinear_arith)
        requires
            max_int(cells, 1) >= 1,
            cell_width >= 0,
    ;
}

} // verus!
