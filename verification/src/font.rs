//! Glyph data shared by the renderers, the glyphs drawn procedurally
//! (block elements and shades), pixel blending, the choice of fallback fonts,
//! and the locations of the font caches.
use crate::text::{
    char_from_u32, char_width, chars_of, push_char, str_width, unicode_char_width, unicode_str_width,
};
use vstd::utf8::is_scalar;
use vstd::string::StringExecFns;
use vstd::prelude::*;

verus! {

/// The metrics measured from the primary font before a window opens.
#[derive(Debug, Clone)]
pub struct FontBootstrapMetrics {
    pub font_path: String,
    pub cell_width: usize,
    pub cell_height: usize,
    pub baseline: usize,
}

/// How a glyph's pixels are stored: one coverage byte, or four RGBA bytes.
#[derive(Debug, Clone, Copy, PartialEq, Eq, Structural)]
pub enum GlyphFormat {
    Alpha,
    Rgba,
}

/// A rasterized glyph: its pixels, size, format and bearings (offsets of its
/// left edge from the pen and of its top edge above the baseline).
pub struct GlyphData<'a> {
    pub pixels: &'a [u8],
    pub width: usize,
    pub height: usize,
    pub format: GlyphFormat,
    pub bearing_x: i32,
    pub bearing_y: i32,
}

/// A glyph of a shaped run: the glyph, the cluster it starts, and the cells
/// it covers.
#[derive(Debug, Clone, Copy, PartialEq, Eq, Structural)]
pub struct ShapedGlyph {
    pub codepoint: u32,
    pub cluster: u32,
    pub cells: usize,
}

/// A glyph rasterized into pixels of its own.
#[derive(Debug, Clone)]
pub struct RasterizedGlyph {
    pub pixels: Vec<u8>,
    pub width: usize,
    pub height: usize,
    pub format: GlyphFormat,
    pub bearing_x: i32,
    pub bearing_y: i32,
    pub advance: i32,
}

/// The 4x4 ordered-dither matrix of the shade characters.
pub open spec fn bayer(row: int, col: int) -> int {
    let m = seq![
        seq![0int, 8, 2, 10],
        seq![12int, 4, 14, 6],
        seq![3int, 11, 1, 9],
        seq![15int, 7, 13, 5],
    ];
    m[row][col]
}

fn bayer_value(row: usize, col: usize) -> (v: u8)
    requires
        row < 4,
        col < 4,
    ensures
        v == bayer(row as int, col as int),
{
    let table: [[u8; 4]; 4] = [[0, 8, 2, 10], [12, 4, 14, 6], [3, 11, 1, 9], [15, 7, 13, 5]];
    let r = table[row];
    let v = r[col];
    assert(v == bayer(row as int, col as int)) by {
        assert(table@[0]@ =~= seq![0u8, 8, 2, 10]);
        assert(table@[1]@ =~= seq![12u8, 4, 14, 6]);
        assert(table@[2]@ =~= seq![3u8, 11, 1, 9]);
        assert(table@[3]@ =~= seq![15u8, 7, 13, 5]);
    }
    v
}

/// The characters drawn procedurally so that they fill their cells exactly:
/// full, upper-half, lower-half, left-half and right-half blocks, and the
/// light, medium and dark shades.
pub open spec fn is_procedural(ch: u32) -> bool {
    ch == 0x2588 || ch == 0x2580 || ch == 0x2584 || ch == 0x258C || ch == 0x2590 || (0x2591 <= ch
        <= 0x2593)
}

/// Whether the procedural glyph of `ch` covers pixel (`x`, `y`) of a `w` by
/// `h` cell. Halves round towards the upper and left parts; the shades cover
/// the pixels whose dither value is below 4, 8 or 12.
pub open spec fn procedural_filled(ch: u32, w: int, h: int, y: int, x: int) -> bool {
    if ch == 0x2588 {
        true
    } else if ch == 0x2580 {
        y < (h + 1) / 2
    } else if ch == 0x2584 {
        y >= h / 2
    } else if ch == 0x258C {
        x < (w + 1) / 2
    } else if ch == 0x2590 {
        x >= w / 2
    } else {
        bayer(y % 4, x % 4) < 4 * (ch - 0x2590)
    }
}

fn filled_at(ch: u32, w: usize, h: usize, y: usize, x: usize) -> (b: bool)
    requires
        is_procedural(ch),
        w < usize::MAX,
    ensures
        b == procedural_filled(ch, w as int, h as int, y as int, x as int),
{
    if ch == 0x2588 {
        true
    } else if ch == 0x2580 {
        y < h / 2 + h % 2
    } else if ch == 0x2584 {
        y >= h / 2
    } else if ch == 0x258C {
        x < w / 2 + w % 2
    } else if ch == 0x2590 {
        x >= w / 2
    } else {
        (bayer_value(y % 4, x % 4) as u32) < 4 * (ch - 0x2590)
    }
}

proof fn lemma_row_major(y1: int, x1: int, y2: int, x2: int, w: int)
    requires
        0 <= x1 < w,
        0 <= x2 < w,
        0 <= y1 < y2,
    ensures
        y1 * w + x1 < y2 * w + x2,
{
    assert(y1 * w + x1 < y2 * w + x2) by (nonlinear_arith)
        requires
            0 <= x1 < w,
            0 <= x2 < w,
            0 <= y1 < y2,
    ;
}

/// The glyph drawn for block elements and shades at a cell size: a coverage
/// glyph exactly one cell (at least 1x1 pixels) big, its top `cell_height -
/// baseline` pixels above the baseline; `None` for other characters.
pub fn procedural_glyph(ch: u32, cell_width: usize, cell_height: usize, baseline: usize) -> (r:
    Option<RasterizedGlyph>)
    requires
        cell_width <= i32::MAX,
        cell_height <= i32::MAX,
        cell_width * cell_height <= usize::MAX,
    ensures
        !is_procedural(ch) ==> r is None,
        is_procedural(ch) ==> (r matches Some(g) && {
            let w = if cell_width > 1 {
                cell_width as int
            } else {
                1
            };
            let h = if cell_height > 1 {
                cell_height as int
            } else {
                1
            };
            &&& g.width == w
            &&& g.height == h
            &&& g.format == GlyphFormat::Alpha
            &&& g.bearing_x == 0
            &&& g.bearing_y == (if h > baseline {
                h - baseline
            } else {
                0
            })
            &&& g.advance == w
            &&& g.pixels@.len() == w * h
            &&& forall|y: int, x: int|
                0 <= y < h && 0 <= x < w ==> #[trigger] g.pixels@[y * w + x] == if procedural_filled(
                    ch,
                    w,
                    h,
                    y,
                    x,
                ) {
                    255u8
                } else {
                    0u8
                }
        }),
{
    if !(ch == 0x2588 || ch == 0x2580 || ch == 0x2584 || ch == 0x258C || ch == 0x2590 || (0x2591
        <= ch && ch <= 0x2593)) {
        return None;
    }
    let width = if cell_width > 1 {
        cell_width
    } else {
        1
    };
    let height = if cell_height > 1 {
        cell_height
    } else {
        1
    };
    assert(width * height <= usize::MAX) by (nonlinear_arith)
        requires
            width <= if cell_width > 1 { cell_width as int } else { 1 },
            height <= if cell_height > 1 { cell_height as int } else { 1 },
            cell_width * cell_height <= usize::MAX,
            cell_width <= i32::MAX,
            cell_height <= i32::MAX,
            width >= 1,
            height >= 1,
    ;
    let mut pixels: Vec<u8> = Vec::new();
    let mut y: usize = 0;
    while y < height
        invariant
            is_procedural(ch),
            1 <= width <= i32::MAX,
            1 <= height <= i32::MAX,
            width * height <= usize::MAX,
            y <= height,
            pixels@.len() == y * width,
            forall|yy: int, xx: int|
                0 <= yy < y && 0 <= xx < width ==> #[trigger] pixels@[yy * width + xx] == if procedural_filled(
                    ch,
                    width as int,
                    height as int,
                    yy,
                    xx,
                ) {
                    255u8
                } else {
                    0u8
                },
        decreases height - y,
    {
        let mut x: usize = 0;
        while x < width
            invariant
                is_procedural(ch),
                1 <= width <= i32::MAX,
                1 <= height <= i32::MAX,
                y < height,
                x <= width,
                pixels@.len() == y * width + x,
                forall|yy: int, xx: int|
                    (0 <= yy < y && 0 <= xx < width) || (yy == y && 0 <= xx < x) ==> #[trigger] pixels@[yy
                        * width + xx] == if procedural_filled(
                        ch,
                        width as int,
                        height as int,
                        yy,
                        xx,
                    ) {
                        255u8
                    } else {
                        0u8
                    },
            decreases width - x,
        {
            let v: u8 = if filled_at(ch, width, height, y, x) {
                255
            } else {
                0
            };
            let ghost before = pixels@;
            pixels.push(v);
            assert forall|yy: int, xx: int|
                (0 <= yy < y && 0 <= xx < width) || (yy == y && 0 <= xx < x + 1) implies #[trigger] pixels@[yy
                * width + xx] == if procedural_filled(ch, width as int, height as int, yy, xx) {
                255u8
            } else {
                0u8
            } by {
                if yy < y {
                    lemma_row_major(yy, xx, y as int, x as int, width as int);
                    assert(pixels@[yy * width + xx] == before[yy * width + xx]);
                } else if xx < x {
                    assert(pixels@[yy * width + xx] == before[yy * width + xx]);
                }
            }
            x = x + 1;
        }
        assert((y + 1) * width == y * width + width) by (nonlinear_arith);
        y = y + 1;
    }
    assert(height * width == width * height) by (nonlinear_arith);
    let bearing_y = if height > baseline {
        height - baseline
    } else {
        0
    };
    Some(
        RasterizedGlyph {
            pixels,
            width,
            height,
            format: GlyphFormat::Alpha,
            bearing_x: 0,
            bearing_y: bearing_y as i32,
            advance: width as i32,
        },
    )
}

/// The byte of a packed `0xRRGGBB` colour at a channel (16 red, 8 green, 0 blue).
pub open spec fn channel(c: u32, shift: int) -> int {
    (c as int / pow2_of(shift)) % 256
}

pub open spec fn pow2_of(shift: int) -> int {
    if shift == 16 {
        0x10000
    } else if shift == 8 {
        0x100
    } else {
        1
    }
}

/// `fg` over `bg` with coverage `alpha` of 255, each channel rounded down.
pub open spec fn blend_channel(fg: int, bg: int, alpha: int) -> int {
    (fg * alpha + bg * (255 - alpha)) / 255
}

/// The colour `fg` drawn with coverage `alpha` over `bg`: `bg` at coverage
/// 0, `fg` at 255, and in between each channel blended and rounded down.
pub open spec fn blended_pixel(bg: u32, fg: u32, alpha: u32) -> u32 {
    if alpha == 0 {
        bg
    } else if alpha == 255 {
        fg
    } else {
        (blend_channel(channel(fg, 16), channel(bg, 16), alpha as int) * 0x10000 + blend_channel(
            channel(fg, 8),
            channel(bg, 8),
            alpha as int,
        ) * 0x100 + blend_channel(channel(fg, 0), channel(bg, 0), alpha as int)) as u32
    }
}

fn blend_byte(fg: u32, bg: u32, alpha: u32) -> (v: u32)
    requires
        fg < 256,
        bg < 256,
        alpha <= 255,
    ensures
        v == blend_channel(fg as int, bg as int, alpha as int),
        v < 256,
{
    assert(fg * alpha + bg * (255 - alpha) <= 255 * 255) by (nonlinear_arith)
        requires
            fg < 256,
            bg < 256,
            alpha <= 255,
    ;
    (fg * alpha + bg * (255 - alpha)) / 255
}

/// Draws colour `fg` with coverage `alpha` (0 to 255) over the pixel.
pub fn blend_alpha_pixel(pixel: &mut u32, fg: u32, alpha: u32)
    requires
        alpha <= 255,
    ensures
        *final(pixel) == blended_pixel(*old(pixel), fg, alpha),
{
    if alpha == 0 {
        return ;
    }
    if alpha == 255 {
        *pixel = fg;
        return ;
    }
    let bg = *pixel;
    assert(channel(fg, 16) == (fg / 0x10000) % 256);
    assert(channel(bg, 16) == (bg / 0x10000) % 256);
    assert(channel(fg, 8) == (fg / 0x100) % 256);
    assert(channel(bg, 8) == (bg / 0x100) % 256);
    assert(channel(fg, 0) == fg % 256);
    assert(channel(bg, 0) == bg % 256);
    let r = blend_byte((fg / 0x10000) % 256, (bg / 0x10000) % 256, alpha);
    let g = blend_byte((fg / 0x100) % 256, (bg / 0x100) % 256, alpha);
    let b = blend_byte(fg % 256, bg % 256, alpha);
    *pixel = r * 0x10000 + g * 0x100 + b;
}

/// Composites an RGBA pixel (its first four bytes) over an opaque RGB pixel.
pub fn blend_rgba_pixel(pixel: &mut u32, rgba: &[u8])
    requires
        rgba@.len() >= 4,
    ensures
        *final(pixel) == blended_pixel(
            *old(pixel),
            (rgba@[0] as int * 0x10000 + rgba@[1] as int * 0x100 + rgba@[2] as int) as u32,
            rgba@[3] as u32,
        ),
{
    let fg = (rgba[0] as u32) * 0x10000 + (rgba[1] as u32) * 0x100 + rgba[2] as u32;
    blend_alpha_pixel(pixel, fg, rgba[3] as u32);
}

/// The code points for which an emoji font is tried when the primary font
/// lacks a glyph: a few symbols that have emoji presentations, the variation
/// selector 16, and the blocks of arrows, technical symbols, enclosed
/// alphanumerics, geometric shapes to dingbats, miscellaneous symbols and
/// arrows, and the supplementary emoji planes.
pub open spec fn emoji_fallback_codepoint(ch: u32) -> bool {
    ||| ch == 0x00A9 || ch == 0x00AE || ch == 0x203C || ch == 0x2049 || ch == 0x2122
    ||| ch == 0x2139 || ch == 0x3030 || ch == 0x303D || ch == 0x3297 || ch == 0x3299
    ||| ch == 0xFE0F || ch == 0x1F004 || ch == 0x1F0CF || ch == 0x1F18E
    ||| 0x2194 <= ch <= 0x21FF
    ||| 0x2300 <= ch <= 0x23FF
    ||| 0x2460 <= ch <= 0x24FF
    ||| 0x25A0 <= ch <= 0x27BF
    ||| 0x2B00 <= ch <= 0x2BFF
    ||| 0x1F000 <= ch <= 0x1FAFF
}

pub fn should_try_emoji_fallback(ch: u32) -> (b: bool)
    ensures
        b == emoji_fallback_codepoint(ch),
{
    ch == 0x00A9 || ch == 0x00AE || ch == 0x203C || ch == 0x2049 || ch == 0x2122 || ch == 0x2139
        || ch == 0x3030 || ch == 0x303D || ch == 0x3297 || ch == 0x3299 || ch == 0xFE0F || ch
        == 0x1F004 || ch == 0x1F0CF || ch == 0x1F18E || (0x2194 <= ch && ch <= 0x21FF) || (0x2300
        <= ch && ch <= 0x23FF) || (0x2460 <= ch && ch <= 0x24FF) || (0x25A0 <= ch && ch <= 0x27BF)
        || (0x2B00 <= ch && ch <= 0x2BFF) || (0x1F000 <= ch && ch <= 0x1FAFF)
}

/// ASCII upper-case letters in lower case; other characters unchanged.
pub open spec fn ascii_lower(c: char) -> char {
    if 'A' <= c <= 'Z' {
        ((c as u32) + 32) as char
    } else {
        c
    }
}

/// The file name of a path: what follows its last `/`.
pub open spec fn file_name_start(p: Seq<char>) -> int
    decreases p.len(),
{
    if p.len() == 0 {
        0
    } else if p.last() == '/' {
        p.len() as int
    } else {
        file_name_start(p.drop_last())
    }
}

/// The ten characters of `name` from `i`, ASCII letters in lower case.
pub open spec fn lower_window(name: Seq<char>, i: int) -> Seq<char> {
    name.subrange(i, i + 10).map_values(|c: char| ascii_lower(c))
}

/// Whether `name`, ASCII letters compared without case, contains `lastresort`.
pub open spec fn names_last_resort(name: Seq<char>) -> bool {
    exists|i: int| 0 <= i && i + 10 <= name.len() && #[trigger] lower_window(name, i) == "lastresort"@
}

/// Whether a font file is Apple's `LastResort` font, which has placeholder
/// glyphs for all of Unicode and so is no real fallback.
pub fn is_last_resort_font(path: &str) -> (b: bool)
    ensures
        b == names_last_resort(path@.subrange(file_name_start(path@), path@.len() as int)),
{
    let v = chars_of(path);
    let n = v.len();
    let mut start: usize = n;
    assert(v@.subrange(0, n as int) =~= v@);
    while start > 0 && v[start - 1] != '/'
        invariant
            start <= n == v@.len(),
            file_name_start(v@.subrange(0, start as int)) == file_name_start(v@),
        decreases start,
    {
        assert(v@.subrange(0, start as int).drop_last() =~= v@.subrange(0, start - 1));
        start = start - 1;
    }
    assert(file_name_start(v@.subrange(0, start as int)) == start);
    let ghost name = v@.subrange(start as int, n as int);
    proof {
        reveal_strlit("lastresort");
    }
    let pattern: [char; 10] = ['l', 'a', 's', 't', 'r', 'e', 's', 'o', 'r', 't'];
    assert(pattern@ =~= "lastresort"@);
    if n - start < 10 {
        return false;
    }
    let mut i: usize = start;
    while i <= n - 10
        invariant
            10 <= n,
            start == file_name_start(path@),
            v@ == path@,
            start <= i,
            i <= n,
            n == v@.len(),
            name == v@.subrange(start as int, n as int),
            pattern@ == "lastresort"@,
            forall|j: int|
                0 <= j && j + 10 <= name.len() && j < i - start ==> #[trigger] lower_window(name, j)
                    != "lastresort"@,
        decreases n - i,
    {
        let mut k: usize = 0;
        let mut same = true;
        while k < 10
            invariant
                k <= 10,
                i + 10 <= n == v@.len(),
                same == (forall|q: int| 0 <= q < k ==> ascii_lower(v@[i + q]) == pattern@[q]),
            decreases 10 - k,
        {
            let c = v[i + k];
            let lower = if 'A' <= c && c <= 'Z' {
                ((c as u32) + 32) as u8 as char
            } else {
                c
            };
            assert(lower == ascii_lower(c)) by {
                if 'A' <= c && c <= 'Z' {
                    assert((((c as u32) + 32) as u8 as char) == (((c as u32) + 32) as char));
                }
            }
            if lower != pattern[k] {
                same = false;
            }
            k = k + 1;
        }
        let ghost window = lower_window(name, i - start);
        assert(window =~= Seq::new(10, |q: int| ascii_lower(v@[i + q])));
        if same {
            assert(window =~= "lastresort"@);
            return true;
        }
        i = i + 1;
    }
    false
}

/// A relative path `name` joined under a directory, as `Path::join` does on
/// Unix: a separator is added unless the directory is empty or ends in one.
pub open spec fn joined_path(dir: Seq<char>, name: Seq<char>) -> Seq<char> {
    if dir.len() == 0 {
        name
    } else if dir.last() == '/' {
        dir + name
    } else {
        dir + seq!['/'] + name
    }
}

pub(crate) fn join_path(dir: &str, name: &str) -> (p: String)
    ensures
        p@ == joined_path(dir@, name@),
{
    let v = chars_of(dir);
    let mut p = String::from_str(dir);
    if v.len() > 0 && v[v.len() - 1] != '/' {
        push_char(&mut p, '/');
    }
    p.append(name);
    p
}

/// Where the path of the resolved primary font is cached.
pub fn font_cache_path_in(cache_dir: &str) -> (p: String)
    ensures
        p@ == joined_path(cache_dir@, "font_path"@),
{
    join_path(cache_dir, "font_path")
}

/// Where the measured font metrics are cached.
pub fn font_metrics_cache_path_in(cache_dir: &str) -> (p: String)
    ensures
        p@ == joined_path(cache_dir@, "font_metrics_v1"@),
{
    join_path(cache_dir, "font_metrics_v1")
}

/// Where the list of emoji font files is cached.
pub fn emoji_font_cache_path_in(cache_dir: &str) -> (p: String)
    ensures
        p@ == joined_path(cache_dir@, "emoji_fonts_v1"@),
{
    join_path(cache_dir, "emoji_fonts_v1")
}

/// Where measured cell widths are cached.
pub fn cell_width_cache_path_in(cache_dir: &str) -> (p: String)
    ensures
        p@ == joined_path(cache_dir@, "cell_width_v1"@),
{
    join_path(cache_dir, "cell_width_v1")
}

/// The source pixel sampled for destination pixel `x` when a row of `src`
/// pixels is scaled to `dst`: the one under the destination pixel's centre,
/// `floor((x + 1/2) * src / dst)`, kept inside the source.
pub open spec fn sample_coord(x: int, src: int, dst: int) -> int {
    let s = ((2 * x + 1) * src) / (2 * dst);
    if s > src - 1 {
        if src > 0 {
            src - 1
        } else {
            0
        }
    } else {
        s
    }
}

fn sample_axis(x: usize, src: usize, dst: usize) -> (s: usize)
    requires
        x < dst,
        src <= 0xffff_ffff,
        dst <= 0xffff_ffff,
    ensures
        s == sample_coord(x as int, src as int, dst as int),
        src > 0 ==> s < src,
{
    let xx = x as u128;
    let a = 2 * xx + 1;
    let b = src as u128;
    assert(a * b <= 0xffff_ffff_ffff_ffff_ffff) by (nonlinear_arith)
        requires
            a <= 2 * 0xffff_ffff + 1,
            b <= 0xffff_ffff,
    ;
    let num = a * b;
    let den = 2 * (dst as u128);
    let q = num / den;
    let last = if src > 0 {
        src - 1
    } else {
        0
    };
    if q > last as u128 {
        last
    } else {
        q as usize
    }
}

/// The source coordinates sampled for destination pixel (`x`, `y`) when an
/// image is scaled by nearest-neighbour sampling at pixel centres.
pub fn sample_source_coords(
    x: usize,
    y: usize,
    src_width: usize,
    src_height: usize,
    dst_width: usize,
    dst_height: usize,
) -> (r: (usize, usize))
    requires
        x < dst_width,
        y < dst_height,
        src_width <= 0xffff_ffff,
        src_height <= 0xffff_ffff,
        dst_width <= 0xffff_ffff,
        dst_height <= 0xffff_ffff,
    ensures
        r.0 == sample_coord(x as int, src_width as int, dst_width as int),
        r.1 == sample_coord(y as int, src_height as int, dst_height as int),
{
    (sample_axis(x, src_width, dst_width), sample_axis(y, src_height, dst_height))
}

/// A coverage image scaled to `dst_width` by `dst_height` pixels.
pub fn resize_alpha_pixels(
    src: &[u8],
    src_width: usize,
    src_height: usize,
    dst_width: usize,
    dst_height: usize,
) -> (dst: Vec<u8>)
    requires
        1 <= src_width <= 0xffff_ffff,
        1 <= src_height <= 0xffff_ffff,
        dst_width <= 0xffff_ffff,
        dst_height <= 0xffff_ffff,
        src.len() >= src_width * src_height,
    ensures
        dst@.len() == dst_width * dst_height,
        forall|y: int, x: int|
            0 <= y < dst_height && 0 <= x < dst_width ==> #[trigger] dst@[y * dst_width + x]
                == src@[sample_coord(y, src_height as int, dst_height as int) * src_width
                + sample_coord(x, src_width as int, dst_width as int)],
{
    let mut dst: Vec<u8> = Vec::new();
    let mut y: usize = 0;
    while y < dst_height
        invariant
            y <= dst_height <= 0xffff_ffff,
            dst_width <= 0xffff_ffff,
            1 <= src_width <= 0xffff_ffff,
            1 <= src_height <= 0xffff_ffff,
            src.len() >= src_width * src_height,
            dst@.len() == y * dst_width,
            forall|yy: int, xx: int|
                0 <= yy < y && 0 <= xx < dst_width ==> #[trigger] dst@[yy * dst_width + xx]
                    == src@[sample_coord(yy, src_height as int, dst_height as int) * src_width
                    + sample_coord(xx, src_width as int, dst_width as int)],
        decreases dst_height - y,
    {
        let mut x: usize = 0;
        while x < dst_width
            invariant
                y < dst_height <= 0xffff_ffff,
                x <= dst_width <= 0xffff_ffff,
                1 <= src_width <= 0xffff_ffff,
                1 <= src_height <= 0xffff_ffff,
                src.len() >= src_width * src_height,
                dst@.len() == y * dst_width + x,
                forall|yy: int, xx: int|
                    (0 <= yy < y && 0 <= xx < dst_width) || (yy == y && 0 <= xx < x) ==> #[trigger] dst@[yy
                        * dst_width + xx] == src@[sample_coord(yy, src_height as int, dst_height as int)
                        * src_width + sample_coord(xx, src_width as int, dst_width as int)],
            decreases dst_width - x,
        {
            let (sx, sy) = sample_source_coords(x, y, src_width, src_height, dst_width, dst_height);
            assert(sy * src_width + sx < src_width * src_height) by (nonlinear_arith)
                requires
                    sx < src_width,
                    sy < src_height,
            ;
            let v = src[sy * src_width + sx];
            let ghost before = dst@;
            dst.push(v);
            assert forall|yy: int, xx: int|
                (0 <= yy < y && 0 <= xx < dst_width) || (yy == y && 0 <= xx < x + 1) implies #[trigger] dst@[yy
                * dst_width + xx] == src@[sample_coord(yy, src_height as int, dst_height as int)
                * src_width + sample_coord(xx, src_width as int, dst_width as int)] by {
                if yy < y {
                    lemma_row_major(yy, xx, y as int, x as int, dst_width as int);
                    assert(dst@[yy * dst_width + xx] == before[yy * dst_width + xx]);
                } else if xx < x {
                    assert(dst@[yy * dst_width + xx] == before[yy * dst_width + xx]);
                }
            }
            x = x + 1;
        }
        assert((y + 1) * dst_width == y * dst_width + dst_width) by (nonlinear_arith);
        y = y + 1;
    }
    dst
}

proof fn lemma_pixel_major(y1: int, x1: int, k1: int, y2: int, x2: int, k2: int, w: int)
    requires
        0 <= x1 < w,
        0 <= x2 < w,
        0 <= k1 < 4,
        0 <= k2 < 4,
        0 <= y1,
        0 <= y2,
        y1 < y2 || (y1 == y2 && x1 < x2) || (y1 == y2 && x1 == x2 && k1 < k2),
    ensures
        (y1 * w + x1) * 4 + k1 < (y2 * w + x2) * 4 + k2,
{
    if y1 < y2 {
        lemma_row_major(y1, x1, y2, x2, w);
    }
}

/// An RGBA image scaled to `dst_width` by `dst_height` pixels.
pub fn resize_rgba_pixels(
    src: &[u8],
    src_width: usize,
    src_height: usize,
    dst_width: usize,
    dst_height: usize,
) -> (dst: Vec<u8>)
    requires
        1 <= src_width <= 0xffff_ffff,
        1 <= src_height <= 0xffff_ffff,
        dst_width <= 0xffff_ffff,
        dst_height <= 0xffff_ffff,
        src.len() >= src_width * src_height * 4,
    ensures
        dst@.len() == dst_width * dst_height * 4,
        forall|y: int, x: int, k: int|
            0 <= y < dst_height && 0 <= x < dst_width && 0 <= k < 4 ==> #[trigger] dst@[(y
                * dst_width + x) * 4 + k] == src@[(sample_coord(y, src_height as int, dst_height as int)
                * src_width + sample_coord(x, src_width as int, dst_width as int)) * 4 + k],
{
    let mut dst: Vec<u8> = Vec::new();
    let mut y: usize = 0;
    while y < dst_height
        invariant
            y <= dst_height <= 0xffff_ffff,
            dst_width <= 0xffff_ffff,
            1 <= src_width <= 0xffff_ffff,
            1 <= src_height <= 0xffff_ffff,
            src.len() >= src_width * src_height * 4,
            dst@.len() == y * dst_width * 4,
            forall|yy: int, xx: int, k: int|
                0 <= yy < y && 0 <= xx < dst_width && 0 <= k < 4 ==> #[trigger] dst@[(yy
                    * dst_width + xx) * 4 + k] == src@[(sample_coord(
                    yy,
                    src_height as int,
                    dst_height as int,
                ) * src_width + sample_coord(xx, src_width as int, dst_width as int)) * 4 + k],
        decreases dst_height - y,
    {
        let mut x: usize = 0;
        while x < dst_width
            invariant
                y < dst_height <= 0xffff_ffff,
                x <= dst_width <= 0xffff_ffff,
                1 <= src_width <= 0xffff_ffff,
                1 <= src_height <= 0xffff_ffff,
                src.len() >= src_width * src_height * 4,
                dst@.len() == (y * dst_width + x) * 4,
                forall|yy: int, xx: int, k: int|
                    ((0 <= yy < y && 0 <= xx < dst_width) || (yy == y && 0 <= xx < x)) && 0 <= k
                        < 4 ==> #[trigger] dst@[(yy * dst_width + xx) * 4 + k] == src@[(sample_coord(
                        yy,
                        src_height as int,
                        dst_height as int,
                    ) * src_width + sample_coord(xx, src_width as int, dst_width as int)) * 4 + k],
            decreases dst_width - x,
        {
            let (sx, sy) = sample_source_coords(x, y, src_width, src_height, dst_width, dst_height);
            assert((sy * src_width + sx) * 4 + 3 < src_width * src_height * 4) by (nonlinear_arith)
                requires
                    sx < src_width,
                    sy < src_height,
            ;
            let offset = (sy * src_width + sx) * 4;
            let ghost before = dst@;
            dst.push(src[offset]);
            dst.push(src[offset + 1]);
            dst.push(src[offset + 2]);
            dst.push(src[offset + 3]);
            assert(dst@.len() == (y * dst_width + x + 1) * 4);
            assert forall|yy: int, xx: int, k: int|
                ((0 <= yy < y && 0 <= xx < dst_width) || (yy == y && 0 <= xx < x + 1)) && 0 <= k
                    < 4 implies #[trigger] dst@[(yy * dst_width + xx) * 4 + k] == src@[(sample_coord(
                yy,
                src_height as int,
                dst_height as int,
            ) * src_width + sample_coord(xx, src_width as int, dst_width as int)) * 4 + k] by {
                if yy < y || xx < x {
                    lemma_pixel_major(yy, xx, k, y as int, x as int, 0, dst_width as int);
                    assert(dst@[(yy * dst_width + xx) * 4 + k] == before[(yy * dst_width + xx) * 4
                        + k]);
                }
            }
            x = x + 1;
        }
        assert((y + 1) * dst_width * 4 == (y * dst_width + dst_width) * 4) by (nonlinear_arith);
        y = y + 1;
    }
    dst
}

/// A glyph's pixels scaled to `new_width` by `new_height`.
pub fn resize_glyph_pixels(glyph: &RasterizedGlyph, new_width: usize, new_height: usize) -> (r: Vec<
    u8,
>)
    requires
        1 <= glyph.width <= 0xffff_ffff,
        1 <= glyph.height <= 0xffff_ffff,
        new_width <= 0xffff_ffff,
        new_height <= 0xffff_ffff,
        glyph.format == GlyphFormat::Alpha ==> glyph.pixels.len() >= glyph.width * glyph.height,
        glyph.format == GlyphFormat::Rgba ==> glyph.pixels.len() >= glyph.width * glyph.height * 4,
    ensures
        glyph.format == GlyphFormat::Alpha ==> r@.len() == new_width * new_height && forall|
            y: int,
            x: int,
        |
            0 <= y < new_height && 0 <= x < new_width ==> #[trigger] r@[y * new_width + x]
                == glyph.pixels@[sample_coord(y, glyph.height as int, new_height as int)
                * glyph.width + sample_coord(x, glyph.width as int, new_width as int)],
        glyph.format == GlyphFormat::Rgba ==> r@.len() == new_width * new_height * 4 && forall|
            y: int,
            x: int,
            k: int,
        |
            0 <= y < new_height && 0 <= x < new_width && 0 <= k < 4 ==> #[trigger] r@[(y
                * new_width + x) * 4 + k] == glyph.pixels@[(sample_coord(
                y,
                glyph.height as int,
                new_height as int,
            ) * glyph.width + sample_coord(x, glyph.width as int, new_width as int)) * 4 + k],
{
    match glyph.format {
        GlyphFormat::Alpha => resize_alpha_pixels(
            glyph.pixels.as_slice(),
            glyph.width,
            glyph.height,
            new_width,
            new_height,
        ),
        GlyphFormat::Rgba => resize_rgba_pixels(
            glyph.pixels.as_slice(),
            glyph.width,
            glyph.height,
            new_width,
            new_height,
        ),
    }
}

/// The cells a code point spans: its display width, at least one, and one
/// for a value that is not a character or has no width.
pub open spec fn codepoint_cells(ch: u32) -> usize {
    if is_scalar(ch) {
        match unicode_char_width(ch as char) {
            Some(w) => if w > 1 {
                w
            } else {
                1
            },
            None => 1,
        }
    } else {
        1
    }
}

/// The cells a code point's glyph spans.
pub fn codepoint_span_cells(ch: u32) -> (n: usize)
    ensures
        n == codepoint_cells(ch),
{
    let w = match char_from_u32(ch) {
        Some(c) => match char_width(c) {
            Some(w) => w,
            None => 1,
        },
        None => 1,
    };
    if w > 1 {
        w
    } else {
        1
    }
}

/// The cells a grapheme cluster's glyph spans: its display width, at least one.
pub fn grapheme_span_cells(grapheme: &str) -> (n: usize)
    ensures
        n == (if unicode_str_width(grapheme@) > 1 {
            unicode_str_width(grapheme@)
        } else {
            1
        }),
        grapheme@.len() == 0 ==> n == 1,
{
    let w = str_width(grapheme);
    if w > 1 {
        w
    } else {
        1
    }
}

} // verus!
