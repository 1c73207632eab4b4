//! Kitty graphics protocol: image and placement records, and the decoding of
//! transmitted image payloads (base64, optionally zlib-compressed, as raw RGB,
//! raw RGBA or PNG) into RGBA pixels.
use crate::base64::{base64_decoded, decode_lenient};
use vstd::prelude::*;

verus! {

#[derive(Debug, Clone)]
pub struct KittyImage {
    pub id: u32,
    pub width: u32,
    pub height: u32,
    pub data: Vec<u8>,
}

#[derive(Debug, Clone, Copy, PartialEq, Eq, Structural)]
pub struct KittyPlacement {
    pub image_id: u32,
    pub col: usize,
    pub row: usize,
    pub cols: usize,
    pub rows: usize,
}

#[derive(Debug, Clone, Default)]
pub struct KittyUploadState {
    pub payload_buf: Vec<u8>,
    pub pending_id: u32,
    pub pending_fmt: u32,
    pub pending_width: u32,
    pub pending_height: u32,
    pub pending_compression: Option<u8>,
    pub more_chunks: bool,
}

#[derive(Debug, Clone, Copy, PartialEq, Eq, Structural)]
pub struct KittyImageFinalize {
    pub id: u32,
    pub compression: Option<u8>,
    pub format: u32,
    pub width: u32,
    pub height: u32,
    pub action: u8,
    pub cols: u32,
    pub rows_param: u32,
}

#[derive(Debug, Clone, Copy, PartialEq, Eq, Structural)]
pub struct KittyGraphicsCommand {
    pub image_id: u32,
    pub delete: Option<u8>,
    pub quiet: u8,
}

/// The colour type of a decoded PNG image.
#[derive(Debug, Clone, Copy, PartialEq, Eq, Structural)]
pub enum PngColorType {
    Grayscale,
    Rgb,
    Indexed,
    GrayscaleAlpha,
    Rgba,
}

/// Why an image payload could not be decoded.
#[derive(Debug, Clone, Copy, PartialEq, Eq, Structural)]
pub enum KittyImageDecodeError {
    InvalidBase64,
    InvalidDimensions,
    UnexpectedPayloadLength { expected: usize, actual: usize },
    UnsupportedFormat(u32),
    UnsupportedCompression(u8),
    DecompressionFailed,
    InvalidPng,
    UnsupportedPngColorType(PngColorType),
}

/// The PNG colour type with the given code of the PNG format.
pub open spec fn png_color_type(code: u8) -> Option<PngColorType> {
    if code == 0 {
        Some(PngColorType::Grayscale)
    } else if code == 2 {
        Some(PngColorType::Rgb)
    } else if code == 3 {
        Some(PngColorType::Indexed)
    } else if code == 4 {
        Some(PngColorType::GrayscaleAlpha)
    } else if code == 6 {
        Some(PngColorType::Rgba)
    } else {
        None
    }
}

/// What the flate2 crate's zlib decoder yields for `data` read to its end:
/// the inflated bytes, or `None` when the stream is not valid zlib.
pub uninterp spec fn zlib_inflated(data: Seq<u8>) -> Option<Seq<u8>>;

/// What the png crate's decoder, with palette and low bit depths expanded and
/// 16-bit samples stripped to 8 bits, yields for the first frame of `data`:
/// width, height, PNG colour type code and the frame's bytes; `None` when
/// the data is not a PNG it can decode.
pub uninterp spec fn png_decoded(data: Seq<u8>) -> Option<(u32, u32, u8, Seq<u8>)>;

/// Inflates a zlib stream with flate2's `ZlibDecoder` read to its end. The
/// result is named `zlib_inflated`; the inflate algorithm is not restated.
#[verifier::external_body]
fn zlib_inflate(data: &[u8]) -> (r: Option<Vec<u8>>)
    ensures
        match r {
            Some(out) => zlib_inflated(data@) == Some(out@),
            None => zlib_inflated(data@) is None,
        },
{
    let mut decoder = flate2::read::ZlibDecoder::new(data);
    let mut out = Vec::new();
    match std::io::Read::read_to_end(&mut decoder, &mut out) {
        Ok(_) => Some(out),
        Err(_) => None,
    }
}

/// Decodes the first frame of a PNG with the png crate, asking for palette
/// expansion and 16-bit stripping. The result, width, height, colour type
/// code and frame bytes, is named `png_decoded`; PNG decoding is not restated.
#[verifier::external_body]
fn png_decode(data: &[u8]) -> (r: Option<(u32, u32, u8, Vec<u8>)>)
    ensures
        match r {
            Some((w, h, code, bytes)) => png_decoded(data@) == Some((w, h, code, bytes@)),
            None => png_decoded(data@) is None,
        },
{
    let mut decoder = png::Decoder::new(std::io::Cursor::new(data));
    decoder.set_transformations(png::Transformations::EXPAND | png::Transformations::STRIP_16);
    let mut reader = decoder.read_info().ok()?;
    let mut buf = vec![0u8; reader.output_buffer_size()];
    let info = reader.next_frame(&mut buf).ok()?;
    buf.truncate(info.buffer_size());
    Some((info.width, info.height, info.color_type as u8, buf))
}

/// RGB triples widened to opaque RGBA pixels; a trailing partial triple is dropped.
pub open spec fn rgb_to_rgba(b: Seq<u8>) -> Seq<u8> {
    Seq::new(
        (b.len() / 3) * 4,
        |i: int|
            if i % 4 == 3 {
                0xffu8
            } else {
                b[(i / 4) * 3 + i % 4]
            },
    )
}

/// Grey samples widened to opaque RGBA pixels.
pub open spec fn gray_to_rgba(b: Seq<u8>) -> Seq<u8> {
    Seq::new(
        b.len() * 4,
        |i: int|
            if i % 4 == 3 {
                0xffu8
            } else {
                b[i / 4]
            },
    )
}

/// Grey-and-alpha pairs widened to RGBA pixels; a trailing odd byte is dropped.
pub open spec fn gray_alpha_to_rgba(b: Seq<u8>) -> Seq<u8> {
    Seq::new(
        (b.len() / 2) * 4,
        |i: int|
            if i % 4 == 3 {
                b[(i / 4) * 2 + 1]
            } else {
                b[(i / 4) * 2]
            },
    )
}

/// `a * b`, saturating at `usize::MAX`.
pub open spec fn sat_mul(a: int, b: int) -> int {
    if a * b > usize::MAX {
        usize::MAX as int
    } else {
        a * b
    }
}

/// The RGBA image of a decoded PNG frame.
pub open spec fn png_frame_rgba(w: u32, h: u32, code: u8, bytes: Seq<u8>) -> Result<
    (u32, u32, Seq<u8>),
    KittyImageDecodeError,
> {
    if code == 6 {
        Ok((w, h, bytes))
    } else if code == 2 {
        Ok((w, h, rgb_to_rgba(bytes)))
    } else if code == 0 {
        Ok((w, h, gray_to_rgba(bytes)))
    } else if code == 4 {
        Ok((w, h, gray_alpha_to_rgba(bytes)))
    } else {
        match png_color_type(code) {
            Some(t) => Err(KittyImageDecodeError::UnsupportedPngColorType(t)),
            None => Err(KittyImageDecodeError::InvalidPng),
        }
    }
}

/// The payload after decompression.
pub open spec fn kitty_decompressed(decoded: Seq<u8>, compression: Option<u8>) -> Result<
    Seq<u8>,
    KittyImageDecodeError,
> {
    match compression {
        None => Ok(decoded),
        Some(c) => if c == 0x7a {
            match zlib_inflated(decoded) {
                Some(out) => Ok(out),
                None => Err(KittyImageDecodeError::DecompressionFailed),
            }
        } else {
            Err(KittyImageDecodeError::UnsupportedCompression(c))
        },
    }
}

/// The decoded raw pixel data of a given format and size.
pub open spec fn kitty_pixels(format: u32, data: Seq<u8>, width: u32, height: u32) -> Result<
    (u32, u32, Seq<u8>),
    KittyImageDecodeError,
> {
    if format == 24 || format == 32 {
        let bpp: int = if format == 24 {
            3
        } else {
            4
        };
        let expected = sat_mul(sat_mul(width as int, height as int), bpp);
        if width == 0 || height == 0 {
            Err(KittyImageDecodeError::InvalidDimensions)
        } else if data.len() != expected {
            Err(
                KittyImageDecodeError::UnexpectedPayloadLength {
                    expected: expected as usize,
                    actual: data.len() as usize,
                },
            )
        } else if format == 24 {
            Ok((width, height, rgb_to_rgba(data)))
        } else {
            Ok((width, height, data))
        }
    } else if format == 100 {
        match png_decoded(data) {
            Some((w, h, code, bytes)) => png_frame_rgba(w, h, code, bytes),
            None => Err(KittyImageDecodeError::InvalidPng),
        }
    } else {
        Err(KittyImageDecodeError::UnsupportedFormat(format))
    }
}

/// What decoding a kitty image payload gives.
pub open spec fn kitty_decoded(
    format: u32,
    compression: Option<u8>,
    payload: Seq<u8>,
    width: u32,
    height: u32,
) -> Result<(u32, u32, Seq<u8>), KittyImageDecodeError> {
    match base64_decoded(payload) {
        None => Err(KittyImageDecodeError::InvalidBase64),
        Some(d) => match kitty_decompressed(d, compression) {
            Err(e) => Err(e),
            Ok(d2) => kitty_pixels(format, d2, width, height),
        },
    }
}

/// Views a decode result with its pixel bytes as a sequence.
pub open spec fn result_view(r: Result<(u32, u32, Vec<u8>), KittyImageDecodeError>) -> Result<
    (u32, u32, Seq<u8>),
    KittyImageDecodeError,
> {
    match r {
        Ok((w, h, px)) => Ok((w, h, px@)),
        Err(e) => Err(e),
    }
}

fn saturating_mul_usize(a: usize, b: usize) -> (r: usize)
    ensures
        r == sat_mul(a as int, b as int),
{
    if b != 0 && a > usize::MAX / b {
        assert(a * b > usize::MAX) by (nonlinear_arith)
            requires
                b > 0,
                a > usize::MAX / b,
        ;
        usize::MAX
    } else {
        assert(a * b <= usize::MAX) by (nonlinear_arith)
            requires
                b == 0 || a <= usize::MAX / b,
        ;
        a * b
    }
}

/// Widens RGB triples to opaque RGBA pixels.
fn rgb_bytes_to_rgba(bytes: &[u8]) -> (out: Vec<u8>)
    ensures
        out@ == rgb_to_rgba(bytes@),
{
    let n = bytes.len() / 3;
    let mut out: Vec<u8> = Vec::new();
    let mut k: usize = 0;
    while k < n
        invariant
            k <= n,
            n == bytes@.len() / 3,
            out@ =~= rgb_to_rgba(bytes@).subrange(0, 4 * k as int),
        decreases n - k,
    {
        assert(3 * k + 2 < bytes.len()) by (nonlinear_arith)
            requires
                k < n,
                n == bytes.len() / 3,
        ;
        out.push(bytes[3 * k]);
        out.push(bytes[3 * k + 1]);
        out.push(bytes[3 * k + 2]);
        out.push(0xff);
        k = k + 1;
    }
    assert(rgb_to_rgba(bytes@).subrange(0, 4 * n as int) =~= rgb_to_rgba(bytes@));
    out
}

/// Widens grey samples to opaque RGBA pixels.
fn gray_bytes_to_rgba(bytes: &[u8]) -> (out: Vec<u8>)
    ensures
        out@ == gray_to_rgba(bytes@),
{
    let n = bytes.len();
    let mut out: Vec<u8> = Vec::new();
    let mut k: usize = 0;
    while k < n
        invariant
            k <= n,
            n == bytes@.len(),
            out@ =~= gray_to_rgba(bytes@).subrange(0, 4 * k as int),
        decreases n - k,
    {
        let v = bytes[k];
        out.push(v);
        out.push(v);
        out.push(v);
        out.push(0xff);
        k = k + 1;
    }
    assert(gray_to_rgba(bytes@).subrange(0, 4 * n as int) =~= gray_to_rgba(bytes@));
    out
}

/// Widens grey-and-alpha pairs to RGBA pixels.
fn gray_alpha_bytes_to_rgba(bytes: &[u8]) -> (out: Vec<u8>)
    ensures
        out@ == gray_alpha_to_rgba(bytes@),
{
    let n = bytes.len() / 2;
    let mut out: Vec<u8> = Vec::new();
    let mut k: usize = 0;
    while k < n
        invariant
            k <= n,
            n == bytes@.len() / 2,
            out@ =~= gray_alpha_to_rgba(bytes@).subrange(0, 4 * k as int),
        decreases n - k,
    {
        assert(2 * k + 1 < bytes.len()) by (nonlinear_arith)
            requires
                k < n,
                n == bytes.len() / 2,
        ;
        let g = bytes[2 * k];
        out.push(g);
        out.push(g);
        out.push(g);
        out.push(bytes[2 * k + 1]);
        k = k + 1;
    }
    assert(gray_alpha_to_rgba(bytes@).subrange(0, 4 * n as int) =~= gray_alpha_to_rgba(bytes@));
    out
}

/// Turns a decoded PNG frame (width, height, PNG colour type code and frame
/// bytes) into RGBA pixels.
pub fn png_frame_to_rgba(width: u32, height: u32, code: u8, bytes: Vec<u8>) -> (r: Result<
    (u32, u32, Vec<u8>),
    KittyImageDecodeError,
>)
    ensures
        result_view(r) == png_frame_rgba(width, height, code, bytes@),
{
    if code == 6 {
        Ok((width, height, bytes))
    } else if code == 2 {
        Ok((width, height, rgb_bytes_to_rgba(bytes.as_slice())))
    } else if code == 0 {
        Ok((width, height, gray_bytes_to_rgba(bytes.as_slice())))
    } else if code == 4 {
        Ok((width, height, gray_alpha_bytes_to_rgba(bytes.as_slice())))
    } else if code == 3 {
        Err(KittyImageDecodeError::UnsupportedPngColorType(PngColorType::Indexed))
    } else {
        Err(KittyImageDecodeError::InvalidPng)
    }
}

fn base64_decode_kitty(input: &[u8]) -> (r: Result<Vec<u8>, KittyImageDecodeError>)
    ensures
        match r {
            Ok(out) => base64_decoded(input@) == Some(out@),
            Err(e) => base64_decoded(input@) is None && e == KittyImageDecodeError::InvalidBase64,
        },
{
    match decode_lenient(input) {
        Some(out) => Ok(out),
        None => Err(KittyImageDecodeError::InvalidBase64),
    }
}

fn decompress_kitty_payload(decoded: Vec<u8>, compression: Option<u8>) -> (r: Result<
    Vec<u8>,
    KittyImageDecodeError,
>)
    ensures
        match r {
            Ok(out) => kitty_decompressed(decoded@, compression) == Ok::<
                Seq<u8>,
                KittyImageDecodeError,
            >(out@),
            Err(e) => kitty_decompressed(decoded@, compression) == Err::<
                Seq<u8>,
                KittyImageDecodeError,
            >(e),
        },
{
    match compression {
        None => Ok(decoded),
        Some(c) => {
            if c == 0x7a {
                match zlib_inflate(decoded.as_slice()) {
                    Some(out) => Ok(out),
                    None => Err(KittyImageDecodeError::DecompressionFailed),
                }
            } else {
                Err(KittyImageDecodeError::UnsupportedCompression(c))
            }
        },
    }
}

/// Decodes the pixel data of a given format and size: raw RGB (24) widened
/// to RGBA, raw RGBA (32), or PNG (100).
pub fn decode_kitty_pixels(format: u32, decoded: Vec<u8>, width: u32, height: u32) -> (r: Result<
    (u32, u32, Vec<u8>),
    KittyImageDecodeError,
>)
    ensures
        result_view(r) == kitty_pixels(format, decoded@, width, height),
{
    if format == 24 || format == 32 {
        if width == 0 || height == 0 {
            return Err(KittyImageDecodeError::InvalidDimensions);
        }
        let bpp: usize = if format == 24 {
            3
        } else {
            4
        };
        let expected = saturating_mul_usize(saturating_mul_usize(width as usize, height as usize), bpp);
        if decoded.len() != expected {
            return Err(
                KittyImageDecodeError::UnexpectedPayloadLength { expected, actual: decoded.len() },
            );
        }
        if format == 24 {
            Ok((width, height, rgb_bytes_to_rgba(decoded.as_slice())))
        } else {
            Ok((width, height, decoded))
        }
    } else if format == 100 {
        decode_png_kitty(decoded.as_slice())
    } else {
        Err(KittyImageDecodeError::UnsupportedFormat(format))
    }
}

/// Decodes a PNG image (expanded to 8-bit channels) into RGBA pixels.
fn decode_png_kitty(encoded_png: &[u8]) -> (r: Result<(u32, u32, Vec<u8>), KittyImageDecodeError>)
    ensures
        result_view(r) == (match png_decoded(encoded_png@) {
            Some((w, h, code, bytes)) => png_frame_rgba(w, h, code, bytes),
            None => Err(KittyImageDecodeError::InvalidPng),
        }),
{
    match png_decode(encoded_png) {
        Some((w, h, code, bytes)) => png_frame_to_rgba(w, h, code, bytes),
        None => Err(KittyImageDecodeError::InvalidPng),
    }
}

/// Decodes a kitty image payload: lenient base64, then zlib inflation when
/// the compression is `z`, then the pixel format (24: RGB, 32: RGBA, 100:
/// PNG). Returns the width, height and RGBA pixels.
pub fn decode_kitty_image_payload(
    format: u32,
    compression: Option<u8>,
    payload: &[u8],
    width: u32,
    height: u32,
) -> (r: Result<(u32, u32, Vec<u8>), KittyImageDecodeError>)
    ensures
        result_view(r) == kitty_decoded(format, compression, payload@, width, height),
{
    let decoded = match base64_decode_kitty(payload) {
        Ok(d) => d,
        Err(e) => return Err(e),
    };
    let decoded = match decompress_kitty_payload(decoded, compression) {
        Ok(d) => d,
        Err(e) => return Err(e),
    };
    decode_kitty_pixels(format, decoded, width, height)
}

/// An uncompressed RGBA image of the announced size decodes to exactly the
/// transmitted pixels, and an RGB one to them widened with opaque alpha
/// (for images that fit in memory).
pub proof fn lemma_raw_pixels_pass_through(payload: Seq<u8>, width: u32, height: u32)
    requires
        width > 0,
        height > 0,
        base64_decoded(payload) is Some,
    ensures
        ({
            let d = base64_decoded(payload)->0;
            &&& d.len() == width * height * 4 && d.len() <= usize::MAX ==> kitty_decoded(32, None, payload, width, height)
                == Ok::<(u32, u32, Seq<u8>), KittyImageDecodeError>((width, height, d))
            &&& d.len() == width * height * 3 && d.len() <= usize::MAX ==> kitty_decoded(24, None, payload, width, height)
                == Ok::<(u32, u32, Seq<u8>), KittyImageDecodeError>((width, height, rgb_to_rgba(d)))
        }),
{
    let d = base64_decoded(payload)->0;
    let wh = width * height;
    assert(wh * 4 <= usize::MAX ==> sat_mul(sat_mul(width as int, height as int), 4) == wh * 4) by {
        assert(wh >= 0) by (nonlinear_arith)
            requires
                width > 0,
                height > 0,
                wh == width * height,
        ;
        if wh * 4 <= usize::MAX {
            assert(wh <= usize::MAX);
        }
    }
    assert(wh * 3 <= usize::MAX ==> sat_mul(sat_mul(width as int, height as int), 3) == wh * 3) by {
        assert(wh >= 0) by (nonlinear_arith)
            requires
                width > 0,
                height > 0,
                wh == width * height,
        ;
        if wh * 3 <= usize::MAX {
            assert(wh <= usize::MAX);
        }
    }
}


proof fn lemma_pixel_slot(p: int, j: int, n: int)
    requires
        0 <= p,
        0 <= j < 4,
        n == 4 * p + j,
    ensures
        n / 4 == p,
        n % 4 == j,
{
    assert(n / 4 == p && n % 4 == j) by (nonlinear_arith)
        requires
            0 <= p,
            0 <= j < 4,
            n == 4 * p + j,
    ;
}

/// A decoded PNG frame that is already RGBA (colour type 6), as any PNG with
/// alpha is, is taken as it is: its size and bytes are the image's.
pub proof fn lemma_png_rgba_frame_unchanged(w: u32, h: u32, bytes: Seq<u8>)
    ensures
        png_frame_rgba(w, h, 6, bytes) == Ok::<(u32, u32, Seq<u8>), KittyImageDecodeError>(
            (w, h, bytes),
        ),
{
}

/// A decoded RGB, grey or grey-and-alpha PNG frame (colour types 2, 0, 4) is
/// accepted at its size and widened to RGBA: pixel `p` takes its red, green
/// and blue from the pixel's RGB samples (or its grey sample three times),
/// and its alpha from the grey-and-alpha pair, else 255.
pub proof fn lemma_png_frames_widened(w: u32, h: u32, code: u8, bytes: Seq<u8>, p: int, j: int)
    requires
        code == 0 || code == 2 || code == 4,
        0 <= j < 4,
        0 <= p,
        code == 2 ==> 3 * p + 3 <= bytes.len(),
        code == 0 ==> p < bytes.len(),
        code == 4 ==> 2 * p + 2 <= bytes.len(),
    ensures
        png_frame_rgba(w, h, code, bytes) is Ok,
        ({
            let (w2, h2, out) = png_frame_rgba(w, h, code, bytes)->Ok_0;
            &&& w2 == w && h2 == h
            &&& 4 * p + j < out.len()
            &&& out[4 * p + j] == (if code == 2 {
                if j == 3 {
                    0xffu8
                } else {
                    bytes[3 * p + j]
                }
            } else if code == 0 {
                if j == 3 {
                    0xffu8
                } else {
                    bytes[p]
                }
            } else {
                if j == 3 {
                    bytes[2 * p + 1]
                } else {
                    bytes[2 * p]
                }
            })
        }),
{
    let n = 4 * p + j;
    lemma_pixel_slot(p, j, n);
    if code == 2 {
        assert(p < bytes.len() / 3) by (nonlinear_arith)
            requires
                3 * p + 3 <= bytes.len(),
                0 <= p,
        ;
        assert(n < (bytes.len() / 3) * 4) by (nonlinear_arith)
            requires
                p < bytes.len() / 3,
                n == 4 * p + j,
                j < 4,
        ;
    } else if code == 4 {
        assert(p < bytes.len() / 2) by (nonlinear_arith)
            requires
                2 * p + 2 <= bytes.len(),
                0 <= p,
        ;
        assert(n < (bytes.len() / 2) * 4) by (nonlinear_arith)
            requires
                p < bytes.len() / 2,
                n == 4 * p + j,
                j < 4,
        ;
    }
}

} // verus!
