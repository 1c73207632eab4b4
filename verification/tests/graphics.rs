use handterm::graphics::{decode_kitty_image_payload, png_frame_to_rgba, KittyImageDecodeError, PngColorType};

#[test]
fn raw_rgb_is_widened_to_rgba() {
    // "AQIDBAUG" is the base64 of [1, 2, 3, 4, 5, 6].
    let (w, h, px) = decode_kitty_image_payload(24, None, b"AQIDBAUG", 2, 1).expect("decodes");
    assert_eq!((w, h), (2, 1));
    assert_eq!(px, vec![1, 2, 3, 0xff, 4, 5, 6, 0xff]);
}

#[test]
fn raw_rgba_is_kept_and_sizes_are_checked() {
    let (_, _, px) = decode_kitty_image_payload(32, None, b"/wAA/w==", 1, 1).expect("decodes");
    assert_eq!(px, vec![0xff, 0, 0, 0xff]);
    assert_eq!(
        decode_kitty_image_payload(32, None, b"/wAA/w==", 2, 1),
        Err(KittyImageDecodeError::UnexpectedPayloadLength { expected: 8, actual: 4 })
    );
    assert_eq!(
        decode_kitty_image_payload(32, None, b"/wAA/w==", 0, 1),
        Err(KittyImageDecodeError::InvalidDimensions)
    );
}

#[test]
fn decode_errors() {
    assert_eq!(
        decode_kitty_image_payload(32, None, b"!!", 1, 1),
        Err(KittyImageDecodeError::InvalidBase64)
    );
    assert_eq!(
        decode_kitty_image_payload(7, None, b"AAAA", 1, 1),
        Err(KittyImageDecodeError::UnsupportedFormat(7))
    );
    assert_eq!(
        decode_kitty_image_payload(32, Some(b'x'), b"AAAA", 1, 1),
        Err(KittyImageDecodeError::UnsupportedCompression(b'x'))
    );
    assert_eq!(
        decode_kitty_image_payload(32, Some(b'z'), b"AAAA", 1, 1),
        Err(KittyImageDecodeError::DecompressionFailed)
    );
    assert_eq!(
        decode_kitty_image_payload(100, None, b"AAAA", 1, 1),
        Err(KittyImageDecodeError::InvalidPng)
    );
}

#[test]
fn zlib_payloads_are_inflated() {
    // zlib stream of [0xff, 0, 0, 0xff], base64-encoded.
    let payload = b"eJz7z8DwHwAE/wH/";
    let (w, h, px) = decode_kitty_image_payload(32, Some(b'z'), payload, 1, 1).expect("inflates");
    assert_eq!((w, h), (1, 1));
    assert_eq!(px, vec![0xff, 0, 0, 0xff]);
}

#[test]
fn png_frames_become_rgba() {
    assert_eq!(
        png_frame_to_rgba(2, 1, 0, vec![7, 9]),
        Ok((2, 1, vec![7, 7, 7, 0xff, 9, 9, 9, 0xff]))
    );
    assert_eq!(
        png_frame_to_rgba(1, 1, 4, vec![7, 9]),
        Ok((1, 1, vec![7, 7, 7, 9]))
    );
    assert_eq!(
        png_frame_to_rgba(1, 1, 2, vec![1, 2, 3]),
        Ok((1, 1, vec![1, 2, 3, 0xff]))
    );
    assert_eq!(
        png_frame_to_rgba(1, 1, 3, vec![0]),
        Err(KittyImageDecodeError::UnsupportedPngColorType(PngColorType::Indexed))
    );
}

fn base64_encode(data: &[u8]) -> Vec<u8> {
    const TABLE: &[u8; 64] = b"ABCDEFGHIJKLMNOPQRSTUVWXYZabcdefghijklmnopqrstuvwxyz0123456789+/";
    let mut out = Vec::new();
    for chunk in data.chunks(3) {
        let b = [
            chunk[0],
            *chunk.get(1).unwrap_or(&0),
            *chunk.get(2).unwrap_or(&0),
        ];
        let n = ((b[0] as u32) << 16) | ((b[1] as u32) << 8) | b[2] as u32;
        out.push(TABLE[(n >> 18) as usize & 63]);
        out.push(TABLE[(n >> 12) as usize & 63]);
        out.push(if chunk.len() > 1 { TABLE[(n >> 6) as usize & 63] } else { b'=' });
        out.push(if chunk.len() > 2 { TABLE[n as usize & 63] } else { b'=' });
    }
    out
}

fn encode_png(width: u32, height: u32, color: png::ColorType, data: &[u8]) -> Vec<u8> {
    let mut out = Vec::new();
    {
        let mut encoder = png::Encoder::new(&mut out, width, height);
        encoder.set_color(color);
        encoder.set_depth(png::BitDepth::Eight);
        let mut writer = encoder.write_header().expect("png header should write");
        writer.write_image_data(data).expect("png data should write");
    }
    out
}

#[test]
fn png_payloads_decode_to_rgba() {
    let rgb = encode_png(2, 1, png::ColorType::Rgb, &[1, 2, 3, 4, 5, 6]);
    let (w, h, px) =
        decode_kitty_image_payload(100, None, &base64_encode(&rgb), 0, 0).expect("png decodes");
    assert_eq!((w, h), (2, 1));
    assert_eq!(px, vec![1, 2, 3, 0xff, 4, 5, 6, 0xff]);

    let gray_alpha = encode_png(1, 1, png::ColorType::GrayscaleAlpha, &[9, 128]);
    let (_, _, px) = decode_kitty_image_payload(100, None, &base64_encode(&gray_alpha), 0, 0)
        .expect("png decodes");
    assert_eq!(px, vec![9, 9, 9, 128]);
}
