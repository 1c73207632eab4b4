//! The client/server wire protocol: the messages exchanged between the
//! terminal server and its window clients, and the length-prefixed framing
//! that carries their encoded bytes.
use vstd::prelude::*;

verus! {

pub type WindowId = u32;

/// Frames with a longer payload are refused.
pub const MAX_FRAME_SIZE: usize = 8 * 1024 * 1024;

#[derive(Debug, Clone, Copy, PartialEq, Eq, Structural)]
pub enum KeyEventKind {
    Press,
    Repeat,
    Release,
}

#[derive(Debug, Clone, Copy, PartialEq, Eq, Structural)]
pub enum MouseEventKind {
    Press,
    Release,
    Move,
    ScrollUp,
    ScrollDown,
}

#[derive(Debug, Clone, Copy, PartialEq, Eq, Structural)]
pub enum MouseButton {
    Left,
    Middle,
    Right,
    /// No button is involved (the wire name of this variant is `None`).
    NoButton,
}

#[derive(Debug, Clone, PartialEq, Eq)]
pub struct KeyEvent {
    pub kind: KeyEventKind,
    pub bytes: Vec<u8>,
    pub text: Option<String>,
    pub modifiers: u8,
}

#[derive(Debug, Clone, Copy, PartialEq, Eq, Structural)]
pub struct MouseEvent {
    pub kind: MouseEventKind,
    pub button: MouseButton,
    pub col: u16,
    pub row: u16,
    pub modifiers: u8,
}

#[derive(Debug, Clone, PartialEq, Eq)]
pub struct DirtyCell {
    pub row: u16,
    pub col: u16,
    pub ch: u32,
    pub grapheme: Option<String>,
    pub fg: u32,
    pub bg: u32,
    pub underline_color: u32,
    pub hyperlink_id: u16,
    pub attrs: u8,
    pub flags: u8,
    pub underline_style: u8,
}

#[derive(Debug, Clone, Copy, PartialEq, Eq, Structural)]
pub struct CursorState {
    pub row: u16,
    pub col: u16,
    pub style: u8,
    pub visible: bool,
}

#[derive(Debug, Clone, Copy, PartialEq, Eq, Structural)]
pub struct CellMetrics {
    pub cell_width: u16,
    pub cell_height: u16,
    pub baseline: u16,
}

#[derive(Debug, Clone, Copy, PartialEq, Eq, Structural, Default)]
pub struct WindowModes {
    pub bracketed_paste: bool,
    pub focus_events: bool,
    pub alternate_scroll: bool,
    pub application_cursor_keys: bool,
    pub in_alt_screen: bool,
    pub mouse_mode: u8,
    pub kitty_keyboard_flags: u8,
}

#[derive(Debug, Clone, PartialEq, Eq)]
pub struct GlyphBitmap {
    pub glyph_id: u32,
    pub grapheme: Option<String>,
    pub width: u16,
    pub height: u16,
    pub bearing_x: i16,
    pub bearing_y: i16,
    pub cells: u8,
    pub is_color: bool,
    pub pixels: Vec<u8>,
}

#[derive(Debug, Clone, PartialEq, Eq)]
pub struct KittyImageData {
    pub id: u32,
    pub width: u32,
    pub height: u32,
    pub data: Vec<u8>,
}

#[derive(Debug, Clone, Copy, PartialEq, Eq, Structural)]
pub struct KittyImagePlacement {
    pub image_id: u32,
    pub col: u16,
    pub row: u16,
    pub cols: u16,
    pub rows: u16,
}

/// A message from a window client to the server.
#[derive(Debug, Clone, PartialEq, Eq)]
pub enum ClientMessage {
    Ping { build_id: String },
    NewWindow { cols: u16, rows: u16, dpi: u32 },
    KeyInput { window_id: WindowId, event: KeyEvent },
    MouseInput { window_id: WindowId, event: MouseEvent },
    Resize { window_id: WindowId, cols: u16, rows: u16 },
    CloseWindow { window_id: WindowId },
    Paste { window_id: WindowId, text: Vec<u8> },
}

/// A message from the server to a window client.
#[derive(Debug, Clone, PartialEq, Eq)]
pub enum ServerMessage {
    Pong { build_id: String },
    WindowCreated {
        window_id: WindowId,
        cols: u16,
        rows: u16,
        metrics: CellMetrics,
        modes: WindowModes,
    },
    WindowResized {
        window_id: WindowId,
        cols: u16,
        rows: u16,
        metrics: CellMetrics,
        modes: WindowModes,
    },
    CellUpdate {
        window_id: WindowId,
        dirty_cells: Vec<DirtyCell>,
        cursor: Option<CursorState>,
        modes: WindowModes,
    },
    SetTitle { window_id: WindowId, title: String },
    Bell { window_id: WindowId },
    CopyToClipboard { window_id: WindowId, text: Vec<u8> },
    WindowClosed { window_id: WindowId, exit_code: Option<i32> },
    KittyImageState {
        window_id: WindowId,
        generation: u64,
        images: Vec<KittyImageData>,
        placements: Vec<KittyImagePlacement>,
    },
    AtlasUpdate { glyph: GlyphBitmap },
}

/// Why a frame could not be written or read.
#[derive(Debug, Clone, Copy, PartialEq, Eq, Structural)]
pub enum FrameError {
    /// The payload is too long for the four-byte length prefix.
    TooLarge,
    /// The length prefix announces more than `MAX_FRAME_SIZE` bytes.
    Oversized,
}

/// The value of four little-endian bytes.
pub open spec fn le_u32(b0: u8, b1: u8, b2: u8, b3: u8) -> int {
    b0 + 0x100 * b1 + 0x10000 * b2 + 0x1000000 * b3
}

/// The four little-endian bytes of `v`.
pub open spec fn le_bytes(v: int) -> Seq<u8> {
    seq![(v % 0x100) as u8, (v / 0x100 % 0x100) as u8, (v / 0x10000 % 0x100) as u8, (v / 0x1000000 % 0x100) as u8]
}

/// The frame that carries `payload`: its length as four little-endian bytes,
/// then the payload.
pub open spec fn frame_of(payload: Seq<u8>) -> Seq<u8> {
    le_bytes(payload.len() as int) + payload
}

/// The payload length announced by the first four bytes of `buf`.
pub open spec fn announced_len(buf: Seq<u8>) -> int {
    le_u32(buf[0], buf[1], buf[2], buf[3])
}

fn u32_le_bytes(v: u32) -> (b: [u8; 4])
    ensures
        b@ == le_bytes(v as int),
{
    let b0 = (v & 0xff) as u8;
    let b1 = ((v >> 8) & 0xff) as u8;
    let b2 = ((v >> 16) & 0xff) as u8;
    let b3 = ((v >> 24) & 0xff) as u8;
    assert(b0 == v % 0x100 && b1 == v / 0x100 % 0x100 && b2 == v / 0x10000 % 0x100 && b3 == v
        / 0x1000000 % 0x100) by (bit_vector)
        requires
            b0 == (v & 0xff) as u8,
            b1 == ((v >> 8) & 0xff) as u8,
            b2 == ((v >> 16) & 0xff) as u8,
            b3 == ((v >> 24) & 0xff) as u8,
    ;
    let b = [b0, b1, b2, b3];
    assert(b@ =~= le_bytes(v as int));
    b
}

fn u32_from_le(b0: u8, b1: u8, b2: u8, b3: u8) -> (v: u32)
    ensures
        v == le_u32(b0, b1, b2, b3),
{
    (b0 as u32) + 0x100 * (b1 as u32) + 0x10000 * (b2 as u32) + 0x1000000 * (b3 as u32)
}

/// The little-endian bytes of a 32-bit value give that value back.
proof fn lemma_le_roundtrip(v: int)
    requires
        0 <= v <= u32::MAX,
    ensures
        le_u32(le_bytes(v)[0], le_bytes(v)[1], le_bytes(v)[2], le_bytes(v)[3]) == v,
{
    let b = le_bytes(v);
    assert(b[0] == v % 0x100);
    assert(b[1] == v / 0x100 % 0x100);
    assert(b[2] == v / 0x10000 % 0x100);
    assert(b[3] == v / 0x1000000 % 0x100);
    assert(v % 0x100 + 0x100 * (v / 0x100 % 0x100) + 0x10000 * (v / 0x10000 % 0x100) + 0x1000000
        * (v / 0x1000000 % 0x100) == v) by (nonlinear_arith)
        requires
            0 <= v <= u32::MAX,
    ;
}

/// Frames `payload` with its length, as four little-endian bytes, in front.
pub fn encode_frame(payload: &[u8]) -> (r: Result<Vec<u8>, FrameError>)
    ensures
        match r {
            Ok(frame) => payload@.len() <= u32::MAX && frame@ == frame_of(payload@),
            Err(e) => payload@.len() > u32::MAX && e == FrameError::TooLarge,
        },
{
    if payload.len() > 0xffff_ffff {
        return Err(FrameError::TooLarge);
    }
    let len = payload.len() as u32;
    let header = u32_le_bytes(len);
    let mut out: Vec<u8> = Vec::new();
    out.push(header[0]);
    out.push(header[1]);
    out.push(header[2]);
    out.push(header[3]);
    let mut i: usize = 0;
    while i < payload.len()
        invariant
            i <= payload@.len(),
            header@ == le_bytes(payload@.len() as int),
            out@ =~= header@ + payload@.subrange(0, i as int),
        decreases payload@.len() - i,
    {
        out.push(payload[i]);
        i = i + 1;
    }
    assert(payload@.subrange(0, payload@.len() as int) =~= payload@);
    Ok(out)
}

/// The payload length announced by a frame header, refused when it exceeds
/// `MAX_FRAME_SIZE`.
pub fn frame_payload_len(header: [u8; 4]) -> (r: Result<usize, FrameError>)
    ensures
        match r {
            Ok(n) => n == announced_len(header@) && n <= MAX_FRAME_SIZE,
            Err(e) => announced_len(header@) > MAX_FRAME_SIZE && e == FrameError::Oversized,
        },
{
    let len = u32_from_le(header[0], header[1], header[2], header[3]);
    if len as usize > MAX_FRAME_SIZE {
        return Err(FrameError::Oversized);
    }
    Ok(len as usize)
}

/// Takes one complete frame from the front of `buf`. Returns its payload and
/// removes the frame from `buf`; returns `None`, leaving `buf` as it is,
/// while the frame is incomplete; fails when the header announces more than
/// `MAX_FRAME_SIZE` bytes.
pub fn take_frame(buf: &mut Vec<u8>) -> (r: Result<Option<Vec<u8>>, FrameError>)
    ensures
        old(buf)@.len() < 4 ==> r == Ok::<Option<Vec<u8>>, FrameError>(None) && final(buf)@ == old(buf)@,
        old(buf)@.len() >= 4 ==> {
            let n = announced_len(old(buf)@);
            if n > MAX_FRAME_SIZE {
                r == Err::<Option<Vec<u8>>, FrameError>(FrameError::Oversized) && final(buf)@ == old(buf)@
            } else if old(buf)@.len() < 4 + n {
                r == Ok::<Option<Vec<u8>>, FrameError>(None) && final(buf)@ == old(buf)@
            } else {
                &&& r matches Ok(Some(payload))
                &&& payload@ == old(buf)@.subrange(4, 4 + n)
                &&& final(buf)@ == old(buf)@.skip(4 + n)
            }
        },
{
    if buf.len() < 4 {
        return Ok(None);
    }
    let len = u32_from_le(buf[0], buf[1], buf[2], buf[3]) as usize;
    if len > MAX_FRAME_SIZE {
        return Err(FrameError::Oversized);
    }
    if buf.len() < 4 + len {
        return Ok(None);
    }
    let end = 4 + len;
    let mut payload: Vec<u8> = Vec::new();
    let mut i: usize = 4;
    while i < end
        invariant
            4 <= i <= end,
            end <= buf@.len(),
            payload@ =~= buf@.subrange(4, i as int),
        decreases end - i,
    {
        payload.push(buf[i]);
        i = i + 1;
    }
    let mut rest: Vec<u8> = Vec::new();
    let mut j: usize = end;
    while j < buf.len()
        invariant
            end <= j <= buf@.len(),
            rest@ =~= buf@.subrange(end as int, j as int),
        decreases buf@.len() - j,
    {
        rest.push(buf[j]);
        j = j + 1;
    }
    *buf = rest;
    Ok(Some(payload))
}

/// Taking a frame from a buffer that starts with a frame for `payload` gives
/// back `payload` and leaves what followed the frame.
pub proof fn lemma_take_encoded_frame(payload: Seq<u8>, rest: Seq<u8>)
    requires
        payload.len() <= MAX_FRAME_SIZE,
    ensures
        ({
            let buf = frame_of(payload) + rest;
            &&& buf.len() >= 4
            &&& announced_len(buf) == payload.len()
            &&& buf.subrange(4, 4 + payload.len() as int) == payload
            &&& buf.skip(4 + payload.len() as int) == rest
        }),
{
    let buf = frame_of(payload) + rest;
    lemma_le_roundtrip(payload.len() as int);
    assert(buf.subrange(4, 4 + payload.len() as int) =~= payload);
    assert(buf.skip(4 + payload.len() as int) =~= rest);
}

/// A frame cut short is never taken: every proper prefix of a frame whose
/// header is complete is reported as incomplete.
pub proof fn lemma_truncated_frame_incomplete(payload: Seq<u8>, k: int)
    requires
        payload.len() <= MAX_FRAME_SIZE,
        4 <= k < 4 + payload.len(),
    ensures
        ({
            let buf = frame_of(payload).subrange(0, k);
            announced_len(buf) == payload.len() && buf.len() < 4 + announced_len(buf)
        }),
{
    lemma_le_roundtrip(payload.len() as int);
}

} // verus!
