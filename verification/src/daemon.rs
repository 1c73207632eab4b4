//! The terminal server's results: the I/O it asks its runtime to perform
//! and the messages it sends to clients.
use crate::font::{join_path, joined_path};
use crate::input::push_decimal;
use crate::ipc::socket_dir;
use crate::protocol::{
    CellMetrics, ClientMessage, CursorState, DirtyCell, GlyphBitmap, KittyImageData,
    KittyImagePlacement, ServerMessage, WindowId, WindowModes,
};
use vstd::prelude::*;
use vstd::string::{StrSliceExecFns, StringExecFns};

verus! {

/// Work on a window's pseudo-terminal that the server core asks for.
#[derive(Debug, Clone, PartialEq, Eq)]
pub enum ServerIoAction {
    SpawnWindow { window_id: WindowId, cols: u16, rows: u16 },
    Write { window_id: WindowId, bytes: Vec<u8> },
    Resize { window_id: WindowId, cols: u16, rows: u16 },
    Close { window_id: WindowId },
}

/// The messages and I/O that handling one client message produced.
#[derive(Debug, Clone, PartialEq, Eq)]
pub struct ServerHandleResult {
    pub messages: Vec<ServerMessage>,
    pub io_actions: Vec<ServerIoAction>,
}

impl Default for ServerHandleResult {
    fn default() -> (r: Self)
        ensures
            r.messages@.len() == 0,
            r.io_actions@.len() == 0,
    {
        ServerHandleResult { messages: Vec::new(), io_actions: Vec::new() }
    }
}

/// Why the server rejected a request.
#[derive(Debug, Clone, Copy, PartialEq, Eq, Structural)]
pub enum ServerError {
    UnknownWindow(WindowId),
}

/// Where the server listens by default, given the value of
/// `XDG_RUNTIME_DIR` (if set) and this process's id: `handterm-server.sock`
/// in the runtime directory, else in `/tmp/handterm-<pid>`.
pub fn default_server_socket_path(runtime_dir: Option<&str>, pid: u32) -> (p: String)
    ensures
        p@ == joined_path(
            socket_dir(
                match runtime_dir {
                    Some(d) => Some(d@),
                    None => None,
                },
                pid,
            ),
            "handterm-server.sock"@,
        ),
{
    let dir = match runtime_dir {
        Some(d) => String::from_str(d),
        None => {
            let mut d = String::from_str("/tmp/handterm-");
            push_decimal(&mut d, pid);
            d
        },
    };
    join_path(dir.as_str(), "handterm-server.sock")
}

/// What the server core keeps between client messages: the ids of its open
/// windows, the id the next window gets, and its build id.
pub struct ServerState {
    pub windows: Vec<WindowId>,
    pub next_window_id: WindowId,
    pub protocol_build_id: String,
}

/// The id after `id`, wrapping past the largest to 1 (0 is never used).
pub open spec fn following_window_id(id: WindowId) -> WindowId {
    if id == u32::MAX {
        1
    } else {
        (id + 1) as WindowId
    }
}

impl ServerState {
    /// Whether a window with this id is open.
    pub open spec fn has(self, window_id: WindowId) -> bool {
        self.windows@.contains(window_id)
    }

    /// A server with no windows; the first window gets id 1.
    pub fn new(protocol_build_id: String) -> (s: Self)
        ensures
            forall|w: WindowId| !s.has(w),
            s.next_window_id == 1,
            s.protocol_build_id@ == protocol_build_id@,
    {
        ServerState { windows: Vec::new(), next_window_id: 1, protocol_build_id }
    }

    pub fn has_window(&self, window_id: WindowId) -> (b: bool)
        ensures
            b == self.has(window_id),
    {
        let mut i: usize = 0;
        while i < self.windows.len()
            invariant
                i <= self.windows@.len(),
                forall|k: int| 0 <= k < i ==> self.windows@[k] != window_id,
            decreases self.windows@.len() - i,
        {
            if self.windows[i] == window_id {
                return true;
            }
            i = i + 1;
        }
        false
    }

    /// Opens a window under the next id and advances it.
    fn open_window(&mut self) -> (id: WindowId)
        ensures
            id == old(self).next_window_id,
            final(self).next_window_id == following_window_id(id),
            final(self).protocol_build_id == old(self).protocol_build_id,
            forall|w: WindowId| final(self).has(w) == (old(self).has(w) || w == id),
    {
        let id = self.next_window_id;
        if !self.has_window(id) {
            self.windows.push(id);
        }
        self.next_window_id = if id == u32::MAX {
            1
        } else {
            id + 1
        };
        proof {
            assert forall|w: WindowId| self.has(w) == (old(self).has(w) || w == id) by {
                if old(self).has(w) {
                    let k = choose|k: int| 0 <= k < old(self).windows@.len() && old(self).windows@[k] == w;
                    assert(self.windows@[k] == w);
                }
                if w == id && !old(self).has(w) {
                    assert(self.windows@[self.windows@.len() - 1] == w);
                }
            }
        }
        id
    }

    /// Closes the window with this id.
    fn close_window(&mut self, window_id: WindowId)
        ensures
            final(self).next_window_id == old(self).next_window_id,
            final(self).protocol_build_id == old(self).protocol_build_id,
            forall|w: WindowId| final(self).has(w) == (old(self).has(w) && w != window_id),
    {
        let mut kept: Vec<WindowId> = Vec::new();
        let mut i: usize = 0;
        while i < self.windows.len()
            invariant
                i <= self.windows@.len(),
                forall|w: WindowId| kept@.contains(w) == (exists|k: int| 0 <= k < i
                    && self.windows@[k] == w && w != window_id),
            decreases self.windows@.len() - i,
        {
            let w = self.windows[i];
            let ghost before = kept@;
            if w != window_id {
                kept.push(w);
            }
            proof {
                assert forall|v: WindowId| kept@.contains(v) == (exists|k: int| 0 <= k < i + 1
                    && self.windows@[k] == v && v != window_id) by {
                    if kept@.contains(v) {
                        let q = choose|q: int| 0 <= q < kept@.len() && kept@[q] == v;
                        if q < before.len() {
                            assert(before[q] == v);
                            assert(before.contains(v));
                        } else {
                            assert(self.windows@[i as int] == v);
                        }
                    }
                    if exists|k: int| 0 <= k < i + 1 && self.windows@[k] == v && v != window_id {
                        let k = choose|k: int| 0 <= k < i + 1 && self.windows@[k] == v && v != window_id;
                        if k == i {
                            assert(kept@[kept@.len() - 1] == v);
                        } else {
                            assert(before.contains(v));
                            let q = choose|q: int| 0 <= q < before.len() && before[q] == v;
                            assert(kept@[q] == v);
                        }
                    }
                }
            }
            i = i + 1;
        }
        self.windows = kept;
    }
}

/// The same windows are open in both states.
pub open spec fn same_windows(before: ServerState, after: ServerState) -> bool {
    forall|w: WindowId| after.has(w) == before.has(w)
}

/// A message naming a window that is not open is refused, and nothing
/// changes.
pub open spec fn unknown_window(
    before: ServerState,
    after: ServerState,
    r: Result<ServerHandleResult, ServerError>,
    window_id: WindowId,
) -> bool {
    &&& r == Err::<ServerHandleResult, ServerError>(ServerError::UnknownWindow(window_id))
    &&& same_windows(before, after)
}

/// What answering one client message does: the reply messages and I/O it
/// produces, with the open windows changed as `server_step` states.
///
/// What the terminal of a window would answer comes in as values:
/// `metrics` (the cell metrics for the window's DPI) and `modes` (the
/// window's modes) for a new or resized window, `mouse_bytes` (the bytes a
/// mouse event encodes to, if any) and `resize_updates` (the update batch
/// after a resize, see `update_batch`).
pub fn server_step(
    state: &mut ServerState,
    msg: ClientMessage,
    metrics: CellMetrics,
    modes: WindowModes,
    mouse_bytes: Option<Vec<u8>>,
    resize_updates: Vec<ServerMessage>,
) -> (r: Result<ServerHandleResult, ServerError>)
    ensures
        final(state).protocol_build_id == old(state).protocol_build_id,
        !(msg is NewWindow) ==> final(state).next_window_id == old(state).next_window_id,
        match msg {
            ClientMessage::Ping { .. } => {
                &&& r is Ok
                &&& r->Ok_0.messages@.len() == 1
                &&& r->Ok_0.messages@[0] is Pong
                &&& r->Ok_0.messages@[0]->Pong_build_id@ == old(state).protocol_build_id@
                &&& r->Ok_0.io_actions@.len() == 0
                &&& same_windows(*old(state), *final(state))
            },
            ClientMessage::NewWindow { cols, rows, dpi } => {
                let id = old(state).next_window_id;
                &&& r is Ok
                &&& r->Ok_0.messages@ == seq![
                    ServerMessage::WindowCreated { window_id: id, cols, rows, metrics, modes },
                ]
                &&& r->Ok_0.io_actions@ == seq![
                    ServerIoAction::SpawnWindow { window_id: id, cols, rows },
                ]
                &&& final(state).next_window_id == following_window_id(id)
                &&& forall|w: WindowId| final(state).has(w) == (old(state).has(w) || w == id)
            },
            ClientMessage::KeyInput { window_id, event } => if old(state).has(window_id) {
                &&& r is Ok
                &&& r->Ok_0.messages@.len() == 0
                &&& r->Ok_0.io_actions@ == seq![ServerIoAction::Write { window_id, bytes: event.bytes }]
                &&& same_windows(*old(state), *final(state))
            } else {
                unknown_window(*old(state), *final(state), r, window_id)
            },
            ClientMessage::Paste { window_id, text } => if old(state).has(window_id) {
                &&& r is Ok
                &&& r->Ok_0.messages@.len() == 0
                &&& r->Ok_0.io_actions@ == seq![ServerIoAction::Write { window_id, bytes: text }]
                &&& same_windows(*old(state), *final(state))
            } else {
                unknown_window(*old(state), *final(state), r, window_id)
            },
            ClientMessage::MouseInput { window_id, .. } => if old(state).has(window_id) {
                &&& r is Ok
                &&& r->Ok_0.messages@.len() == 0
                &&& r->Ok_0.io_actions@ == (match mouse_bytes {
                    Some(bytes) => seq![ServerIoAction::Write { window_id, bytes }],
                    None => Seq::<ServerIoAction>::empty(),
                })
                &&& same_windows(*old(state), *final(state))
            } else {
                unknown_window(*old(state), *final(state), r, window_id)
            },
            ClientMessage::Resize { window_id, cols, rows } => if old(state).has(window_id) {
                &&& r is Ok
                &&& r->Ok_0.messages@ == seq![
                    ServerMessage::WindowResized { window_id, cols, rows, metrics, modes },
                ] + resize_updates@
                &&& r->Ok_0.io_actions@ == seq![ServerIoAction::Resize { window_id, cols, rows }]
                &&& same_windows(*old(state), *final(state))
            } else {
                unknown_window(*old(state), *final(state), r, window_id)
            },
            ClientMessage::CloseWindow { window_id } => if old(state).has(window_id) {
                &&& r is Ok
                &&& r->Ok_0.messages@ == seq![
                    ServerMessage::WindowClosed { window_id, exit_code: None },
                ]
                &&& r->Ok_0.io_actions@ == seq![ServerIoAction::Close { window_id }]
                &&& forall|w: WindowId| final(state).has(w) == (old(state).has(w) && w != window_id)
            } else {
                unknown_window(*old(state), *final(state), r, window_id)
            },
        },
{
    match msg {
        ClientMessage::Ping { .. } => {
            let build_id = state.protocol_build_id.clone();
            Ok(ServerHandleResult { messages: vec![ServerMessage::Pong { build_id }], io_actions: Vec::new() })
        },
        ClientMessage::NewWindow { cols, rows, dpi } => {
            let window_id = state.open_window();
            Ok(
                ServerHandleResult {
                    messages: vec![ServerMessage::WindowCreated { window_id, cols, rows, metrics, modes }],
                    io_actions: vec![ServerIoAction::SpawnWindow { window_id, cols, rows }],
                },
            )
        },
        ClientMessage::KeyInput { window_id, event } => {
            if !state.has_window(window_id) {
                return Err(ServerError::UnknownWindow(window_id));
            }
            Ok(
                ServerHandleResult {
                    messages: Vec::new(),
                    io_actions: vec![ServerIoAction::Write { window_id, bytes: event.bytes }],
                },
            )
        },
        ClientMessage::Paste { window_id, text } => {
            if !state.has_window(window_id) {
                return Err(ServerError::UnknownWindow(window_id));
            }
            Ok(
                ServerHandleResult {
                    messages: Vec::new(),
                    io_actions: vec![ServerIoAction::Write { window_id, bytes: text }],
                },
            )
        },
        ClientMessage::MouseInput { window_id, .. } => {
            if !state.has_window(window_id) {
                return Err(ServerError::UnknownWindow(window_id));
            }
            let io_actions = match mouse_bytes {
                Some(bytes) => vec![ServerIoAction::Write { window_id, bytes }],
                None => Vec::new(),
            };
            Ok(ServerHandleResult { messages: Vec::new(), io_actions })
        },
        ClientMessage::Resize { window_id, cols, rows } => {
            if !state.has_window(window_id) {
                return Err(ServerError::UnknownWindow(window_id));
            }
            let mut messages = vec![ServerMessage::WindowResized { window_id, cols, rows, metrics, modes }];
            let mut updates = resize_updates;
            messages.append(&mut updates);
            Ok(
                ServerHandleResult {
                    messages,
                    io_actions: vec![ServerIoAction::Resize { window_id, cols, rows }],
                },
            )
        },
        ClientMessage::CloseWindow { window_id } => {
            if !state.has_window(window_id) {
                return Err(ServerError::UnknownWindow(window_id));
            }
            state.close_window(window_id);
            Ok(
                ServerHandleResult {
                    messages: vec![ServerMessage::WindowClosed { window_id, exit_code: None }],
                    io_actions: vec![ServerIoAction::Close { window_id }],
                },
            )
        },
    }
}

/// The atlas updates for glyphs, in order.
pub open spec fn atlas_messages(glyphs: Seq<GlyphBitmap>) -> Seq<ServerMessage> {
    glyphs.map_values(|g: GlyphBitmap| ServerMessage::AtlasUpdate { glyph: g })
}

/// The messages of one update batch for a window, in the order they are
/// sent: the cell update (where cells changed or the whole grid is dirty),
/// the atlas updates, the image state (where its generation moved), the new
/// title, the bell, and text for the clipboard.
pub open spec fn batch_messages(
    window_id: WindowId,
    dirty: Vec<DirtyCell>,
    all_dirty: bool,
    cursor: Option<CursorState>,
    modes: WindowModes,
    glyphs: Seq<GlyphBitmap>,
    kitty_generation: u64,
    last_kitty_generation: u64,
    images: Vec<KittyImageData>,
    placements: Vec<KittyImagePlacement>,
    title: Option<String>,
    bell: bool,
    clipboard: Option<Vec<u8>>,
) -> Seq<ServerMessage> {
    (if dirty@.len() > 0 || all_dirty {
        seq![ServerMessage::CellUpdate { window_id, dirty_cells: dirty, cursor, modes }]
    } else {
        Seq::empty()
    }) + atlas_messages(glyphs) + (if kitty_generation != last_kitty_generation {
        seq![
            ServerMessage::KittyImageState {
                window_id,
                generation: kitty_generation,
                images,
                placements,
            },
        ]
    } else {
        Seq::empty()
    }) + (match title {
        Some(title) => seq![ServerMessage::SetTitle { window_id, title }],
        None => Seq::empty(),
    }) + (if bell {
        seq![ServerMessage::Bell { window_id }]
    } else {
        Seq::empty()
    }) + (match clipboard {
        Some(text) => seq![ServerMessage::CopyToClipboard { window_id, text }],
        None => Seq::empty(),
    })
}

/// Assembles what a window's terminal has to tell its clients since the
/// last batch. The terminal's state comes in as values: the dirty cells and
/// whether the whole grid is dirty, the cursor and modes, the glyphs not yet
/// sent, the image generation now and at the last batch with the images and
/// placements, a new title, a bell, text for the clipboard, and the replies
/// the terminal has for its program (written back to its pseudo-terminal).
pub fn update_batch(
    window_id: WindowId,
    dirty: Vec<DirtyCell>,
    all_dirty: bool,
    cursor: Option<CursorState>,
    modes: WindowModes,
    glyphs: Vec<GlyphBitmap>,
    kitty_generation: u64,
    last_kitty_generation: u64,
    images: Vec<KittyImageData>,
    placements: Vec<KittyImagePlacement>,
    title: Option<String>,
    bell: bool,
    clipboard: Option<Vec<u8>>,
    responses: Option<Vec<u8>>,
) -> (r: ServerHandleResult)
    ensures
        r.messages@ == batch_messages(
            window_id,
            dirty,
            all_dirty,
            cursor,
            modes,
            glyphs@,
            kitty_generation,
            last_kitty_generation,
            images,
            placements,
            title,
            bell,
            clipboard,
        ),
        r.io_actions@ == (match responses {
            Some(bytes) => seq![ServerIoAction::Write { window_id, bytes }],
            None => Seq::<ServerIoAction>::empty(),
        }),
{
    let ghost dirty0 = dirty;
    let ghost glyphs0 = glyphs@;
    let ghost images0 = images;
    let ghost placements0 = placements;
    let ghost title0 = title;
    let ghost clipboard0 = clipboard;
    let mut messages: Vec<ServerMessage> = Vec::new();
    if dirty.len() > 0 || all_dirty {
        messages.push(ServerMessage::CellUpdate { window_id, dirty_cells: dirty, cursor, modes });
    }
    let ghost head = messages@;
    for glyph in it: glyphs.into_iter()
        invariant
            it.seq() == glyphs0,
            messages@ == head + atlas_messages(it.seq().take(it.index() as int)),
    {
        proof {
            assert(it.seq().take(it.index() + 1) =~= it.seq().take(it.index() as int).push(glyph));
            assert(atlas_messages(it.seq().take(it.index() + 1)) =~= atlas_messages(
                it.seq().take(it.index() as int),
            ).push(ServerMessage::AtlasUpdate { glyph }));
        }
        messages.push(ServerMessage::AtlasUpdate { glyph });
    }
    if kitty_generation != last_kitty_generation {
        messages.push(
            ServerMessage::KittyImageState {
                window_id,
                generation: kitty_generation,
                images,
                placements,
            },
        );
    }
    match title {
        Some(title) => messages.push(ServerMessage::SetTitle { window_id, title }),
        None => {},
    }
    if bell {
        messages.push(ServerMessage::Bell { window_id });
    }
    match clipboard {
        Some(text) => messages.push(ServerMessage::CopyToClipboard { window_id, text }),
        None => {},
    }
    let io_actions = match responses {
        Some(bytes) => vec![ServerIoAction::Write { window_id, bytes }],
        None => Vec::new(),
    };
    proof {
        assert(glyphs0.take(glyphs0.len() as int) =~= glyphs0);
        assert(messages@ =~= batch_messages(
            window_id,
            dirty0,
            all_dirty,
            cursor,
            modes,
            glyphs0,
            kitty_generation,
            last_kitty_generation,
            images0,
            placements0,
            title0,
            bell,
            clipboard0,
        ));
    }
    ServerHandleResult { messages, io_actions }
}

} // verus!
