use handterm::daemon::{server_step, update_batch, ServerError, ServerIoAction, ServerState};
use handterm::protocol::{
    CellMetrics, ClientMessage, CursorState, DirtyCell, GlyphBitmap, KeyEvent, KeyEventKind,
    KittyImageData, KittyImagePlacement, MouseButton, MouseEvent, MouseEventKind, ServerMessage,
    WindowModes,
};

fn metrics() -> CellMetrics {
    CellMetrics {
        cell_width: 9,
        cell_height: 18,
        baseline: 14,
    }
}

fn step(state: &mut ServerState, msg: ClientMessage) -> Result<handterm::daemon::ServerHandleResult, ServerError> {
    server_step(state, msg, metrics(), WindowModes::default(), None, Vec::new())
}

#[test]
fn ping_answers_with_the_build_id() {
    let mut state = ServerState::new("0.1.0-abc-cpu,gpu".to_string());
    let r = step(&mut state, ClientMessage::Ping { build_id: "x".to_string() }).unwrap();
    assert_eq!(
        r.messages,
        vec![ServerMessage::Pong {
            build_id: "0.1.0-abc-cpu,gpu".to_string()
        }]
    );
    assert!(r.io_actions.is_empty());
}

#[test]
fn new_windows_get_successive_ids_and_spawn() {
    let mut state = ServerState::new("id".to_string());
    let r = step(&mut state, ClientMessage::NewWindow { cols: 80, rows: 24, dpi: 96 }).unwrap();
    assert_eq!(
        r.messages,
        vec![ServerMessage::WindowCreated {
            window_id: 1,
            cols: 80,
            rows: 24,
            metrics: metrics(),
            modes: WindowModes::default(),
        }]
    );
    assert_eq!(
        r.io_actions,
        vec![ServerIoAction::SpawnWindow { window_id: 1, cols: 80, rows: 24 }]
    );
    let r = step(&mut state, ClientMessage::NewWindow { cols: 10, rows: 5, dpi: 96 }).unwrap();
    assert_eq!(
        r.io_actions,
        vec![ServerIoAction::SpawnWindow { window_id: 2, cols: 10, rows: 5 }]
    );
    assert!(state.has_window(1) && state.has_window(2));
    state.next_window_id = u32::MAX;
    step(&mut state, ClientMessage::NewWindow { cols: 1, rows: 1, dpi: 96 }).unwrap();
    assert_eq!(state.next_window_id, 1);
}

#[test]
fn input_to_an_unknown_window_is_refused() {
    let mut state = ServerState::new("id".to_string());
    let key = KeyEvent {
        kind: KeyEventKind::Press,
        bytes: b"a".to_vec(),
        text: None,
        modifiers: 0,
    };
    assert_eq!(
        step(&mut state, ClientMessage::KeyInput { window_id: 7, event: key.clone() }),
        Err(ServerError::UnknownWindow(7))
    );
    assert_eq!(
        step(&mut state, ClientMessage::CloseWindow { window_id: 7 }),
        Err(ServerError::UnknownWindow(7))
    );
    step(&mut state, ClientMessage::NewWindow { cols: 80, rows: 24, dpi: 96 }).unwrap();
    let r = step(&mut state, ClientMessage::KeyInput { window_id: 1, event: key }).unwrap();
    assert_eq!(r.io_actions, vec![ServerIoAction::Write { window_id: 1, bytes: b"a".to_vec() }]);
    let r = step(&mut state, ClientMessage::Paste { window_id: 1, text: b"xy".to_vec() }).unwrap();
    assert_eq!(r.io_actions, vec![ServerIoAction::Write { window_id: 1, bytes: b"xy".to_vec() }]);
}

#[test]
fn mouse_resize_and_close_act_on_the_window() {
    let mut state = ServerState::new("id".to_string());
    step(&mut state, ClientMessage::NewWindow { cols: 80, rows: 24, dpi: 96 }).unwrap();
    let mouse = MouseEvent {
        kind: MouseEventKind::Press,
        button: MouseButton::Left,
        col: 1,
        row: 2,
        modifiers: 0,
    };
    let r = server_step(
        &mut state,
        ClientMessage::MouseInput { window_id: 1, event: mouse },
        metrics(),
        WindowModes::default(),
        Some(b"\x1b[<0;2;3M".to_vec()),
        Vec::new(),
    )
    .unwrap();
    assert_eq!(
        r.io_actions,
        vec![ServerIoAction::Write { window_id: 1, bytes: b"\x1b[<0;2;3M".to_vec() }]
    );
    let r = server_step(
        &mut state,
        ClientMessage::Resize { window_id: 1, cols: 100, rows: 30 },
        metrics(),
        WindowModes::default(),
        None,
        vec![ServerMessage::Bell { window_id: 1 }],
    )
    .unwrap();
    assert_eq!(
        r.messages,
        vec![
            ServerMessage::WindowResized {
                window_id: 1,
                cols: 100,
                rows: 30,
                metrics: metrics(),
                modes: WindowModes::default(),
            },
            ServerMessage::Bell { window_id: 1 },
        ]
    );
    assert_eq!(r.io_actions, vec![ServerIoAction::Resize { window_id: 1, cols: 100, rows: 30 }]);
    let r = step(&mut state, ClientMessage::CloseWindow { window_id: 1 }).unwrap();
    assert_eq!(
        r.messages,
        vec![ServerMessage::WindowClosed { window_id: 1, exit_code: None }]
    );
    assert_eq!(r.io_actions, vec![ServerIoAction::Close { window_id: 1 }]);
    assert!(!state.has_window(1));
}

#[test]
fn update_batch_keeps_the_message_order() {
    let dirty = vec![DirtyCell {
        row: 0,
        col: 0,
        ch: 'a' as u32,
        grapheme: None,
        fg: 0,
        bg: 0,
        underline_color: 0,
        hyperlink_id: 0,
        attrs: 0,
        flags: 0,
        underline_style: 0,
    }];
    let cursor = Some(CursorState { row: 0, col: 1, style: 0, visible: true });
    let glyph = GlyphBitmap {
        glyph_id: 'a' as u32,
        grapheme: None,
        width: 1,
        height: 1,
        bearing_x: 0,
        bearing_y: 0,
        cells: 1,
        is_color: false,
        pixels: vec![255],
    };
    let image = KittyImageData { id: 1, width: 1, height: 1, data: vec![0, 0, 0, 255] };
    let placement = KittyImagePlacement { image_id: 1, col: 0, row: 0, cols: 1, rows: 1 };
    let r = update_batch(
        3,
        dirty.clone(),
        false,
        cursor,
        WindowModes::default(),
        vec![glyph.clone()],
        2,
        1,
        vec![image.clone()],
        vec![placement],
        Some("t".to_string()),
        true,
        Some(b"c".to_vec()),
        Some(b"\x1b[0n".to_vec()),
    );
    assert_eq!(
        r.messages,
        vec![
            ServerMessage::CellUpdate {
                window_id: 3,
                dirty_cells: dirty,
                cursor,
                modes: WindowModes::default(),
            },
            ServerMessage::AtlasUpdate { glyph },
            ServerMessage::KittyImageState {
                window_id: 3,
                generation: 2,
                images: vec![image],
                placements: vec![placement],
            },
            ServerMessage::SetTitle { window_id: 3, title: "t".to_string() },
            ServerMessage::Bell { window_id: 3 },
            ServerMessage::CopyToClipboard { window_id: 3, text: b"c".to_vec() },
        ]
    );
    assert_eq!(
        r.io_actions,
        vec![ServerIoAction::Write { window_id: 3, bytes: b"\x1b[0n".to_vec() }]
    );
    let quiet = update_batch(
        3,
        Vec::new(),
        false,
        None,
        WindowModes::default(),
        Vec::new(),
        1,
        1,
        Vec::new(),
        Vec::new(),
        None,
        false,
        None,
        None,
    );
    assert!(quiet.messages.is_empty() && quiet.io_actions.is_empty());
    let all = update_batch(
        3, Vec::new(), true, None, WindowModes::default(), Vec::new(), 1, 1, Vec::new(),
        Vec::new(), None, false, None, None,
    );
    assert_eq!(all.messages.len(), 1);
}

fn dirty_blank(row: u16, col: u16) -> DirtyCell {
    DirtyCell {
        row,
        col,
        ch: ' ' as u32,
        grapheme: None,
        fg: 0,
        bg: 0,
        underline_color: 0,
        hyperlink_id: 0,
        attrs: 0,
        flags: 0,
        underline_style: 0,
    }
}

#[test]
fn handle_client_message_emits_spawn_and_forward_actions() {
    let mut server = ServerState::new("id".to_string());
    let created = step(&mut server, ClientMessage::NewWindow { cols: 80, rows: 24, dpi: 96 })
        .expect("new window should succeed");
    let window_id = match created.messages.as_slice() {
        [ServerMessage::WindowCreated { window_id, .. }] => *window_id,
        other => panic!("expected one WindowCreated message, got {other:?}"),
    };
    assert_eq!(
        created.io_actions,
        vec![ServerIoAction::SpawnWindow { window_id, cols: 80, rows: 24 }]
    );
    let key = step(
        &mut server,
        ClientMessage::KeyInput {
            window_id,
            event: KeyEvent {
                kind: KeyEventKind::Press,
                bytes: b"ls\n".to_vec(),
                text: Some("ls".to_string()),
                modifiers: 0,
            },
        },
    )
    .expect("key input should succeed");
    assert!(key.messages.is_empty());
    assert_eq!(
        key.io_actions,
        vec![ServerIoAction::Write { window_id, bytes: b"ls\n".to_vec() }]
    );
}

#[test]
fn handle_client_message_resize_and_close_emit_messages_and_actions() {
    let mut server = ServerState::new("id".to_string());
    let window_id = match step(&mut server, ClientMessage::NewWindow { cols: 4, rows: 2, dpi: 96 })
        .unwrap()
        .messages
        .as_slice()
    {
        [ServerMessage::WindowCreated { window_id, .. }] => *window_id,
        other => panic!("expected one WindowCreated message, got {other:?}"),
    };
    // After a resize the whole 6 by 3 grid is dirty; its update batch comes in.
    let mut dirty = Vec::new();
    for row in 0..3 {
        for col in 0..6 {
            dirty.push(dirty_blank(row, col));
        }
    }
    let updates = update_batch(
        window_id, dirty, true, None, WindowModes::default(), Vec::new(), 0, 0, Vec::new(),
        Vec::new(), None, false, None, None,
    );
    let resized = server_step(
        &mut server,
        ClientMessage::Resize { window_id, cols: 6, rows: 3 },
        metrics(),
        WindowModes::default(),
        None,
        updates.messages,
    )
    .expect("resize should succeed");
    assert!(resized.messages.iter().any(|message| {
        matches!(message, ServerMessage::WindowResized { window_id: id, cols: 6, rows: 3, .. } if *id == window_id)
    }));
    assert!(resized.messages.iter().any(|message| {
        matches!(message, ServerMessage::CellUpdate { window_id: id, dirty_cells, .. } if *id == window_id && dirty_cells.len() == 18)
    }));
    assert_eq!(
        resized.io_actions,
        vec![ServerIoAction::Resize { window_id, cols: 6, rows: 3 }]
    );
    let closed = step(&mut server, ClientMessage::CloseWindow { window_id })
        .expect("close should succeed");
    assert_eq!(
        closed.messages,
        vec![ServerMessage::WindowClosed { window_id, exit_code: None }]
    );
    assert_eq!(closed.io_actions, vec![ServerIoAction::Close { window_id }]);
}

#[test]
fn handle_client_message_rejects_unknown_windows() {
    let mut server = ServerState::new("id".to_string());
    let err = step(
        &mut server,
        ClientMessage::Paste { window_id: 99, text: b"pwd\n".to_vec() },
    )
    .expect_err("unknown window should fail");
    assert_eq!(err, ServerError::UnknownWindow(99));
}
