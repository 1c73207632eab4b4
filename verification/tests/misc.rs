use handterm::clock::{Moment, Span};
use handterm::graphics::{KittyImage, KittyPlacement};
use handterm::grid::{Cell, CellExtras, Grid, UnderlineStyle};
use handterm::input::{format_kitty_csi_u, kitty_text_field};
use handterm::metrics::{
    build_dense_terminal_payload, build_mixed_payload, build_sgr_color_payload, build_sgr_payload,
    build_utf8_payload, fill_repeating,
};
use handterm::protocol::{CursorState, DirtyCell, KittyImageData, KittyImagePlacement};
use handterm::server_sync::{
    apply_cursor_state, apply_dirty_cell, kitty_images_from_wire, kitty_placements_from_wire,
    AppliedServerEffects, CursorStyle,
};

#[test]
fn kitty_text_field_lists_printable_code_points() {
    assert_eq!(kitty_text_field(None), None);
    assert_eq!(kitty_text_field(Some("\u{1b}")), None);
    assert_eq!(kitty_text_field(Some("a")), Some("97".to_string()));
    assert_eq!(kitty_text_field(Some("aé\t€")), Some("97:233:8364".to_string()));
}

#[test]
fn kitty_csi_u_fields() {
    assert_eq!(format_kitty_csi_u("97", None, None), b"\x1b[97u".to_vec());
    assert_eq!(
        format_kitty_csi_u("97", Some("5".to_string()), None),
        b"\x1b[97;5u".to_vec()
    );
    assert_eq!(
        format_kitty_csi_u("97", None, Some("65".to_string())),
        b"\x1b[97;;65u".to_vec()
    );
    assert_eq!(
        format_kitty_csi_u("97", Some("2".to_string()), Some("65".to_string())),
        b"\x1b[97;2;65u".to_vec()
    );
}

#[test]
fn payloads_repeat_their_chunk_to_the_target_size() {
    assert_eq!(fill_repeating(b"abc", 7), b"abcabca".to_vec());
    assert_eq!(fill_repeating(b"abc", 0), Vec::<u8>::new());
    assert_eq!(build_sgr_payload(30).len(), 30);
    assert_eq!(&build_sgr_payload(30)[..27], b"\x1b[1;31mR\x1b[32mG\x1b[34mB\x1b[0m \x1b[");
    assert_eq!(
        build_sgr_color_payload(40),
        b"\x1b[38;2;255;100;50mH\x1b[48;2;0;40;80me\x1b[0ml".to_vec()
    );
    assert_eq!(build_utf8_payload(21), "héllo wörld 你好 ".as_bytes().to_vec());
    assert_eq!(build_mixed_payload(5), b"\x1b[1;3".to_vec());
}

#[test]
fn dense_payload_mixes_wide_and_narrow_cells() {
    let p = build_dense_terminal_payload(3, 2);
    let mut expected = Vec::new();
    expected.extend_from_slice("界".as_bytes());
    expected.extend_from_slice(b"bc\r\nab");
    expected.extend_from_slice(b"c");
    assert_eq!(p, expected);
    assert!(build_dense_terminal_payload(0, 0).is_empty());
}

fn styled_dirty_cell(col: u16, grapheme: Option<&str>, style: u8) -> DirtyCell {
    DirtyCell {
        row: 0,
        col,
        ch: 'u' as u32,
        grapheme: grapheme.map(|g| g.to_string()),
        fg: 7,
        bg: 8,
        underline_color: 0x8000_ff00,
        hyperlink_id: 12,
        attrs: 0x08,
        flags: 0,
        underline_style: style,
    }
}

#[test]
fn dirty_cell_keeps_grapheme_underline_and_hyperlink() {
    let mut grid = Grid::new(8, 1, [0, 0, 0], [0, 0, 0]);
    let styles = [
        (1u8, UnderlineStyle::Single),
        (2, UnderlineStyle::Double),
        (3, UnderlineStyle::Curly),
        (4, UnderlineStyle::Dotted),
        (5, UnderlineStyle::Dashed),
        (6, UnderlineStyle::NoUnderline),
    ];
    for (i, (code, style)) in styles.iter().enumerate() {
        apply_dirty_cell(&mut grid, &styled_dirty_cell(i as u16, Some("👍🏻"), *code));
        let cell = *grid.cell_at(0, i);
        assert_eq!((cell.ch, cell.fg, cell.bg, cell.attrs), ('u' as u32, 7, 8, 0x08));
        let extras = grid.cell_extras(cell).expect("styled cell keeps its extras");
        assert_eq!(
            *extras,
            CellExtras {
                grapheme: Some("👍🏻".to_string()),
                underline_color: 0x8000_ff00,
                hyperlink_id: 12,
                underline_style: *style,
            }
        );
        assert_eq!(grid.cell_grapheme_at_scroll(0, i), Some("👍🏻"));
    }
    // Equal extras share one entry of the table.
    apply_dirty_cell(&mut grid, &styled_dirty_cell(6, Some("👍🏻"), 1));
    assert_eq!(grid.cell_at(0, 6).extra, grid.cell_at(0, 0).extra);
    // A plain record stores a plain cell.
    let mut plain = styled_dirty_cell(7, None, 0);
    plain.underline_color = 0;
    plain.hyperlink_id = 0;
    apply_dirty_cell(&mut grid, &plain);
    assert_eq!(grid.cell_at(0, 7).extra, 0);
    assert!(grid.cell_extras(*grid.cell_at(0, 7)).is_none());
    assert_eq!(grid.cell_grapheme_at_scroll(0, 7), None);
    // The first cell still shows what it was given.
    assert_eq!(grid.cell_grapheme_at_scroll(0, 0), Some("👍🏻"));
}

#[test]
fn empty_grid_has_no_cells() {
    let grid = Grid::new(0, 0, [0, 0, 0], [0, 0, 0]);
    assert_eq!(grid.cols, 0);
    assert_eq!(grid.rows, 0);
    assert_eq!(grid.cursor_pos(), (0, 0));
    let grid = Grid::new(0, 3, [0, 0, 0], [0, 0, 0]);
    assert_eq!(grid.rows, 3);
}

#[test]
fn dirty_cells_and_cursor_are_applied() {
    let mut grid = Grid::new(4, 2, [0, 0, 0], [0, 0, 0]);
    let dirty = DirtyCell {
        row: 1,
        col: 2,
        ch: 'x' as u32,
        grapheme: None,
        fg: 3,
        bg: 4,
        underline_color: 0,
        hyperlink_id: 0,
        attrs: 1,
        flags: 0,
        underline_style: 0,
    };
    apply_dirty_cell(&mut grid, &dirty);
    assert_eq!(
        *grid.cell_at(1, 2),
        Cell {
            ch: 'x' as u32,
            fg: 3,
            bg: 4,
            attrs: 1,
            flags: 0,
            extra: 0,
        }
    );
    let off = DirtyCell { row: 9, ..dirty.clone() };
    apply_dirty_cell(&mut grid, &off);

    let mut visible = true;
    let mut style = CursorStyle::Block;
    apply_cursor_state(
        &mut grid,
        &mut visible,
        &mut style,
        Some(&CursorState { row: 1, col: 9, style: 2, visible: true }),
    );
    assert_eq!(grid.cursor_pos(), (3, 1));
    assert!(visible);
    assert_eq!(style, CursorStyle::Bar);
    apply_cursor_state(&mut grid, &mut visible, &mut style, None);
    assert!(!visible);
    assert_eq!(style, CursorStyle::Bar);
}

#[test]
fn kitty_records_convert_from_the_wire() {
    let images = kitty_images_from_wire(&[KittyImageData {
        id: 5,
        width: 1,
        height: 1,
        data: vec![1, 2, 3, 4],
    }]);
    assert_eq!(images.len(), 1);
    let KittyImage { id, width, height, data } = &images[0];
    assert_eq!((*id, *width, *height, data.clone()), (5, 1, 1, vec![1, 2, 3, 4]));
    let placements = kitty_placements_from_wire(&[KittyImagePlacement {
        image_id: 5,
        col: 1,
        row: 2,
        cols: 3,
        rows: 4,
    }]);
    assert_eq!(
        placements,
        vec![KittyPlacement { image_id: 5, col: 1, row: 2, cols: 3, rows: 4 }]
    );
    assert_eq!(AppliedServerEffects::default().bell, false);
}

#[test]
fn clock_arithmetic() {
    let t = Moment::from_nanos(10);
    assert_eq!(t.plus(Span::from_nanos(5)), Moment::from_nanos(15));
    assert_eq!(t.saturating_since(Moment::from_nanos(20)), Span::from_nanos(0));
    assert_eq!(t.checked_since(Moment::from_nanos(20)), None);
    assert_eq!(t.checked_since(Moment::from_nanos(4)), Some(Span::from_nanos(6)));
    assert_eq!(Span::from_nanos(u64::MAX).saturating_mul(2), Span::from_nanos(u64::MAX));
}

#[test]
fn default_socket_paths_use_the_runtime_dir_or_a_per_process_directory() {
    assert_eq!(
        handterm::ipc::default_socket_path(Some("/run/user/1000"), 7),
        "/run/user/1000/handterm-cpu.sock"
    );
    assert_eq!(
        handterm::ipc::default_socket_path_for_backend(handterm::backend::Backend::Gpu, None, 42),
        "/tmp/handterm-42/handterm-gpu.sock"
    );
    assert_eq!(
        handterm::ipc::default_socket_path_for_backend(handterm::backend::Backend::Cpu, Some("/run/"), 1),
        "/run/handterm-cpu.sock"
    );
}

#[test]
fn default_server_socket_path_uses_runtime_dir() {
    let path = handterm::daemon::default_server_socket_path(Some("/run/user/1000"), 3);
    assert!(path.ends_with("handterm-server.sock"));
    assert_eq!(path, "/run/user/1000/handterm-server.sock");
    assert_eq!(
        handterm::daemon::default_server_socket_path(None, 3),
        "/tmp/handterm-3/handterm-server.sock"
    );
}
