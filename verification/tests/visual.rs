use handterm::graphics::KittyPlacement;
use handterm::server_sync::CursorStyle;
use handterm::visual::{
    sync_visual_damage, visual_signature, Selection, VisualDamage, VisualSnapshot, VisualState,
};

fn snapshot(cols: usize, rows: usize) -> VisualSnapshot {
    VisualSnapshot {
        cols,
        rows,
        cursor_visible: true,
        cursor_style: CursorStyle::Block,
        scroll_offset: 0,
        selection: None,
        cursor_pos: (0, 0),
        content_generation: 0,
        kitty_generation: 0,
        kitty_placements: Vec::new(),
    }
}

#[test]
fn visual_damage_marks_previous_and_current_cursor_cells() {
    // A 4x2 terminal whose cursor moves from (row 0, col 0) to (row 0, col 2).
    let previous = VisualState::capture(true, (0, 0), CursorStyle::Block, None, 0);
    let current = VisualState::capture(true, (2, 0), CursorStyle::Block, None, 0);

    let damage = sync_visual_damage(Some(previous), current);

    assert_eq!(damage, VisualDamage::Cells(vec![(0, 0), (0, 2)]));
}

#[test]
fn clearing_selection_forces_full_redraw() {
    let previous = VisualState {
        cursor: Some((0, 0, CursorStyle::Block)),
        selection: Some(Selection {
            start_col: 0,
            start_row: 0,
            end_col: 1,
            end_row: 0,
        }),
        scroll_offset: 0,
    };

    let current = VisualState::capture(true, (0, 0), CursorStyle::Block, None, 0);
    assert_eq!(sync_visual_damage(Some(previous), current), VisualDamage::Full);
}

#[test]
fn unchanged_visual_state_damages_nothing_and_first_frame_everything() {
    let state = VisualState::capture(true, (1, 1), CursorStyle::Bar, None, 0);
    assert_eq!(sync_visual_damage(Some(state), state), VisualDamage::Cells(vec![]));
    assert_eq!(sync_visual_damage(None, state), VisualDamage::Full);
    // A scrolled-back view hides the cursor, and scrolling redraws everything.
    let scrolled = VisualState::capture(true, (1, 1), CursorStyle::Bar, None, 3);
    assert_eq!(scrolled.cursor, None);
    assert_eq!(sync_visual_damage(Some(state), scrolled), VisualDamage::Full);
}

#[test]
fn visual_signature_changes_with_visual_state() {
    let mut terminal = snapshot(4, 2);
    let base = visual_signature(&terminal);

    // Printing text bumps the content generation and moves the cursor.
    terminal.content_generation += 1;
    terminal.cursor_pos = (2, 0);
    let after_text = visual_signature(&terminal);
    assert_ne!(base, after_text);

    terminal.selection = Some(Selection {
        start_col: 0,
        start_row: 0,
        end_col: 1,
        end_row: 0,
    });
    let after_selection = visual_signature(&terminal);
    assert_ne!(after_text, after_selection);

    // Placing an image bumps the image generation and adds a placement.
    terminal.kitty_generation += 1;
    terminal.kitty_placements.push(KittyPlacement {
        image_id: 5,
        col: 2,
        row: 0,
        cols: 1,
        rows: 1,
    });
    let after_image = visual_signature(&terminal);
    assert_ne!(after_selection, after_image);
}

#[test]
fn visual_signature_changes_when_only_grapheme_changes() {
    // Replacing one grapheme by another bumps only the content generation.
    let mut terminal = snapshot(2, 1);
    terminal.content_generation = 1;
    let with_heart = visual_signature(&terminal);
    terminal.content_generation = 2;
    let with_suit = visual_signature(&terminal);
    assert_ne!(with_heart, with_suit);
}

#[test]
fn visual_signature_is_fnv1a_of_the_listed_numbers() {
    let mut s = snapshot(0, 0);
    s.cursor_visible = false;
    // cols, rows, visible, style, scroll, no selection, content, images, placements.
    let values = [0u64, 0, 0, 0, 0, 0, 0, 0, 0];
    let mut expected: u64 = 0xcbf29ce484222325;
    for v in values {
        expected ^= v;
        expected = expected.wrapping_mul(0x100000001b3);
    }
    assert_eq!(visual_signature(&s), expected);
}
