//! Applying what the server sends to a window client's local copy of the
//! terminal: dirty cells, the cursor, and kitty images and placements.
use crate::graphics::{KittyImage, KittyPlacement};
use crate::grid::{
    clamp_max, no_extras, Cell, CellExtras, ExtrasView, Grid, GridView, UnderlineStyle,
};
use crate::protocol::{CursorState, DirtyCell, KittyImageData, KittyImagePlacement};
use vstd::prelude::*;

verus! {

/// What a batch of server messages asked the window to do besides drawing.
#[derive(Debug, Clone, PartialEq, Eq)]
pub struct AppliedServerEffects {
    pub title: Option<String>,
    pub clipboard: Option<Vec<u8>>,
    pub bell: bool,
    pub closed: Option<Option<i32>>,
}

impl Default for AppliedServerEffects {
    fn default() -> (e: Self)
        ensures
            e.title is None,
            e.clipboard is None,
            !e.bell,
            e.closed is None,
    {
        AppliedServerEffects { title: None, clipboard: None, bell: false, closed: None }
    }
}

/// The shape in which the cursor is drawn.
#[derive(Debug, Clone, Copy, PartialEq, Eq, Structural)]
pub enum CursorStyle {
    Block,
    Underline,
    Bar,
}

/// The cursor style of its wire code: 1 underline, 2 bar, anything else block.
pub open spec fn cursor_style_of(code: u8) -> CursorStyle {
    if code == 1 {
        CursorStyle::Underline
    } else if code == 2 {
        CursorStyle::Bar
    } else {
        CursorStyle::Block
    }
}

/// The cell that a dirty-cell record describes.
pub open spec fn dirty_cell_value(d: DirtyCell) -> Cell {
    Cell {
        ch: d.ch,
        fg: d.fg,
        bg: d.bg,
        attrs: d.attrs,
        flags: d.flags,
        extra: 0,
    }
}

/// The underline style a wire code names: 1 single, 2 double, 3 curly,
/// 4 dotted, 5 dashed, anything else none.
pub open spec fn underline_style_of(code: u8) -> UnderlineStyle {
    if code == 1 {
        UnderlineStyle::Single
    } else if code == 2 {
        UnderlineStyle::Double
    } else if code == 3 {
        UnderlineStyle::Curly
    } else if code == 4 {
        UnderlineStyle::Dotted
    } else if code == 5 {
        UnderlineStyle::Dashed
    } else {
        UnderlineStyle::NoUnderline
    }
}

/// The underline style a wire code names.
pub fn underline_style_from_code(code: u8) -> (s: UnderlineStyle)
    ensures
        s == underline_style_of(code),
{
    match code {
        1 => UnderlineStyle::Single,
        2 => UnderlineStyle::Double,
        3 => UnderlineStyle::Curly,
        4 => UnderlineStyle::Dotted,
        5 => UnderlineStyle::Dashed,
        _ => UnderlineStyle::NoUnderline,
    }
}

/// The extras a dirty-cell record carries: its grapheme, underline colour,
/// hyperlink and underline style.
pub open spec fn dirty_extras(d: DirtyCell) -> ExtrasView {
    ExtrasView {
        grapheme: match d.grapheme {
            Some(g) => Some(g@),
            None => None,
        },
        underline_color: d.underline_color,
        hyperlink_id: d.hyperlink_id,
        underline_style: underline_style_of(d.underline_style),
    }
}

/// Stores a cell that the server reports as changed (a position off the
/// screen is ignored): its character, colours, attributes and flags, and its
/// extras (grapheme, underline colour and style, hyperlink) through the
/// grid's table of extras. Every other cell keeps what it shows.
pub fn apply_dirty_cell(grid: &mut Grid, dirty: &DirtyCell)
    requires
        old(grid).wf(),
    ensures
        final(grid).wf(),
        !((dirty.row as int) < old(grid)@.rows && (dirty.col as int) < old(grid)@.cols)
            ==> final(grid)@ == old(grid)@,
        (dirty.row as int) < old(grid)@.rows && (dirty.col as int) < old(grid)@.cols ==> {
            let k = final(grid)@.screen[dirty.row as int][dirty.col as int].extra;
            &&& final(grid)@ == (GridView {
                extras: final(grid)@.extras,
                ..old(grid)@.with_cell(
                    dirty.row as int,
                    dirty.col as int,
                    Cell { extra: k, ..dirty_cell_value(*dirty) },
                )
            })
            &&& old(grid)@.extras.len() <= final(grid)@.extras.len()
            &&& final(grid)@.extras.subrange(0, old(grid)@.extras.len() as int)
                == old(grid)@.extras
            &&& final(grid)@.extras_of(final(grid)@.screen[dirty.row as int][dirty.col as int]) == (
            if old(grid)@.extras_fit(dirty_extras(*dirty)) {
                dirty_extras(*dirty)
            } else {
                no_extras()
            })
        },
{
    let cell = Cell {
        ch: dirty.ch,
        fg: dirty.fg,
        bg: dirty.bg,
        attrs: dirty.attrs,
        flags: dirty.flags,
        extra: 0,
    };
    let grapheme = match &dirty.grapheme {
        Some(g) => Some(g.clone()),
        None => None,
    };
    let extras = CellExtras {
        grapheme,
        underline_color: dirty.underline_color,
        hyperlink_id: dirty.hyperlink_id,
        underline_style: underline_style_from_code(dirty.underline_style),
    };
    proof {
        assert(extras@ == dirty_extras(*dirty));
    }
    grid.set_cell_with_extras(dirty.row as usize, dirty.col as usize, cell, extras);
}

/// Applies the server's cursor: its position (clamped to the screen), its
/// visibility and style; without a cursor it is hidden.
pub fn apply_cursor_state(
    grid: &mut Grid,
    cursor_visible: &mut bool,
    cursor_style: &mut CursorStyle,
    cursor: Option<&CursorState>,
)
    requires
        old(grid).wf(),
    ensures
        final(grid).wf(),
        match cursor {
            Some(c) => {
                &&& final(grid)@ == old(grid)@.with_cursor(
                    clamp_max(c.row as int, old(grid)@.rows - 1),
                    clamp_max(c.col as int, old(grid)@.cols - 1),
                )
                &&& *final(cursor_visible) == c.visible
                &&& *final(cursor_style) == cursor_style_of(c.style)
            },
            None => {
                &&& final(grid)@ == old(grid)@
                &&& !*final(cursor_visible)
                &&& *final(cursor_style) == *old(cursor_style)
            },
        },
{
    match cursor {
        Some(c) => {
            grid.set_cursor(c.row as usize, c.col as usize);
            *cursor_visible = c.visible;
            *cursor_style = if c.style == 1 {
                CursorStyle::Underline
            } else if c.style == 2 {
                CursorStyle::Bar
            } else {
                CursorStyle::Block
            };
        },
        None => {
            *cursor_visible = false;
        },
    }
}

/// Converts the images of a server frame to the client's image records.
pub fn kitty_images_from_wire(images: &[KittyImageData]) -> (out: Vec<KittyImage>)
    ensures
        out@.len() == images@.len(),
        forall|i: int|
            0 <= i < images@.len() ==> {
                &&& #[trigger] out@[i].id == images@[i].id
                &&& out@[i].width == images@[i].width
                &&& out@[i].height == images@[i].height
                &&& out@[i].data@ == images@[i].data@
            },
{
    let mut out: Vec<KittyImage> = Vec::new();
    let mut k: usize = 0;
    while k < images.len()
        invariant
            k <= images@.len(),
            out@.len() == k,
            forall|i: int|
                0 <= i < k ==> {
                    &&& #[trigger] out@[i].id == images@[i].id
                    &&& out@[i].width == images@[i].width
                    &&& out@[i].height == images@[i].height
                    &&& out@[i].data@ == images@[i].data@
                },
        decreases images@.len() - k,
    {
        let image = &images[k];
        let data = image.data.clone();
        assert(data@ =~= image.data@);
        let ghost before = out@;
        out.push(KittyImage { id: image.id, width: image.width, height: image.height, data });
        assert(forall|i: int| 0 <= i < k ==> out@[i] == before[i]);
        assert(out@[k as int].data@ == images@[k as int].data@);
        k = k + 1;
    }
    out
}

/// The client's record of a placement sent by the server.
pub open spec fn placement_from_wire(p: KittyImagePlacement) -> KittyPlacement {
    KittyPlacement {
        image_id: p.image_id,
        col: p.col as usize,
        row: p.row as usize,
        cols: p.cols as usize,
        rows: p.rows as usize,
    }
}

/// Converts the placements of a server frame to the client's records.
pub fn kitty_placements_from_wire(placements: &[KittyImagePlacement]) -> (out: Vec<KittyPlacement>)
    ensures
        out@ == placements@.map_values(|p: KittyImagePlacement| placement_from_wire(p)),
{
    let mut out: Vec<KittyPlacement> = Vec::new();
    let mut k: usize = 0;
    while k < placements.len()
        invariant
            k <= placements@.len(),
            out@ == placements@.subrange(0, k as int).map_values(
                |p: KittyImagePlacement| placement_from_wire(p),
            ),
        decreases placements@.len() - k,
    {
        let p = placements[k];
        out.push(
            KittyPlacement {
                image_id: p.image_id,
                col: p.col as usize,
                row: p.row as usize,
                cols: p.cols as usize,
                rows: p.rows as usize,
            },
        );
        assert(placements@.subrange(0, k + 1).map_values(
            |p: KittyImagePlacement| placement_from_wire(p),
        ) =~= placements@.subrange(0, k as int).map_values(
            |p: KittyImagePlacement| placement_from_wire(p),
        ).push(placement_from_wire(p)));
        k = k + 1;
    }
    assert(placements@.subrange(0, k as int) =~= placements@);
    out
}

} // verus!
