//! What a window shows beyond the characters of its cells: the cursor, the
//! selection and the scroll position. A change of these damages the screen,
//! and together with the generations of the content they make up a
//! signature that tells whether a frame must be presented again.
use crate::graphics::KittyPlacement;
use crate::server_sync::CursorStyle;
use vstd::prelude::*;

verus! {

/// A selection of text, from its start cell to its end cell.
#[derive(Debug, Clone, Copy, PartialEq, Eq, Structural)]
pub struct Selection {
    pub start_col: usize,
    pub start_row: usize,
    pub end_col: usize,
    pub end_row: usize,
}

/// The cursor (column, row and style, when it is shown), the selection and
/// the scroll offset at one frame.
#[derive(Debug, Clone, Copy, PartialEq, Eq)]
pub struct VisualState {
    pub cursor: Option<(usize, usize, CursorStyle)>,
    pub selection: Option<Selection>,
    pub scroll_offset: usize,
}

impl VisualState {
    /// The visual state of a terminal: its cursor counts only while it is
    /// visible and the view is not scrolled back.
    pub fn capture(
        cursor_visible: bool,
        cursor_pos: (usize, usize),
        cursor_style: CursorStyle,
        selection: Option<Selection>,
        scroll_offset: usize,
    ) -> (v: Self)
        ensures
            v.cursor == (if cursor_visible && scroll_offset == 0 {
                Some((cursor_pos.0, cursor_pos.1, cursor_style))
            } else {
                None
            }),
            v.selection == selection,
            v.scroll_offset == scroll_offset,
    {
        let cursor = if cursor_visible && scroll_offset == 0 {
            Some((cursor_pos.0, cursor_pos.1, cursor_style))
        } else {
            None
        };
        VisualState { cursor, selection, scroll_offset }
    }
}

/// The part of the screen to draw again after a visual change.
#[derive(Debug, Clone, PartialEq, Eq)]
pub enum VisualDamage {
    /// Every cell.
    Full,
    /// The listed cells, each as (row, column).
    Cells(Vec<(usize, usize)>),
}

/// The cell (row, column) of a shown cursor.
pub open spec fn cursor_cells(cursor: Option<(usize, usize, CursorStyle)>) -> Seq<(usize, usize)> {
    match cursor {
        Some((col, row, _)) => seq![(row, col)],
        None => seq![],
    }
}

/// The damage a change of visual state causes: everything when there was no
/// earlier state or the selection or scroll offset changed; else the cells
/// of the old and the new cursor when the cursor changed; else nothing.
pub open spec fn damage_of(previous: Option<VisualState>, current: VisualState) -> Option<Seq<(usize, usize)>> {
    match previous {
        None => None,
        Some(p) => if p.selection != current.selection || p.scroll_offset != current.scroll_offset {
            None
        } else if p.cursor != current.cursor {
            Some(cursor_cells(p.cursor) + cursor_cells(current.cursor))
        } else {
            Some(seq![])
        },
    }
}

fn same_cursor(a: Option<(usize, usize, CursorStyle)>, b: Option<(usize, usize, CursorStyle)>) -> (r:
    bool)
    ensures
        r == (a == b),
{
    match (a, b) {
        (Some((ac, ar, ast)), Some((bc, br, bst))) => ac == bc && ar == br && ast == bst,
        (None, None) => true,
        _ => false,
    }
}

fn push_cursor_cell(cells: &mut Vec<(usize, usize)>, cursor: Option<(usize, usize, CursorStyle)>)
    ensures
        final(cells)@ == old(cells)@ + cursor_cells(cursor),
{
    if let Some((col, row, _)) = cursor {
        cells.push((row, col));
    } else {
        assert(old(cells)@ + cursor_cells(cursor) =~= old(cells)@);
    }
}

/// The cells to draw again when the visual state changes from `previous`
/// (none before the first frame) to `current`.
pub fn sync_visual_damage(previous: Option<VisualState>, current: VisualState) -> (d: VisualDamage)
    ensures
        match damage_of(previous, current) {
            None => d == VisualDamage::Full,
            Some(cells) => d matches VisualDamage::Cells(v) && v@ == cells,
        },
{
    let previous = match previous {
        Some(p) => p,
        None => return VisualDamage::Full,
    };
    if previous.selection != current.selection || previous.scroll_offset != current.scroll_offset {
        return VisualDamage::Full;
    }
    let mut cells: Vec<(usize, usize)> = Vec::new();
    if !same_cursor(previous.cursor, current.cursor) {
        push_cursor_cell(&mut cells, previous.cursor);
        push_cursor_cell(&mut cells, current.cursor);
    } else {
        assert(cells@ =~= seq![]);
    }
    VisualDamage::Cells(cells)
}

/// What decides whether a frame looks different from the one presented
/// before: the terminal's size, cursor, scroll offset and selection, the
/// generations of its content and of its images, and where images are placed.
#[derive(Debug)]
pub struct VisualSnapshot {
    pub cols: usize,
    pub rows: usize,
    pub cursor_visible: bool,
    pub cursor_style: CursorStyle,
    pub scroll_offset: usize,
    pub selection: Option<Selection>,
    pub cursor_pos: (usize, usize),
    pub content_generation: u64,
    pub kitty_generation: u64,
    pub kitty_placements: Vec<KittyPlacement>,
}

pub const FNV_OFFSET: u64 = 0xcbf29ce484222325;

pub const FNV_PRIME: u64 = 0x100000001b3;

/// One step of the 64-bit FNV-1a hash: xor in the value, then multiply by
/// the prime, wrapping.
pub open spec fn fnv_mix(hash: u64, value: u64) -> u64 {
    ((hash ^ value) as int * FNV_PRIME as int % 0x1_0000_0000_0000_0000) as u64
}

/// The FNV-1a hash of a sequence of values.
pub open spec fn fnv_hash(values: Seq<u64>) -> u64
    decreases values.len(),
{
    if values.len() == 0 {
        FNV_OFFSET
    } else {
        fnv_mix(fnv_hash(values.drop_last()), values.last())
    }
}

pub open spec fn style_code(s: CursorStyle) -> u64 {
    match s {
        CursorStyle::Block => 0,
        CursorStyle::Underline => 1,
        CursorStyle::Bar => 2,
    }
}

/// The five numbers an image placement adds to the signature.
pub open spec fn placement_values(p: KittyPlacement) -> Seq<u64> {
    seq![p.image_id as u64, p.row as u64, p.col as u64, p.rows as u64, p.cols as u64]
}

/// The numbers of the placements, in order.
pub open spec fn placements_values(ps: Seq<KittyPlacement>) -> Seq<u64>
    decreases ps.len(),
{
    if ps.len() == 0 {
        seq![]
    } else {
        placements_values(ps.drop_last()) + placement_values(ps.last())
    }
}

/// The numbers hashed into the signature, in order.
pub open spec fn signature_values(s: VisualSnapshot) -> Seq<u64> {
    let head = seq![
        s.cols as u64,
        s.rows as u64,
        if s.cursor_visible {
            1u64
        } else {
            0u64
        },
        style_code(s.cursor_style),
        s.scroll_offset as u64,
    ];
    let selection = match s.selection {
        Some(sel) => seq![
            1u64,
            sel.start_row as u64,
            sel.start_col as u64,
            sel.end_row as u64,
            sel.end_col as u64,
        ],
        None => seq![0u64],
    };
    let cursor = if s.cursor_visible && s.scroll_offset == 0 {
        seq![s.cursor_pos.1 as u64, s.cursor_pos.0 as u64]
    } else {
        seq![]
    };
    head + selection + cursor + seq![
        s.content_generation,
        s.kitty_generation,
        s.kitty_placements@.len() as u64,
    ] + placements_values(s.kitty_placements@)
}

fn mix(hash: &mut u64, values: &mut Vec<u64>, value: u64)
    requires
        *old(hash) == fnv_hash(old(values)@),
    ensures
        final(values)@ == old(values)@.push(value),
        *final(hash) == fnv_hash(final(values)@),
{
    let x = *hash ^ value;
    *hash = x.wrapping_mul(FNV_PRIME);
    proof {
        let pushed = old(values)@.push(value);
        assert(pushed.drop_last() =~= old(values)@);
    }
    values.push(value);
}

/// The signature of what a frame shows: the FNV-1a hash of the numbers of
/// `signature_values`, so that a frame whose signature equals the last
/// presented one need not be presented again.
pub fn visual_signature(s: &VisualSnapshot) -> (h: u64)
    ensures
        h == fnv_hash(signature_values(*s)),
{
    let mut hash: u64 = FNV_OFFSET;
    let mut values: Vec<u64> = Vec::new();
    mix(&mut hash, &mut values, s.cols as u64);
    mix(&mut hash, &mut values, s.rows as u64);
    mix(
        &mut hash,
        &mut values,
        if s.cursor_visible {
            1
        } else {
            0
        },
    );
    let code: u64 = match s.cursor_style {
        CursorStyle::Block => 0,
        CursorStyle::Underline => 1,
        CursorStyle::Bar => 2,
    };
    mix(&mut hash, &mut values, code);
    mix(&mut hash, &mut values, s.scroll_offset as u64);
    match s.selection {
        Some(sel) => {
            mix(&mut hash, &mut values, 1);
            mix(&mut hash, &mut values, sel.start_row as u64);
            mix(&mut hash, &mut values, sel.start_col as u64);
            mix(&mut hash, &mut values, sel.end_row as u64);
            mix(&mut hash, &mut values, sel.end_col as u64);
        },
        None => {
            mix(&mut hash, &mut values, 0);
        },
    }
    if s.cursor_visible && s.scroll_offset == 0 {
        mix(&mut hash, &mut values, s.cursor_pos.1 as u64);
        mix(&mut hash, &mut values, s.cursor_pos.0 as u64);
    }
    mix(&mut hash, &mut values, s.content_generation);
    mix(&mut hash, &mut values, s.kitty_generation);
    mix(&mut hash, &mut values, s.kitty_placements.len() as u64);
    let ghost before = values@;
    let mut i: usize = 0;
    while i < s.kitty_placements.len()
        invariant
            i <= s.kitty_placements@.len(),
            values@ == before + placements_values(s.kitty_placements@.subrange(0, i as int)),
            hash == fnv_hash(values@),
        decreases s.kitty_placements@.len() - i,
    {
        let p = &s.kitty_placements[i];
        let ghost prefix = s.kitty_placements@.subrange(0, i as int);
        let ghost next = s.kitty_placements@.subrange(0, i + 1);
        assert(next.drop_last() =~= prefix);
        mix(&mut hash, &mut values, p.image_id as u64);
        mix(&mut hash, &mut values, p.row as u64);
        mix(&mut hash, &mut values, p.col as u64);
        mix(&mut hash, &mut values, p.rows as u64);
        mix(&mut hash, &mut values, p.cols as u64);
        assert(values@ =~= before + placements_values(next));
        i = i + 1;
    }
    assert(s.kitty_placements@.subrange(0, s.kitty_placements@.len() as int) =~= s.kitty_placements@);
    assert(values@ =~= signature_values(*s));
    hash
}

} // verus!
