use crate::text::{char_from_u32, char_width, display_char, unicode_char_width};
use vstd::prelude::*;
use vstd::utf8::{
    decode_first_codepoint, encode_scalar, encode_utf8, is_scalar, length_of_first_codepoint,
    valid_leading_and_continuation_bytes_first_codepoint,
};

verus! {

/// One character cell of the terminal screen. What a cell carries beyond its
/// character, colours, attributes and flags (a grapheme cluster, the colour
/// and style of its underline, a hyperlink) lives in the grid's table of
/// extras: `extra` is 0 for none, else the position in that table plus one.
#[derive(Debug, Clone, Copy, PartialEq, Eq, Structural)]
pub struct Cell {
    pub ch: u32,
    pub fg: u32,
    pub bg: u32,
    pub attrs: u8,
    pub flags: u8,
    pub extra: u16,
}

/// How a cell's text is underlined.
#[derive(Debug, Clone, Copy, PartialEq, Eq, Structural)]
pub enum UnderlineStyle {
    NoUnderline,
    Single,
    Double,
    Curly,
    Dotted,
    Dashed,
}

/// What a cell carries beyond its character and colours: the grapheme
/// cluster it shows (where more than one code point), the colour and style
/// of its underline, and the hyperlink it belongs to (0 for none).
#[derive(Debug, Clone, PartialEq, Eq)]
pub struct CellExtras {
    pub grapheme: Option<String>,
    pub underline_color: u32,
    pub hyperlink_id: u16,
    pub underline_style: UnderlineStyle,
}

/// The extras of a cell, as values.
pub struct ExtrasView {
    pub grapheme: Option<Seq<char>>,
    pub underline_color: u32,
    pub hyperlink_id: u16,
    pub underline_style: UnderlineStyle,
}

impl View for CellExtras {
    type V = ExtrasView;

    open spec fn view(&self) -> ExtrasView {
        ExtrasView {
            grapheme: match self.grapheme {
                Some(g) => Some(g@),
                None => None,
            },
            underline_color: self.underline_color,
            hyperlink_id: self.hyperlink_id,
            underline_style: self.underline_style,
        }
    }
}

/// The extras of a plain cell: no grapheme, default underline colour, no
/// underline, no hyperlink.
pub open spec fn no_extras() -> ExtrasView {
    ExtrasView {
        grapheme: None,
        underline_color: COLOR_DEFAULT,
        hyperlink_id: 0,
        underline_style: UnderlineStyle::NoUnderline,
    }
}

/// The extras that reference `k` names in `table`: entry `k - 1`, or none
/// for 0 or a reference past the end.
pub open spec fn extras_entry(table: Seq<ExtrasView>, k: u16) -> ExtrasView {
    if 1 <= k && k <= table.len() {
        table[k - 1]
    } else {
        no_extras()
    }
}

/// How many entries a grid's table of extras can hold.
pub const MAX_EXTRAS: usize = 0xffff;

pub const COLOR_DEFAULT: u32 = 0;

pub const COLOR_FLAG_RGB: u32 = 0x8000_0000;

pub const ATTR_BOLD: u8 = 0x01;

pub const ATTR_DIM: u8 = 0x02;

pub const ATTR_ITALIC: u8 = 0x04;

pub const ATTR_UNDERLINE: u8 = 0x08;

pub const ATTR_INVERSE: u8 = 0x10;

pub const ATTR_STRIKETHROUGH: u8 = 0x20;

pub const FLAG_WIDE: u8 = 0x01;

pub const FLAG_WIDE_CONT: u8 = 0x02;

/// Number of rows kept in the scrollback history of a fresh grid.
pub const SCROLLBACK_MAX: usize = 10000;

/// The blank cell: a space in the default colours without attributes.
pub open spec fn blank_cell() -> Cell {
    Cell {
        ch: 0x20,
        fg: COLOR_DEFAULT,
        bg: COLOR_DEFAULT,
        attrs: 0,
        flags: 0,
        extra: 0,
    }
}

/// The scrollback after one more line: the oldest line is dropped when the
/// history would exceed `max` lines.
pub open spec fn trim_history(h: Seq<Seq<Cell>>, max: nat) -> Seq<Seq<Cell>> {
    if h.len() > max {
        h.drop_first()
    } else {
        h
    }
}

/// A row of `n` blank cells.
pub open spec fn blank_row(n: nat) -> Seq<Cell> {
    Seq::new(n, |i: int| blank_cell())
}

impl Cell {
    pub fn blank() -> (c: Cell)
        ensures
            c == blank_cell(),
    {
        Cell { ch: 0x20, fg: COLOR_DEFAULT, bg: COLOR_DEFAULT, attrs: 0, flags: 0, extra: 0 }
    }
}

/// The physical row of the ring buffer that holds logical row `r` when the
/// logical top row is stored at physical row `top`.
pub open spec fn phys(top: int, r: int, rows: int) -> int {
    if top + r < rows {
        top + r
    } else {
        top + r - rows
    }
}

/// The logical screen held by a ring buffer of `rows` rows of `cols` cells.
pub open spec fn screen_of(cells: Seq<Cell>, cols: nat, rows: nat, top: int) -> Seq<Seq<Cell>> {
    Seq::new(
        rows,
        |r: int|
            cells.subrange(phys(top, r, rows as int) * cols, phys(top, r, rows as int) * cols + cols),
    )
}

/// What a grid holds, as seen by its users: the logical screen rows (row 0 at
/// the top), the cursor, the pen used for new text, the scroll region and the
/// scrollback history (oldest line first).
pub struct GridView {
    pub cols: nat,
    pub rows: nat,
    pub cursor_row: nat,
    pub cursor_col: nat,
    pub screen: Seq<Seq<Cell>>,
    pub fg: u32,
    pub bg: u32,
    pub attrs: u8,
    pub scroll_top: nat,
    pub scroll_bottom: nat,
    pub scrollback: Seq<Seq<Cell>>,
    pub scrollback_max: nat,
    pub scroll_offset: nat,
    pub extras: Seq<ExtrasView>,
}

/// The terminal cell grid. Rows are kept in a ring buffer so that scrolling
/// the whole screen only moves the index of the top row.
pub struct Grid {
    pub cols: usize,
    pub rows: usize,
    cursor_col: usize,
    cursor_row: usize,
    cells: Vec<Cell>,
    top_row: usize,
    current_fg: u32,
    current_bg: u32,
    current_attrs: u8,
    scroll_top: usize,
    scroll_bottom: usize,
    scrollback: Vec<Vec<Cell>>,
    scrollback_max: usize,
    pub scroll_offset: usize,
    extras: Vec<CellExtras>,
}

proof fn lemma_row_in_bounds(cols: int, rows: int, p: int, c: int)
    requires
        0 <= p < rows,
        0 <= c < cols,
    ensures
        0 <= p * cols + c < cols * rows,
        p * cols + cols <= cols * rows,
        0 <= p * cols,
{
    assert(p * cols + cols <= cols * rows) by (nonlinear_arith)
        requires
            0 <= p < rows,
            0 <= c < cols,
    ;
    assert(0 <= p * cols) by (nonlinear_arith)
        requires
            0 <= p,
            0 <= cols,
    ;
}

proof fn lemma_rows_disjoint(cols: int, p1: int, p2: int, c: int)
    requires
        0 <= p1,
        0 <= p2,
        p1 != p2,
        0 <= c < cols,
    ensures
        p1 * cols + c < p2 * cols || p1 * cols + c >= p2 * cols + cols,
        p1 * cols + cols <= p2 * cols || p2 * cols + cols <= p1 * cols,
{
    if p1 < p2 {
        assert(p1 * cols + cols <= p2 * cols) by (nonlinear_arith)
            requires
                p1 < p2,
                0 <= c < cols,
        ;
    } else {
        assert(p2 * cols + cols <= p1 * cols) by (nonlinear_arith)
            requires
                p2 < p1,
                0 <= c < cols,
        ;
    }
}

proof fn lemma_screen_cell(cells: Seq<Cell>, cols: nat, rows: nat, top: int, r: int, c: int)
    requires
        cells.len() == cols * rows,
        0 <= top < rows,
        0 <= r < rows,
        0 <= c < cols,
    ensures
        0 <= phys(top, r, rows as int) < rows,
        0 <= phys(top, r, rows as int) * cols + c < cells.len(),
        screen_of(cells, cols, rows, top)[r].len() == cols,
        screen_of(cells, cols, rows, top)[r][c] == cells[phys(top, r, rows as int) * cols + c],
{
    let p = phys(top, r, rows as int);
    lemma_row_in_bounds(cols as int, rows as int, p, c);
}

impl View for Grid {
    type V = GridView;

    closed spec fn view(&self) -> GridView {
        GridView {
            cols: self.cols as nat,
            rows: self.rows as nat,
            cursor_row: self.cursor_row as nat,
            cursor_col: self.cursor_col as nat,
            screen: screen_of(self.cells@, self.cols as nat, self.rows as nat, self.top_row as int),
            fg: self.current_fg,
            bg: self.current_bg,
            attrs: self.current_attrs,
            scroll_top: self.scroll_top as nat,
            scroll_bottom: self.scroll_bottom as nat,
            scrollback: self.scrollback@.map_values(|row: Vec<Cell>| row@),
            scrollback_max: self.scrollback_max as nat,
            scroll_offset: self.scroll_offset as nat,
            extras: self.extras@.map_values(|e: CellExtras| e@),
        }
    }
}

impl GridView {
    /// The extras a cell carries in this grid: the table entry it refers
    /// to, or none.
    pub open spec fn extras_of(self, cell: Cell) -> ExtrasView {
        extras_entry(self.extras, cell.extra)
    }

    /// Whether a cell stored now can carry extras `e`: they are plain, or the
    /// table holds them already, or it has room for them.
    pub open spec fn extras_fit(self, e: ExtrasView) -> bool {
        e == no_extras() || self.extras.contains(e) || self.extras.len() < MAX_EXTRAS
    }

    /// The invariant every grid keeps: positive dimensions, a screen of
    /// `rows` rows of `cols` cells, the cursor on the screen, and a non-empty
    /// scroll region inside it.
    pub open spec fn wf(self) -> bool {
        &&& self.cols >= 1
        &&& self.rows >= 1
        &&& self.screen.len() == self.rows
        &&& forall|r: int| 0 <= r < self.rows ==> #[trigger] self.screen[r].len() == self.cols
        &&& self.cursor_row < self.rows
        &&& self.cursor_col < self.cols
        &&& self.scroll_top < self.scroll_bottom <= self.rows
        &&& self.scrollback.len() <= self.scrollback_max
    }

    /// The cell at row `r`, column `c` of the screen.
    pub open spec fn cell(self, r: int, c: int) -> Cell {
        self.screen[r][c]
    }

    /// The view with the screen row `r` replaced.
    pub open spec fn with_row(self, r: int, row: Seq<Cell>) -> GridView {
        GridView { screen: self.screen.update(r, row), ..self }
    }

    /// The view with the cell at row `r`, column `c` replaced.
    pub open spec fn with_cell(self, r: int, c: int, cell: Cell) -> GridView {
        self.with_row(r, self.screen[r].update(c, cell))
    }

    /// The view with columns `c0..c1` of row `r` set to `cell`.
    pub open spec fn with_filled(self, r: int, c0: int, c1: int, cell: Cell) -> GridView {
        self.with_row(
            r,
            Seq::new(self.cols, |c: int| if c0 <= c < c1 { cell } else { self.screen[r][c] }),
        )
    }

    /// The view with a whole new screen.
    pub open spec fn with_screen(self, screen: Seq<Seq<Cell>>) -> GridView {
        GridView { screen, ..self }
    }

    /// The screen after the scroll region moved up by one line. When the
    /// region is the whole screen, the top line goes to the scrollback.
    pub open spec fn scrolled_up(self) -> GridView {
        if self.scroll_top == 0 && self.scroll_bottom == self.rows {
            GridView {
                screen: self.screen.drop_first().push(blank_row(self.cols)),
                scrollback: trim_history(self.scrollback.push(self.screen[0]), self.scrollback_max),
                ..self
            }
        } else {
            self.with_screen(
                Seq::new(
                    self.rows,
                    |r: int|
                        if self.scroll_top <= r < self.scroll_bottom - 1 {
                            self.screen[r + 1]
                        } else if r == self.scroll_bottom - 1 {
                            blank_row(self.cols)
                        } else {
                            self.screen[r]
                        },
                ),
            )
        }
    }

    /// The screen after the scroll region moved down by one line: its top
    /// line is blank and its last line is dropped.
    pub open spec fn scrolled_down(self) -> GridView {
        self.with_screen(
            Seq::new(
                self.rows,
                |r: int|
                    if r == self.scroll_top {
                        blank_row(self.cols)
                    } else if self.scroll_top < r < self.scroll_bottom {
                        self.screen[r - 1]
                    } else {
                        self.screen[r]
                    },
            ),
        )
    }

    /// `n` successive upward scrolls.
    pub open spec fn scrolled_up_n(self, n: nat) -> GridView
        decreases n,
    {
        if n == 0 {
            self
        } else {
            self.scrolled_up().scrolled_up_n((n - 1) as nat)
        }
    }

    /// `n` successive downward scrolls.
    pub open spec fn scrolled_down_n(self, n: nat) -> GridView
        decreases n,
    {
        if n == 0 {
            self
        } else {
            self.scrolled_down().scrolled_down_n((n - 1) as nat)
        }
    }

    /// Line feed: the cursor moves down a line, and at the bottom of the
    /// scroll region the region scrolls up instead.
    pub open spec fn line_fed(self) -> GridView {
        if self.cursor_row + 1 >= self.scroll_bottom {
            self.scrolled_up()
        } else {
            self.with_cursor(self.cursor_row + 1, self.cursor_col)
        }
    }

    /// The column a horizontal tab moves the cursor to: the next multiple of
    /// eight, but never past the last column.
    pub open spec fn tab_stop(self) -> nat {
        let next = (self.cursor_col / 8 + 1) * 8;
        if next < self.cols - 1 {
            next
        } else {
            (self.cols - 1) as nat
        }
    }

    /// Reverse index: the cursor moves up a line, and at the top of the
    /// scroll region the region scrolls down instead.
    pub open spec fn reverse_indexed(self) -> GridView {
        if self.cursor_row == self.scroll_top {
            self.scrolled_down()
        } else if self.cursor_row > 0 {
            self.with_cursor((self.cursor_row - 1) as nat, self.cursor_col)
        } else {
            self
        }
    }

    /// The view with every screen row in `r0..r1` blank.
    pub open spec fn with_blank_rows(self, r0: int, r1: int) -> GridView {
        self.with_screen(
            Seq::new(
                self.rows,
                |r: int|
                    if r0 <= r < r1 {
                        blank_row(self.cols)
                    } else {
                        self.screen[r]
                    },
            ),
        )
    }

    /// The view with the pen changed.
    pub open spec fn with_pen(self, fg: u32, bg: u32, attrs: u8) -> GridView {
        GridView { fg, bg, attrs, ..self }
    }

    /// The view with the cursor moved to row `r`, column `c`.
    pub open spec fn with_cursor(self, r: nat, c: nat) -> GridView {
        GridView { cursor_row: r, cursor_col: c, ..self }
    }
}

impl Grid {
    /// Well-formedness of the ring buffer behind the view.
    pub closed spec fn wf(&self) -> bool {
        &&& 1 <= self.cols <= 0xffff
        &&& 1 <= self.rows <= 0xffff
        &&& self.cols * self.rows <= 0xffff * 0xffff
        &&& self.cells@.len() == self.cols * self.rows
        &&& self.top_row < self.rows
        &&& self.cursor_row < self.rows
        &&& self.cursor_col < self.cols
        &&& self.scroll_top < self.scroll_bottom <= self.rows
        &&& self.scrollback@.len() <= self.scrollback_max
        &&& self.scrollback_max <= SCROLLBACK_MAX
        &&& self.extras@.len() <= MAX_EXTRAS
    }

    proof fn lemma_wf_view(&self)
        requires
            self.wf(),
        ensures
            self@.wf(),
            self@.cols == self.cols,
            self@.rows == self.rows,
    {
        assert forall|r: int| 0 <= r < self.rows implies #[trigger] self@.screen[r].len()
            == self.cols by {
            let p = phys(self.top_row as int, r, self.rows as int);
            lemma_row_in_bounds(self.cols as int, self.rows as int, p, 0);
            assert(self@.screen[r] == self.cells@.subrange(p * self.cols, p * self.cols + self.cols));
        }
    }

    /// The flat index of the cell at logical row `r`, column `c`.
    spec fn idx(&self, r: int, c: int) -> int {
        phys(self.top_row as int, r, self.rows as int) * self.cols + c
    }

    proof fn lemma_idx(&self, r: int, c: int)
        requires
            self.wf(),
            0 <= r < self.rows,
            0 <= c < self.cols,
        ensures
            0 <= self.idx(r, c) < self.cells@.len(),
            self@.screen[r][c] == self.cells@[self.idx(r, c)],
            0 <= phys(self.top_row as int, r, self.rows as int) < self.rows,
    {
        let p = phys(self.top_row as int, r, self.rows as int);
        lemma_row_in_bounds(self.cols as int, self.rows as int, p, c);
    }

    /// Cells of other rows than `r` live outside the index range of row `r`.
    proof fn lemma_other_row(&self, r: int, r2: int, c2: int)
        requires
            self.wf(),
            0 <= r < self.rows,
            0 <= r2 < self.rows,
            r != r2,
            0 <= c2 < self.cols,
        ensures
            self.idx(r2, c2) < self.idx(r, 0) || self.idx(r2, c2) >= self.idx(r, 0) + self.cols,
    {
        let p = phys(self.top_row as int, r, self.rows as int);
        let p2 = phys(self.top_row as int, r2, self.rows as int);
        lemma_rows_disjoint(self.cols as int, p2, p, c2);
    }

    /// A well-formed grid has a well-formed view: its screen has `rows` rows
    /// of `cols` cells, its cursor lies on the screen and its scroll region
    /// inside it.
    pub proof fn lemma_view_wf(&self)
        requires
            self.wf(),
        ensures
            self@.wf(),
    {
        self.lemma_wf_view();
    }

    /// Where the cursor's cell is stored in the cell buffer.
    pub closed spec fn cursor_offset(self) -> int {
        phys(self.top_row as int, self.cursor_row as int, self.rows as int) * self.cols
            + self.cursor_col
    }

    /// Creates a blank grid of `cols` by `rows` cells. A grid with no column
    /// or no row holds no cell; only a grid with both is well-formed, and the
    /// other operations ask for that.
    pub fn new(cols: u16, rows: u16, _default_fg: [u8; 3], _default_bg: [u8; 3]) -> (g: Self)
        ensures
            cols >= 1 && rows >= 1 <==> g.wf(),
            cols >= 1 && rows >= 1 ==> g@.wf(),
            g@.cols == cols,
            g@.rows == rows,
            g@.screen == Seq::new(rows as nat, |r: int| blank_row(cols as nat)),
            g@.cursor_row == 0,
            g@.cursor_col == 0,
            g@.fg == COLOR_DEFAULT,
            g@.bg == COLOR_DEFAULT,
            g@.attrs == 0,
            g@.scroll_top == 0,
            g@.scroll_bottom == rows,
            g@.scrollback == Seq::<Seq<Cell>>::empty(),
            g@.scrollback_max == SCROLLBACK_MAX,
            g@.scroll_offset == 0,
            g@.extras == Seq::<ExtrasView>::empty(),
    {
        let cols = cols as usize;
        let rows = rows as usize;
        assert(cols * rows <= 0xffff * 0xffff) by (nonlinear_arith)
            requires
                cols <= 0xffff,
                rows <= 0xffff,
        ;
        let n = cols * rows;
        let cells = vec![Cell::blank(); n];
        let g = Grid {
            cols,
            rows,
            cursor_col: 0,
            cursor_row: 0,
            cells,
            top_row: 0,
            current_fg: COLOR_DEFAULT,
            current_bg: COLOR_DEFAULT,
            current_attrs: 0,
            scroll_top: 0,
            scroll_bottom: rows,
            scrollback: Vec::new(),
            scrollback_max: SCROLLBACK_MAX,
            scroll_offset: 0,
            extras: Vec::new(),
        };
        proof {
            assert(g@.screen =~= Seq::new(rows as nat, |r: int| blank_row(cols as nat))) by {
                assert forall|r: int| 0 <= r < rows implies g@.screen[r] =~= blank_row(
                    cols as nat,
                ) by {
                    if cols == 0 {
                        let p = phys(0, r, rows as int);
                        assert(p * (cols as int) == 0) by (nonlinear_arith)
                            requires
                                cols == 0,
                        ;
                        assert(g@.screen[r] =~= Seq::<Cell>::empty());
                    } else {
                        lemma_row_in_bounds(cols as int, rows as int, r, 0);
                    }
                    assert forall|c: int| 0 <= c < cols implies g@.screen[r][c] == blank_cell() by {
                        g.lemma_idx(r, c);
                    }
                }
            }
            assert(g@.scrollback =~= Seq::<Seq<Cell>>::empty());
            assert(g@.extras =~= Seq::<ExtrasView>::empty());
            if cols >= 1 && rows >= 1 {
                g.lemma_wf_view();
            }
        }
        g
    }
}

impl Grid {
    /// Physical ring-buffer row of logical row `logical_row`.
    fn physical_row(&self, logical_row: usize) -> (p: usize)
        requires
            self.wf(),
            logical_row < self.rows,
        ensures
            p == phys(self.top_row as int, logical_row as int, self.rows as int),
            p < self.rows,
    {
        let sum = self.top_row + logical_row;
        let rows = self.rows;
        let p = sum % rows;
        assert(p == (if sum < rows { sum as int } else { sum - rows })) by (nonlinear_arith)
            requires
                sum < 2 * rows,
                rows >= 1,
                p == sum % rows,
        ;
        p
    }

    /// Flat index of the cell at logical row `logical_row`, column `col`.
    fn cell_index_at(&self, logical_row: usize, col: usize) -> (i: usize)
        requires
            self.wf(),
            logical_row < self.rows,
            col < self.cols,
        ensures
            i == self.idx(logical_row as int, col as int),
            i < self.cells@.len(),
            self.cells@[i as int] == self@.screen[logical_row as int][col as int],
    {
        let p = self.physical_row(logical_row);
        proof {
            self.lemma_idx(logical_row as int, col as int);
        }
        p * self.cols + col
    }

    /// Replaces one cell of the screen.
    fn write_cell(&mut self, r: usize, c: usize, cell: Cell)
        requires
            old(self).wf(),
            r < old(self).rows,
            c < old(self).cols,
        ensures
            final(self).wf(),
            final(self)@ == old(self)@.with_cell(r as int, c as int, cell),
    {
        let i = self.cell_index_at(r, c);
        let ghost old_self = *self;
        self.cells.set(i, cell);
        proof {
            let cols = self.cols as nat;
            let rows = self.rows as nat;
            let top = self.top_row as int;
            let expected = old_self@.with_cell(r as int, c as int, cell);
            old_self.lemma_wf_view();
            assert forall|r2: int| 0 <= r2 < rows implies #[trigger] self@.screen[r2]
                =~= expected.screen[r2] by {
                assert forall|c2: int| 0 <= c2 < cols implies self@.screen[r2][c2]
                    == expected.screen[r2][c2] by {
                    lemma_screen_cell(self.cells@, cols, rows, top, r2, c2);
                    lemma_screen_cell(old_self.cells@, cols, rows, top, r2, c2);
                    if r2 != r {
                        old_self.lemma_other_row(r as int, r2, c2);
                    }
                }
                lemma_screen_cell(self.cells@, cols, rows, top, r2, 0);
                lemma_screen_cell(old_self.cells@, cols, rows, top, r2, 0);
            }
            assert(self@.screen =~= expected.screen);
        }
    }

    /// Sets columns `c0..c1` of screen row `r` to `cell`.
    fn fill_row(&mut self, r: usize, c0: usize, c1: usize, cell: Cell)
        requires
            old(self).wf(),
            r < old(self).rows,
            c0 <= c1 <= old(self).cols,
        ensures
            final(self).wf(),
            final(self)@ == old(self)@.with_filled(r as int, c0 as int, c1 as int, cell),
    {
        let ghost old_self = *self;
        let p = self.physical_row(r);
        proof {
            lemma_row_in_bounds(self.cols as int, self.rows as int, p as int, 0);
        }
        let base = p * self.cols;
        let mut c = c0;
        while c < c1
            invariant
                self.cols == old_self.cols,
                self.rows == old_self.rows,
                self.top_row == old_self.top_row,
                self.cells@.len() == old_self.cells@.len(),
                self.cursor_row == old_self.cursor_row,
                self.cursor_col == old_self.cursor_col,
                self.scroll_top == old_self.scroll_top,
                self.scroll_bottom == old_self.scroll_bottom,
                self.scrollback == old_self.scrollback,
                self.extras == old_self.extras,
                self.scrollback_max == old_self.scrollback_max,
                self.current_fg == old_self.current_fg,
                self.current_bg == old_self.current_bg,
                self.current_attrs == old_self.current_attrs,
                self.scroll_offset == old_self.scroll_offset,
                old_self.wf(),
                c0 <= c <= c1,
                c1 <= self.cols,
                base + self.cols <= self.cells@.len(),
                base == p * self.cols,
                p == phys(self.top_row as int, r as int, self.rows as int),
                forall|i: int|
                    0 <= i < self.cells@.len() ==> #[trigger] self.cells@[i] == if base + c0 <= i
                        < base + c {
                        cell
                    } else {
                        old_self.cells@[i]
                    },
            decreases c1 - c,
        {
            self.cells.set(base + c, cell);
            c = c + 1;
        }
        proof {
            let cols = self.cols as nat;
            let rows = self.rows as nat;
            let top = self.top_row as int;
            let expected = old_self@.with_filled(r as int, c0 as int, c1 as int, cell);
            old_self.lemma_wf_view();
            assert forall|r2: int| 0 <= r2 < rows implies #[trigger] self@.screen[r2]
                =~= expected.screen[r2] by {
                assert forall|c2: int| 0 <= c2 < cols implies self@.screen[r2][c2]
                    == expected.screen[r2][c2] by {
                    lemma_screen_cell(self.cells@, cols, rows, top, r2, c2);
                    lemma_screen_cell(old_self.cells@, cols, rows, top, r2, c2);
                    if r2 != r {
                        old_self.lemma_other_row(r as int, r2, c2);
                    }
                }
                lemma_screen_cell(self.cells@, cols, rows, top, r2, 0);
                lemma_screen_cell(old_self.cells@, cols, rows, top, r2, 0);
            }
            assert(self@.screen =~= expected.screen);
        }
    }

    /// Copies screen row `src` over screen row `dst`.
    fn copy_row(&mut self, src: usize, dst: usize)
        requires
            old(self).wf(),
            src < old(self).rows,
            dst < old(self).rows,
            src != dst,
        ensures
            final(self).wf(),
            final(self)@ == old(self)@.with_row(dst as int, old(self)@.screen[src as int]),
    {
        let ghost old_self = *self;
        let ps = self.physical_row(src);
        let pd = self.physical_row(dst);
        proof {
            lemma_row_in_bounds(self.cols as int, self.rows as int, ps as int, 0);
            lemma_row_in_bounds(self.cols as int, self.rows as int, pd as int, 0);
        }
        let sbase = ps * self.cols;
        let dbase = pd * self.cols;
        proof {
            lemma_rows_disjoint(self.cols as int, ps as int, pd as int, 0);
        }
        let mut c: usize = 0;
        while c < self.cols
            invariant
                self.cols == old_self.cols,
                self.rows == old_self.rows,
                self.top_row == old_self.top_row,
                self.cells@.len() == old_self.cells@.len(),
                self.cursor_row == old_self.cursor_row,
                self.cursor_col == old_self.cursor_col,
                self.scroll_top == old_self.scroll_top,
                self.scroll_bottom == old_self.scroll_bottom,
                self.scrollback == old_self.scrollback,
                self.extras == old_self.extras,
                self.scrollback_max == old_self.scrollback_max,
                self.current_fg == old_self.current_fg,
                self.current_bg == old_self.current_bg,
                self.current_attrs == old_self.current_attrs,
                self.scroll_offset == old_self.scroll_offset,
                old_self.wf(),
                c <= self.cols,
                sbase + self.cols <= self.cells@.len(),
                dbase + self.cols <= self.cells@.len(),
                sbase == ps * self.cols,
                dbase == pd * self.cols,
                ps != pd,
                sbase + self.cols <= dbase || dbase + self.cols <= sbase,
                forall|i: int|
                    0 <= i < self.cells@.len() ==> #[trigger] self.cells@[i] == if dbase <= i
                        < dbase + c {
                        old_self.cells@[sbase + (i - dbase)]
                    } else {
                        old_self.cells@[i]
                    },
            decreases self.cols - c,
        {
            let v = self.cells[sbase + c];
            self.cells.set(dbase + c, v);
            c = c + 1;
        }
        proof {
            let cols = self.cols as nat;
            let rows = self.rows as nat;
            let top = self.top_row as int;
            let expected = old_self@.with_row(dst as int, old_self@.screen[src as int]);
            old_self.lemma_wf_view();
            assert forall|r2: int| 0 <= r2 < rows implies #[trigger] self@.screen[r2]
                =~= expected.screen[r2] by {
                assert forall|c2: int| 0 <= c2 < cols implies self@.screen[r2][c2]
                    == expected.screen[r2][c2] by {
                    lemma_screen_cell(self.cells@, cols, rows, top, r2, c2);
                    lemma_screen_cell(old_self.cells@, cols, rows, top, r2, c2);
                    lemma_screen_cell(old_self.cells@, cols, rows, top, src as int, c2);
                    if r2 != dst {
                        old_self.lemma_other_row(dst as int, r2, c2);
                    }
                }
                lemma_screen_cell(self.cells@, cols, rows, top, r2, 0);
                lemma_screen_cell(old_self.cells@, cols, rows, top, r2, 0);
            }
            assert(self@.screen =~= expected.screen);
        }
    }
}

proof fn lemma_rotate(cells: Seq<Cell>, cols: nat, rows: nat, top: int)
    requires
        cells.len() == cols * rows,
        0 <= top < rows,
        cols >= 1,
    ensures
        ({
            let top2 = if top + 1 < rows {
                top + 1
            } else {
                0
            };
            screen_of(cells, cols, rows, top2) =~= screen_of(cells, cols, rows, top).drop_first().push(
                screen_of(cells, cols, rows, top)[0],
            )
        }),
{
    let top2 = if top + 1 < rows {
        top + 1
    } else {
        0
    };
    let s1 = screen_of(cells, cols, rows, top);
    let s2 = screen_of(cells, cols, rows, top2);
    assert forall|r: int| 0 <= r < rows implies #[trigger] s2[r] == s1.drop_first().push(s1[0])[r] by {
        if r + 1 < rows {
            assert(phys(top2, r, rows as int) == phys(top, r + 1, rows as int));
        } else {
            assert(phys(top2, r, rows as int) == phys(top, 0, rows as int));
        }
    }
}

impl Grid {
    /// A copy of screen row `r`.
    fn row_vec(&self, r: usize) -> (v: Vec<Cell>)
        requires
            self.wf(),
            r < self.rows,
        ensures
            v@ == self@.screen[r as int],
    {
        let mut v: Vec<Cell> = Vec::new();
        let mut c: usize = 0;
        proof {
            self.lemma_wf_view();
        }
        while c < self.cols
            invariant
                self.wf(),
                self@.wf(),
                r < self.rows,
                c <= self.cols,
                v@ =~= self@.screen[r as int].subrange(0, c as int),
            decreases self.cols - c,
        {
            let i = self.cell_index_at(r, c);
            v.push(self.cells[i]);
            c = c + 1;
        }
        v
    }

    /// Moves the scroll region up by one line.
    fn scroll_up(&mut self)
        requires
            old(self).wf(),
        ensures
            final(self).wf(),
            final(self)@ == old(self)@.scrolled_up(),
    {
        let ghost old_view = self@;
        proof {
            self.lemma_wf_view();
        }
        if self.scroll_top == 0 && self.scroll_bottom == self.rows {
            let row = self.row_vec(0);
            let cols = self.cols;
            self.fill_row(0, 0, cols, Cell::blank());
            let ghost filled = *self;
            self.scrollback.push(row);
            if self.scrollback.len() > self.scrollback_max {
                self.scrollback.remove(0);
            }
            let t = self.top_row + 1;
            let rows_now = self.rows;
            assert(t % rows_now == if t < rows_now {
                t as int
            } else {
                0
            }) by (nonlinear_arith)
                requires
                    1 <= t <= rows_now,
            ;
            self.top_row = t % rows_now;
            proof {
                let cols = self.cols as nat;
                let rows = self.rows as nat;
                lemma_rotate(self.cells@, cols, rows, filled.top_row as int);
                filled.lemma_wf_view();
                assert(filled@.screen[0] =~= blank_row(cols));
                assert(self@.screen =~= old_view.screen.drop_first().push(blank_row(cols)));
                let f = |row: Vec<Cell>| row@;
                let pushed = filled.scrollback@.push(row);
                assert(pushed.map_values(f) =~= old_view.scrollback.push(old_view.screen[0]));
                if pushed.len() > self.scrollback_max {
                    assert(pushed.remove(0).map_values(f) =~= pushed.map_values(f).drop_first());
                }
                assert(self@.scrollback =~= trim_history(
                    old_view.scrollback.push(old_view.screen[0]),
                    old_view.scrollback_max,
                ));
            }
        } else {
            let top = self.scroll_top;
            let bottom = self.scroll_bottom;
            let mut r = top;
            proof {
                assert(old_view.screen =~= Seq::new(
                    old_view.rows,
                    |i: int|
                        if top <= i < r {
                            old_view.screen[i + 1]
                        } else {
                            old_view.screen[i]
                        },
                ));
            }
            while r + 1 < bottom
                invariant
                    self.wf(),
                    old_view.wf(),
                    self.rows == old_view.rows,
                    self.cols == old_view.cols,
                    top == old_view.scroll_top,
                    bottom == old_view.scroll_bottom,
                    top <= r < bottom,
                    self@ == old_view.with_screen(
                        Seq::new(
                            old_view.rows,
                            |i: int|
                                if top <= i < r {
                                    old_view.screen[i + 1]
                                } else {
                                    old_view.screen[i]
                                },
                        ),
                    ),
                decreases bottom - r,
            {
                self.copy_row(r + 1, r);
                r = r + 1;
                proof {
                    assert(self@.screen =~= Seq::new(
                        old_view.rows,
                        |i: int|
                            if top <= i < r {
                                old_view.screen[i + 1]
                            } else {
                                old_view.screen[i]
                            },
                    ));
                }
            }
            let cols = self.cols;
            self.fill_row(bottom - 1, 0, cols, Cell::blank());
            proof {
                assert(self@.screen[bottom - 1] =~= blank_row(self.cols as nat));
                assert(self@.screen =~= old_view.scrolled_up().screen);
            }
        }
    }

    /// Moves the scroll region down by one line.
    fn scroll_down(&mut self)
        requires
            old(self).wf(),
        ensures
            final(self).wf(),
            final(self)@ == old(self)@.scrolled_down(),
    {
        let ghost old_view = self@;
        proof {
            self.lemma_wf_view();
        }
        let top = self.scroll_top;
        let bottom = self.scroll_bottom;
        let mut r = bottom - 1;
        proof {
            assert(old_view.screen =~= Seq::new(
                old_view.rows,
                |i: int|
                    if r < i < bottom {
                        old_view.screen[i - 1]
                    } else {
                        old_view.screen[i]
                    },
            ));
        }
        while r > top
            invariant
                self.wf(),
                old_view.wf(),
                self.rows == old_view.rows,
                self.cols == old_view.cols,
                top == old_view.scroll_top,
                bottom == old_view.scroll_bottom,
                top <= r < bottom,
                self@ == old_view.with_screen(
                    Seq::new(
                        old_view.rows,
                        |i: int|
                            if r < i < bottom {
                                old_view.screen[i - 1]
                            } else {
                                old_view.screen[i]
                            },
                    ),
                ),
            decreases r,
        {
            self.copy_row(r - 1, r);
            r = r - 1;
            proof {
                assert(self@.screen =~= Seq::new(
                    old_view.rows,
                    |i: int|
                        if r < i < bottom {
                            old_view.screen[i - 1]
                        } else {
                            old_view.screen[i]
                        },
                ));
            }
        }
        let cols = self.cols;
        self.fill_row(top, 0, cols, Cell::blank());
        proof {
            assert(self@.screen[top as int] =~= blank_row(self.cols as nat));
            assert(self@.screen =~= old_view.scrolled_down().screen);
        }
    }
}

impl Grid {
    /// Replaces screen row `r` by `row`.
    fn set_row(&mut self, r: usize, row: &Vec<Cell>)
        requires
            old(self).wf(),
            r < old(self).rows,
            row@.len() == old(self).cols,
        ensures
            final(self).wf(),
            final(self)@ == old(self)@.with_row(r as int, row@),
            final(self).top_row == old(self).top_row,
    {
        let ghost old_self = *self;
        let p = self.physical_row(r);
        proof {
            lemma_row_in_bounds(self.cols as int, self.rows as int, p as int, 0);
        }
        let base = p * self.cols;
        let mut c: usize = 0;
        while c < self.cols
            invariant
                self.cols == old_self.cols,
                self.rows == old_self.rows,
                self.top_row == old_self.top_row,
                self.cells@.len() == old_self.cells@.len(),
                self.cursor_row == old_self.cursor_row,
                self.cursor_col == old_self.cursor_col,
                self.scroll_top == old_self.scroll_top,
                self.scroll_bottom == old_self.scroll_bottom,
                self.scrollback == old_self.scrollback,
                self.extras == old_self.extras,
                self.scrollback_max == old_self.scrollback_max,
                self.current_fg == old_self.current_fg,
                self.current_bg == old_self.current_bg,
                self.current_attrs == old_self.current_attrs,
                self.scroll_offset == old_self.scroll_offset,
                old_self.wf(),
                c <= self.cols,
                row@.len() == self.cols,
                base + self.cols <= self.cells@.len(),
                base == p * self.cols,
                p == phys(self.top_row as int, r as int, self.rows as int),
                forall|i: int|
                    0 <= i < self.cells@.len() ==> #[trigger] self.cells@[i] == if base <= i < base
                        + c {
                        row@[i - base]
                    } else {
                        old_self.cells@[i]
                    },
            decreases self.cols - c,
        {
            self.cells.set(base + c, row[c]);
            c = c + 1;
        }
        proof {
            let cols = self.cols as nat;
            let rows = self.rows as nat;
            let top = self.top_row as int;
            let expected = old_self@.with_row(r as int, row@);
            old_self.lemma_wf_view();
            assert forall|r2: int| 0 <= r2 < rows implies #[trigger] self@.screen[r2]
                =~= expected.screen[r2] by {
                assert forall|c2: int| 0 <= c2 < cols implies self@.screen[r2][c2]
                    == expected.screen[r2][c2] by {
                    lemma_screen_cell(self.cells@, cols, rows, top, r2, c2);
                    lemma_screen_cell(old_self.cells@, cols, rows, top, r2, c2);
                    if r2 != r {
                        old_self.lemma_other_row(r as int, r2, c2);
                    }
                }
                lemma_screen_cell(self.cells@, cols, rows, top, r2, 0);
                lemma_screen_cell(old_self.cells@, cols, rows, top, r2, 0);
            }
            assert(self@.screen =~= expected.screen);
        }
    }
}

/// `v` clamped to at most `max`.
pub open spec fn clamp_max(v: int, max: int) -> nat {
    if v < max {
        v as nat
    } else {
        max as nat
    }
}

/// The attribute byte with `bit` set when `on` holds and cleared otherwise.
pub open spec fn with_attr(attrs: u8, bit: u8, on: bool) -> u8 {
    if on {
        attrs | bit
    } else {
        attrs & !bit
    }
}

/// A colour given as 24-bit RGB, marked as such.
pub open spec fn rgb_color(r: u8, g: u8, b: u8) -> u32 {
    (0x8000_0000 + r as int * 0x10000 + g as int * 0x100 + b as int) as u32
}

impl Grid {
    /// The number of screen rows.
    pub fn row_count(&self) -> (n: usize)
        ensures
            n == self@.rows,
    {
        self.rows
    }

    /// The number of columns.
    pub fn col_count(&self) -> (n: usize)
        ensures
            n == self@.cols,
    {
        self.cols
    }

    /// The cursor as `(column, row)`.
    pub fn cursor_pos(&self) -> (p: (usize, usize))
        ensures
            p.0 == self@.cursor_col,
            p.1 == self@.cursor_row,
            self.wf() ==> p.0 < self@.cols && p.1 < self@.rows,
    {
        (self.cursor_col, self.cursor_row)
    }

    /// The cell at screen row `row`, column `col`.
    pub fn cell_at(&self, row: usize, col: usize) -> (c: &Cell)
        requires
            self.wf(),
            row < self@.rows,
            col < self@.cols,
        ensures
            *c == self@.screen[row as int][col as int],
    {
        let idx = self.cell_index_at(row, col);
        &self.cells[idx]
    }

    /// The selected text; this grid keeps no selection, so it is empty.
    pub fn get_selection_text(&self) -> (s: String)
        ensures
            s@ == Seq::<char>::empty(),
    {
        String::new()
    }

    /// Number of lines in the scrollback history.
    pub fn scrollback_len(&self) -> (n: usize)
        ensures
            n == self@.scrollback.len(),
    {
        self.scrollback.len()
    }

    pub fn line_feed(&mut self)
        requires
            old(self).wf(),
        ensures
            final(self).wf(),
            final(self)@ == old(self)@.line_fed(),
    {
        if self.cursor_row + 1 >= self.scroll_bottom {
            self.scroll_up();
        } else {
            self.cursor_row = self.cursor_row + 1;
        }
    }

    pub fn carriage_return(&mut self)
        requires
            old(self).wf(),
        ensures
            final(self).wf(),
            final(self)@ == old(self)@.with_cursor(old(self)@.cursor_row, 0),
    {
        self.cursor_col = 0;
    }

    pub fn tab(&mut self)
        requires
            old(self).wf(),
        ensures
            final(self).wf(),
            final(self)@ == old(self)@.with_cursor(old(self)@.cursor_row, old(self)@.tab_stop()),
    {
        let next = ((self.cursor_col / 8) + 1) * 8;
        let last = self.cols - 1;
        self.cursor_col = if next < last {
            next
        } else {
            last
        };
    }

    pub fn backspace(&mut self)
        requires
            old(self).wf(),
        ensures
            final(self).wf(),
            final(self)@ == if old(self)@.cursor_col > 0 {
                old(self)@.with_cursor(old(self)@.cursor_row, (old(self)@.cursor_col - 1) as nat)
            } else {
                old(self)@
            },
    {
        if self.cursor_col > 0 {
            self.cursor_col = self.cursor_col - 1;
        }
    }

    pub fn reverse_index(&mut self)
        requires
            old(self).wf(),
        ensures
            final(self).wf(),
            final(self)@ == old(self)@.reverse_indexed(),
    {
        if self.cursor_row == self.scroll_top {
            self.scroll_down();
        } else if self.cursor_row > 0 {
            self.cursor_row = self.cursor_row - 1;
        }
    }

    /// Writes `cell` at a screen position; a position off the screen is ignored.
    pub fn set_cell(&mut self, row: usize, col: usize, cell: Cell)
        requires
            old(self).wf(),
        ensures
            final(self).wf(),
            final(self)@ == (if row < old(self)@.rows && col < old(self)@.cols {
                old(self)@.with_cell(row as int, col as int, cell)
            } else {
                old(self)@
            }),
    {
        if row < self.rows && col < self.cols {
            self.write_cell(row, col, cell);
        }
    }

    /// Moves the cursor, clamped to the screen.
    pub fn set_cursor(&mut self, row: usize, col: usize)
        requires
            old(self).wf(),
        ensures
            final(self).wf(),
            final(self)@ == old(self)@.with_cursor(
                clamp_max(row as int, old(self)@.rows - 1),
                clamp_max(col as int, old(self)@.cols - 1),
            ),
    {
        let last_row = self.rows - 1;
        let last_col = self.cols - 1;
        self.cursor_row = if row < last_row {
            row
        } else {
            last_row
        };
        self.cursor_col = if col < last_col {
            col
        } else {
            last_col
        };
    }

    pub fn set_cursor_row(&mut self, row: usize)
        requires
            old(self).wf(),
        ensures
            final(self).wf(),
            final(self)@ == old(self)@.with_cursor(
                clamp_max(row as int, old(self)@.rows - 1),
                old(self)@.cursor_col,
            ),
    {
        let last_row = self.rows - 1;
        self.cursor_row = if row < last_row {
            row
        } else {
            last_row
        };
    }

    pub fn set_cursor_col(&mut self, col: usize)
        requires
            old(self).wf(),
        ensures
            final(self).wf(),
            final(self)@ == old(self)@.with_cursor(
                old(self)@.cursor_row,
                clamp_max(col as int, old(self)@.cols - 1),
            ),
    {
        let last_col = self.cols - 1;
        self.cursor_col = if col < last_col {
            col
        } else {
            last_col
        };
    }

    pub fn move_cursor_up(&mut self, n: usize)
        requires
            old(self).wf(),
        ensures
            final(self).wf(),
            final(self)@ == old(self)@.with_cursor(
                if n <= old(self)@.cursor_row {
                    (old(self)@.cursor_row - n) as nat
                } else {
                    0
                },
                old(self)@.cursor_col,
            ),
    {
        self.cursor_row = if n <= self.cursor_row {
            self.cursor_row - n
        } else {
            0
        };
    }

    pub fn move_cursor_down(&mut self, n: usize)
        requires
            old(self).wf(),
            old(self)@.cursor_row + n <= usize::MAX,
        ensures
            final(self).wf(),
            final(self)@ == old(self)@.with_cursor(
                clamp_max(old(self)@.cursor_row + n, old(self)@.rows - 1),
                old(self)@.cursor_col,
            ),
    {
        let last_row = self.rows - 1;
        self.cursor_row = if n < last_row - self.cursor_row {
            self.cursor_row + n
        } else {
            last_row
        };
    }

    pub fn move_cursor_right(&mut self, n: usize)
        requires
            old(self).wf(),
            old(self)@.cursor_col + n <= usize::MAX,
        ensures
            final(self).wf(),
            final(self)@ == old(self)@.with_cursor(
                old(self)@.cursor_row,
                clamp_max(old(self)@.cursor_col + n, old(self)@.cols - 1),
            ),
    {
        let last_col = self.cols - 1;
        self.cursor_col = if n < last_col - self.cursor_col {
            self.cursor_col + n
        } else {
            last_col
        };
    }

    pub fn move_cursor_left(&mut self, n: usize)
        requires
            old(self).wf(),
        ensures
            final(self).wf(),
            final(self)@ == old(self)@.with_cursor(
                old(self)@.cursor_row,
                if n <= old(self)@.cursor_col {
                    (old(self)@.cursor_col - n) as nat
                } else {
                    0
                },
            ),
    {
        self.cursor_col = if n <= self.cursor_col {
            self.cursor_col - n
        } else {
            0
        };
    }
}

impl Grid {
    fn erase_row(&mut self, row: usize)
        requires
            old(self).wf(),
            row < old(self).rows,
        ensures
            final(self).wf(),
            final(self)@ == old(self)@.with_blank_rows(row as int, row + 1),
    {
        let cols = self.cols;
        self.fill_row(row, 0, cols, Cell::blank());
        proof {
            self.lemma_wf_view();
            assert(self@.screen[row as int] =~= blank_row(self.cols as nat));
            assert(self@.screen =~= old(self)@.with_blank_rows(row as int, row + 1).screen);
        }
    }

    /// Blanks screen rows `from..to`.
    fn erase_rows(&mut self, from: usize, to: usize)
        requires
            old(self).wf(),
            from <= to <= old(self).rows,
        ensures
            final(self).wf(),
            final(self)@ == old(self)@.with_blank_rows(from as int, to as int),
    {
        let ghost old_view = self@;
        let mut r = from;
        proof {
            self.lemma_wf_view();
            assert(old_view.screen =~= old_view.with_blank_rows(from as int, r as int).screen);
        }
        while r < to
            invariant
                self.wf(),
                from <= r <= to,
                to <= self.rows,
                self.rows == old_view.rows,
                self.cols == old_view.cols,
                old_view.wf(),
                self@ == old_view.with_blank_rows(from as int, r as int),
            decreases to - r,
        {
            self.erase_row(r);
            r = r + 1;
            proof {
                assert(self@.screen =~= old_view.with_blank_rows(from as int, r as int).screen);
            }
        }
    }

    /// Blanks the whole screen.
    pub fn erase_all(&mut self)
        requires
            old(self).wf(),
        ensures
            final(self).wf(),
            final(self)@ == old(self)@.with_blank_rows(0, old(self)@.rows as int),
    {
        let rows = self.rows;
        self.erase_rows(0, rows);
    }

    /// Blanks from the cursor to the end of the screen.
    pub fn erase_below(&mut self)
        requires
            old(self).wf(),
        ensures
            final(self).wf(),
            final(self)@ == old(self)@.with_filled(
                old(self)@.cursor_row as int,
                old(self)@.cursor_col as int,
                old(self)@.cols as int,
                blank_cell(),
            ).with_blank_rows(old(self)@.cursor_row + 1int, old(self)@.rows as int),
    {
        self.erase_line_right();
        let from = self.cursor_row + 1;
        let rows = self.rows;
        self.erase_rows(from, rows);
    }

    /// Blanks from the start of the screen to the cursor, inclusive.
    pub fn erase_above(&mut self)
        requires
            old(self).wf(),
        ensures
            final(self).wf(),
            final(self)@ == old(self)@.with_filled(
                old(self)@.cursor_row as int,
                0,
                old(self)@.cursor_col + 1int,
                blank_cell(),
            ).with_blank_rows(0, old(self)@.cursor_row as int),
    {
        self.erase_line_left();
        let to = self.cursor_row;
        self.erase_rows(0, to);
    }

    /// Blanks the cursor line from the cursor to its end.
    pub fn erase_line_right(&mut self)
        requires
            old(self).wf(),
        ensures
            final(self).wf(),
            final(self)@ == old(self)@.with_filled(
                old(self)@.cursor_row as int,
                old(self)@.cursor_col as int,
                old(self)@.cols as int,
                blank_cell(),
            ),
    {
        let row = self.cursor_row;
        let col = self.cursor_col;
        let cols = self.cols;
        self.fill_row(row, col, cols, Cell::blank());
    }

    /// Blanks the cursor line from its start to the cursor, inclusive.
    pub fn erase_line_left(&mut self)
        requires
            old(self).wf(),
        ensures
            final(self).wf(),
            final(self)@ == old(self)@.with_filled(
                old(self)@.cursor_row as int,
                0,
                old(self)@.cursor_col + 1int,
                blank_cell(),
            ),
    {
        let row = self.cursor_row;
        let end = self.cursor_col + 1;
        self.fill_row(row, 0, end, Cell::blank());
    }

    /// Blanks the cursor line.
    pub fn erase_line_all(&mut self)
        requires
            old(self).wf(),
        ensures
            final(self).wf(),
            final(self)@ == old(self)@.with_blank_rows(
                old(self)@.cursor_row as int,
                old(self)@.cursor_row + 1int,
            ),
    {
        let row = self.cursor_row;
        self.erase_row(row);
    }

    /// Blanks `n` cells from the cursor, stopping at the end of the line.
    pub fn erase_chars(&mut self, n: usize)
        requires
            old(self).wf(),
            old(self).cursor_offset() + n <= usize::MAX,
        ensures
            final(self).wf(),
            final(self)@ == old(self)@.with_filled(
                old(self)@.cursor_row as int,
                old(self)@.cursor_col as int,
                clamp_max(old(self)@.cursor_col + n, old(self)@.cols as int) as int,
                blank_cell(),
            ),
    {
        let row = self.cursor_row;
        let col = self.cursor_col;
        let end = if n < self.cols - col {
            col + n
        } else {
            self.cols
        };
        self.fill_row(row, col, end, Cell::blank());
    }

    /// Moves the scroll region up `n` lines.
    pub fn scroll_up_n(&mut self, n: usize)
        requires
            old(self).wf(),
        ensures
            final(self).wf(),
            final(self)@ == old(self)@.scrolled_up_n(n as nat),
    {
        let ghost old_view = self@;
        let mut i: usize = 0;
        while i < n
            invariant
                self.wf(),
                i <= n,
                self@ == old_view.scrolled_up_n(i as nat),
            decreases n - i,
        {
            self.scroll_up();
            proof {
                lemma_scrolled_up_n_step(old_view, i as nat);
            }
            i = i + 1;
        }
    }

    /// Moves the scroll region down `n` lines.
    pub fn scroll_down_n(&mut self, n: usize)
        requires
            old(self).wf(),
        ensures
            final(self).wf(),
            final(self)@ == old(self)@.scrolled_down_n(n as nat),
    {
        let ghost old_view = self@;
        let mut i: usize = 0;
        while i < n
            invariant
                self.wf(),
                i <= n,
                self@ == old_view.scrolled_down_n(i as nat),
            decreases n - i,
        {
            self.scroll_down();
            proof {
                lemma_scrolled_down_n_step(old_view, i as nat);
            }
            i = i + 1;
        }
    }

    /// Inserts `n` blank lines at the top of the scroll region.
    pub fn insert_lines(&mut self, n: usize)
        requires
            old(self).wf(),
        ensures
            final(self).wf(),
            final(self)@ == old(self)@.scrolled_down_n(n as nat),
    {
        self.scroll_down_n(n);
    }

    /// Deletes `n` lines at the top of the scroll region.
    pub fn delete_lines(&mut self, n: usize)
        requires
            old(self).wf(),
        ensures
            final(self).wf(),
            final(self)@ == old(self)@.scrolled_up_n(n as nat),
    {
        self.scroll_up_n(n);
    }
}

/// One more upward scroll after `i` of them.
pub proof fn lemma_scrolled_up_n_step(v: GridView, i: nat)
    ensures
        v.scrolled_up_n(i).scrolled_up() == v.scrolled_up_n(i + 1),
    decreases i,
{
    if i > 0 {
        lemma_scrolled_up_n_step(v.scrolled_up(), (i - 1) as nat);
        assert(v.scrolled_up_n(i) == v.scrolled_up().scrolled_up_n((i - 1) as nat));
        assert(v.scrolled_up_n(i + 1) == v.scrolled_up().scrolled_up_n(i));
    } else {
        assert(v.scrolled_up_n(1) == v.scrolled_up().scrolled_up_n(0));
    }
}

/// One more downward scroll after `i` of them.
pub proof fn lemma_scrolled_down_n_step(v: GridView, i: nat)
    ensures
        v.scrolled_down_n(i).scrolled_down() == v.scrolled_down_n(i + 1),
    decreases i,
{
    if i > 0 {
        lemma_scrolled_down_n_step(v.scrolled_down(), (i - 1) as nat);
        assert(v.scrolled_down_n(i) == v.scrolled_down().scrolled_down_n((i - 1) as nat));
        assert(v.scrolled_down_n(i + 1) == v.scrolled_down().scrolled_down_n(i));
    } else {
        assert(v.scrolled_down_n(1) == v.scrolled_down().scrolled_down_n(0));
    }
}

/// The cursor line after inserting `n` blanks at column `col`: the cells from
/// the cursor on move right and those pushed past the end are lost.
pub open spec fn row_with_inserted(row: Seq<Cell>, col: int, n: int) -> Seq<Cell> {
    let k = if n < row.len() - col {
        n
    } else {
        row.len() - col
    };
    Seq::new(
        row.len(),
        |c: int|
            if c < col {
                row[c]
            } else if c < col + k {
                blank_cell()
            } else {
                row[c - k]
            },
    )
}

/// The cursor line after deleting `n` cells at column `col`: the cells after
/// them move left and blanks fill the end of the line.
pub open spec fn row_with_deleted(row: Seq<Cell>, col: int, n: int) -> Seq<Cell> {
    let k = if n < row.len() - col {
        n
    } else {
        row.len() - col
    };
    Seq::new(
        row.len(),
        |c: int|
            if c < col {
                row[c]
            } else if c < row.len() - k {
                row[c + k]
            } else {
                blank_cell()
            },
    )
}

impl Grid {
    /// Inserts `n` blank cells at the cursor, shifting the rest of the line right.
    pub fn insert_chars(&mut self, n: usize)
        requires
            old(self).wf(),
        ensures
            final(self).wf(),
            final(self)@ == old(self)@.with_row(
                old(self)@.cursor_row as int,
                row_with_inserted(
                    old(self)@.screen[old(self)@.cursor_row as int],
                    old(self)@.cursor_col as int,
                    n as int,
                ),
            ),
    {
        proof {
            self.lemma_wf_view();
        }
        let row = self.cursor_row;
        let col = self.cursor_col;
        let cols = self.cols;
        let k = if n < cols - col {
            n
        } else {
            cols - col
        };
        let old_row = self.row_vec(row);
        let ghost expected = row_with_inserted(old_row@, col as int, n as int);
        let mut new_row: Vec<Cell> = Vec::new();
        let mut c: usize = 0;
        while c < cols
            invariant
                c <= cols,
                cols == old_row@.len(),
                col < cols,
                k == (if n < cols - col {
                    n as int
                } else {
                    cols - col
                }),
                expected == row_with_inserted(old_row@, col as int, n as int),
                new_row@ =~= expected.subrange(0, c as int),
            decreases cols - c,
        {
            let cell = if c < col {
                old_row[c]
            } else if c < col + k {
                Cell::blank()
            } else {
                old_row[c - k]
            };
            new_row.push(cell);
            c = c + 1;
        }
        assert(new_row@ =~= expected);
        self.set_row(row, &new_row);
    }

    /// Deletes `n` cells at the cursor, shifting the rest of the line left.
    pub fn delete_chars(&mut self, n: usize)
        requires
            old(self).wf(),
        ensures
            final(self).wf(),
            final(self)@ == old(self)@.with_row(
                old(self)@.cursor_row as int,
                row_with_deleted(
                    old(self)@.screen[old(self)@.cursor_row as int],
                    old(self)@.cursor_col as int,
                    n as int,
                ),
            ),
    {
        proof {
            self.lemma_wf_view();
        }
        let row = self.cursor_row;
        let col = self.cursor_col;
        let cols = self.cols;
        let k = if n < cols - col {
            n
        } else {
            cols - col
        };
        let old_row = self.row_vec(row);
        let ghost expected = row_with_deleted(old_row@, col as int, n as int);
        let mut new_row: Vec<Cell> = Vec::new();
        let mut c: usize = 0;
        while c < cols
            invariant
                c <= cols,
                cols == old_row@.len(),
                col < cols,
                k == (if n < cols - col {
                    n as int
                } else {
                    cols - col
                }),
                expected == row_with_deleted(old_row@, col as int, n as int),
                new_row@ =~= expected.subrange(0, c as int),
            decreases cols - c,
        {
            let cell = if c < col {
                old_row[c]
            } else if c < cols - k {
                old_row[c + k]
            } else {
                Cell::blank()
            };
            new_row.push(cell);
            c = c + 1;
        }
        assert(new_row@ =~= expected);
        self.set_row(row, &new_row);
    }

    /// Sets the scroll region to rows `top..bottom` (clamped to the screen,
    /// and at least one line tall) and homes the cursor.
    pub fn set_scroll_region(&mut self, top: usize, bottom: usize)
        requires
            old(self).wf(),
        ensures
            final(self).wf(),
            ({
                let t = clamp_max(top as int, old(self)@.rows - 1);
                let b = clamp_max(bottom as int, old(self)@.rows as int);
                final(self)@ == GridView {
                    scroll_top: t,
                    scroll_bottom: if b < t + 1 {
                        t + 1
                    } else {
                        b
                    },
                    cursor_row: 0,
                    cursor_col: 0,
                    ..old(self)@
                }
            }),
    {
        let last = self.rows - 1;
        let t = if top < last {
            top
        } else {
            last
        };
        let b = if bottom < self.rows {
            bottom
        } else {
            self.rows
        };
        self.scroll_top = t;
        self.scroll_bottom = if b < t + 1 {
            t + 1
        } else {
            b
        };
        self.cursor_row = 0;
        self.cursor_col = 0;
    }

    /// Resets the pen to the default colours without attributes.
    pub fn reset_attrs(&mut self)
        requires
            old(self).wf(),
        ensures
            final(self).wf(),
            final(self)@ == old(self)@.with_pen(COLOR_DEFAULT, COLOR_DEFAULT, 0),
    {
        self.current_fg = COLOR_DEFAULT;
        self.current_bg = COLOR_DEFAULT;
        self.current_attrs = 0;
    }

    fn set_attr(&mut self, bit: u8, on: bool)
        requires
            old(self).wf(),
        ensures
            final(self).wf(),
            final(self)@ == old(self)@.with_pen(
                old(self)@.fg,
                old(self)@.bg,
                with_attr(old(self)@.attrs, bit, on),
            ),
    {
        if on {
            self.current_attrs = self.current_attrs | bit;
        } else {
            self.current_attrs = self.current_attrs & !bit;
        }
    }

    pub fn set_bold(&mut self, on: bool)
        requires
            old(self).wf(),
        ensures
            final(self).wf(),
            final(self)@ == old(self)@.with_pen(
                old(self)@.fg,
                old(self)@.bg,
                with_attr(old(self)@.attrs, ATTR_BOLD, on),
            ),
    {
        self.set_attr(ATTR_BOLD, on);
    }

    pub fn set_dim(&mut self, on: bool)
        requires
            old(self).wf(),
        ensures
            final(self).wf(),
            final(self)@ == old(self)@.with_pen(
                old(self)@.fg,
                old(self)@.bg,
                with_attr(old(self)@.attrs, ATTR_DIM, on),
            ),
    {
        self.set_attr(ATTR_DIM, on);
    }

    pub fn set_italic(&mut self, on: bool)
        requires
            old(self).wf(),
        ensures
            final(self).wf(),
            final(self)@ == old(self)@.with_pen(
                old(self)@.fg,
                old(self)@.bg,
                with_attr(old(self)@.attrs, ATTR_ITALIC, on),
            ),
    {
        self.set_attr(ATTR_ITALIC, on);
    }

    pub fn set_underline(&mut self, on: bool)
        requires
            old(self).wf(),
        ensures
            final(self).wf(),
            final(self)@ == old(self)@.with_pen(
                old(self)@.fg,
                old(self)@.bg,
                with_attr(old(self)@.attrs, ATTR_UNDERLINE, on),
            ),
    {
        self.set_attr(ATTR_UNDERLINE, on);
    }

    pub fn set_inverse(&mut self, on: bool)
        requires
            old(self).wf(),
        ensures
            final(self).wf(),
            final(self)@ == old(self)@.with_pen(
                old(self)@.fg,
                old(self)@.bg,
                with_attr(old(self)@.attrs, ATTR_INVERSE, on),
            ),
    {
        self.set_attr(ATTR_INVERSE, on);
    }

    pub fn set_strikethrough(&mut self, on: bool)
        requires
            old(self).wf(),
        ensures
            final(self).wf(),
            final(self)@ == old(self)@.with_pen(
                old(self)@.fg,
                old(self)@.bg,
                with_attr(old(self)@.attrs, ATTR_STRIKETHROUGH, on),
            ),
    {
        self.set_attr(ATTR_STRIKETHROUGH, on);
    }

    pub fn set_fg(&mut self, color: u32)
        requires
            old(self).wf(),
        ensures
            final(self).wf(),
            final(self)@ == old(self)@.with_pen(color, old(self)@.bg, old(self)@.attrs),
    {
        self.current_fg = color;
    }

    pub fn set_bg(&mut self, color: u32)
        requires
            old(self).wf(),
        ensures
            final(self).wf(),
            final(self)@ == old(self)@.with_pen(old(self)@.fg, color, old(self)@.attrs),
    {
        self.current_bg = color;
    }

    pub fn set_fg_rgb(&mut self, r: u8, g: u8, b: u8)
        requires
            old(self).wf(),
        ensures
            final(self).wf(),
            final(self)@ == old(self)@.with_pen(rgb_color(r, g, b), old(self)@.bg, old(self)@.attrs),
    {
        self.current_fg = pack_rgb_color(r, g, b);
    }

    pub fn set_bg_rgb(&mut self, r: u8, g: u8, b: u8)
        requires
            old(self).wf(),
        ensures
            final(self).wf(),
            final(self)@ == old(self)@.with_pen(old(self)@.fg, rgb_color(r, g, b), old(self)@.attrs),
    {
        self.current_bg = pack_rgb_color(r, g, b);
    }
}

/// `COLOR_FLAG_RGB | r << 16 | g << 8 | b`.
fn pack_rgb_color(r: u8, g: u8, b: u8) -> (v: u32)
    ensures
        v == rgb_color(r, g, b),
{
    let r32 = r as u32;
    let g32 = g as u32;
    let b32 = b as u32;
    let v = COLOR_FLAG_RGB | (r32 << 16) | (g32 << 8) | b32;
    assert(v == 0x8000_0000 + r32 * 0x10000 + g32 * 0x100 + b32) by (bit_vector)
        requires
            r32 < 256,
            g32 < 256,
            b32 < 256,
            v == 0x8000_0000u32 | (r32 << 16) | (g32 << 8) | b32,
    ;
    v
}

/// The number of columns a code point occupies: its Unicode width, or one
/// column for control characters and values that are not characters.
pub open spec fn cell_width(ch: u32) -> nat {
    if is_scalar(ch) {
        match unicode_char_width(ch as char) {
            Some(w) => w as nat,
            None => 1,
        }
    } else {
        1
    }
}

/// UTF-8 decoding of the first character of `bytes`: the code point and the
/// number of bytes it takes when `bytes` starts with a well-formed leading
/// byte and its continuation bytes; U+FFFD and one byte otherwise.
pub open spec fn decoded_utf8(bytes: Seq<u8>) -> (u32, nat) {
    if valid_leading_and_continuation_bytes_first_codepoint(bytes) {
        (decode_first_codepoint(bytes), length_of_first_codepoint(bytes) as nat)
    } else {
        (0xFFFD, 1)
    }
}

impl GridView {
    /// The view after the cursor passed the end of its line: the cursor goes
    /// to the start of the next line, scrolling at the bottom of the region.
    pub open spec fn wrapped(self) -> GridView {
        self.with_cursor(self.cursor_row, 0).line_fed()
    }

    /// The view after printing an ASCII byte: the cell takes the byte and the
    /// pen and keeps its flags; the cursor advances and wraps.
    pub open spec fn put_ascii(self, b: u8) -> GridView {
        let r = self.cursor_row as int;
        let c = self.cursor_col as int;
        let old_cell = self.screen[r][c];
        let cell = Cell { ch: b as u32, fg: self.fg, bg: self.bg, attrs: self.attrs, flags: old_cell.flags, extra: 0 };
        let v = self.with_cell(r, c, cell);
        if c + 1 >= self.cols {
            v.wrapped()
        } else {
            v.with_cursor(self.cursor_row, (c + 1) as nat)
        }
    }

    /// The view after printing code point `ch` of `width` columns. A wide
    /// character that does not fit on the line is moved to the next one; its
    /// second column holds a continuation cell when it fits.
    pub open spec fn put_char(self, ch: u32, width: nat) -> GridView {
        let v1 = if width == 2 && self.cursor_col + 1 >= self.cols {
            self.with_cell(self.cursor_row as int, self.cursor_col as int, blank_cell()).wrapped()
        } else {
            self
        };
        let r = v1.cursor_row as int;
        let c = v1.cursor_col as int;
        let cell = Cell {
            ch,
            fg: v1.fg,
            bg: v1.bg,
            attrs: v1.attrs,
            flags: if width == 2 {
                FLAG_WIDE
            } else {
                0
            },
            extra: 0,
        };
        let v2 = v1.with_cell(r, c, cell);
        let cont = Cell { ch: 0, fg: v1.fg, bg: v1.bg, attrs: v1.attrs, flags: FLAG_WIDE_CONT, extra: 0 };
        let (v3, next) = if width == 2 && c + 1 < self.cols {
            (v2.with_cell(r, c + 1, cont), c + 2)
        } else {
            (v2, c + 1)
        };
        if next >= self.cols {
            v3.wrapped()
        } else {
            v3.with_cursor(r as nat, next as nat)
        }
    }

    /// One step of writing `s`: the view after its first unit, and how many
    /// bytes that unit took.
    pub open spec fn write_step(self, s: Seq<u8>) -> (GridView, nat) {
        let b = s[0];
        if 0x20 <= b <= 0x7e {
            (self.put_ascii(b), 1)
        } else if b >= 0xc0 {
            let (cp, n) = decoded_utf8(s);
            (
                if cp != 0 {
                    self.put_char(cp, cell_width(cp))
                } else {
                    self
                },
                n,
            )
        } else if b >= 0x80 {
            (self, 1)
        } else if b == 0x0a {
            (self.line_fed(), 1)
        } else if b == 0x0d {
            (self.with_cursor(self.cursor_row, 0), 1)
        } else if b == 0x09 {
            (self.with_cursor(self.cursor_row, self.tab_stop()), 1)
        } else {
            (self, 1)
        }
    }

    /// The view after writing the bytes `s` to the screen.
    pub open spec fn written(self, s: Seq<u8>) -> GridView
        decreases s.len(),
    {
        if s.len() == 0 {
            self
        } else {
            let (v, n) = self.write_step(s);
            if 1 <= n <= s.len() {
                v.written(s.skip(n as int))
            } else {
                v
            }
        }
    }
}

/// Decodes the UTF-8 character at the start of `bytes`.
pub fn decode_utf8(bytes: &[u8]) -> (r: (u32, usize))
    requires
        bytes@.len() >= 1,
    ensures
        (r.0, r.1 as nat) == decoded_utf8(bytes@),
        1 <= r.1 <= 4,
        r.1 <= bytes@.len(),
{
    let b0 = bytes[0];
    if b0 < 0x80 {
        assert((b0 & 0x7f) == b0) by (bit_vector)
            requires
                b0 < 0x80,
        ;
        (b0 as u32, 1)
    } else if b0 < 0xc0 {
        (0xFFFD, 1)
    } else if b0 < 0xe0 {
        if bytes.len() >= 2 && (bytes[1] & 0xc0) == 0x80 {
            let b1 = bytes[1];
            assert((b1 & 0xc0) == 0x80 <==> 0x80 <= b1 <= 0xbf) by (bit_vector);
            let cp = ((b0 as u32 & 0x1f) << 6) | (bytes[1] as u32 & 0x3f);
            assert(cp == (((b0 & 0x1f) as u32) << 6) | ((b1 & 0x3f) as u32)) by (bit_vector)
                requires
                    cp == ((b0 as u32 & 0x1f) << 6) | (b1 as u32 & 0x3f),
            ;
            (cp, 2)
        } else {
            proof {
                if bytes.len() >= 2 {
                    let b1 = bytes@[1];
                    assert((b1 & 0xc0) == 0x80 <==> 0x80 <= b1 <= 0xbf) by (bit_vector);
                }
            }
            (0xFFFD, 1)
        }
    } else if b0 < 0xf0 {
        if bytes.len() >= 3 && (bytes[1] & 0xc0) == 0x80 && (bytes[2] & 0xc0) == 0x80 {
            let b1 = bytes[1];
            let b2 = bytes[2];
            assert((b1 & 0xc0) == 0x80 <==> 0x80 <= b1 <= 0xbf) by (bit_vector);
            assert((b2 & 0xc0) == 0x80 <==> 0x80 <= b2 <= 0xbf) by (bit_vector);
            let cp = ((b0 as u32 & 0x0f) << 12) | ((b1 as u32 & 0x3f) << 6) | (b2 as u32 & 0x3f);
            assert(cp == (((b0 & 0x0f) as u32) << 12) | (((b1 & 0x3f) as u32) << 6) | ((b2
                & 0x3f) as u32)) by (bit_vector)
                requires
                    cp == ((b0 as u32 & 0x0f) << 12) | ((b1 as u32 & 0x3f) << 6) | (b2 as u32
                        & 0x3f),
            ;
            (cp, 3)
        } else {
            proof {
                if bytes.len() >= 2 {
                    let b1 = bytes@[1];
                    assert((b1 & 0xc0) == 0x80 <==> 0x80 <= b1 <= 0xbf) by (bit_vector);
                }
                if bytes.len() >= 3 {
                    let b2 = bytes@[2];
                    assert((b2 & 0xc0) == 0x80 <==> 0x80 <= b2 <= 0xbf) by (bit_vector);
                }
            }
            (0xFFFD, 1)
        }
    } else if b0 < 0xf8 {
        if bytes.len() >= 4 && (bytes[1] & 0xc0) == 0x80 && (bytes[2] & 0xc0) == 0x80 && (bytes[3]
            & 0xc0) == 0x80 {
            let b1 = bytes[1];
            let b2 = bytes[2];
            let b3 = bytes[3];
            assert((b1 & 0xc0) == 0x80 <==> 0x80 <= b1 <= 0xbf) by (bit_vector);
            assert((b2 & 0xc0) == 0x80 <==> 0x80 <= b2 <= 0xbf) by (bit_vector);
            assert((b3 & 0xc0) == 0x80 <==> 0x80 <= b3 <= 0xbf) by (bit_vector);
            let cp = ((b0 as u32 & 0x07) << 18) | ((b1 as u32 & 0x3f) << 12) | ((b2 as u32 & 0x3f)
                << 6) | (b3 as u32 & 0x3f);
            assert(cp == (((b0 & 0x07) as u32) << 18) | (((b1 & 0x3f) as u32) << 12) | (((b2
                & 0x3f) as u32) << 6) | ((b3 & 0x3f) as u32)) by (bit_vector)
                requires
                    cp == ((b0 as u32 & 0x07) << 18) | ((b1 as u32 & 0x3f) << 12) | ((b2 as u32
                        & 0x3f) << 6) | (b3 as u32 & 0x3f),
            ;
            (cp, 4)
        } else {
            proof {
                if bytes.len() >= 2 {
                    let b1 = bytes@[1];
                    assert((b1 & 0xc0) == 0x80 <==> 0x80 <= b1 <= 0xbf) by (bit_vector);
                }
                if bytes.len() >= 3 {
                    let b2 = bytes@[2];
                    assert((b2 & 0xc0) == 0x80 <==> 0x80 <= b2 <= 0xbf) by (bit_vector);
                }
                if bytes.len() >= 4 {
                    let b3 = bytes@[3];
                    assert((b3 & 0xc0) == 0x80 <==> 0x80 <= b3 <= 0xbf) by (bit_vector);
                }
            }
            (0xFFFD, 1)
        }
    } else {
        (0xFFFD, 1)
    }
}

/// Decoding the UTF-8 encoding of a string gives back its first character,
/// and consumes exactly the bytes of that character.
pub proof fn lemma_decode_utf8_of_encoding(s: Seq<char>)
    requires
        s.len() > 0,
    ensures
        decoded_utf8(encode_utf8(s)) == (s[0] as u32, encode_scalar(s[0] as u32).len()),
{
    vstd::utf8::encode_utf8_first_scalar(s);
}

impl Cell {
    /// The character this cell shows.
    pub fn char_display(&self) -> (c: char)
        ensures
            c == display_char(self.ch),
    {
        match char_from_u32(self.ch) {
            Some(c) => c,
            None => ' ',
        }
    }
}

/// The number of columns a code point occupies.
fn codepoint_cell_width(ch: u32) -> (w: usize)
    ensures
        w == cell_width(ch),
{
    match char_from_u32(ch) {
        Some(c) => match char_width(c) {
            Some(w) => w,
            None => 1,
        },
        None => 1,
    }
}

impl Grid {
    /// Moves the cursor to the start of the next line, scrolling at the
    /// bottom of the scroll region.
    fn wrap_line(&mut self)
        requires
            old(self).wf(),
        ensures
            final(self).wf(),
            final(self)@ == old(self)@.wrapped(),
    {
        self.cursor_col = 0;
        self.line_feed();
    }

    /// Prints one ASCII byte at the cursor.
    fn put_ascii(&mut self, b: u8)
        requires
            old(self).wf(),
        ensures
            final(self).wf(),
            final(self)@ == old(self)@.put_ascii(b),
    {
        let row = self.cursor_row;
        let col = self.cursor_col;
        let old_cell = *self.cell_at(row, col);
        let cell = Cell {
            ch: b as u32,
            fg: self.current_fg,
            bg: self.current_bg,
            attrs: self.current_attrs,
            flags: old_cell.flags,
            extra: 0,
        };
        self.write_cell(row, col, cell);
        if col + 1 >= self.cols {
            self.wrap_line();
        } else {
            self.cursor_col = col + 1;
        }
    }

    /// Prints the bytes `bytes[start..end]`, all printable ASCII, at the cursor.
    fn write_ascii_run(&mut self, bytes: &[u8], start: usize, end: usize)
        requires
            old(self).wf(),
            start <= end <= bytes@.len(),
            forall|k: int| start <= k < end ==> 0x20 <= #[trigger] bytes@[k] <= 0x7e,
        ensures
            final(self).wf(),
            final(self)@.written(bytes@.skip(end as int)) == old(self)@.written(
                bytes@.skip(start as int),
            ),
    {
        let ghost old_view = self@;
        let mut i = start;
        while i < end
            invariant
                self.wf(),
                start <= i <= end,
                end <= bytes@.len(),
                forall|k: int| start <= k < end ==> 0x20 <= #[trigger] bytes@[k] <= 0x7e,
                self@.written(bytes@.skip(i as int)) == old_view.written(bytes@.skip(start as int)),
            decreases end - i,
        {
            let ghost before = self@;
            let b = bytes[i];
            self.put_ascii(b);
            proof {
                let s = bytes@.skip(i as int);
                assert(s[0] == b);
                assert(s.skip(1) =~= bytes@.skip(i + 1));
            }
            i = i + 1;
        }
    }

    /// Prints code point `ch`, which occupies `width` columns, at the cursor.
    pub fn put_char_with_width(&mut self, ch: u32, width: usize)
        requires
            old(self).wf(),
        ensures
            final(self).wf(),
            final(self)@ == old(self)@.put_char(ch, width as nat),
    {
        if width == 2 && self.cursor_col + 1 >= self.cols {
            let row = self.cursor_row;
            let col = self.cursor_col;
            self.write_cell(row, col, Cell::blank());
            self.wrap_line();
        }
        let row = self.cursor_row;
        let col = self.cursor_col;
        let fg = self.current_fg;
        let bg = self.current_bg;
        let attrs = self.current_attrs;
        let cell = Cell {
            ch,
            fg,
            bg,
            attrs,
            flags: if width == 2 {
                FLAG_WIDE
            } else {
                0
            },
            extra: 0,
        };
        self.write_cell(row, col, cell);
        let mut next = col + 1;
        if width == 2 && next < self.cols {
            let cont = Cell { ch: 0, fg, bg, attrs, flags: FLAG_WIDE_CONT, extra: 0 };
            self.write_cell(row, next, cont);
            next = next + 1;
        }
        if next >= self.cols {
            self.wrap_line();
        } else {
            self.cursor_col = next;
        }
    }

    /// Prints code point `ch` at the cursor, taking as many columns as its
    /// Unicode width.
    pub fn put_char(&mut self, ch: u32)
        requires
            old(self).wf(),
        ensures
            final(self).wf(),
            final(self)@ == old(self)@.put_char(ch, cell_width(ch)),
    {
        let width = codepoint_cell_width(ch);
        self.put_char_with_width(ch, width);
    }

    /// Writes terminal output bytes: printable ASCII and UTF-8 characters go
    /// to the screen; line feed, carriage return and tab move the cursor;
    /// other bytes are ignored.
    pub fn write_bytes(&mut self, bytes: &[u8])
        requires
            old(self).wf(),
        ensures
            final(self).wf(),
            final(self)@ == old(self)@.written(bytes@),
    {
        let ghost old_view = self@;
        let len = bytes.len();
        let mut i: usize = 0;
        proof {
            assert(bytes@.skip(0) =~= bytes@);
        }
        while i < len
            invariant
                self.wf(),
                i <= len,
                len == bytes@.len(),
                self@.written(bytes@.skip(i as int)) == old_view.written(bytes@),
            decreases len - i,
        {
            let b = bytes[i];
            let ghost s = bytes@.skip(i as int);
            if 0x20 <= b && b <= 0x7e {
                let run_start = i;
                i = i + 1;
                while i < len
                    invariant
                        run_start < i <= len,
                        len == bytes@.len(),
                        forall|k: int| run_start <= k < i ==> 0x20 <= #[trigger] bytes@[k] <= 0x7e,
                    decreases len - i,
                {
                    let next = bytes[i];
                    if !(0x20 <= next && next <= 0x7e) {
                        break;
                    }
                    i = i + 1;
                }
                self.write_ascii_run(bytes, run_start, i);
            } else if b >= 0xc0 {
                let ghost before = self@;
                let (cp, consumed) = decode_utf8(&bytes[i..len]);
                if cp != 0 {
                    self.put_char(cp);
                }
                proof {
                    assert(s.skip(consumed as int) =~= bytes@.skip(i + consumed));
                }
                i = i + consumed;
            } else if b >= 0x80 {
                proof {
                    assert(s.skip(1) =~= bytes@.skip(i + 1));
                }
                i = i + 1;
            } else {
                if b == 0x0a {
                    self.line_feed();
                } else if b == 0x0d {
                    self.cursor_col = 0;
                } else if b == 0x09 {
                    self.tab();
                }
                proof {
                    assert(s.skip(1) =~= bytes@.skip(i + 1));
                }
                i = i + 1;
            }
        }
        proof {
            assert(bytes@.skip(len as int) =~= Seq::<u8>::empty());
        }
    }
}


impl GridView {
    /// The view after a resize to `cols` by `rows` (each at least one): the
    /// overlapping top-left part of the screen is kept, the rest is blank,
    /// the scroll region becomes the whole screen and the cursor is clamped.
    /// A resize to the current size changes nothing.
    pub open spec fn resized(self, cols: nat, rows: nat) -> GridView {
        if cols == self.cols && rows == self.rows {
            self
        } else {
            GridView {
                cols,
                rows,
                screen: Seq::new(
                    rows,
                    |r: int|
                        Seq::new(
                            cols,
                            |c: int|
                                if r < self.rows && c < self.cols {
                                    self.screen[r][c]
                                } else {
                                    blank_cell()
                                },
                        ),
                ),
                scroll_top: 0,
                scroll_bottom: rows,
                cursor_col: clamp_max(self.cursor_col as int, cols - 1),
                cursor_row: clamp_max(self.cursor_row as int, rows - 1),
                ..self
            }
        }
    }

    /// The cell shown at row `row`, column `col` when the view is scrolled
    /// back by `scroll_offset` lines into the history.
    pub open spec fn cell_at_scroll(self, row: int, col: int) -> Cell {
        let sb_len = self.scrollback.len() as int;
        if self.scroll_offset == 0 {
            self.screen[row][col]
        } else if self.scroll_offset > sb_len {
            blank_cell()
        } else {
            let line = sb_len - self.scroll_offset + row;
            if line < sb_len {
                if col < self.scrollback[line].len() {
                    self.scrollback[line][col]
                } else {
                    blank_cell()
                }
            } else if line - sb_len < self.rows && col < self.cols {
                self.screen[line - sb_len][col]
            } else {
                blank_cell()
            }
        }
    }
}

/// The text of one screen line: the characters of its cells without the
/// trailing spaces.
pub open spec fn line_text(row: Seq<Cell>) -> Seq<char> {
    crate::text::trim_trailing_spaces(row.map_values(|c: Cell| display_char(c.ch)))
}

/// The text of consecutive screen lines, joined by line feeds.
pub open spec fn lines_text(rows: Seq<Seq<Cell>>) -> Seq<char>
    decreases rows.len(),
{
    if rows.len() == 0 {
        Seq::empty()
    } else if rows.len() == 1 {
        line_text(rows[0])
    } else {
        lines_text(rows.drop_last()).push('\n') + line_text(rows.last())
    }
}

impl Grid {
    /// A blank grid of the given size with the pen and history of `self`.
    fn blank_like(&self, cols: usize, rows: usize) -> (g: Grid)
        requires
            self.wf(),
            1 <= cols <= 0xffff,
            1 <= rows <= 0xffff,
        ensures
            g.wf(),
            g.cols == cols,
            g.rows == rows,
            g.top_row == 0,
            g@.screen == Seq::new(rows as nat, |r: int| blank_row(cols as nat)),
    {
        assert(cols * rows <= 0xffff * 0xffff) by (nonlinear_arith)
            requires
                cols <= 0xffff,
                rows <= 0xffff,
        ;
        let n = cols * rows;
        let cells = vec![Cell::blank(); n];
        let g = Grid {
            cols,
            rows,
            cursor_col: 0,
            cursor_row: 0,
            cells,
            top_row: 0,
            current_fg: COLOR_DEFAULT,
            current_bg: COLOR_DEFAULT,
            current_attrs: 0,
            scroll_top: 0,
            scroll_bottom: rows,
            scrollback: Vec::new(),
            scrollback_max: SCROLLBACK_MAX,
            scroll_offset: 0,
            extras: Vec::new(),
        };
        proof {
            assert(g@.screen =~= Seq::new(rows as nat, |r: int| blank_row(cols as nat))) by {
                assert forall|r: int| 0 <= r < rows implies g@.screen[r] =~= blank_row(
                    cols as nat,
                ) by {
                    lemma_row_in_bounds(cols as int, rows as int, r, 0);
                    assert forall|c: int| 0 <= c < cols implies g@.screen[r][c] == blank_cell() by {
                        g.lemma_idx(r, c);
                    }
                }
            }
        }
        g
    }

    /// Resizes the screen to `cols` by `rows` (each at least one), keeping
    /// the overlapping top-left part of the content.
    pub fn resize(&mut self, cols: u16, rows: u16)
        requires
            old(self).wf(),
        ensures
            final(self).wf(),
            final(self)@ == old(self)@.resized(
                if cols == 0 {
                    1nat
                } else {
                    cols as nat
                },
                if rows == 0 {
                    1nat
                } else {
                    rows as nat
                },
            ),
    {
        let new_cols: usize = if cols == 0 {
            1
        } else {
            cols as usize
        };
        let new_rows: usize = if rows == 0 {
            1
        } else {
            rows as usize
        };
        if new_cols == self.cols && new_rows == self.rows {
            return ;
        }
        let ghost old_view = self@;
        proof {
            self.lemma_wf_view();
        }
        let old_cols = self.cols;
        let old_rows = self.rows;
        let copy_rows = if old_rows < new_rows {
            old_rows
        } else {
            new_rows
        };
        let copy_cols = if old_cols < new_cols {
            old_cols
        } else {
            new_cols
        };
        let ghost target = old_view.resized(new_cols as nat, new_rows as nat).screen;
        let mut g = self.blank_like(new_cols, new_rows);
        let mut r: usize = 0;
        while r < copy_rows
            invariant
                self.wf(),
                self@ == old_view,
                old_view.wf(),
                g.wf(),
                g.cols == new_cols,
                g.rows == new_rows,
                g.top_row == 0,
                old_cols == self.cols,
                old_rows == self.rows,
                copy_rows <= old_rows,
                copy_rows <= new_rows,
                copy_cols <= old_cols,
                copy_cols <= new_cols,
                copy_rows == (if old_rows < new_rows { old_rows } else { new_rows }),
                copy_cols == (if old_cols < new_cols { old_cols } else { new_cols }),
                r <= copy_rows,
                target == old_view.resized(new_cols as nat, new_rows as nat).screen,
                !(new_cols == old_cols && new_rows == old_rows),
                g@.screen == Seq::new(
                    new_rows as nat,
                    |i: int|
                        if i < r {
                            target[i]
                        } else {
                            blank_row(new_cols as nat)
                        },
                ),
            decreases copy_rows - r,
        {
            let old_row = self.row_vec(r);
            let mut new_row: Vec<Cell> = Vec::new();
            let mut c: usize = 0;
            while c < new_cols
                invariant
                    c <= new_cols,
                    copy_cols <= new_cols,
                    copy_cols <= old_row@.len(),
                    copy_cols == (if old_cols < new_cols { old_cols } else { new_cols }),
                    old_row@.len() == old_cols,
                    new_row@ =~= Seq::new(
                        c as nat,
                        |k: int|
                            if k < old_cols {
                                old_row@[k]
                            } else {
                                blank_cell()
                            },
                    ),
                decreases new_cols - c,
            {
                if c < copy_cols {
                    new_row.push(old_row[c]);
                } else {
                    new_row.push(Cell::blank());
                }
                c = c + 1;
            }
            proof {
                assert(new_row@ =~= target[r as int]);
            }
            g.set_row(r, &new_row);
            r = r + 1;
            proof {
                assert(g@.screen =~= Seq::new(
                    new_rows as nat,
                    |i: int|
                        if i < r {
                            target[i]
                        } else {
                            blank_row(new_cols as nat)
                        },
                ));
            }
        }
        proof {
            assert(g@.screen =~= target) by {
                assert forall|i: int| 0 <= i < new_rows implies g@.screen[i] == target[i] by {
                    if i >= r {
                        assert(target[i] =~= blank_row(new_cols as nat));
                    }
                }
            }
        }
        self.cells = g.cells;
        self.cols = new_cols;
        self.rows = new_rows;
        self.top_row = 0;
        self.scroll_top = 0;
        self.scroll_bottom = new_rows;
        let last_col = new_cols - 1;
        let last_row = new_rows - 1;
        if self.cursor_col > last_col {
            self.cursor_col = last_col;
        }
        if self.cursor_row > last_row {
            self.cursor_row = last_row;
        }
        proof {
            assert(self@.screen == g@.screen);
            assert(self@ == old_view.resized(new_cols as nat, new_rows as nat));
        }
    }

    /// The cell shown at `row`, `col` when the view is scrolled back into
    /// the history by `scroll_offset` lines.
    pub fn cell_at_scroll(&self, row: usize, col: usize) -> (c: Cell)
        requires
            self.wf(),
            row < self@.rows,
            self@.scroll_offset == 0 ==> col < self@.cols,
        ensures
            c == self@.cell_at_scroll(row as int, col as int),
    {
        if self.scroll_offset == 0 {
            return *self.cell_at(row, col);
        }
        let sb_len = self.scrollback.len();
        if self.scroll_offset > sb_len {
            return Cell::blank();
        }
        let sb_start = sb_len - self.scroll_offset;
        let line_in_sb = sb_start + row;
        if line_in_sb < sb_len {
            let sb_row = &self.scrollback[line_in_sb];
            if col < sb_row.len() {
                sb_row[col]
            } else {
                Cell::blank()
            }
        } else {
            let grid_row = line_in_sb - sb_len;
            if grid_row < self.rows && col < self.cols {
                *self.cell_at(grid_row, col)
            } else {
                Cell::blank()
            }
        }
    }

    /// The character at `row`, `col`, or a space off the screen.
    pub fn cell_char(&self, row: usize, col: usize) -> (ch: char)
        requires
            self.wf(),
        ensures
            ch == if row < self@.rows && col < self@.cols {
                display_char(self@.screen[row as int][col as int].ch)
            } else {
                ' '
            },
    {
        if row >= self.rows || col >= self.cols {
            return ' ';
        }
        self.cell_at(row, col).char_display()
    }

    /// The characters of screen row `row`, trailing spaces removed.
    fn line_chars(&self, row: usize) -> (v: Vec<char>)
        requires
            self.wf(),
            row < self.rows,
        ensures
            v@ == line_text(self@.screen[row as int]),
    {
        proof {
            self.lemma_wf_view();
        }
        let ghost full = self@.screen[row as int].map_values(|c: Cell| display_char(c.ch));
        let mut v: Vec<char> = Vec::new();
        let mut c: usize = 0;
        while c < self.cols
            invariant
                self.wf(),
                self@.wf(),
                row < self.rows,
                c <= self.cols,
                full == self@.screen[row as int].map_values(|c: Cell| display_char(c.ch)),
                full.len() == self.cols,
                v@ =~= full.subrange(0, c as int),
            decreases self.cols - c,
        {
            let ch = self.cell_at(row, c).char_display();
            v.push(ch);
            c = c + 1;
        }
        let mut end = v.len();
        proof {
            assert(v@ =~= full);
        }
        while end > 0 && v[end - 1] == ' '
            invariant
                end <= v@.len(),
                v@ == full,
                forall|i: int| end <= i < v@.len() ==> v@[i] == ' ',
            decreases end,
        {
            end = end - 1;
        }
        proof {
            crate::text::lemma_trim_prefix(full, end as int);
        }
        v.truncate(end);
        proof {
            assert(v@ =~= full.subrange(0, end as int));
            let t = full.subrange(0, end as int);
            assert(t.len() == 0 || t.last() != ' ');
        }
        v
    }

    /// The text of screen rows `start_row..end_row` (the end clamped to the
    /// screen), one line per row without trailing spaces.
    pub fn get_text(&self, start_row: usize, end_row: usize) -> (s: String)
        requires
            self.wf(),
            start_row <= (if end_row < self@.rows {
                end_row as int
            } else {
                self@.rows as int
            }),
        ensures
            s@ == lines_text(
                self@.screen.subrange(
                    start_row as int,
                    if end_row < self@.rows {
                        end_row as int
                    } else {
                        self@.rows as int
                    },
                ),
            ),
    {
        proof {
            self.lemma_wf_view();
        }
        let end = if end_row < self.rows {
            end_row
        } else {
            self.rows
        };
        let mut out = String::new();
        let mut row = start_row;
        proof {
            assert(self@.screen.subrange(start_row as int, start_row as int) =~= Seq::<
                Seq<Cell>,
            >::empty());
        }
        while row < end
            invariant
                self.wf(),
                self@.wf(),
                start_row <= row <= end,
                end <= self.rows,
                out@ == lines_text(self@.screen.subrange(start_row as int, row as int)),
            decreases end - row,
        {
            let line = self.line_chars(row);
            let ghost prev = out@;
            if row > start_row {
                crate::text::push_char(&mut out, '\n');
            }
            let mut k: usize = 0;
            let ghost before_line = out@;
            while k < line.len()
                invariant
                    k <= line@.len(),
                    out@ == before_line + line@.subrange(0, k as int),
                decreases line@.len() - k,
            {
                crate::text::push_char(&mut out, line[k]);
                k = k + 1;
                proof {
                    assert(line@.subrange(0, k as int) =~= line@.subrange(0, k - 1).push(
                        line@[k - 1],
                    ));
                }
            }
            proof {
                let rows_now = self@.screen.subrange(start_row as int, row + 1);
                assert(rows_now.drop_last() =~= self@.screen.subrange(start_row as int, row as int));
                assert(rows_now.last() == self@.screen[row as int]);
                assert(line@.subrange(0, line@.len() as int) =~= line@);
                if row > start_row {
                    assert(out@ =~= lines_text(rows_now));
                } else {
                    assert(rows_now.len() == 1);
                    assert(out@ =~= lines_text(rows_now));
                }
            }
            row = row + 1;
        }
        out
    }

    /// The text of the whole screen.
    pub fn get_all_text(&self) -> (s: String)
        requires
            self.wf(),
        ensures
            s@ == lines_text(self@.screen),
    {
        proof {
            self.lemma_wf_view();
            assert(self@.screen.subrange(0, self@.rows as int) =~= self@.screen);
        }
        self.get_text(0, self.rows)
    }
}

/// Writing a cell and reading the screen back: the written position holds
/// the new cell, every other position what it held, and the grid stays
/// well formed.
pub proof fn lemma_cell_write_reads_back(g: GridView, r: int, c: int, cell: Cell, r2: int, c2: int)
    requires
        g.wf(),
        0 <= r < g.rows,
        0 <= c < g.cols,
        0 <= r2 < g.rows,
        0 <= c2 < g.cols,
    ensures
        g.with_cell(r, c, cell).wf(),
        g.with_cell(r, c, cell).cell(r2, c2) == if r2 == r && c2 == c {
            cell
        } else {
            g.cell(r2, c2)
        },
{
    let g2 = g.with_cell(r, c, cell);
    assert forall|q: int| 0 <= q < g2.rows implies #[trigger] g2.screen[q].len() == g2.cols by {
        assert(g.screen[q].len() == g.cols);
    }
}

impl CellExtras {
    /// Whether these are the extras of a plain cell.
    pub fn is_plain(&self) -> (b: bool)
        ensures
            b == (self@ == no_extras()),
    {
        self.grapheme.is_none() && self.underline_color == COLOR_DEFAULT && self.hyperlink_id == 0
            && self.underline_style == UnderlineStyle::NoUnderline
    }

    /// Whether two sets of extras are the same.
    pub fn same_as(&self, other: &CellExtras) -> (b: bool)
        ensures
            b == (self@ == other@),
    {
        let same_grapheme = match (&self.grapheme, &other.grapheme) {
            (Some(a), Some(b)) => *a == *b,
            (None, None) => true,
            _ => false,
        };
        same_grapheme && self.underline_color == other.underline_color && self.hyperlink_id
            == other.hyperlink_id && self.underline_style == other.underline_style
    }
}

impl Grid {
    /// The reference under which the table holds extras `e`: 0 for plain
    /// extras, the first entry equal to `e`, else a new entry when the table
    /// has room, else 0. The table only grows, and nothing else changes.
    fn intern_extras(&mut self, e: CellExtras) -> (k: u16)
        requires
            old(self).wf(),
        ensures
            final(self).wf(),
            final(self)@ == (GridView { extras: final(self)@.extras, ..old(self)@ }),
            old(self)@.extras.len() <= final(self)@.extras.len(),
            final(self)@.extras.subrange(0, old(self)@.extras.len() as int) == old(self)@.extras,
            extras_entry(final(self)@.extras, k) == (if old(self)@.extras_fit(e@) {
                e@
            } else {
                no_extras()
            }),
    {
        let ghost ev = e@;
        if e.is_plain() {
            proof {
                assert(final(self)@.extras.subrange(0, old(self)@.extras.len() as int) =~= old(
                    self,
                )@.extras);
            }
            return 0;
        }
        let mut i: usize = 0;
        while i < self.extras.len()
            invariant
                self.wf(),
                i <= self.extras@.len(),
                self.extras@.len() <= MAX_EXTRAS,
                e@ == ev,
                forall|j: int| 0 <= j < i ==> self.extras@[j]@ != ev,
            decreases self.extras@.len() - i,
        {
            if self.extras[i].same_as(&e) {
                proof {
                    assert(self@.extras[i as int] == ev);
                    assert(self@.extras.subrange(0, self@.extras.len() as int) =~= self@.extras);
                    assert(self@.extras_fit(ev));
                }
                return (i + 1) as u16;
            }
            i = i + 1;
        }
        proof {
            assert(!self@.extras.contains(ev)) by {
                if self@.extras.contains(ev) {
                    let j = choose|j: int| 0 <= j < self@.extras.len() && self@.extras[j] == ev;
                    assert(self.extras@[j]@ == ev);
                }
            }
        }
        if self.extras.len() < MAX_EXTRAS {
            self.extras.push(e);
            proof {
                assert(self@.extras =~= old(self)@.extras.push(ev));
                assert(self@.extras.subrange(0, old(self)@.extras.len() as int) =~= old(
                    self,
                )@.extras);
            }
            return self.extras.len() as u16;
        }
        proof {
            assert(self@.extras.subrange(0, self@.extras.len() as int) =~= self@.extras);
        }
        0
    }

    /// Stores `cell` at screen row `row`, column `col` (a position off the
    /// screen is ignored), carrying `extras`: the cell refers to them in the
    /// grid's table, where they are added unless already there. Where the
    /// table is full and does not hold them, the cell is stored plain. The
    /// table only grows, so every other cell keeps its extras.
    pub fn set_cell_with_extras(&mut self, row: usize, col: usize, cell: Cell, extras: CellExtras)
        requires
            old(self).wf(),
        ensures
            final(self).wf(),
            !(row < old(self)@.rows && col < old(self)@.cols) ==> final(self)@ == old(self)@,
            row < old(self)@.rows && col < old(self)@.cols ==> {
                let k = final(self)@.screen[row as int][col as int].extra;
                &&& final(self)@ == (GridView {
                    extras: final(self)@.extras,
                    ..old(self)@.with_cell(row as int, col as int, Cell { extra: k, ..cell })
                })
                &&& old(self)@.extras.len() <= final(self)@.extras.len()
                &&& final(self)@.extras.subrange(0, old(self)@.extras.len() as int) == old(
                    self,
                )@.extras
                &&& final(self)@.extras_of(final(self)@.screen[row as int][col as int]) == (if old(
                    self,
                )@.extras_fit(extras@) {
                    extras@
                } else {
                    no_extras()
                })
            },
    {
        if !(row < self.rows && col < self.cols) {
            return ;
        }
        proof {
            self.lemma_wf_view();
        }
        let k = self.intern_extras(extras);
        let ghost mid = self@;
        let stored = Cell {
            ch: cell.ch,
            fg: cell.fg,
            bg: cell.bg,
            attrs: cell.attrs,
            flags: cell.flags,
            extra: k,
        };
        proof {
            self.lemma_wf_view();
        }
        self.write_cell(row, col, stored);
        proof {
            self.lemma_wf_view();
            assert(self@.screen[row as int][col as int] == stored);
        }
    }

    /// The extras a cell carries in this grid; `None` where it refers to no
    /// entry of the table.
    pub fn cell_extras(&self, cell: Cell) -> (e: Option<&CellExtras>)
        ensures
            match e {
                Some(x) => x@ == self@.extras_of(cell),
                None => self@.extras_of(cell) == no_extras(),
            },
    {
        if cell.extra >= 1 && (cell.extra as usize) <= self.extras.len() {
            Some(&self.extras[(cell.extra - 1) as usize])
        } else {
            None
        }
    }

    /// The grapheme cluster of the cell shown at `row`, `col` when the view
    /// is scrolled back by `scroll_offset` lines, if it has one.
    pub fn cell_grapheme_at_scroll(&self, row: usize, col: usize) -> (g: Option<&str>)
        requires
            self.wf(),
            row < self@.rows,
            self@.scroll_offset == 0 ==> col < self@.cols,
        ensures
            match g {
                Some(s) => self@.extras_of(self@.cell_at_scroll(row as int, col as int)).grapheme
                    == Some(s@),
                None => self@.extras_of(self@.cell_at_scroll(row as int, col as int)).grapheme is None,
            },
    {
        let cell = self.cell_at_scroll(row, col);
        match self.cell_extras(cell) {
            Some(e) => match &e.grapheme {
                Some(s) => Some(s.as_str()),
                None => None,
            },
            None => None,
        }
    }
}


/// Scrolled back by `k` lines into a history of at least `k` lines, screen
/// row `r < k` shows history line `len - k + r`: the history is shown oldest
/// line first, and its most recent line sits right above the live screen.
pub proof fn lemma_history_shown_oldest_first(g: GridView, k: nat, r: int, c: int)
    requires
        1 <= k <= g.scrollback.len(),
        0 <= r < k,
        0 <= c < g.scrollback[g.scrollback.len() - k + r].len(),
    ensures
        (GridView { scroll_offset: k, ..g }).cell_at_scroll(r, c) == g.scrollback[g.scrollback.len()
            - k + r][c],
{
}

/// The line that scrolls off the top of the screen is the one shown at the
/// top when the view is then scrolled back by one line.
pub proof fn lemma_scrolled_off_line_shown_first(g: GridView, c: int)
    requires
        g.wf(),
        g.scroll_top == 0,
        g.scroll_bottom == g.rows,
        g.scrollback_max >= 1,
        0 <= c < g.cols,
    ensures
        (GridView { scroll_offset: 1, ..g.scrolled_up() }).cell_at_scroll(0, c) == g.screen[0][c],
{
    let h = g.scrollback.push(g.screen[0]);
    let t = trim_history(h, g.scrollback_max);
    assert(t.len() >= 1);
    assert(t[t.len() - 1] == g.screen[0]);
    assert(g.screen[0].len() == g.cols);
}


/// Printing a character of one column where it fits before the last column:
/// the cursor's cell takes the character in the pen's colours and
/// attributes, the cursor moves one column right, and nothing else changes.
pub proof fn lemma_narrow_char_printed(g: GridView, ch: u32, r2: int, c2: int)
    requires
        g.wf(),
        g.cursor_col + 1 < g.cols,
        0 <= r2 < g.rows,
        0 <= c2 < g.cols,
    ensures
        ({
            let h = g.put_char(ch, 1);
            &&& h.cursor_row == g.cursor_row
            &&& h.cursor_col == g.cursor_col + 1
            &&& h.scrollback == g.scrollback
            &&& h.cell(g.cursor_row as int, g.cursor_col as int).ch == ch
            &&& h.cell(g.cursor_row as int, g.cursor_col as int).fg == g.fg
            &&& h.cell(g.cursor_row as int, g.cursor_col as int).bg == g.bg
            &&& h.cell(g.cursor_row as int, g.cursor_col as int).attrs == g.attrs
            &&& h.cell(g.cursor_row as int, g.cursor_col as int).flags == 0
            &&& !(r2 == g.cursor_row && c2 == g.cursor_col) ==> h.cell(r2, c2) == g.cell(r2, c2)
        }),
{
}

/// Printing a character of two columns where both fit before the last
/// column: the first cell takes the character marked wide, the second a
/// continuation cell, the cursor moves two columns right, and nothing else
/// changes.
pub proof fn lemma_wide_char_printed(g: GridView, ch: u32, r2: int, c2: int)
    requires
        g.wf(),
        g.cursor_col + 2 < g.cols,
        0 <= r2 < g.rows,
        0 <= c2 < g.cols,
    ensures
        ({
            let h = g.put_char(ch, 2);
            let (r, c) = (g.cursor_row as int, g.cursor_col as int);
            &&& h.cursor_row == g.cursor_row
            &&& h.cursor_col == g.cursor_col + 2
            &&& h.cell(r, c).ch == ch
            &&& h.cell(r, c).flags == FLAG_WIDE
            &&& h.cell(r, c + 1).ch == 0
            &&& h.cell(r, c + 1).flags == FLAG_WIDE_CONT
            &&& h.cell(r, c + 1).fg == g.fg && h.cell(r, c + 1).bg == g.bg
            &&& !(r2 == r && (c2 == c || c2 == c + 1)) ==> h.cell(r2, c2) == g.cell(r2, c2)
        }),
{
}

/// A line feed above the bottom of the scroll region only moves the cursor
/// one row down. At the bottom of a region that is the whole screen, with a
/// history that keeps at least one line, the top row goes to the end of the
/// history (the oldest line leaving when it is full), the other rows move
/// up one and a blank row comes in at the bottom; the cursor stays.
pub proof fn lemma_line_feed(g: GridView, r: int)
    requires
        g.wf(),
        0 <= r < g.rows,
    ensures
        g.cursor_row + 1 < g.scroll_bottom ==> g.line_fed().cursor_row == g.cursor_row + 1
            && g.line_fed().cursor_col == g.cursor_col && g.line_fed().screen == g.screen
            && g.line_fed().scrollback == g.scrollback,
        g.cursor_row + 1 == g.rows && g.scroll_top == 0 && g.scroll_bottom == g.rows
            && g.scrollback_max >= 1 ==> {
            let h = g.line_fed();
            &&& h.cursor_row == g.cursor_row
            &&& h.scrollback.last() == g.screen[0]
            &&& h.scrollback.drop_last() == (if g.scrollback.len() + 1 > g.scrollback_max {
                g.scrollback.drop_first()
            } else {
                g.scrollback
            })
            &&& r + 1 < g.rows ==> h.screen[r] == g.screen[r + 1]
            &&& r + 1 == g.rows ==> h.screen[r] == Seq::new(g.cols, |i: int| blank_cell())
        },
{
    if g.cursor_row + 1 == g.rows && g.scroll_top == 0 && g.scroll_bottom == g.rows
        && g.scrollback_max >= 1 {
        let p = g.scrollback.push(g.screen[0]);
        if p.len() > g.scrollback_max {
            assert(p.drop_first().drop_last() =~= g.scrollback.drop_first());
        } else {
            assert(p.drop_last() =~= g.scrollback);
        }
    }
}

} // verus!
