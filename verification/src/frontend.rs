//! The window frontend's decisions: when to redraw, how much work a change
//! is, startup timing marks, the de-duplication of input that arrives both
//! as a key event and as an IME commit, and small encodings it sends.
use crate::base64::{base64_decoded, decode_lenient};
use crate::clock::{Moment, Span};
use crate::grid::Grid;
use crate::input::KeyEventKind;
use crate::keys::{Key, Modifiers, NamedKey};
use crate::font::ascii_lower;
use crate::text::{
    bytes_equal, chars_of, is_white_space, push_char, str_from_utf8, string_of_chars, white_space,
};
use vstd::string::StringSliceAdditionalSpecFns;
use vstd::utf8::{decode_utf8, encode_utf8, valid_utf8};
use vstd::prelude::*;
use vstd::string::StringExecFns;

verus! {

/// How much a batch of terminal output changed the screen.
#[derive(Debug, Clone, Copy, PartialEq, Eq, Structural)]
pub struct RedrawWork {
    pub changed: bool,
    pub heavy: bool,
}

impl Default for RedrawWork {
    fn default() -> (w: Self)
        ensures
            !w.changed,
            !w.heavy,
    {
        RedrawWork { changed: false, heavy: false }
    }
}

/// Whether to draw now, and otherwise until when to wait.
#[derive(Debug, Clone, Copy, PartialEq, Eq, Structural)]
pub struct FrameDecision {
    pub request_redraw: bool,
    pub wait_until: Option<Moment>,
}

/// Paces redraws: light changes are drawn at once, a burst of heavy output
/// is drawn at most once per frame interval.
#[derive(Debug, Clone, Copy, PartialEq, Eq, Structural)]
pub struct FrameScheduler {
    pub io_pending: bool,
    pub redraw_pending: bool,
    pub redraw_at: Option<Moment>,
    pub burst_started_at: Option<Moment>,
    pub frame_interval: Span,
}

impl Default for FrameScheduler {
    fn default() -> (s: Self)
        ensures
            s == (FrameScheduler {
                io_pending: false,
                redraw_pending: false,
                redraw_at: None,
                burst_started_at: None,
                frame_interval: Span { nanos: 0 },
            }),
    {
        FrameScheduler {
            io_pending: false,
            redraw_pending: false,
            redraw_at: None,
            burst_started_at: None,
            frame_interval: Span { nanos: 0 },
        }
    }
}

/// Twice a frame interval, saturating.
pub open spec fn two_frames(fi: Span) -> int {
    if fi.nanos * 2 > u64::MAX {
        u64::MAX as int
    } else {
        fi.nanos * 2
    }
}

/// Whether a heavy burst that started at `start` is still young at `now`:
/// younger than two frame intervals.
pub open spec fn burst_young(now: Moment, start: Moment, fi: Span) -> bool {
    let age = if now.nanos >= start.nanos {
        now.nanos - start.nanos
    } else {
        0
    };
    age < two_frames(fi)
}

impl FrameScheduler {
    /// The scheduler after output became readable at `now`.
    pub open spec fn io_ready(self, now: Moment, fi: Span) -> FrameScheduler {
        FrameScheduler {
            frame_interval: fi,
            io_pending: true,
            burst_started_at: if self.burst_started_at is None {
                Some(now)
            } else {
                self.burst_started_at
            },
            ..self
        }
    }

    /// The scheduler after output was processed, and whether to draw at once.
    pub open spec fn io_processed(self, now: Moment, fi: Span, work: RedrawWork) -> (
        FrameScheduler,
        bool,
    ) {
        let s = FrameScheduler { frame_interval: fi, io_pending: false, ..self };
        if !work.changed {
            (s, false)
        } else {
            let start = match s.burst_started_at {
                Some(t) => t,
                None => now,
            };
            let s = FrameScheduler { burst_started_at: Some(start), ..s };
            if work.heavy && burst_young(now, start, fi) {
                (
                    FrameScheduler {
                        redraw_pending: true,
                        redraw_at: Some(Moment { nanos: (now.nanos + fi.nanos) as u64 }),
                        ..s
                    },
                    false,
                )
            } else {
                (
                    FrameScheduler {
                        redraw_at: None,
                        redraw_pending: true,
                        burst_started_at: None,
                        ..s
                    },
                    true,
                )
            }
        }
    }

    /// Whether a deadline set for a deferred frame has not passed yet.
    pub open spec fn deferred_at(self, now: Moment) -> bool {
        self.redraw_at matches Some(d) && now.nanos < d.nanos
    }

    /// Whether preparing a frame at `now` processes pending output first.
    pub open spec fn processes_io(self, now: Moment) -> bool {
        !self.deferred_at(now) && self.io_pending
    }

    /// The scheduler and the decision when a frame is prepared at `now`, with
    /// `work` the outcome of processing pending output (unused when none is
    /// pending).
    pub open spec fn redraw_step(self, now: Moment, work: RedrawWork) -> (
        FrameScheduler,
        FrameDecision,
    ) {
        if self.deferred_at(now) {
            (self, FrameDecision { request_redraw: false, wait_until: self.redraw_at })
        } else {
            let s = if self.io_pending && work.changed {
                FrameScheduler { redraw_pending: true, ..self }
            } else {
                self
            };
            let start = match s.burst_started_at {
                Some(t) => t,
                None => now,
            };
            if self.io_pending && work.changed && work.heavy && burst_young(
                now,
                start,
                s.frame_interval,
            ) {
                let deadline = Moment { nanos: (now.nanos + s.frame_interval.nanos) as u64 };
                (
                    FrameScheduler { io_pending: false, redraw_at: Some(deadline), ..s },
                    FrameDecision { request_redraw: false, wait_until: Some(deadline) },
                )
            } else {
                (
                    FrameScheduler {
                        io_pending: false,
                        redraw_at: None,
                        burst_started_at: None,
                        redraw_pending: false,
                        ..s
                    },
                    FrameDecision { request_redraw: s.redraw_pending, wait_until: None },
                )
            }
        }
    }

    /// Notes that output is ready at `now`; a burst starts if none is running.
    pub fn mark_io_ready(&mut self, now: Moment, frame_interval: Span)
        ensures
            *final(self) == old(self).io_ready(now, frame_interval),
    {
        self.frame_interval = frame_interval;
        self.io_pending = true;
        if self.burst_started_at.is_none() {
            self.burst_started_at = Some(now);
        }
    }

    /// Notes that output was processed; returns whether to draw at once. A
    /// heavy change early in a burst is deferred by one frame interval.
    pub fn mark_io_processed(&mut self, now: Moment, frame_interval: Span, work: RedrawWork) -> (r:
        bool)
        requires
            work.changed && work.heavy ==> now.nanos + frame_interval.nanos <= u64::MAX,
        ensures
            (*final(self), r) == old(self).io_processed(now, frame_interval, work),
    {
        self.frame_interval = frame_interval;
        self.io_pending = false;
        if !work.changed {
            return false;
        }
        let start = match self.burst_started_at {
            Some(t) => t,
            None => now,
        };
        self.burst_started_at = Some(start);
        if work.heavy {
            let burst_age = now.saturating_since(start);
            if burst_age.nanos < self.frame_interval.saturating_mul(2).nanos {
                self.redraw_pending = true;
                self.redraw_at = Some(now.plus(self.frame_interval));
                return false;
            }
        }
        self.redraw_at = None;
        self.redraw_pending = true;
        self.burst_started_at = None;
        true
    }

    /// Notes a light change at `now` (the clock reading the caller took).
    pub fn mark_io_ready_light(&mut self, now: Moment) -> (r: bool)
        ensures
            (*final(self), r) == old(self).io_processed(
                now,
                old(self).frame_interval,
                RedrawWork { changed: true, heavy: false },
            ),
    {
        let fi = self.frame_interval;
        self.mark_io_processed(now, fi, RedrawWork { changed: true, heavy: false })
    }

    /// Asks for a frame as soon as possible.
    pub fn mark_redraw_needed(&mut self)
        ensures
            *final(self) == (FrameScheduler {
                redraw_at: None,
                redraw_pending: true,
                ..*old(self)
            }),
    {
        self.redraw_at = None;
        self.redraw_pending = true;
    }

    /// Decides at `now` whether to draw. Pending output is processed first by
    /// calling `process_io` once.
    pub fn prepare_redraw<F: FnOnce() -> RedrawWork>(&mut self, now: Moment, process_io: F) -> (r:
        FrameDecision)
        requires
            old(self).processes_io(now) ==> process_io.requires(()),
            old(self).processes_io(now) ==> now.nanos + old(self).frame_interval.nanos
                <= u64::MAX,
        ensures
            r.request_redraw ==> r.wait_until is None,
            old(self).processes_io(now) ==> exists|work: RedrawWork|
                process_io.ensures((), work) && (*final(self), r) == old(self).redraw_step(
                    now,
                    work,
                ),
            !old(self).processes_io(now) ==> (*final(self), r) == old(self).redraw_step(
                now,
                RedrawWork { changed: false, heavy: false },
            ),
    {
        if let Some(deadline) = self.redraw_at {
            if now.nanos < deadline.nanos {
                return FrameDecision { request_redraw: false, wait_until: Some(deadline) };
            }
        }
        let ghost old_self = *self;
        let ghost mut used = RedrawWork { changed: false, heavy: false };
        if self.io_pending {
            let work = process_io();
            proof {
                used = work;
            }
            assert(call_ensures(process_io, (), used));
            if work.changed {
                self.redraw_pending = true;
            }
            if work.changed && work.heavy {
                let start = match self.burst_started_at {
                    Some(t) => t,
                    None => now,
                };
                let burst_age = now.saturating_since(start);
                if burst_age.nanos < self.frame_interval.saturating_mul(2).nanos {
                    let deadline = now.plus(self.frame_interval);
                    self.io_pending = false;
                    self.redraw_at = Some(deadline);
                    let r = FrameDecision { request_redraw: false, wait_until: Some(deadline) };
                    assert((*self, r) == old_self.redraw_step(now, used));
                    return r;
                }
            }
            self.io_pending = false;
        }
        self.redraw_at = None;
        self.burst_started_at = None;
        let request = self.redraw_pending;
        self.redraw_pending = false;
        let r = FrameDecision { request_redraw: request, wait_until: None };
        assert((*self, r) == old_self.redraw_step(now, used));
        r
    }
}

/// Timestamps of the first events after a window opened, for the startup
/// report.
#[derive(Debug, Clone, PartialEq, Eq, Structural)]
pub struct StartupTiming {
    pub started_at: Moment,
    pub pty_spawned_at: Option<Moment>,
    pub first_pty_event_at: Option<Moment>,
    pub first_pty_read_at: Option<Moment>,
    pub first_visible_output_at: Option<Moment>,
    pub first_present_at: Option<Moment>,
    pub first_present_after_visible_at: Option<Moment>,
    pub bytes_read: usize,
    pub bytes_before_visible: Option<usize>,
    pub logged: bool,
}

/// A first-occurrence mark: kept if set, `at` otherwise.
pub open spec fn first_mark(mark: Option<Moment>, at: Moment) -> Option<Moment> {
    if mark is Some {
        mark
    } else {
        Some(at)
    }
}

fn mark_first(mark: &mut Option<Moment>, at: Moment)
    ensures
        *final(mark) == first_mark(*old(mark), at),
{
    if mark.is_none() {
        *mark = Some(at);
    }
}

/// Whether text holds a character that is not white space.
pub open spec fn has_non_white_space(s: Seq<char>) -> bool {
    exists|i: int| 0 <= i < s.len() && !is_white_space(#[trigger] s[i])
}

/// Whether the cell at row `r`, column `c` of the view (scrolled as it is)
/// shows something: a grapheme cluster with text other than white space, or
/// a character that is not white space.
pub open spec fn cell_shows_text(g: crate::grid::GridView, r: int, c: int) -> bool {
    let cell = g.cell_at_scroll(r, c);
    (g.extras_of(cell).grapheme matches Some(s) && has_non_white_space(s)) || !is_white_space(
        crate::text::display_char(cell.ch),
    )
}

/// Whether any cell of the view (scrolled as it is) shows something other
/// than white space.
pub open spec fn has_visible_content(g: crate::grid::GridView) -> bool {
    exists|r: int, c: int| 0 <= r < g.rows && 0 <= c < g.cols && #[trigger] cell_shows_text(g, r, c)
}

fn text_has_non_white_space(s: &str) -> (b: bool)
    ensures
        b == has_non_white_space(s@),
{
    let v = chars_of(s);
    let mut i: usize = 0;
    while i < v.len()
        invariant
            i <= v@.len(),
            v@ == s@,
            forall|j: int| 0 <= j < i ==> is_white_space(v@[j]),
        decreases v@.len() - i,
    {
        if !white_space(v[i]) {
            assert(!is_white_space(s@[i as int]));
            return true;
        }
        i = i + 1;
    }
    false
}

/// Whether the terminal shows anything but white space.
pub fn terminal_has_visible_content(grid: &Grid) -> (r: bool)
    requires
        grid.wf(),
    ensures
        r == has_visible_content(grid@),
{
    let rows = grid.row_count();
    let cols = grid.col_count();
    let mut row: usize = 0;
    while row < rows
        invariant
            grid.wf(),
            rows == grid@.rows,
            cols == grid@.cols,
            row <= rows,
            forall|r: int, c: int| 0 <= r < row && 0 <= c < cols ==> !cell_shows_text(grid@, r, c),
        decreases rows - row,
    {
        let mut col: usize = 0;
        while col < cols
            invariant
                grid.wf(),
                rows == grid@.rows,
                cols == grid@.cols,
                row < rows,
                col <= cols,
                forall|r: int, c: int| 0 <= r < row && 0 <= c < cols ==> !cell_shows_text(grid@, r, c),
                forall|c: int| 0 <= c < col ==> !cell_shows_text(grid@, row as int, c),
            decreases cols - col,
        {
            if let Some(g) = grid.cell_grapheme_at_scroll(row, col) {
                if text_has_non_white_space(g) {
                    assert(cell_shows_text(grid@, row as int, col as int));
                    return true;
                }
            }
            let ch = grid.cell_at_scroll(row, col).char_display();
            if !white_space(ch) {
                assert(cell_shows_text(grid@, row as int, col as int));
                return true;
            }
            col = col + 1;
        }
        row = row + 1;
    }
    false
}

impl StartupTiming {
    pub fn new(started_at: Moment) -> (t: Self)
        ensures
            t == (StartupTiming {
                started_at,
                pty_spawned_at: None,
                first_pty_event_at: None,
                first_pty_read_at: None,
                first_visible_output_at: None,
                first_present_at: None,
                first_present_after_visible_at: None,
                bytes_read: 0,
                bytes_before_visible: None,
                logged: false,
            }),
    {
        StartupTiming {
            started_at,
            pty_spawned_at: None,
            first_pty_event_at: None,
            first_pty_read_at: None,
            first_visible_output_at: None,
            first_present_at: None,
            first_present_after_visible_at: None,
            bytes_read: 0,
            bytes_before_visible: None,
            logged: false,
        }
    }

    pub fn mark_pty_spawned(&mut self, at: Moment)
        ensures
            *final(self) == (StartupTiming {
                pty_spawned_at: first_mark(old(self).pty_spawned_at, at),
                ..*old(self)
            }),
    {
        mark_first(&mut self.pty_spawned_at, at);
    }

    pub fn mark_pty_event(&mut self, at: Moment)
        ensures
            *final(self) == (StartupTiming {
                first_pty_event_at: first_mark(old(self).first_pty_event_at, at),
                ..*old(self)
            }),
    {
        mark_first(&mut self.first_pty_event_at, at);
    }

    /// Counts `bytes` read from the pty; an empty read is no read.
    pub fn mark_pty_read(&mut self, at: Moment, bytes: usize)
        requires
            bytes == 0 || old(self).bytes_read + bytes <= usize::MAX,
        ensures
            *final(self) == (if bytes == 0 {
                *old(self)
            } else {
                StartupTiming {
                    bytes_read: (old(self).bytes_read + bytes) as usize,
                    first_pty_read_at: first_mark(old(self).first_pty_read_at, at),
                    ..*old(self)
                }
            }),
    {
        if bytes == 0 {
            return ;
        }
        self.bytes_read = self.bytes_read + bytes;
        mark_first(&mut self.first_pty_read_at, at);
    }

    /// Marks the first moment the terminal shows something, with the bytes
    /// read until then.
    pub fn maybe_mark_visible(&mut self, at: Moment, grid: &Grid)
        requires
            grid.wf(),
        ensures
            *final(self) == (if old(self).first_visible_output_at is Some || !has_visible_content(
                grid@,
            ) {
                *old(self)
            } else {
                StartupTiming {
                    first_visible_output_at: Some(at),
                    bytes_before_visible: Some(old(self).bytes_read),
                    ..*old(self)
                }
            }),
    {
        if self.first_visible_output_at.is_some() || !terminal_has_visible_content(grid) {
            return ;
        }
        self.first_visible_output_at = Some(at);
        self.bytes_before_visible = Some(self.bytes_read);
    }

    /// Marks a presented frame.
    pub fn mark_present(&mut self, at: Moment)
        ensures
            *final(self) == (StartupTiming {
                first_present_at: first_mark(old(self).first_present_at, at),
                first_present_after_visible_at: if old(self).first_visible_output_at is Some {
                    first_mark(old(self).first_present_after_visible_at, at)
                } else {
                    old(self).first_present_after_visible_at
                },
                ..*old(self)
            }),
    {
        mark_first(&mut self.first_present_at, at);
        if self.first_visible_output_at.is_some() {
            mark_first(&mut self.first_present_after_visible_at, at);
        }
    }

    /// Whether the startup report is complete and not yet written; when it is,
    /// it counts as written from now on.
    pub fn claim_report(&mut self) -> (ready: bool)
        ensures
            ready == (!old(self).logged && old(self).first_present_at is Some
                && old(self).first_visible_output_at is Some
                && old(self).first_present_after_visible_at is Some),
            *final(self) == (if ready {
                StartupTiming { logged: true, ..*old(self) }
            } else {
                *old(self)
            }),
    {
        if self.logged || self.first_present_at.is_none() || self.first_visible_output_at.is_none()
            || self.first_present_after_visible_at.is_none() {
            return false;
        }
        self.logged = true;
        true
    }
}

/// Whether a change is heavy: the whole screen is dirty, or at least a third
/// of its cells (the dirty count tripled, saturating, against at least one).
pub open spec fn heavy_change(all_dirty: bool, dirty_cells: int, total_cells: int) -> bool {
    let tripled = if dirty_cells * 3 > usize::MAX {
        usize::MAX as int
    } else {
        dirty_cells * 3
    };
    all_dirty || tripled >= (if total_cells > 1 {
        total_cells
    } else {
        1
    })
}

/// Classifies the work of redrawing after output: none when nothing changed,
/// heavy when much of a `rows` by `cols` screen is dirty.
pub fn classify_redraw_work(
    changed: bool,
    all_dirty: bool,
    dirty_cells: usize,
    rows: usize,
    cols: usize,
) -> (w: RedrawWork)
    requires
        rows * cols <= usize::MAX,
    ensures
        w == (if !changed {
            RedrawWork { changed: false, heavy: false }
        } else {
            RedrawWork {
                changed: true,
                heavy: heavy_change(all_dirty, dirty_cells as int, rows * cols),
            }
        }),
{
    if !changed {
        return RedrawWork::default();
    }
    let total_cells = rows * cols;
    let tripled = match dirty_cells.checked_mul(3) {
        Some(v) => v,
        None => usize::MAX,
    };
    let floor = if total_cells > 1 {
        total_cells
    } else {
        1
    };
    let heavy = all_dirty || tripled >= floor;
    RedrawWork { changed, heavy }
}

/// The arrow-key sequence sent for one step of wheel scrolling in an
/// alternate screen: `ESC O A`/`B` in application cursor mode, `ESC [ A`/`B`
/// otherwise.
pub fn scroll_to_bytes(up: bool, app_cursor: bool) -> (v: Vec<u8>)
    ensures
        v@ == seq![
            0x1bu8,
            if app_cursor {
                0x4fu8
            } else {
                0x5bu8
            },
            if up {
                0x41u8
            } else {
                0x42u8
            },
        ],
{
    let mut v: Vec<u8> = Vec::new();
    v.push(0x1b);
    v.push(
        if app_cursor {
            0x4f
        } else {
            0x5b
        },
    );
    v.push(
        if up {
            0x41
        } else {
            0x42
        },
    );
    assert(v@ =~= seq![
        0x1bu8,
        if app_cursor {
            0x4fu8
        } else {
            0x5bu8
        },
        if up {
            0x41u8
        } else {
            0x42u8
        },
    ]);
    v
}

/// The canonical form of typed text for matching a key event against an IME
/// commit: none for empty text, DEL as backspace, a newline or CRLF as CR.
pub open spec fn normalized_ime_text(t: Seq<char>) -> Option<Seq<char>> {
    if t.len() == 0 {
        None
    } else if t == seq!['\x7f'] {
        Some(seq!['\x08'])
    } else if t == seq!['\n'] || t == seq!['\r', '\n'] {
        Some(seq!['\r'])
    } else {
        Some(t)
    }
}

pub fn normalize_ime_dedupe_text(text: &str) -> (r: Option<String>)
    ensures
        match r {
            Some(s) => normalized_ime_text(text@) == Some(s@),
            None => normalized_ime_text(text@) is None,
        },
{
    let v = chars_of(text);
    let n = v.len();
    if n == 0 {
        return None;
    }
    if n == 1 && v[0] == '\x7f' {
        assert(text@ =~= seq!['\x7f']);
        let mut s = String::new();
        push_char(&mut s, '\x08');
        assert(s@ =~= seq!['\x08']);
        return Some(s);
    }
    if (n == 1 && v[0] == '\n') || (n == 2 && v[0] == '\r' && v[1] == '\n') {
        assert(text@ =~= seq!['\n'] || text@ =~= seq!['\r', '\n']);
        let mut s = String::new();
        push_char(&mut s, '\r');
        assert(s@ =~= seq!['\r']);
        return Some(s);
    }
    assert(text@ != seq!['\x7f']) by {
        if text@ =~= seq!['\x7f'] {
            assert(v@[0] == '\x7f');
        }
    }
    assert(text@ != seq!['\n'] && text@ != seq!['\r', '\n']) by {
        if text@ =~= seq!['\n'] {
            assert(v@[0] == '\n');
        }
        if text@ =~= seq!['\r', '\n'] {
            assert(v@[0] == '\r' && v@[1] == '\n');
        }
    }
    Some(String::from_str(text))
}

/// The normalized text of a key event's text, if any.
pub open spec fn event_ime_text(event_text: Option<&str>) -> Option<Seq<char>> {
    match event_text {
        Some(t) => normalized_ime_text(t@),
        None => None,
    }
}

/// The text of a pending IME commit, if it has any.
pub open spec fn pending_ime_text(pending: Option<String>) -> Option<Seq<char>> {
    match pending {
        Some(p) => if p@.len() > 0 {
            Some(p@)
        } else {
            None
        },
        None => None,
    }
}

fn normalize_event_text(event_text: Option<&str>) -> (r: Option<String>)
    ensures
        match r {
            Some(s) => event_ime_text(event_text) == Some(s@),
            None => event_ime_text(event_text) is None,
        },
{
    match event_text {
        Some(t) => normalize_ime_dedupe_text(t),
        None => None,
    }
}

/// On a key press right after an IME commit, whether the press repeats the
/// committed text (also when both have no text). A press consumes the
/// pending commit; other key events leave it.
pub fn should_skip_duplicate_ime_key_event(
    pending_ime_commit: &mut Option<String>,
    event_kind: KeyEventKind,
    event_text: Option<&str>,
) -> (skip: bool)
    ensures
        event_kind != KeyEventKind::Press ==> !skip && *final(pending_ime_commit) == *old(
            pending_ime_commit,
        ),
        event_kind == KeyEventKind::Press ==> skip == (pending_ime_text(*old(pending_ime_commit))
            == event_ime_text(event_text)) && *final(pending_ime_commit) is None,
{
    if event_kind != KeyEventKind::Press {
        return false;
    }
    let normalized = normalize_event_text(event_text);
    let skip = match pending_ime_commit {
        Some(p) => {
            if p.as_str().is_empty() {
                normalized.is_none()
            } else {
                match &normalized {
                    Some(n) => *p == *n,
                    None => false,
                }
            }
        },
        None => normalized.is_none(),
    };
    *pending_ime_commit = None;
    skip
}

/// On a key press right after an IME commit, whether the press repeats the
/// committed text: its normalized text is the commit, or the bytes it would
/// send are the commit's UTF-8. A press consumes the pending commit; other
/// key events leave it.
pub fn should_skip_duplicate_ime_input(
    pending_ime_commit: &mut Option<String>,
    event_kind: KeyEventKind,
    event_text: Option<&str>,
    encoded_bytes: Option<&[u8]>,
) -> (skip: bool)
    ensures
        event_kind != KeyEventKind::Press ==> !skip && *final(pending_ime_commit) == *old(
            pending_ime_commit,
        ),
        event_kind == KeyEventKind::Press ==> *final(pending_ime_commit) is None && skip == (
        match pending_ime_text(*old(pending_ime_commit)) {
            Some(t) => event_ime_text(event_text) == Some(t) || (encoded_bytes matches Some(b)
                && encode_utf8(t) == b@),
            None => false,
        }),
{
    if event_kind != KeyEventKind::Press {
        return false;
    }
    let normalized = normalize_event_text(event_text);
    let skip = match pending_ime_commit {
        Some(p) => {
            if p.as_str().is_empty() {
                false
            } else {
                let text_match = match &normalized {
                    Some(n) => *n == *p,
                    None => false,
                };
                let bytes_match = match encoded_bytes {
                    Some(b) => bytes_equal(p.as_str().as_bytes(), b),
                    None => false,
                };
                text_match || bytes_match
            }
        },
        None => false,
    };
    *pending_ime_commit = None;
    skip
}

/// Whether a character is a control character (general category Cc).
pub open spec fn is_control(c: char) -> bool {
    (c as u32) < 0x20 || (0x7f <= (c as u32) && (c as u32) < 0xa0)
}

/// A control character other than space, tab, newline, CR and backspace.
pub open spec fn is_disallowed_control(c: char) -> bool {
    is_control(c) && c != ' ' && c != '\t' && c != '\n' && c != '\r' && c != '\x08'
}

/// `s` without leading NUL characters.
pub open spec fn trim_nul_start(s: Seq<char>) -> Seq<char>
    decreases s.len(),
{
    if s.len() > 0 && s[0] == '\0' {
        trim_nul_start(s.drop_first())
    } else {
        s
    }
}

/// `s` without trailing NUL characters.
pub open spec fn trim_nul_end(s: Seq<char>) -> Seq<char>
    decreases s.len(),
{
    if s.len() > 0 && s.last() == '\0' {
        trim_nul_end(s.drop_last())
    } else {
        s
    }
}

/// The text of a key press for matching a later IME commit: the event's
/// normalized text, or else the bytes it sends when they are UTF-8 text
/// (NULs around it removed) without control characters other than
/// whitespace and backspace.
pub open spec fn ime_key_text(event_text: Option<&str>, encoded_bytes: Option<&[u8]>) -> Option<
    Seq<char>,
> {
    match event_ime_text(event_text) {
        Some(t) => Some(t),
        None => match encoded_bytes {
            None => None,
            Some(b) => if !valid_utf8(b@) {
                None
            } else {
                match normalized_ime_text(trim_nul_end(trim_nul_start(decode_utf8(b@)))) {
                    None => None,
                    Some(t) => if exists|i: int| 0 <= i < t.len() && is_disallowed_control(t[i]) {
                        None
                    } else {
                        Some(t)
                    },
                }
            },
        },
    }
}

fn text_for_ime_key_dedupe(event_text: Option<&str>, encoded_bytes: Option<&[u8]>) -> (r: Option<
    String,
>)
    ensures
        match r {
            Some(s) => ime_key_text(event_text, encoded_bytes) == Some(s@),
            None => ime_key_text(event_text, encoded_bytes) is None,
        },
{
    if let Some(text) = normalize_event_text(event_text) {
        return Some(text);
    }
    let bytes = match encoded_bytes {
        Some(b) => b,
        None => return None,
    };
    let decoded = match str_from_utf8(bytes) {
        Some(t) => t,
        None => return None,
    };
    let v = chars_of(decoded);
    let n = v.len();
    let mut i: usize = 0;
    assert(v@.subrange(0, n as int) =~= v@);
    while i < n && v[i] == '\0'
        invariant
            i <= n == v@.len(),
            trim_nul_start(v@.subrange(i as int, n as int)) == trim_nul_start(v@),
        decreases n - i,
    {
        assert(v@.subrange(i as int, n as int).drop_first() =~= v@.subrange(i + 1, n as int));
        i = i + 1;
    }
    assert(trim_nul_start(v@) == v@.subrange(i as int, n as int));
    let mut j: usize = n;
    while j > i && v[j - 1] == '\0'
        invariant
            i <= j <= n == v@.len(),
            trim_nul_end(v@.subrange(i as int, j as int)) == trim_nul_end(trim_nul_start(v@)),
        decreases j - i,
    {
        assert(v@.subrange(i as int, j as int).drop_last() =~= v@.subrange(i as int, j - 1));
        j = j - 1;
    }
    assert(trim_nul_end(trim_nul_start(v@)) == v@.subrange(i as int, j as int));
    assert(v@ == decode_utf8(bytes@));
    let trimmed = string_of_chars(&v, i, j);
    let text = match normalize_ime_dedupe_text(trimmed.as_str()) {
        Some(t) => t,
        None => return None,
    };
    assert(normalized_ime_text(trim_nul_end(trim_nul_start(decode_utf8(bytes@)))) == Some(text@));
    assert(event_ime_text(event_text) is None);
    let w = chars_of(text.as_str());
    let mut k: usize = 0;
    while k < w.len()
        invariant
            k <= w@.len(),
            w@ == text@,
            forall|q: int| 0 <= q < k ==> !is_disallowed_control(w@[q]),
            encoded_bytes == Some(bytes),
            valid_utf8(bytes@),
            event_ime_text(event_text) is None,
            normalized_ime_text(trim_nul_end(trim_nul_start(decode_utf8(bytes@)))) == Some(text@),
        decreases w@.len() - k,
    {
        let c = w[k];
        let code = c as u32;
        let control = code < 0x20 || (0x7f <= code && code < 0xa0);
        if control && c != ' ' && c != '\t' && c != '\n' && c != '\r' && c != '\x08' {
            assert(is_disallowed_control(text@[k as int]));
            return None;
        }
        k = k + 1;
    }
    Some(text)
}

/// The text of the last key press, kept briefly to recognize an IME commit
/// that repeats it.
#[derive(Debug, Clone, PartialEq, Eq)]
pub struct RecentTextKeyEvent {
    pub text: String,
    pub at: Moment,
}

/// Remembers the text of a key press (or that it had none); other key events
/// leave the memory as it is.
pub fn remember_text_key_event(
    recent_text_key_event: &mut Option<RecentTextKeyEvent>,
    event_kind: KeyEventKind,
    event_text: Option<&str>,
    encoded_bytes: Option<&[u8]>,
    now: Moment,
)
    ensures
        event_kind != KeyEventKind::Press ==> *final(recent_text_key_event) == *old(
            recent_text_key_event,
        ),
        event_kind == KeyEventKind::Press ==> match *final(recent_text_key_event) {
            Some(e) => ime_key_text(event_text, encoded_bytes) == Some(e.text@) && e.at == now,
            None => ime_key_text(event_text, encoded_bytes) is None,
        },
{
    if event_kind != KeyEventKind::Press {
        return ;
    }
    *recent_text_key_event = match text_for_ime_key_dedupe(event_text, encoded_bytes) {
        Some(text) => Some(RecentTextKeyEvent { text, at: now }),
        None => None,
    };
}

/// How long after a key press an IME commit of the same text is dropped.
pub const IME_KEY_DEDUPE_WINDOW_NANOS: u64 = 50_000_000;

/// Whether an IME commit of `text` at `now` repeats the remembered key press:
/// same normalized text, at most 50 ms later. The memory is consumed.
pub fn should_skip_ime_commit_after_key_event(
    recent_text_key_event: &mut Option<RecentTextKeyEvent>,
    text: &str,
    now: Moment,
) -> (skip: bool)
    ensures
        *final(recent_text_key_event) is None,
        skip == match *old(recent_text_key_event) {
            Some(e) => normalized_ime_text(text@) == Some(e.text@) && e.at.nanos <= now.nanos
                && now.nanos - e.at.nanos <= IME_KEY_DEDUPE_WINDOW_NANOS,
            None => false,
        },
{
    let recent = match recent_text_key_event.take() {
        Some(e) => e,
        None => return false,
    };
    let same = match normalize_ime_dedupe_text(text) {
        Some(n) => n == recent.text,
        None => false,
    };
    same && match now.checked_since(recent.at) {
        Some(elapsed) => elapsed.nanos <= IME_KEY_DEDUPE_WINDOW_NANOS,
        None => false,
    }
}

/// Why base64 text could not be decoded.
#[derive(Debug, Clone, Copy, PartialEq, Eq, Structural)]
pub enum Base64DecodeError {
    InvalidByte,
}

/// Decodes base64 text leniently: `=`, CR and LF are skipped, a trailing
/// partial byte is dropped, and any other byte outside the alphabet is an
/// error.
pub fn base64_decode(input: &[u8]) -> (r: Result<Vec<u8>, Base64DecodeError>)
    ensures
        match r {
            Ok(out) => base64_decoded(input@) == Some(out@),
            Err(e) => base64_decoded(input@) is None && e == Base64DecodeError::InvalidByte,
        },
{
    match decode_lenient(input) {
        Some(out) => Ok(out),
        None => Err(Base64DecodeError::InvalidByte),
    }
}

/// Normalizing typed text twice changes nothing more than normalizing once.
pub proof fn lemma_normalize_idempotent(t: Seq<char>)
    ensures
        normalized_ime_text(t) matches Some(n) ==> normalized_ime_text(n) == Some(n),
{
    if let Some(n) = normalized_ime_text(t) {
        if t == seq!['\x7f'] {
            assert(n =~= seq!['\x08']);
            assert(n != seq!['\x7f'] && n != seq!['\n'] && n != seq!['\r', '\n']) by {
                assert(n[0] != '\x7f' && n[0] != '\n');
                assert(n.len() != 2);
            }
        } else if t == seq!['\n'] || t == seq!['\r', '\n'] {
            assert(n =~= seq!['\r']);
            assert(n != seq!['\x7f'] && n != seq!['\n'] && n != seq!['\r', '\n']) by {
                assert(n[0] != '\x7f' && n[0] != '\n');
                assert(n.len() != 2);
            }
        }
    }
}

/// A frame that draws or waits for nothing leaves nothing pending: preparing
/// another frame at once, with no new output, neither draws nor waits.
pub proof fn lemma_redraw_requested_once(s: FrameScheduler, now: Moment, work: RedrawWork, later: RedrawWork)
    ensures
        ({
            let (s2, d) = s.redraw_step(now, work);
            d.wait_until is None ==> s2.redraw_step(now, later) == (
                s2,
                FrameDecision { request_redraw: false, wait_until: None },
            )
        }),
{
}

/// A heavy change early in a burst is drawn exactly one frame interval later:
/// the frame is deferred to that deadline and nothing else is pending.
pub proof fn lemma_heavy_burst_deferred_one_frame(s: FrameScheduler, now: Moment, work: RedrawWork)
    requires
        !s.deferred_at(now),
        s.io_pending,
        work.changed && work.heavy,
        burst_young(now, if s.burst_started_at is Some { s.burst_started_at->0 } else { now }, s.frame_interval),
        now.nanos + s.frame_interval.nanos <= u64::MAX,
    ensures
        ({
            let (s2, d) = s.redraw_step(now, work);
            let deadline = Moment { nanos: (now.nanos + s.frame_interval.nanos) as u64 };
            &&& d == FrameDecision { request_redraw: false, wait_until: Some(deadline) }
            &&& s2.redraw_at == Some(deadline)
            &&& s2.redraw_pending
            &&& !s2.io_pending
        }),
{
}

/// A first-occurrence mark keeps the first moment it was given.
pub proof fn lemma_first_mark_keeps_first(mark: Option<Moment>, first: Moment, later: Moment)
    ensures
        first_mark(first_mark(mark, first), later) == first_mark(mark, first),
        first_mark(mark, first) is Some,
{
}

/// The named key that a synthetic key name (compared without ASCII case)
/// stands for.
pub open spec fn synthetic_named_key(name: Seq<char>) -> Option<NamedKey> {
    if name == "enter"@ || name == "return"@ {
        Some(NamedKey::Enter)
    } else if name == "tab"@ {
        Some(NamedKey::Tab)
    } else if name == "escape"@ || name == "esc"@ {
        Some(NamedKey::Escape)
    } else if name == "backspace"@ {
        Some(NamedKey::Backspace)
    } else if name == "space"@ {
        Some(NamedKey::Space)
    } else if name == "up"@ {
        Some(NamedKey::ArrowUp)
    } else if name == "down"@ {
        Some(NamedKey::ArrowDown)
    } else if name == "left"@ {
        Some(NamedKey::ArrowLeft)
    } else if name == "right"@ {
        Some(NamedKey::ArrowRight)
    } else if name == "home"@ {
        Some(NamedKey::Home)
    } else if name == "end"@ {
        Some(NamedKey::End)
    } else if name == "delete"@ {
        Some(NamedKey::Delete)
    } else if name == "page_up"@ || name == "pageup"@ {
        Some(NamedKey::PageUp)
    } else if name == "page_down"@ || name == "pagedown"@ {
        Some(NamedKey::PageDown)
    } else if name == "alt"@ {
        Some(NamedKey::Alt)
    } else if name == "shift"@ {
        Some(NamedKey::Shift)
    } else if name == "control"@ || name == "ctrl"@ {
        Some(NamedKey::Control)
    } else if name == "super"@ || name == "meta"@ {
        Some(NamedKey::Super)
    } else {
        None
    }
}

fn same_chars(v: &Vec<char>, lit: &str) -> (b: bool)
    ensures
        b == (v@ == lit@),
{
    let w = chars_of(lit);
    if v.len() != w.len() {
        assert(v@.len() != lit@.len());
        return false;
    }
    let mut k: usize = 0;
    while k < v.len()
        invariant
            k <= v@.len() == w@.len(),
            w@ == lit@,
            forall|q: int| 0 <= q < k ==> v@[q] == w@[q],
        decreases v@.len() - k,
    {
        if v[k] != w[k] {
            assert(v@[k as int] != w@[k as int]);
            return false;
        }
        k = k + 1;
    }
    assert(v@ =~= w@);
    true
}

fn is_one_of(v: &Vec<char>, a: &str, b: &str) -> (r: bool)
    ensures
        r == (v@ == a@ || v@ == b@),
{
    same_chars(v, a) || same_chars(v, b)
}

/// The key a control request names: a named key by its (case-insensitive)
/// name, otherwise the text itself as a character key.
pub fn parse_synthetic_key(spec: &str) -> (k: Key)
    ensures
        k == (match synthetic_named_key(spec@.map_values(|c: char| ascii_lower(c))) {
            Some(named) => Key::Named(named),
            None => Key::Character(k->Character_0),
        }),
        (k is Character) ==> k->Character_0@ == spec@,
{
    let v = chars_of(spec);
    let mut lower: Vec<char> = Vec::new();
    let mut i: usize = 0;
    while i < v.len()
        invariant
            i <= v@.len(),
            v@ == spec@,
            lower@ == v@.subrange(0, i as int).map_values(|c: char| ascii_lower(c)),
        decreases v@.len() - i,
    {
        let c = v[i];
        let l = if 'A' <= c && c <= 'Z' {
            ((c as u32 + 32) as u8) as char
        } else {
            c
        };
        lower.push(l);
        assert(lower@ =~= v@.subrange(0, i + 1).map_values(|c: char| ascii_lower(c)));
        i = i + 1;
    }
    assert(v@.subrange(0, v@.len() as int) =~= v@);
    let named = if is_one_of(&lower, "enter", "return") {
        Some(NamedKey::Enter)
    } else if same_chars(&lower, "tab") {
        Some(NamedKey::Tab)
    } else if is_one_of(&lower, "escape", "esc") {
        Some(NamedKey::Escape)
    } else if same_chars(&lower, "backspace") {
        Some(NamedKey::Backspace)
    } else if same_chars(&lower, "space") {
        Some(NamedKey::Space)
    } else if same_chars(&lower, "up") {
        Some(NamedKey::ArrowUp)
    } else if same_chars(&lower, "down") {
        Some(NamedKey::ArrowDown)
    } else if same_chars(&lower, "left") {
        Some(NamedKey::ArrowLeft)
    } else if same_chars(&lower, "right") {
        Some(NamedKey::ArrowRight)
    } else if same_chars(&lower, "home") {
        Some(NamedKey::Home)
    } else if same_chars(&lower, "end") {
        Some(NamedKey::End)
    } else if same_chars(&lower, "delete") {
        Some(NamedKey::Delete)
    } else if is_one_of(&lower, "page_up", "pageup") {
        Some(NamedKey::PageUp)
    } else if is_one_of(&lower, "page_down", "pagedown") {
        Some(NamedKey::PageDown)
    } else if same_chars(&lower, "alt") {
        Some(NamedKey::Alt)
    } else if same_chars(&lower, "shift") {
        Some(NamedKey::Shift)
    } else if is_one_of(&lower, "control", "ctrl") {
        Some(NamedKey::Control)
    } else if is_one_of(&lower, "super", "meta") {
        Some(NamedKey::Super)
    } else {
        None
    };
    match named {
        Some(n) => Key::Named(n),
        None => Key::Character(String::from_str(spec)),
    }
}

/// The modifiers a control request asks to hold.
pub fn synthetic_modifiers_state(ctrl: bool, alt: bool, shift: bool, super_key: bool) -> (m:
    Modifiers)
    ensures
        m == (Modifiers { shift, control: ctrl, alt, super_key }),
{
    Modifiers { shift, control: ctrl, alt, super_key }
}

/// The text an IME commits for the named keys that type text.
pub open spec fn named_key_text(key: Key) -> Option<Seq<char>> {
    match key {
        Key::Named(NamedKey::Space) => Some(seq![' ']),
        Key::Named(NamedKey::Tab) => Some(seq!['\t']),
        Key::Named(NamedKey::Enter) => Some(seq!['\r']),
        Key::Named(NamedKey::Backspace) => Some(seq!['\x08']),
        _ => None,
    }
}

pub fn named_key_ime_dedupe_text(key: &Key) -> (r: Option<&'static str>)
    ensures
        match r {
            Some(s) => named_key_text(*key) == Some(s@),
            None => named_key_text(*key) is None,
        },
{
    proof {
        reveal_strlit(" ");
        reveal_strlit("\t");
        reveal_strlit("\r");
        reveal_strlit("\u{8}");
    }
    match key {
        Key::Named(NamedKey::Space) => Some(" "),
        Key::Named(NamedKey::Tab) => Some("\t"),
        Key::Named(NamedKey::Enter) => Some("\r"),
        Key::Named(NamedKey::Backspace) => Some("\u{8}"),
        _ => None,
    }
}

/// The text of a key event for matching an IME commit: the event's text
/// normalized, else the key's own text (a character key's normalized
/// characters, a named key's typed text).
pub open spec fn key_dedupe_text(key: Key, event_text: Option<&str>) -> Option<Seq<char>> {
    match event_ime_text(event_text) {
        Some(t) => Some(t),
        None => match key {
            Key::Character(s) => normalized_ime_text(s@),
            Key::Named(_) => named_key_text(key),
            Key::Unidentified => None,
        },
    }
}

pub fn key_ime_dedupe_text(key: &Key, event_text: Option<&str>) -> (r: Option<String>)
    ensures
        match r {
            Some(s) => key_dedupe_text(*key, event_text) == Some(s@),
            None => key_dedupe_text(*key, event_text) is None,
        },
{
    if let Some(text) = normalize_event_text(event_text) {
        return Some(text);
    }
    match key {
        Key::Character(s) => normalize_ime_dedupe_text(s.as_str()),
        Key::Named(_) => match named_key_ime_dedupe_text(key) {
            Some(t) => Some(String::from_str(t)),
            None => None,
        },
        Key::Unidentified => None,
    }
}

} // verus!
