//! Native scrolling of panes drawn by an application inside the terminal:
//! the panes it reports, hit testing, the messages exchanged with it, and
//! the environment that tells it where to connect.
use crate::font::{join_path, joined_path};
use crate::input::{decimal, push_decimal};
use crate::ipc::{first_newline, memchr_newline};
use crate::numerals::{lemma_parse_decimal_u64, parse_u64, parse_u64_str, push_decimal_u64};
use vstd::prelude::*;
use vstd::string::StringExecFns;

verus! {

/// The kinds of scrollable pane an application reports.
#[derive(Debug, Clone, Copy, PartialEq, Eq, Structural)]
pub enum PaneKind {
    Chat,
    SidePanel,
}

/// A pane: its cell rectangle and its scroll position and extent.
#[derive(Debug, Clone, Copy, PartialEq, Eq, Structural)]
pub struct PaneState {
    pub kind: PaneKind,
    pub x: u16,
    pub y: u16,
    pub width: u16,
    pub height: u16,
    pub position: usize,
    pub content_length: usize,
    pub viewport_length: usize,
}

/// Whether a cell lies in the pane's rectangle.
pub open spec fn pane_contains(p: PaneState, col: int, row: int) -> bool {
    p.x <= col < p.x + p.width && p.y <= row < p.y + p.height
}

/// Whether a pane has content beyond a non-empty viewport.
pub open spec fn pane_scrollable(p: PaneState) -> bool {
    p.content_length > p.viewport_length && p.viewport_length > 0
}

impl PaneState {
    pub fn contains(&self, col: usize, row: usize) -> (b: bool)
        ensures
            b == pane_contains(*self, col as int, row as int),
    {
        let x = self.x as usize;
        let y = self.y as usize;
        let width = self.width as usize;
        let height = self.height as usize;
        col >= x && col < x + width && row >= y && row < y + height
    }

    pub fn scrollable(&self) -> (b: bool)
        ensures
            b == pane_scrollable(*self),
    {
        self.content_length > self.viewport_length && self.viewport_length > 0
    }
}

/// The panes an application last reported.
#[derive(Debug, Clone, PartialEq, Eq)]
pub struct PaneSnapshot {
    pub panes: Vec<PaneState>,
}

impl Default for PaneSnapshot {
    fn default() -> (s: Self)
        ensures
            s.panes@.len() == 0,
    {
        PaneSnapshot { panes: Vec::new() }
    }
}

/// Whether the pane at `i` is the first scrollable pane under the cell.
pub open spec fn first_hovered(panes: Seq<PaneState>, i: int, col: int, row: int) -> bool {
    &&& 0 <= i < panes.len()
    &&& pane_scrollable(panes[i]) && pane_contains(panes[i], col, row)
    &&& forall|j: int|
        0 <= j < i ==> !(pane_scrollable(#[trigger] panes[j]) && pane_contains(panes[j], col, row))
}

impl PaneSnapshot {
    /// The kind of the first scrollable pane under a cell.
    pub fn hovered_pane(&self, col: usize, row: usize) -> (k: Option<PaneKind>)
        ensures
            match k {
                Some(kind) => exists|i: int|
                    first_hovered(self.panes@, i, col as int, row as int) && #[trigger] self.panes@[i].kind
                        == kind,
                None => forall|i: int|
                    0 <= i < self.panes@.len() ==> !(pane_scrollable(#[trigger] self.panes@[i])
                        && pane_contains(self.panes@[i], col as int, row as int)),
            },
    {
        let mut i: usize = 0;
        while i < self.panes.len()
            invariant
                i <= self.panes@.len(),
                forall|j: int|
                    0 <= j < i ==> !(pane_scrollable(#[trigger] self.panes@[j]) && pane_contains(
                        self.panes@[j],
                        col as int,
                        row as int,
                    )),
            decreases self.panes@.len() - i,
        {
            let pane = &self.panes[i];
            if pane.scrollable() && pane.contains(col, row) {
                assert(first_hovered(self.panes@, i as int, col as int, row as int));
                return Some(pane.kind);
            }
            i = i + 1;
        }
        None
    }
}

/// What an application tells the terminal: its current panes.
#[derive(Debug, Clone, PartialEq, Eq)]
pub enum AppToHost {
    PaneSnapshot { panes: Vec<PaneState> },
}

/// What the terminal tells an application: scroll a pane by whole rows.
#[derive(Debug, Clone, Copy, PartialEq, Eq, Structural)]
pub enum HostToApp {
    Scroll { pane: PaneKind, delta: i32 },
}

/// The environment variable that holds the socket of the scroll bridge.
pub fn socket_env_key() -> (s: &'static str)
    ensures
        s@ == "HANDTERM_NATIVE_SCROLL_SOCKET"@,
{
    "HANDTERM_NATIVE_SCROLL_SOCKET"
}

pub fn term_program_env_key() -> (s: &'static str)
    ensures
        s@ == "TERM_PROGRAM"@,
{
    "TERM_PROGRAM"
}

pub fn term_program_env_value() -> (s: &'static str)
    ensures
        s@ == "handterm"@,
{
    "handterm"
}

pub fn window_env_key() -> (s: &'static str)
    ensures
        s@ == "HANDTERM_WINDOW_ID"@,
{
    "HANDTERM_WINDOW_ID"
}

/// A buffer `before` that starts with `k` newlines, then `line` and a
/// newline, and then `after`.
pub open spec fn line_taken(before: Seq<u8>, line: Seq<u8>, after: Seq<u8>, k: int) -> bool {
    &&& 0 <= k && k + line.len() < before.len()
    &&& forall|j: int| 0 <= j < k ==> before[j] == 0x0a
    &&& line == before.subrange(k, k + line.len())
    &&& first_newline(before.skip(k), line.len() as int)
    &&& after == before.skip(k + line.len() + 1)
}

/// A buffer `before` that starts with `k` newlines followed by `after`, in
/// which there is no newline.
pub open spec fn only_partial_line(before: Seq<u8>, after: Seq<u8>, k: int) -> bool {
    &&& 0 <= k <= before.len()
    &&& forall|j: int| 0 <= j < k ==> before[j] == 0x0a
    &&& after == before.skip(k)
    &&& forall|j: int| 0 <= j < after.len() ==> after[j] != 0x0a
}

/// Takes the next complete non-empty line (without its newline) from the
/// front of a receive buffer, dropping empty lines before it; `None`, with
/// only the empty lines dropped, when no complete non-empty line is
/// buffered.
pub fn take_line(buffer: &mut Vec<u8>) -> (r: Option<Vec<u8>>)
    ensures
        match r {
            Some(line) => line@.len() > 0 && exists|k: int|
                #[trigger] line_taken(old(buffer)@, line@, final(buffer)@, k),
            None => exists|k: int| #[trigger] only_partial_line(old(buffer)@, final(buffer)@, k),
        },
{
    let ghost start = buffer@;
    let ghost mut dropped: int = 0;
    loop
        invariant
            0 <= dropped <= start.len(),
            start == old(buffer)@,
            forall|j: int| 0 <= j < dropped ==> start[j] == 0x0a,
            buffer@ == start.skip(dropped),
        decreases buffer@.len(),
    {
        match memchr_newline(buffer.as_slice()) {
            None => {
                assert(only_partial_line(start, buffer@, dropped));
                return None;
            },
            Some(pos) => {
                if pos == 0 {
                    buffer.remove(0);
                    proof {
                        assert(start[dropped] == 0x0a);
                        dropped = dropped + 1;
                        assert(buffer@ =~= start.skip(dropped));
                    }
                } else {
                    let mut line: Vec<u8> = Vec::new();
                    let mut k: usize = 0;
                    while k < pos
                        invariant
                            k <= pos < buffer@.len(),
                            line@ == buffer@.subrange(0, k as int),
                        decreases pos - k,
                    {
                        line.push(buffer[k]);
                        assert(buffer@.subrange(0, k + 1) =~= buffer@.subrange(0, k as int).push(
                            buffer@[k as int],
                        ));
                        k = k + 1;
                    }
                    let rest = split_after(buffer, pos);
                    proof {
                        assert(line@ =~= start.subrange(dropped, dropped + pos));
                        assert(rest@ =~= start.skip(dropped + pos + 1));
                        assert(first_newline(start.skip(dropped), pos as int));
                    }
                    *buffer = rest;
                    assert(line_taken(start, line@, buffer@, dropped));
                    return Some(line);
                }
            },
        }
    }
}

/// The bytes of `buf` after position `pos`.
fn split_after(buf: &Vec<u8>, pos: usize) -> (rest: Vec<u8>)
    requires
        pos < buf.len(),
    ensures
        rest@ == buf@.skip(pos + 1),
{
    let mut rest: Vec<u8> = Vec::new();
    let mut k: usize = pos + 1;
    while k < buf.len()
        invariant
            pos + 1 <= k <= buf@.len(),
            rest@ == buf@.subrange(pos + 1, k as int),
        decreases buf@.len() - k,
    {
        rest.push(buf[k]);
        assert(buf@.subrange(pos + 1, k + 1) =~= buf@.subrange(pos + 1, k as int).push(
            buf@[k as int],
        ));
        k = k + 1;
    }
    assert(rest@ =~= buf@.skip(pos + 1));
    rest
}

/// The file name of the scroll bridge socket of a window of this process.
pub open spec fn scroll_socket_name(pid: u32, window_id: u64) -> Seq<char> {
    "handterm-scroll-"@ + decimal(pid as nat) + "-"@ + decimal(window_id as nat) + ".sock"@
}

/// Where the scroll bridge of a window listens: in the runtime directory
/// (or the temporary directory when the environment names none), named by
/// the process and the window.
pub fn socket_path_for_window(base_dir: &str, pid: u32, window_id: u64) -> (p: String)
    ensures
        p@ == joined_path(base_dir@, scroll_socket_name(pid, window_id)),
{
    let mut name = String::from_str("handterm-scroll-");
    push_decimal(&mut name, pid);
    name.append("-");
    push_decimal_u64(&mut name, window_id);
    name.append(".sock");
    join_path(base_dir, name.as_str())
}

/// The variables that tell a program in a window where the scroll bridge
/// listens, which window it runs in, and that the terminal is this one.
pub fn child_envs(socket_path: &str, window_id: u64) -> (envs: Vec<(&'static str, String)>)
    ensures
        envs@.len() == 3,
        envs@[0].0@ == "HANDTERM_NATIVE_SCROLL_SOCKET"@ && envs@[0].1@ == socket_path@,
        envs@[1].0@ == "HANDTERM_WINDOW_ID"@ && envs@[1].1@ == decimal(window_id as nat),
        envs@[2].0@ == "TERM_PROGRAM"@ && envs@[2].1@ == "handterm"@,
{
    let mut id = String::new();
    push_decimal_u64(&mut id, window_id);
    let mut envs: Vec<(&'static str, String)> = Vec::new();
    envs.push((socket_env_key(), String::from_str(socket_path)));
    envs.push((window_env_key(), id));
    envs.push((term_program_env_key(), String::from_str(term_program_env_value())));
    envs
}

/// The window a program runs in, from the value of `HANDTERM_WINDOW_ID`.
pub fn child_window_id(value: Option<&str>) -> (id: Option<u64>)
    ensures
        id == (match value {
            Some(v) => parse_u64(v@),
            None => None,
        }),
{
    match value {
        Some(v) => parse_u64_str(v),
        None => None,
    }
}

/// A program started in a window reads back the id of that window from the
/// environment the window gives it: the value `child_envs` writes under
/// `HANDTERM_WINDOW_ID` is read by `child_window_id` as the window's id.
pub proof fn lemma_window_id_env_roundtrip(window_id: u64)
    ensures
        parse_u64(decimal(window_id as nat)) == Some(window_id),
{
    lemma_parse_decimal_u64(window_id);
}

} // verus!
