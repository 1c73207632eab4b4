//! Input injected into a window by a control request rather than typed.
use crate::clock::Moment;
use crate::frontend::{
    is_disallowed_control, key_dedupe_text, key_ime_dedupe_text, normalize_ime_dedupe_text,
    normalized_ime_text, pending_ime_text, remember_text_key_event, should_skip_duplicate_ime_input,
    should_skip_ime_commit_after_key_event, trim_nul_end, trim_nul_start, RecentTextKeyEvent,
    IME_KEY_DEDUPE_WINDOW_NANOS,
};
use crate::input::KeyEventKind;
use crate::keys::{key_text, key_to_bytes, Key, Modifiers};
use vstd::prelude::*;
use vstd::utf8::{decode_utf8, encode_utf8, valid_utf8};

verus! {

/// Decides what becomes of an input-method commit that a control request
/// injects. `None`: it is dropped, being empty or the repeat of the text of a
/// key event sent just before. Otherwise the caller writes `text` to the
/// terminal and holds the returned text (the commit, normalized as key
/// events are) as the pending commit, so that a key event repeating it is
/// dropped in turn. A commit that is not empty uses up the remembered key
/// event.
pub fn synthetic_ime_commit_plan(
    recent_text_key_event: &mut Option<RecentTextKeyEvent>,
    text: &str,
    now: Moment,
) -> (r: Option<String>)
    ensures
        text@.len() == 0 ==> r is None && *final(recent_text_key_event) == *old(recent_text_key_event),
        text@.len() > 0 ==> *final(recent_text_key_event) is None,
        text@.len() > 0 ==> {
            let commit = match normalized_ime_text(text@) {
                Some(n) => n,
                None => text@,
            };
            let skip = match *old(recent_text_key_event) {
                Some(e) => normalized_ime_text(commit) == Some(e.text@) && e.at.nanos <= now.nanos
                    && now.nanos - e.at.nanos <= IME_KEY_DEDUPE_WINDOW_NANOS,
                None => false,
            };
            if skip {
                r is None
            } else {
                r matches Some(p) && p@ == commit
            }
        },
{
    if text.is_empty() {
        return None;
    }
    let commit = match normalize_ime_dedupe_text(text) {
        Some(n) => n,
        None => text.to_owned(),
    };
    if should_skip_ime_commit_after_key_event(recent_text_key_event, commit.as_str(), now) {
        return None;
    }
    Some(commit)
}

/// The normalized form of an optional text.
pub open spec fn normalized_opt(text: Option<Seq<char>>) -> Option<Seq<char>> {
    match text {
        Some(t) => normalized_ime_text(t),
        None => None,
    }
}

/// Whether a key press repeats the pending IME commit: its de-duplication
/// text normalizes to the commit, or the bytes it sends are the commit's
/// UTF-8. Only a press is compared.
pub open spec fn repeats_pending_commit(
    pending: Option<String>,
    kind: KeyEventKind,
    dedupe: Option<Seq<char>>,
    bytes: Option<Seq<u8>>,
) -> bool {
    kind == KeyEventKind::Press && match pending_ime_text(pending) {
        Some(t) => normalized_opt(dedupe) == Some(t) || (bytes matches Some(b) && encode_utf8(t)
            == b),
        None => false,
    }
}

/// The text a key press leaves to be matched against a later IME commit:
/// its de-duplication text normalized, else the bytes it sends when they
/// are UTF-8 text (NULs around it removed) without disallowed controls.
pub open spec fn remembered_text(dedupe: Option<Seq<char>>, bytes: Option<Seq<u8>>) -> Option<
    Seq<char>,
> {
    match normalized_opt(dedupe) {
        Some(t) => Some(t),
        None => match bytes {
            None => None,
            Some(b) => if !valid_utf8(b) {
                None
            } else {
                match normalized_ime_text(trim_nul_end(trim_nul_start(decode_utf8(b)))) {
                    None => None,
                    Some(t) => if exists|i: int| 0 <= i < t.len() && is_disallowed_control(t[i]) {
                        None
                    } else {
                        Some(t)
                    },
                }
            },
        },
    }
}

/// The remembered key press after a key event: a press replaces it with its
/// text (or with nothing, where it has none), stamped `now`; other events
/// leave it.
pub open spec fn remembered_after(
    before: Option<RecentTextKeyEvent>,
    after: Option<RecentTextKeyEvent>,
    kind: KeyEventKind,
    text: Option<Seq<char>>,
    now: Moment,
) -> bool {
    if kind != KeyEventKind::Press {
        after == before
    } else {
        match text {
            Some(t) => after matches Some(e) && e.text@ == t && e.at == now,
            None => after is None,
        }
    }
}

/// The pending IME commit after a key event: a press consumes it.
pub open spec fn pending_after(before: Option<String>, kind: KeyEventKind) -> Option<String> {
    if kind == KeyEventKind::Press {
        None
    } else {
        before
    }
}

/// Decides what becomes of a key event that a control request injects.
/// The key is encoded as a typed key would be (with no physical key); the
/// press is dropped where it repeats the pending IME commit. `None`: nothing
/// is written. Otherwise the bytes to write to the terminal, and whether the
/// view must first return from the scrollback (`scroll_offset > 0`). A key
/// press consumes the pending commit, and is remembered (with its text)
/// unless it was dropped.
pub fn synthetic_key_event_plan(
    key: &Key,
    text: Option<&str>,
    modifiers: Modifiers,
    application_cursor_keys: bool,
    kitty_flags: u8,
    kind: KeyEventKind,
    pending_ime_commit: &mut Option<String>,
    recent_text_key_event: &mut Option<RecentTextKeyEvent>,
    scroll_offset: usize,
    now: Moment,
) -> (p: Option<(Vec<u8>, bool)>)
    ensures
        *final(pending_ime_commit) == pending_after(*old(pending_ime_commit), kind),
        ({
            let dedupe = key_dedupe_text(*key, text);
            match key_text(
                *key,
                text,
                None,
                application_cursor_keys,
                modifiers,
                kitty_flags,
                kind,
            ) {
                Some(t) => if repeats_pending_commit(
                    *old(pending_ime_commit),
                    kind,
                    dedupe,
                    Some(encode_utf8(t)),
                ) {
                    p is None && *final(recent_text_key_event) == *old(recent_text_key_event)
                } else {
                    p matches Some(q) && q.0@ == encode_utf8(t) && q.1 == (scroll_offset > 0)
                        && remembered_after(
                        *old(recent_text_key_event),
                        *final(recent_text_key_event),
                        kind,
                        remembered_text(dedupe, Some(encode_utf8(t))),
                        now,
                    )
                },
                None => p is None && remembered_after(
                    *old(recent_text_key_event),
                    *final(recent_text_key_event),
                    kind,
                    remembered_text(dedupe, None),
                    now,
                ),
            }
        }),
{
    let dedupe = key_ime_dedupe_text(key, text);
    let dedupe_text: Option<&str> = match &dedupe {
        Some(d) => Some(d.as_str()),
        None => None,
    };
    match key_to_bytes(key, text, None, application_cursor_keys, modifiers, kitty_flags, kind) {
        Some(bytes) => {
            if should_skip_duplicate_ime_input(
                pending_ime_commit,
                kind,
                dedupe_text,
                Some(bytes.as_slice()),
            ) {
                return None;
            }
            remember_text_key_event(
                recent_text_key_event,
                kind,
                dedupe_text,
                Some(bytes.as_slice()),
                now,
            );
            Some((bytes, scroll_offset > 0))
        },
        None => {
            remember_text_key_event(recent_text_key_event, kind, dedupe_text, None, now);
            let _ = should_skip_duplicate_ime_input(pending_ime_commit, kind, dedupe_text, None);
            None
        },
    }
}

} // verus!
