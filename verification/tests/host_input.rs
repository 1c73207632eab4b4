use handterm::clock::Moment;
use handterm::frontend::RecentTextKeyEvent;
use handterm::host_input::synthetic_ime_commit_plan;

fn recent(text: &str, at_ms: u64) -> Option<RecentTextKeyEvent> {
    Some(RecentTextKeyEvent {
        text: text.to_string(),
        at: Moment {
            nanos: at_ms * 1_000_000,
        },
    })
}

fn at(ms: u64) -> Moment {
    Moment {
        nanos: ms * 1_000_000,
    }
}

#[test]
fn empty_ime_commit_is_dropped_and_keeps_the_key_memory() {
    let mut memory = recent("a", 0);
    assert_eq!(synthetic_ime_commit_plan(&mut memory, "", at(1)), None);
    assert!(memory.is_some());
}

#[test]
fn ime_commit_repeating_a_fresh_key_event_is_dropped() {
    let mut memory = recent("a", 0);
    assert_eq!(synthetic_ime_commit_plan(&mut memory, "a", at(10)), None);
    assert!(memory.is_none());
}

#[test]
fn other_or_late_ime_commits_are_written() {
    let mut memory = recent("a", 0);
    assert_eq!(
        synthetic_ime_commit_plan(&mut memory, "b", at(10)),
        Some("b".to_string())
    );
    assert!(memory.is_none());

    let mut memory = recent("a", 0);
    assert_eq!(
        synthetic_ime_commit_plan(&mut memory, "a", at(200)),
        Some("a".to_string())
    );

    let mut none = None;
    assert_eq!(
        synthetic_ime_commit_plan(&mut none, "日本", at(0)),
        Some("日本".to_string())
    );
}

use handterm::input::KeyEventKind;
use handterm::host_input::synthetic_key_event_plan;
use handterm::keys::{Key, Modifiers, NamedKey};

fn no_modifiers() -> Modifiers {
    Modifiers {
        shift: false,
        control: false,
        alt: false,
        super_key: false,
    }
}

#[test]
fn synthetic_key_press_is_written_and_remembered() {
    let mut pending = None;
    let mut memory = None;
    let plan = synthetic_key_event_plan(
        &Key::Character("a".to_string()),
        Some("a"),
        no_modifiers(),
        false,
        0,
        KeyEventKind::Press,
        &mut pending,
        &mut memory,
        3,
        at(5),
    );
    assert_eq!(plan, Some((b"a".to_vec(), true)));
    assert_eq!(memory, recent("a", 5));
    assert_eq!(pending, None);
}

#[test]
fn synthetic_arrow_key_uses_application_cursor_mode() {
    let mut pending = None;
    let mut memory = None;
    let plan = synthetic_key_event_plan(
        &Key::Named(NamedKey::ArrowUp),
        None,
        no_modifiers(),
        true,
        0,
        KeyEventKind::Press,
        &mut pending,
        &mut memory,
        0,
        at(1),
    );
    assert_eq!(plan, Some((b"\x1bOA".to_vec(), false)));
}

#[test]
fn synthetic_key_repeating_the_pending_commit_is_dropped() {
    let mut pending = Some("a".to_string());
    let mut memory = recent("z", 0);
    let plan = synthetic_key_event_plan(
        &Key::Character("a".to_string()),
        Some("a"),
        no_modifiers(),
        false,
        0,
        KeyEventKind::Press,
        &mut pending,
        &mut memory,
        0,
        at(1),
    );
    assert_eq!(plan, None);
    assert_eq!(pending, None);
    assert_eq!(memory, recent("z", 0));
}

#[test]
fn synthetic_key_release_leaves_commit_and_memory() {
    let mut pending = Some("a".to_string());
    let mut memory = recent("z", 0);
    let plan = synthetic_key_event_plan(
        &Key::Character("a".to_string()),
        Some("a"),
        no_modifiers(),
        false,
        0,
        KeyEventKind::Release,
        &mut pending,
        &mut memory,
        0,
        at(1),
    );
    assert_eq!(plan, None);
    assert_eq!(pending, Some("a".to_string()));
    assert_eq!(memory, recent("z", 0));
}

#[test]
fn synthetic_key_event_uses_negotiated_kitty_keyboard_mode() {
    let flags = handterm::keys::KITTY_KBD_REPORT_ALL | handterm::keys::KITTY_KBD_REPORT_EVENTS;
    let key = handterm::frontend::parse_synthetic_key("ctrl");
    let mut pending = None;
    let mut memory = None;
    let ctrl = Modifiers {
        shift: false,
        control: true,
        alt: false,
        super_key: false,
    };
    let press = synthetic_key_event_plan(
        &key, None, ctrl, false, flags, KeyEventKind::Press, &mut pending, &mut memory, 0, at(1),
    );
    assert_eq!(press, Some((b"\x1b[57442;5:1u".to_vec(), false)));
    // Releasing the control key no longer holds control.
    let release = synthetic_key_event_plan(
        &key,
        None,
        no_modifiers(),
        false,
        flags,
        KeyEventKind::Release,
        &mut pending,
        &mut memory,
        0,
        at(2),
    );
    assert_eq!(release, Some((b"\x1b[57442;1:3u".to_vec(), false)));
}
