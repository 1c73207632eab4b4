use handterm::protocol::DirtyCell;
use handterm::server_sync::apply_dirty_cell;
use handterm::clock::{Moment, Span};
use handterm::frontend::{
    base64_decode, classify_redraw_work, normalize_ime_dedupe_text, remember_text_key_event,
    scroll_to_bytes, should_skip_duplicate_ime_input, should_skip_duplicate_ime_key_event,
    should_skip_ime_commit_after_key_event, terminal_has_visible_content, Base64DecodeError,
    FrameScheduler, RedrawWork, StartupTiming,
};
use handterm::grid::Grid;
use handterm::frontend::{
    key_ime_dedupe_text, named_key_ime_dedupe_text, parse_synthetic_key, synthetic_modifiers_state,
};
use handterm::input::KeyEventKind;
use handterm::keys::{Key, Modifiers, NamedKey};

fn start() -> Moment {
    Moment::from_nanos(5_000_000_000)
}

#[test]
fn frame_scheduler_immediate_for_light_changes() {
    let start = start();
    let frame_interval = Span::from_millis(8);
    let mut scheduler = FrameScheduler::default();
    scheduler.mark_io_ready(start, frame_interval);

    let decision = scheduler.prepare_redraw(start.plus(Span::from_millis(1)), || RedrawWork {
        changed: true,
        heavy: false,
    });
    assert!(decision.request_redraw);
    assert!(decision.wait_until.is_none());
}

#[test]
fn frame_scheduler_defers_heavy_burst() {
    let start = start();
    let frame_interval = Span::from_millis(8);
    let mut scheduler = FrameScheduler::default();
    scheduler.mark_io_ready(start, frame_interval);

    let decision = scheduler.prepare_redraw(start.plus(Span::from_millis(1)), || RedrawWork {
        changed: true,
        heavy: true,
    });
    assert!(!decision.request_redraw);
    assert!(decision.wait_until.is_some());

    let decision = scheduler.prepare_redraw(start.plus(Span::from_millis(9)), || RedrawWork {
        changed: true,
        heavy: false,
    });
    assert!(decision.request_redraw);
}

#[test]
fn frame_scheduler_light_io_ready_redraws_immediately() {
    let now = start();
    let mut scheduler = FrameScheduler::default();
    scheduler.mark_io_ready_light(now);

    let decision = scheduler.prepare_redraw(now, || RedrawWork {
        changed: true,
        heavy: false,
    });
    assert!(decision.request_redraw);
}

#[test]
fn frame_scheduler_waits_for_deferred_deadline_without_processing() {
    let start = start();
    let frame_interval = Span::from_millis(8);
    let mut scheduler = FrameScheduler::default();
    scheduler.mark_io_ready(start, frame_interval);
    let first = scheduler.prepare_redraw(start, || RedrawWork {
        changed: true,
        heavy: true,
    });
    assert_eq!(first.wait_until, Some(start.plus(frame_interval)));
    scheduler.mark_io_ready(start, frame_interval);
    let before = scheduler;
    let second = scheduler.prepare_redraw(start.plus(Span::from_millis(2)), || -> RedrawWork {
        panic!("output must not be processed before the deadline")
    });
    assert!(!second.request_redraw);
    assert_eq!(second.wait_until, Some(start.plus(frame_interval)));
    assert_eq!(scheduler, before);
}

#[test]
fn frame_scheduler_draws_once_per_request() {
    let now = start();
    let mut scheduler = FrameScheduler::default();
    scheduler.mark_redraw_needed();
    assert!(scheduler.prepare_redraw(now, RedrawWork::default).request_redraw);
    assert!(!scheduler.prepare_redraw(now, RedrawWork::default).request_redraw);
}

#[test]
fn io_processed_defers_heavy_work_early_in_a_burst() {
    let start = start();
    let fi = Span::from_millis(8);
    let mut scheduler = FrameScheduler::default();
    scheduler.mark_io_ready(start, fi);
    let heavy = RedrawWork { changed: true, heavy: true };
    assert!(!scheduler.mark_io_processed(start.plus(Span::from_millis(3)), fi, heavy));
    assert_eq!(scheduler.redraw_at, Some(start.plus(Span::from_millis(11))));
    // Two frame intervals into the burst, heavy work is drawn at once.
    assert!(scheduler.mark_io_processed(start.plus(Span::from_millis(16)), fi, heavy));
    assert_eq!(scheduler.redraw_at, None);
    assert_eq!(scheduler.burst_started_at, None);
    assert!(!scheduler.mark_io_processed(start, fi, RedrawWork::default()));
}

#[test]
fn classify_redraw_work_marks_large_damage_heavy() {
    assert_eq!(classify_redraw_work(false, true, 100, 24, 80), RedrawWork::default());
    assert_eq!(
        classify_redraw_work(true, false, 640, 24, 80),
        RedrawWork { changed: true, heavy: true }
    );
    assert_eq!(
        classify_redraw_work(true, false, 639, 24, 80),
        RedrawWork { changed: true, heavy: false }
    );
    assert_eq!(
        classify_redraw_work(true, true, 0, 24, 80),
        RedrawWork { changed: true, heavy: true }
    );
    assert_eq!(
        classify_redraw_work(true, false, 0, 0, 0),
        RedrawWork { changed: true, heavy: false }
    );
}

#[test]
fn ime_commit_dedupes_matching_followup_key_press() {
    let mut pending = Some(" ".to_string());
    assert!(should_skip_duplicate_ime_key_event(
        &mut pending,
        KeyEventKind::Press,
        Some(" "),
    ));
    assert_eq!(pending, None);
}

#[test]
fn ime_commit_does_not_dedupe_different_key_press() {
    let mut pending = Some(" ".to_string());
    assert!(!should_skip_duplicate_ime_key_event(
        &mut pending,
        KeyEventKind::Press,
        Some("a"),
    ));
    assert_eq!(pending, None);
}

#[test]
fn release_keeps_pending_ime_commit() {
    let mut pending = Some(" ".to_string());
    assert!(!should_skip_duplicate_ime_key_event(
        &mut pending,
        KeyEventKind::Release,
        Some(" "),
    ));
    assert_eq!(pending, Some(" ".to_string()));
}

#[test]
fn ime_commit_dedupes_matching_named_key_bytes() {
    let mut pending = Some(" ".to_string());
    assert!(should_skip_duplicate_ime_input(
        &mut pending,
        KeyEventKind::Press,
        None,
        Some(b" "),
    ));
    assert_eq!(pending, None);
}

#[test]
fn ime_commit_does_not_dedupe_different_named_key_bytes() {
    let mut pending = Some(" ".to_string());
    assert!(!should_skip_duplicate_ime_input(
        &mut pending,
        KeyEventKind::Press,
        None,
        Some(b"a"),
    ));
    assert_eq!(pending, None);
}

#[test]
fn ime_commit_dedupes_when_text_or_bytes_match() {
    let mut pending = Some(" ".to_string());
    assert!(should_skip_duplicate_ime_input(
        &mut pending,
        KeyEventKind::Press,
        Some(" "),
        Some(b"x"),
    ));
    assert_eq!(pending, None);

    let mut pending = Some(" ".to_string());
    assert!(should_skip_duplicate_ime_input(
        &mut pending,
        KeyEventKind::Press,
        key_ime_dedupe_text(&Key::Character(" ".into()), None).as_deref(),
        Some(b"\x1b[32u"),
    ));
    assert_eq!(pending, None);
}

#[test]
fn ime_commit_dedupes_matching_named_backspace_key_event() {
    let mut pending = Some("\u{8}".to_string());
    assert!(should_skip_duplicate_ime_input(
        &mut pending,
        KeyEventKind::Press,
        named_key_ime_dedupe_text(&Key::Named(NamedKey::Backspace)),
        Some(&[0x7f]),
    ));
    assert_eq!(pending, None);

    let mut pending = Some("\u{8}".to_string());
    assert!(should_skip_duplicate_ime_input(
        &mut pending,
        KeyEventKind::Press,
        Some("\u{7f}"),
        Some(&[0x7f]),
    ));
    assert_eq!(pending, None);
}

#[test]
fn key_event_dedupes_matching_followup_ime_commit_text() {
    let now = start();
    let mut recent = None;
    remember_text_key_event(&mut recent, KeyEventKind::Press, Some(" "), Some(b" "), now);

    assert!(should_skip_ime_commit_after_key_event(
        &mut recent,
        " ",
        now.plus(Span::from_millis(5)),
    ));
    assert_eq!(recent, None);
}

#[test]
fn key_event_dedupes_matching_followup_ime_commit_bytes_only_space() {
    let now = start();
    let mut recent = None;
    remember_text_key_event(&mut recent, KeyEventKind::Press, None, Some(b" "), now);

    assert!(should_skip_ime_commit_after_key_event(
        &mut recent,
        " ",
        now.plus(Span::from_millis(5)),
    ));
    assert_eq!(recent, None);
}

#[test]
fn stale_key_event_does_not_dedupe_later_ime_commit() {
    let now = start();
    let mut recent = None;
    remember_text_key_event(&mut recent, KeyEventKind::Press, Some(" "), Some(b" "), now);

    assert!(!should_skip_ime_commit_after_key_event(
        &mut recent,
        " ",
        now.plus(Span::from_millis(200)),
    ));
    assert_eq!(recent, None);
}

#[test]
fn key_event_dedupes_matching_followup_backspace_ime_commit() {
    let now = start();
    let mut recent = None;
    remember_text_key_event(
        &mut recent,
        KeyEventKind::Press,
        named_key_ime_dedupe_text(&Key::Named(NamedKey::Backspace)),
        Some(&[0x7f]),
        now,
    );

    assert!(should_skip_ime_commit_after_key_event(
        &mut recent,
        "\u{8}",
        now.plus(Span::from_millis(5)),
    ));
    assert_eq!(recent, None);

    remember_text_key_event(
        &mut recent,
        KeyEventKind::Press,
        named_key_ime_dedupe_text(&Key::Named(NamedKey::Backspace)),
        Some(&[0x7f]),
        now,
    );
    assert!(should_skip_ime_commit_after_key_event(
        &mut recent,
        "\u{7f}",
        now.plus(Span::from_millis(5)),
    ));
    assert_eq!(recent, None);
}

#[test]
fn remembered_bytes_drop_nul_padding_and_refuse_control_text() {
    let now = start();
    let mut recent = None;
    remember_text_key_event(&mut recent, KeyEventKind::Press, None, Some(b"\0ab\0"), now);
    assert_eq!(recent.as_ref().map(|e| e.text.as_str()), Some("ab"));

    remember_text_key_event(&mut recent, KeyEventKind::Press, None, Some(b"\x1b[A"), now);
    assert_eq!(recent, None);

    remember_text_key_event(&mut recent, KeyEventKind::Press, None, Some(&[0xff]), now);
    assert_eq!(recent, None);

    remember_text_key_event(&mut recent, KeyEventKind::Press, None, Some(b"\r\n"), now);
    assert_eq!(recent.as_ref().map(|e| e.text.as_str()), Some("\r"));
}

#[test]
fn ime_text_normalization() {
    assert_eq!(normalize_ime_dedupe_text(""), None);
    assert_eq!(normalize_ime_dedupe_text("\u{7f}"), Some("\u{8}".to_string()));
    assert_eq!(normalize_ime_dedupe_text("\n"), Some("\r".to_string()));
    assert_eq!(normalize_ime_dedupe_text("\r\n"), Some("\r".to_string()));
    assert_eq!(normalize_ime_dedupe_text("ab"), Some("ab".to_string()));
}

#[test]
fn scroll_bytes_follow_cursor_key_mode() {
    assert_eq!(scroll_to_bytes(true, true), b"\x1bOA".to_vec());
    assert_eq!(scroll_to_bytes(false, true), b"\x1bOB".to_vec());
    assert_eq!(scroll_to_bytes(true, false), b"\x1b[A".to_vec());
    assert_eq!(scroll_to_bytes(false, false), b"\x1b[B".to_vec());
}

#[test]
fn base64_decode_skips_padding_and_rejects_other_bytes() {
    assert_eq!(base64_decode(b"aGk=\r\n"), Ok(b"hi".to_vec()));
    assert_eq!(base64_decode(b"aGVsbG8="), Ok(b"hello".to_vec()));
    assert_eq!(base64_decode(b"a*"), Err(Base64DecodeError::InvalidByte));
}

#[test]
fn startup_timing_marks_first_events_and_reports_once() {
    let t0 = start();
    let mut timing = StartupTiming::new(t0);
    let grid = Grid::new(4, 2, [0, 0, 0], [0, 0, 0]);
    timing.mark_pty_spawned(t0.plus(Span::from_millis(1)));
    timing.mark_pty_spawned(t0.plus(Span::from_millis(2)));
    assert_eq!(timing.pty_spawned_at, Some(t0.plus(Span::from_millis(1))));
    timing.mark_pty_read(t0.plus(Span::from_millis(3)), 0);
    assert_eq!(timing.first_pty_read_at, None);
    timing.mark_pty_read(t0.plus(Span::from_millis(4)), 5);
    timing.maybe_mark_visible(t0.plus(Span::from_millis(4)), &grid);
    assert_eq!(timing.first_visible_output_at, None);
    timing.mark_present(t0.plus(Span::from_millis(5)));
    assert!(!timing.claim_report());

    let mut shown = Grid::new(4, 2, [0, 0, 0], [0, 0, 0]);
    shown.write_bytes(b"$");
    assert!(terminal_has_visible_content(&shown));
    assert!(!terminal_has_visible_content(&grid));
    timing.maybe_mark_visible(t0.plus(Span::from_millis(6)), &shown);
    assert_eq!(timing.bytes_before_visible, Some(5));
    timing.mark_present(t0.plus(Span::from_millis(7)));
    assert_eq!(timing.first_present_at, Some(t0.plus(Span::from_millis(5))));
    assert_eq!(
        timing.first_present_after_visible_at,
        Some(t0.plus(Span::from_millis(7)))
    );
    assert!(timing.claim_report());
    assert!(!timing.claim_report());
}

#[test]
fn named_backspace_reports_canonical_ime_dedupe_text() {
    assert_eq!(
        named_key_ime_dedupe_text(&Key::Named(NamedKey::Backspace)),
        Some("\u{8}")
    );
    assert_eq!(
        normalize_ime_dedupe_text("\u{7f}"),
        Some("\u{8}".to_string())
    );
    assert_eq!(
        key_ime_dedupe_text(&Key::Character(" ".into()), None),
        Some(" ".to_string())
    );
}

#[test]
fn parse_synthetic_key_supports_named_and_character_keys() {
    assert_eq!(parse_synthetic_key("space"), Key::Named(NamedKey::Space));
    assert_eq!(
        parse_synthetic_key("Backspace"),
        Key::Named(NamedKey::Backspace)
    );
    assert_eq!(parse_synthetic_key("x"), Key::Character("x".into()));
    assert_eq!(parse_synthetic_key("👨‍💻"), Key::Character("👨‍💻".into()));
}

#[test]
fn synthetic_modifiers_state_sets_requested_bits() {
    let modifiers = synthetic_modifiers_state(true, false, true, true);
    assert!(modifiers.control);
    assert!(!modifiers.alt);
    assert!(modifiers.shift);
    assert!(modifiers.super_key);
    assert_eq!(
        modifiers,
        Modifiers { shift: true, control: true, alt: false, super_key: true }
    );
}

#[test]
fn synthetic_key_names_and_dedupe_text_of_keys() {
    assert_eq!(parse_synthetic_key("PAGE_UP"), Key::Named(NamedKey::PageUp));
    assert_eq!(parse_synthetic_key("Esc"), Key::Named(NamedKey::Escape));
    assert_eq!(parse_synthetic_key("meta"), Key::Named(NamedKey::Super));
    assert_eq!(parse_synthetic_key("Q"), Key::Character("Q".into()));
    assert_eq!(key_ime_dedupe_text(&Key::Named(NamedKey::Enter), None), Some("\r".to_string()));
    assert_eq!(key_ime_dedupe_text(&Key::Named(NamedKey::Home), None), None);
    assert_eq!(key_ime_dedupe_text(&Key::Named(NamedKey::Home), Some("\n")), Some("\r".to_string()));
    assert_eq!(key_ime_dedupe_text(&Key::Unidentified, None), None);
}

#[test]
fn grapheme_text_counts_as_visible_content() {
    let record = |grapheme: &str| DirtyCell {
        row: 1,
        col: 0,
        ch: ' ' as u32,
        grapheme: Some(grapheme.to_string()),
        fg: 0,
        bg: 0,
        underline_color: 0,
        hyperlink_id: 0,
        attrs: 0,
        flags: 0,
        underline_style: 0,
    };
    let mut grid = Grid::new(3, 2, [0, 0, 0], [0, 0, 0]);
    apply_dirty_cell(&mut grid, &record(" \t"));
    assert!(!terminal_has_visible_content(&grid));
    apply_dirty_cell(&mut grid, &record(" e\u{301}"));
    assert!(terminal_has_visible_content(&grid));
}
