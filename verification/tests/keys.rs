use handterm::input::KeyEventKind;
use handterm::keys::{
    key_to_bytes, Key, ModifierKey, Modifiers, NamedKey, NumpadKey, PhysicalKey,
    KITTY_KBD_DISAMBIGUATE, KITTY_KBD_REPORT_ALL, KITTY_KBD_REPORT_ALTERNATE,
    KITTY_KBD_REPORT_EVENTS, KITTY_KBD_REPORT_TEXT,
};

const NONE: Modifiers = Modifiers { shift: false, control: false, alt: false, super_key: false };

fn mods(shift: bool, control: bool, alt: bool, super_key: bool) -> Modifiers {
    Modifiers { shift, control, alt, super_key }
}

fn ch(s: &str) -> Key {
    Key::Character(s.to_string())
}

#[test]
fn legacy_alt_prefix_is_preserved() {
    let bytes = key_to_bytes(
        &ch("x"),
        Some("x"),
        None,
        false,
        mods(false, false, true, false),
        0,
        KeyEventKind::Press,
    )
    .unwrap();
    assert_eq!(bytes, b"\x1bx");
}

#[test]
fn legacy_function_keys_encode_modifier_parameters() {
    let bytes = key_to_bytes(
        &Key::Named(NamedKey::ArrowUp),
        None,
        None,
        false,
        mods(true, false, true, false),
        0,
        KeyEventKind::Press,
    )
    .unwrap();
    assert_eq!(bytes, b"\x1b[1;4A");
}

#[test]
fn kitty_report_events_does_not_emit_backspace_release_without_report_all() {
    let bytes = key_to_bytes(
        &Key::Named(NamedKey::Backspace),
        None,
        None,
        false,
        NONE,
        KITTY_KBD_REPORT_EVENTS,
        KeyEventKind::Release,
    );
    assert_eq!(bytes, None);
}

#[test]
fn kitty_report_events_does_not_emit_plain_space_release_without_report_all() {
    let bytes = key_to_bytes(
        &Key::Named(NamedKey::Space),
        Some(" "),
        Some(PhysicalKey::BaseLayout(' ')),
        false,
        NONE,
        KITTY_KBD_REPORT_EVENTS,
        KeyEventKind::Release,
    );
    assert_eq!(bytes, None);
}

#[test]
fn kitty_report_all_can_still_emit_space_release() {
    let bytes = key_to_bytes(
        &Key::Named(NamedKey::Space),
        Some(" "),
        Some(PhysicalKey::BaseLayout(' ')),
        false,
        NONE,
        KITTY_KBD_REPORT_ALL | KITTY_KBD_REPORT_EVENTS,
        KeyEventKind::Release,
    )
    .unwrap();
    assert_eq!(bytes, b"\x1b[32;1:3u");
}

#[test]
fn kitty_disambiguate_keeps_enter_on_legacy_press_path() {
    let bytes = key_to_bytes(
        &Key::Named(NamedKey::Enter),
        Some("\r"),
        None,
        false,
        NONE,
        KITTY_KBD_DISAMBIGUATE,
        KeyEventKind::Press,
    )
    .unwrap();
    assert_eq!(bytes, b"\r");
}

#[test]
fn kitty_disambiguates_modified_text_keys() {
    let bytes = key_to_bytes(
        &ch("Z"),
        Some("Z"),
        Some(PhysicalKey::BaseLayout('z')),
        false,
        mods(true, true, false, false),
        KITTY_KBD_DISAMBIGUATE,
        KeyEventKind::Press,
    )
    .unwrap();
    assert_eq!(bytes, b"\x1b[122;6u");
}

#[test]
fn kitty_report_all_can_attach_text_codepoints() {
    let bytes = key_to_bytes(
        &ch("A"),
        Some("A"),
        Some(PhysicalKey::BaseLayout('a')),
        false,
        mods(true, false, false, false),
        KITTY_KBD_REPORT_ALL | KITTY_KBD_REPORT_TEXT,
        KeyEventKind::Press,
    )
    .unwrap();
    assert_eq!(bytes, b"\x1b[97;2;65u");
}

#[test]
fn kitty_report_events_encodes_key_release() {
    let bytes = key_to_bytes(
        &Key::Named(NamedKey::ArrowUp),
        None,
        None,
        false,
        NONE,
        KITTY_KBD_REPORT_EVENTS,
        KeyEventKind::Release,
    )
    .unwrap();
    assert_eq!(bytes, b"\x1b[1;1:3A");
}

#[test]
fn kitty_modifier_keys_have_distinct_codes() {
    let bytes = key_to_bytes(
        &Key::Named(NamedKey::Control),
        None,
        Some(PhysicalKey::Modifier(ModifierKey::ControlLeft)),
        false,
        NONE,
        KITTY_KBD_REPORT_ALL,
        KeyEventKind::Press,
    )
    .unwrap();
    assert_eq!(bytes, b"\x1b[57442u");
}

#[test]
fn kitty_supports_extended_named_functional_keys() {
    let caps = key_to_bytes(
        &Key::Named(NamedKey::CapsLock),
        None,
        Some(PhysicalKey::Other),
        false,
        NONE,
        KITTY_KBD_REPORT_ALL,
        KeyEventKind::Press,
    )
    .unwrap();
    assert_eq!(caps, b"\x1b[57358u");

    let menu = key_to_bytes(
        &Key::Named(NamedKey::ContextMenu),
        None,
        Some(PhysicalKey::Other),
        false,
        NONE,
        KITTY_KBD_REPORT_ALL,
        KeyEventKind::Press,
    )
    .unwrap();
    assert_eq!(menu, b"\x1b[57363u");

    let f13 = key_to_bytes(
        &Key::Named(NamedKey::F(13)),
        None,
        Some(PhysicalKey::Other),
        false,
        NONE,
        KITTY_KBD_REPORT_ALL,
        KeyEventKind::Press,
    )
    .unwrap();
    assert_eq!(f13, b"\x1b[57376u");
}

#[test]
fn kitty_supports_media_and_legacy_meta_keys() {
    let media = key_to_bytes(
        &Key::Named(NamedKey::MediaPlayPause),
        None,
        Some(PhysicalKey::Other),
        false,
        NONE,
        KITTY_KBD_REPORT_ALL,
        KeyEventKind::Press,
    )
    .unwrap();
    assert_eq!(media, b"\x1b[57430u");

    let meta = key_to_bytes(
        &Key::Named(NamedKey::Meta),
        None,
        Some(PhysicalKey::Modifier(ModifierKey::Meta)),
        false,
        NONE,
        KITTY_KBD_REPORT_ALL,
        KeyEventKind::Press,
    )
    .unwrap();
    assert_eq!(meta, b"\x1b[57446u");

    let hyper = key_to_bytes(
        &Key::Named(NamedKey::Hyper),
        None,
        Some(PhysicalKey::Modifier(ModifierKey::Hyper)),
        false,
        NONE,
        KITTY_KBD_REPORT_ALL,
        KeyEventKind::Press,
    )
    .unwrap();
    assert_eq!(hyper, b"\x1b[57445u");

    let alt_graph = key_to_bytes(
        &Key::Named(NamedKey::AltGraph),
        None,
        Some(PhysicalKey::Modifier(ModifierKey::AltRight)),
        false,
        NONE,
        KITTY_KBD_REPORT_ALL,
        KeyEventKind::Press,
    )
    .unwrap();
    assert_eq!(alt_graph, b"\x1b[57453u");

    let record = key_to_bytes(
        &Key::Named(NamedKey::MediaRecord),
        None,
        None,
        false,
        NONE,
        KITTY_KBD_REPORT_ALL,
        KeyEventKind::Press,
    )
    .unwrap();
    assert_eq!(record, b"\x1b[57437u");
}

#[test]
fn kitty_report_all_uses_distinct_keypad_codes_for_text_keys() {
    let bytes = key_to_bytes(
        &ch("1"),
        Some("1"),
        Some(PhysicalKey::Numpad(NumpadKey::Digit(1))),
        false,
        NONE,
        KITTY_KBD_REPORT_ALL | KITTY_KBD_REPORT_TEXT,
        KeyEventKind::Press,
    )
    .unwrap();
    assert_eq!(bytes, b"\x1b[57400;;49u");
}

#[test]
fn kitty_disambiguate_reports_non_text_keypad_navigation_distinctly() {
    let bytes = key_to_bytes(
        &Key::Named(NamedKey::ArrowLeft),
        None,
        Some(PhysicalKey::Numpad(NumpadKey::Digit(4))),
        false,
        NONE,
        KITTY_KBD_DISAMBIGUATE,
        KeyEventKind::Press,
    )
    .unwrap();
    assert_eq!(bytes, b"\x1b[57417u");
}

#[test]
fn kitty_report_all_reports_keypad_enter_distinct_from_enter() {
    let bytes = key_to_bytes(
        &Key::Named(NamedKey::Enter),
        Some("\r"),
        Some(PhysicalKey::Numpad(NumpadKey::Enter)),
        false,
        NONE,
        KITTY_KBD_REPORT_ALL,
        KeyEventKind::Press,
    )
    .unwrap();
    assert_eq!(bytes, b"\x1b[57414u");
}

#[test]
fn legacy_release_events_do_not_emit_bytes() {
    let bytes = key_to_bytes(&ch("x"), Some("x"), None, false, NONE, 0, KeyEventKind::Release);
    assert!(bytes.is_none());
}

#[test]
fn alt_modified_enter_keeps_escape_prefix() {
    let bytes = key_to_bytes(
        &Key::Named(NamedKey::Enter),
        Some("\r"),
        None,
        false,
        mods(false, false, true, false),
        0,
        KeyEventKind::Press,
    )
    .unwrap();
    assert_eq!(bytes, b"\x1b\r");
}

#[test]
fn kitty_plain_text_key_falls_back_to_legacy_when_not_ambiguous() {
    let bytes = key_to_bytes(
        &ch("a"),
        Some("a"),
        Some(PhysicalKey::BaseLayout('a')),
        false,
        NONE,
        KITTY_KBD_DISAMBIGUATE,
        KeyEventKind::Press,
    )
    .unwrap();
    assert_eq!(bytes, b"a");
}

#[test]
fn kitty_app_cursor_uses_ss3_sequence_without_modifiers() {
    let bytes = key_to_bytes(
        &Key::Named(NamedKey::ArrowUp),
        None,
        None,
        true,
        NONE,
        KITTY_KBD_REPORT_ALL,
        KeyEventKind::Press,
    )
    .unwrap();
    assert_eq!(bytes, b"\x1bOA");
}

#[test]
fn legacy_control_characters_and_named_keys() {
    let ctrl = mods(false, true, false, false);
    let press = KeyEventKind::Press;
    assert_eq!(key_to_bytes(&ch("c"), None, None, false, ctrl, 0, press), Some(vec![3]));
    assert_eq!(key_to_bytes(&ch("C"), None, None, false, ctrl, 0, press), Some(vec![3]));
    assert_eq!(key_to_bytes(&ch("["), None, None, false, ctrl, 0, press), Some(vec![0x1b]));
    assert_eq!(key_to_bytes(&ch("?"), None, None, false, ctrl, 0, press), Some(vec![0x7f]));
    assert_eq!(key_to_bytes(&ch("é"), None, None, false, ctrl, 0, press), None);
    assert_eq!(
        key_to_bytes(&ch("a"), None, None, false, mods(false, true, true, false), 0, press),
        Some(vec![0x1b, 1])
    );
    assert_eq!(
        key_to_bytes(&ch("é"), None, None, false, NONE, 0, press),
        Some("é".as_bytes().to_vec())
    );
    let named = |k, m| key_to_bytes(&Key::Named(k), None, None, false, m, 0, press);
    assert_eq!(named(NamedKey::Tab, mods(true, false, false, false)), Some(b"\x1b[Z".to_vec()));
    assert_eq!(named(NamedKey::Backspace, ctrl), Some(vec![0x08]));
    assert_eq!(named(NamedKey::Space, ctrl), Some(vec![0]));
    assert_eq!(named(NamedKey::Delete, NONE), Some(b"\x1b[3~".to_vec()));
    assert_eq!(named(NamedKey::PageUp, ctrl), Some(b"\x1b[5;5~".to_vec()));
    assert_eq!(named(NamedKey::F(1), NONE), Some(b"\x1b[P".to_vec()));
    assert_eq!(named(NamedKey::F(5), NONE), Some(b"\x1b[15~".to_vec()));
    assert_eq!(named(NamedKey::F(12), NONE), Some(b"\x1b[24~".to_vec()));
    assert_eq!(named(NamedKey::F(13), NONE), None);
    assert_eq!(named(NamedKey::Home, mods(false, false, false, true)), None);
    assert_eq!(named(NamedKey::ArrowDown, NONE), Some(b"\x1b[B".to_vec()));
}

#[test]
fn kitty_alternate_keys_and_tilde_forms() {
    let bytes = key_to_bytes(
        &ch("!"),
        Some("!"),
        Some(PhysicalKey::BaseLayout('1')),
        false,
        mods(true, false, false, false),
        KITTY_KBD_DISAMBIGUATE | KITTY_KBD_REPORT_ALTERNATE,
        KeyEventKind::Press,
    );
    assert_eq!(bytes, Some(b"\x1b[49:33;2u".to_vec()));
    let bytes = key_to_bytes(
        &Key::Named(NamedKey::Delete),
        None,
        None,
        false,
        mods(false, true, false, false),
        KITTY_KBD_DISAMBIGUATE,
        KeyEventKind::Press,
    );
    assert_eq!(bytes, Some(b"\x1b[3;5~".to_vec()));
    let bytes = key_to_bytes(
        &Key::Named(NamedKey::Escape),
        None,
        None,
        false,
        NONE,
        KITTY_KBD_DISAMBIGUATE,
        KeyEventKind::Press,
    );
    assert_eq!(bytes, Some(b"\x1b[27u".to_vec()));
}
