//! Encoding key presses as the bytes a terminal application reads: the
//! legacy (xterm-style) encoding, and the kitty keyboard protocol's `CSI u`
//! encoding with its progressive enhancement flags. Keys are described by
//! the library's own key types, which the event loop fills from the
//! windowing system's events.
use crate::input::{
    decimal, format_kitty_csi_u, kitty_csi_u_text, kitty_text, kitty_text_field, opt_view,
    push_decimal, KeyEventKind,
};
use crate::text::{chars_of, push_char};
use vstd::prelude::*;
use vstd::string::{StrSliceExecFns, StringExecFns};
use vstd::utf8::encode_utf8;

verus! {

/// Kitty flag: report keys that are otherwise ambiguous as `CSI u`.
pub const KITTY_KBD_DISAMBIGUATE: u8 = 1;

/// Kitty flag: report repeat and release events.
pub const KITTY_KBD_REPORT_EVENTS: u8 = 2;

/// Kitty flag: report the shifted and base-layout keys too.
pub const KITTY_KBD_REPORT_ALTERNATE: u8 = 4;

/// Kitty flag: report every key, text keys included, as escape codes.
pub const KITTY_KBD_REPORT_ALL: u8 = 8;

/// Kitty flag: report the text a key produces.
pub const KITTY_KBD_REPORT_TEXT: u8 = 16;

/// The modifier keys held.
#[derive(Debug, Clone, Copy, PartialEq, Eq, Structural)]
pub struct Modifiers {
    pub shift: bool,
    pub control: bool,
    pub alt: bool,
    pub super_key: bool,
}

/// A key with a name rather than a character.
#[derive(Debug, Clone, Copy, PartialEq, Eq, Structural)]
pub enum NamedKey {
    Enter,
    Tab,
    Space,
    Backspace,
    Escape,
    ArrowUp,
    ArrowDown,
    ArrowLeft,
    ArrowRight,
    Home,
    End,
    Insert,
    Delete,
    PageUp,
    PageDown,
    /// The function key with the given number (1 to 35).
    F(u8),
    CapsLock,
    ScrollLock,
    NumLock,
    PrintScreen,
    Pause,
    ContextMenu,
    MediaPlay,
    MediaPause,
    MediaPlayPause,
    MediaRecord,
    MediaStop,
    MediaFastForward,
    MediaRewind,
    MediaTrackNext,
    MediaTrackPrevious,
    AudioVolumeDown,
    AudioVolumeUp,
    AudioVolumeMute,
    AltGraph,
    Shift,
    Control,
    Alt,
    Super,
    Meta,
    Hyper,
    /// Any other named key.
    Other,
}

/// The logical key of a key event.
#[derive(Debug, Clone, PartialEq, Eq)]
pub enum Key {
    Named(NamedKey),
    Character(String),
    Unidentified,
}

/// A physical modifier key, by side.
#[derive(Debug, Clone, Copy, PartialEq, Eq, Structural)]
pub enum ModifierKey {
    ShiftLeft,
    ControlLeft,
    AltLeft,
    SuperLeft,
    Hyper,
    Meta,
    ShiftRight,
    ControlRight,
    AltRight,
    SuperRight,
}

/// A key of the numeric keypad.
#[derive(Debug, Clone, Copy, PartialEq, Eq, Structural)]
pub enum NumpadKey {
    /// The digit key with the given value (0 to 9).
    Digit(u8),
    Decimal,
    Divide,
    Multiply,
    Subtract,
    Add,
    Enter,
    Equal,
    Comma,
}

/// The physical key of a key event.
#[derive(Debug, Clone, Copy, PartialEq, Eq, Structural)]
pub enum PhysicalKey {
    Modifier(ModifierKey),
    Numpad(NumpadKey),
    /// A key of the main block that a US layout labels with this character
    /// (letters in lower case, digits, punctuation, space).
    BaseLayout(char),
    Other,
}

/// The xterm modifier parameter: 1 plus 1 for shift, 2 for alt, 4 for control.
pub open spec fn legacy_modifier_value(m: Modifiers) -> int {
    1 + (if m.shift {
        1int
    } else {
        0
    }) + (if m.alt {
        2int
    } else {
        0
    }) + (if m.control {
        4int
    } else {
        0
    })
}

/// The kitty modifier parameter: the xterm one plus 8 for super.
pub open spec fn kitty_modifier_value(m: Modifiers) -> int {
    legacy_modifier_value(m) + if m.super_key {
        8int
    } else {
        0
    }
}

/// An xterm cursor or function key sequence: `ESC O x`/`ESC [ x` or
/// `ESC [ 1 ; mods x` for letter keys, `ESC [ n [; mods] ~` for numbered
/// ones; none with super held.
pub open spec fn legacy_sequence(
    app_cursor: bool,
    m: Modifiers,
    letter: Option<char>,
    number: u16,
    trailing: char,
) -> Option<Seq<char>> {
    let v = legacy_modifier_value(m);
    if m.super_key {
        None
    } else {
        match letter {
            Some(l) => if v == 1 {
                Some(seq!['\x1b', if app_cursor { 'O' } else { '[' }, l])
            } else {
                Some(seq!['\x1b', '[', '1', ';'] + decimal(v as nat) + seq![l])
            },
            None => Some(
                seq!['\x1b', '['] + decimal(number as nat) + (if v != 1 {
                    seq![';'] + decimal(v as nat)
                } else {
                    seq![]
                }) + seq![trailing],
            ),
        }
    }
}

fn legacy_named_sequence(
    app_cursor: bool,
    m: Modifiers,
    letter: Option<char>,
    number: u16,
    trailing: char,
) -> (r: Option<String>)
    ensures
        opt_view(r) == legacy_sequence(app_cursor, m, letter, number, trailing),
{
    if m.super_key {
        return None;
    }
    let mut value: u32 = 1;
    if m.shift {
        value = value + 1;
    }
    if m.alt {
        value = value + 2;
    }
    if m.control {
        value = value + 4;
    }
    let mut s = String::new();
    push_char(&mut s, '\x1b');
    match letter {
        Some(l) => {
            if value == 1 {
                push_char(
                    &mut s,
                    if app_cursor {
                        'O'
                    } else {
                        '['
                    },
                );
                push_char(&mut s, l);
            } else {
                push_char(&mut s, '[');
                push_char(&mut s, '1');
                push_char(&mut s, ';');
                push_decimal(&mut s, value);
                push_char(&mut s, l);
            }
        },
        None => {
            push_char(&mut s, '[');
            push_decimal(&mut s, number as u32);
            if value != 1 {
                push_char(&mut s, ';');
                push_decimal(&mut s, value);
            }
            push_char(&mut s, trailing);
        },
    }
    assert(opt_view(Some(s)) =~= legacy_sequence(app_cursor, m, letter, number, trailing));
    Some(s)
}

/// `ESC` before `rest` when alt is held.
pub open spec fn alt_prefixed(alt: bool, rest: Seq<char>) -> Seq<char> {
    if alt {
        seq!['\x1b'] + rest
    } else {
        rest
    }
}

/// The number of a function key's `CSI n ~` sequence, or its letter.
pub open spec fn legacy_function_key(n: u8) -> Option<(Option<char>, u16)> {
    if n == 1 {
        Some((Some('P'), 0))
    } else if n == 2 {
        Some((Some('Q'), 0))
    } else if n == 3 {
        Some((None, 13))
    } else if n == 4 {
        Some((Some('S'), 0))
    } else if n == 5 {
        Some((None, 15))
    } else if 6 <= n <= 10 {
        Some((None, (n + 11) as u16))
    } else if n == 11 || n == 12 {
        Some((None, (n + 12) as u16))
    } else {
        None
    }
}

/// The legacy bytes of a named key, as text.
pub open spec fn legacy_named(named: NamedKey, app_cursor: bool, m: Modifiers) -> Option<Seq<char>> {
    match named {
        NamedKey::Enter => Some(alt_prefixed(m.alt, seq!['\r'])),
        NamedKey::Escape => Some(alt_prefixed(m.alt, seq!['\x1b'])),
        NamedKey::Backspace => Some(
            alt_prefixed(
                m.alt,
                seq![
                    if m.control {
                        '\x08'
                    } else {
                        '\x7f'
                    },
                ],
            ),
        ),
        NamedKey::Tab => Some(
            alt_prefixed(
                m.alt,
                if m.shift {
                    seq!['\x1b', '[', 'Z']
                } else {
                    seq!['\t']
                },
            ),
        ),
        NamedKey::Space => Some(
            alt_prefixed(
                m.alt,
                seq![
                    if m.control {
                        '\0'
                    } else {
                        ' '
                    },
                ],
            ),
        ),
        NamedKey::ArrowUp => legacy_sequence(app_cursor, m, Some('A'), 0, '\0'),
        NamedKey::ArrowDown => legacy_sequence(app_cursor, m, Some('B'), 0, '\0'),
        NamedKey::ArrowRight => legacy_sequence(app_cursor, m, Some('C'), 0, '\0'),
        NamedKey::ArrowLeft => legacy_sequence(app_cursor, m, Some('D'), 0, '\0'),
        NamedKey::Home => legacy_sequence(app_cursor, m, Some('H'), 0, '\0'),
        NamedKey::End => legacy_sequence(app_cursor, m, Some('F'), 0, '\0'),
        NamedKey::Insert => legacy_sequence(false, m, None, 2, '~'),
        NamedKey::Delete => legacy_sequence(false, m, None, 3, '~'),
        NamedKey::PageUp => legacy_sequence(false, m, None, 5, '~'),
        NamedKey::PageDown => legacy_sequence(false, m, None, 6, '~'),
        NamedKey::F(n) => match legacy_function_key(n) {
            Some((letter, number)) => legacy_sequence(false, m, letter, number, '~'),
            None => None,
        },
        _ => None,
    }
}

fn alt_prefix(alt: bool, s: &mut String)
    ensures
        final(s)@ == old(s)@ + (if alt {
            seq!['\x1b']
        } else {
            seq![]
        }),
{
    if alt {
        push_char(s, '\x1b');
    } else {
        assert(old(s)@ + seq![] =~= old(s)@);
    }
}

fn legacy_named_key_to_bytes(named: NamedKey, app_cursor: bool, m: Modifiers) -> (r: Option<String>)
    ensures
        opt_view(r) == legacy_named(named, app_cursor, m),
{
    match named {
        NamedKey::Enter | NamedKey::Escape | NamedKey::Backspace | NamedKey::Tab | NamedKey::Space => {
            let mut s = String::new();
            alt_prefix(m.alt, &mut s);
            match named {
                NamedKey::Enter => push_char(&mut s, '\r'),
                NamedKey::Escape => push_char(&mut s, '\x1b'),
                NamedKey::Backspace => push_char(
                    &mut s,
                    if m.control {
                        '\x08'
                    } else {
                        '\x7f'
                    },
                ),
                NamedKey::Tab => {
                    if m.shift {
                        push_char(&mut s, '\x1b');
                        push_char(&mut s, '[');
                        push_char(&mut s, 'Z');
                    } else {
                        push_char(&mut s, '\t');
                    }
                },
                _ => push_char(
                    &mut s,
                    if m.control {
                        '\0'
                    } else {
                        ' '
                    },
                ),
            }
            assert(opt_view(Some(s)) =~= legacy_named(named, app_cursor, m));
            Some(s)
        },
        NamedKey::ArrowUp => legacy_named_sequence(app_cursor, m, Some('A'), 0, '\0'),
        NamedKey::ArrowDown => legacy_named_sequence(app_cursor, m, Some('B'), 0, '\0'),
        NamedKey::ArrowRight => legacy_named_sequence(app_cursor, m, Some('C'), 0, '\0'),
        NamedKey::ArrowLeft => legacy_named_sequence(app_cursor, m, Some('D'), 0, '\0'),
        NamedKey::Home => legacy_named_sequence(app_cursor, m, Some('H'), 0, '\0'),
        NamedKey::End => legacy_named_sequence(app_cursor, m, Some('F'), 0, '\0'),
        NamedKey::Insert => legacy_named_sequence(false, m, None, 2, '~'),
        NamedKey::Delete => legacy_named_sequence(false, m, None, 3, '~'),
        NamedKey::PageUp => legacy_named_sequence(false, m, None, 5, '~'),
        NamedKey::PageDown => legacy_named_sequence(false, m, None, 6, '~'),
        NamedKey::F(n) => {
            let (letter, number): (Option<char>, u16) = if n == 1 {
                (Some('P'), 0)
            } else if n == 2 {
                (Some('Q'), 0)
            } else if n == 3 {
                (None, 13)
            } else if n == 4 {
                (Some('S'), 0)
            } else if n == 5 {
                (None, 15)
            } else if 6 <= n && n <= 10 {
                (None, (n + 11) as u16)
            } else if n == 11 || n == 12 {
                (None, (n + 12) as u16)
            } else {
                return None;
            };
            legacy_named_sequence(false, m, letter, number, '~')
        },
        _ => None,
    }
}

/// The control character that control with a character key sends: letters
/// map to 1 to 26, and a few punctuation keys to the other C0 codes.
pub open spec fn control_char(c: char) -> Option<char> {
    if 'a' <= c <= 'z' {
        Some(((c as u32) - ('a' as u32) + 1) as char)
    } else if 'A' <= c <= 'Z' {
        Some(((c as u32) - ('A' as u32) + 1) as char)
    } else if c == '@' || c == ' ' || c == '`' || c == '2' {
        Some('\0')
    } else if c == '3' || c == '[' || c == '\x1b' {
        Some('\x1b')
    } else if c == '4' || c == '\\' {
        Some('\x1c')
    } else if c == '5' || c == ']' {
        Some('\x1d')
    } else if c == '6' || c == '^' || c == '~' {
        Some('\x1e')
    } else if c == '7' || c == '_' || c == '/' {
        Some('\x1f')
    } else if c == '8' || c == '?' {
        Some('\x7f')
    } else if c == '9' || c == '0' {
        Some(c)
    } else {
        None
    }
}

fn control_char_of(c: char) -> (r: Option<char>)
    ensures
        r == control_char(c),
{
    if 'a' <= c && c <= 'z' {
        Some((((c as u32) - 0x61 + 1) as u8) as char)
    } else if 'A' <= c && c <= 'Z' {
        Some((((c as u32) - 0x41 + 1) as u8) as char)
    } else if c == '@' || c == ' ' || c == '`' || c == '2' {
        Some('\0')
    } else if c == '3' || c == '[' || c == '\x1b' {
        Some('\x1b')
    } else if c == '4' || c == '\\' {
        Some('\x1c')
    } else if c == '5' || c == ']' {
        Some('\x1d')
    } else if c == '6' || c == '^' || c == '~' {
        Some('\x1e')
    } else if c == '7' || c == '_' || c == '/' {
        Some('\x1f')
    } else if c == '8' || c == '?' {
        Some('\x7f')
    } else if c == '9' || c == '0' {
        Some(c)
    } else {
        None
    }
}

/// The legacy encoding of a key, as text: control with a character sends a
/// control character, other characters send themselves, named keys their
/// sequences; alt adds an `ESC` before characters (and named keys handle it
/// themselves).
pub open spec fn legacy_key(key: Key, app_cursor: bool, m: Modifiers) -> Option<Seq<char>> {
    match key {
        Key::Character(s) => if m.control {
            if s@.len() == 0 {
                None
            } else {
                match control_char(s@[0]) {
                    Some(c) => Some(alt_prefixed(m.alt, seq![c])),
                    None => None,
                }
            }
        } else {
            Some(alt_prefixed(m.alt, s@))
        },
        Key::Named(named) => legacy_named(named, app_cursor, m),
        Key::Unidentified => None,
    }
}

fn legacy_key_to_bytes(key: &Key, app_cursor: bool, m: Modifiers) -> (r: Option<String>)
    ensures
        opt_view(r) == legacy_key(*key, app_cursor, m),
{
    match key {
        Key::Character(s) => {
            if m.control {
                let v = chars_of(s.as_str());
                if v.len() == 0 {
                    return None;
                }
                match control_char_of(v[0]) {
                    Some(c) => {
                        let mut out = String::new();
                        alt_prefix(m.alt, &mut out);
                        push_char(&mut out, c);
                        assert(out@ =~= alt_prefixed(m.alt, seq![c]));
                        Some(out)
                    },
                    None => None,
                }
            } else {
                let mut out = String::new();
                alt_prefix(m.alt, &mut out);
                out.append(s.as_str());
                assert(out@ =~= alt_prefixed(m.alt, s@));
                Some(out)
            }
        },
        Key::Named(named) => legacy_named_key_to_bytes(*named, app_cursor, m),
        Key::Unidentified => None,
    }
}

/// The kitty modifier field: `mods` or, when events are reported,
/// `mods:event`; none when it would say only "no modifiers, press".
pub open spec fn kitty_modifiers(m: Modifiers, report_events: bool, kind: KeyEventKind) -> Option<
    Seq<char>,
> {
    let v = kitty_modifier_value(m);
    if report_events {
        let e: int = match kind {
            KeyEventKind::Press => 1,
            KeyEventKind::Repeat => 2,
            KeyEventKind::Release => 3,
        };
        if v == 1 && e == 1 {
            None
        } else {
            Some(decimal(v as nat) + seq![':'] + decimal(e as nat))
        }
    } else if v == 1 {
        None
    } else {
        Some(decimal(v as nat))
    }
}

pub fn kitty_modifier_field(m: Modifiers, report_events: bool, kind: KeyEventKind) -> (r: Option<
    String,
>)
    ensures
        opt_view(r) == kitty_modifiers(m, report_events, kind),
{
    let mut value: u32 = 1;
    if m.shift {
        value = value + 1;
    }
    if m.alt {
        value = value + 2;
    }
    if m.control {
        value = value + 4;
    }
    if m.super_key {
        value = value + 8;
    }
    if report_events {
        let event: u32 = match kind {
            KeyEventKind::Press => 1,
            KeyEventKind::Repeat => 2,
            KeyEventKind::Release => 3,
        };
        if value == 1 && event == 1 {
            None
        } else {
            let mut s = String::new();
            push_decimal(&mut s, value);
            push_char(&mut s, ':');
            push_decimal(&mut s, event);
            assert(s@ =~= decimal(value as nat) + seq![':'] + decimal(event as nat));
            Some(s)
        }
    } else if value == 1 {
        None
    } else {
        let mut s = String::new();
        push_decimal(&mut s, value);
        assert(s@ =~= decimal(value as nat));
        Some(s)
    }
}

/// The kitty key code of a keypad key; digits and the decimal point have one
/// code when they type text and another (their navigation meaning) when not.
pub open spec fn keypad_code(pk: Option<PhysicalKey>, produces_text: bool) -> Option<u32> {
    match pk {
        Some(PhysicalKey::Numpad(k)) => match k {
            NumpadKey::Digit(d) => if d > 9 {
                None
            } else if produces_text {
                Some((57399 + d) as u32)
            } else {
                Some(
                    if d == 0 {
                        57425u32
                    } else if d == 1 {
                        57424
                    } else if d == 2 {
                        57420
                    } else if d == 3 {
                        57422
                    } else if d == 4 {
                        57417
                    } else if d == 5 {
                        57427
                    } else if d == 6 {
                        57418
                    } else if d == 7 {
                        57423
                    } else if d == 8 {
                        57419
                    } else {
                        57421
                    },
                )
            },
            NumpadKey::Decimal => Some(
                if produces_text {
                    57409u32
                } else {
                    57426
                },
            ),
            NumpadKey::Divide => Some(57410),
            NumpadKey::Multiply => Some(57411),
            NumpadKey::Subtract => Some(57412),
            NumpadKey::Add => Some(57413),
            NumpadKey::Enter => Some(57414),
            NumpadKey::Equal => Some(57415),
            NumpadKey::Comma => Some(57416),
        },
        _ => None,
    }
}

pub fn kitty_keypad_code(pk: Option<PhysicalKey>, produces_text: bool) -> (r: Option<u32>)
    ensures
        r == keypad_code(pk, produces_text),
{
    match pk {
        Some(PhysicalKey::Numpad(k)) => match k {
            NumpadKey::Digit(d) => {
                if d > 9 {
                    None
                } else if produces_text {
                    Some(57399 + d as u32)
                } else {
                    Some(
                        if d == 0 {
                            57425
                        } else if d == 1 {
                            57424
                        } else if d == 2 {
                            57420
                        } else if d == 3 {
                            57422
                        } else if d == 4 {
                            57417
                        } else if d == 5 {
                            57427
                        } else if d == 6 {
                            57418
                        } else if d == 7 {
                            57423
                        } else if d == 8 {
                            57419
                        } else {
                            57421
                        },
                    )
                }
            },
            NumpadKey::Decimal => Some(
                if produces_text {
                    57409
                } else {
                    57426
                },
            ),
            NumpadKey::Divide => Some(57410),
            NumpadKey::Multiply => Some(57411),
            NumpadKey::Subtract => Some(57412),
            NumpadKey::Add => Some(57413),
            NumpadKey::Enter => Some(57414),
            NumpadKey::Equal => Some(57415),
            NumpadKey::Comma => Some(57416),
        },
        _ => None,
    }
}

/// The character a physical key has on a US layout.
pub open spec fn base_layout(pk: Option<PhysicalKey>) -> Option<u32> {
    match pk {
        Some(PhysicalKey::BaseLayout(c)) => Some(c as u32),
        _ => None,
    }
}

pub fn base_layout_codepoint(pk: Option<PhysicalKey>) -> (r: Option<u32>)
    ensures
        r == base_layout(pk),
{
    match pk {
        Some(PhysicalKey::BaseLayout(c)) => Some(c as u32),
        _ => None,
    }
}

/// The kitty code of a modifier key: by the physical key's side when known,
/// else by the logical key.
pub open spec fn modifier_code(pk: Option<PhysicalKey>, named: NamedKey) -> Option<u32> {
    match pk {
        Some(PhysicalKey::Modifier(k)) => Some(
            match k {
                ModifierKey::ShiftLeft => 57441u32,
                ModifierKey::ControlLeft => 57442,
                ModifierKey::AltLeft => 57443,
                ModifierKey::SuperLeft => 57444,
                ModifierKey::Hyper => 57445,
                ModifierKey::Meta => 57446,
                ModifierKey::ShiftRight => 57447,
                ModifierKey::ControlRight => 57448,
                ModifierKey::AltRight => 57449,
                ModifierKey::SuperRight => 57450,
            },
        ),
        _ => match named {
            NamedKey::Shift => Some(57441),
            NamedKey::Control => Some(57442),
            NamedKey::Alt => Some(57443),
            NamedKey::Super => Some(57444),
            NamedKey::Hyper => Some(57445),
            NamedKey::Meta => Some(57446),
            _ => None,
        },
    }
}

fn modifier_named_key_code(pk: Option<PhysicalKey>, named: NamedKey) -> (r: Option<u32>)
    ensures
        r == modifier_code(pk, named),
{
    match pk {
        Some(PhysicalKey::Modifier(k)) => Some(
            match k {
                ModifierKey::ShiftLeft => 57441,
                ModifierKey::ControlLeft => 57442,
                ModifierKey::AltLeft => 57443,
                ModifierKey::SuperLeft => 57444,
                ModifierKey::Hyper => 57445,
                ModifierKey::Meta => 57446,
                ModifierKey::ShiftRight => 57447,
                ModifierKey::ControlRight => 57448,
                ModifierKey::AltRight => 57449,
                ModifierKey::SuperRight => 57450,
            },
        ),
        _ => match named {
            NamedKey::Shift => Some(57441),
            NamedKey::Control => Some(57442),
            NamedKey::Alt => Some(57443),
            NamedKey::Super => Some(57444),
            NamedKey::Hyper => Some(57445),
            NamedKey::Meta => Some(57446),
            _ => None,
        },
    }
}

/// The kitty code of a named key that has a `CSI u` form.
pub open spec fn named_code(pk: Option<PhysicalKey>, named: NamedKey) -> Option<u32> {
    match named {
        NamedKey::Escape => Some(27),
        NamedKey::Enter => Some(13),
        NamedKey::Tab => Some(9),
        NamedKey::Backspace => Some(127),
        NamedKey::Space => Some(32),
        NamedKey::CapsLock => Some(57358),
        NamedKey::ScrollLock => Some(57359),
        NamedKey::NumLock => Some(57360),
        NamedKey::PrintScreen => Some(57361),
        NamedKey::Pause => Some(57362),
        NamedKey::ContextMenu => Some(57363),
        NamedKey::F(n) => if 13 <= n <= 35 {
            Some((57376 + (n - 13)) as u32)
        } else {
            None
        },
        NamedKey::MediaPlay => Some(57428),
        NamedKey::MediaPause => Some(57429),
        NamedKey::MediaPlayPause => Some(57430),
        NamedKey::MediaRecord => Some(57437),
        NamedKey::MediaStop => Some(57432),
        NamedKey::MediaFastForward => Some(57433),
        NamedKey::MediaRewind => Some(57434),
        NamedKey::MediaTrackNext => Some(57435),
        NamedKey::MediaTrackPrevious => Some(57436),
        NamedKey::AudioVolumeDown => Some(57438),
        NamedKey::AudioVolumeUp => Some(57439),
        NamedKey::AudioVolumeMute => Some(57440),
        NamedKey::AltGraph => Some(57453),
        NamedKey::Shift | NamedKey::Control | NamedKey::Alt | NamedKey::Super | NamedKey::Meta
        | NamedKey::Hyper => modifier_code(pk, named),
        _ => None,
    }
}

fn kitty_named_key_code(pk: Option<PhysicalKey>, named: NamedKey) -> (r: Option<u32>)
    ensures
        r == named_code(pk, named),
{
    match named {
        NamedKey::Escape => Some(27),
        NamedKey::Enter => Some(13),
        NamedKey::Tab => Some(9),
        NamedKey::Backspace => Some(127),
        NamedKey::Space => Some(32),
        NamedKey::CapsLock => Some(57358),
        NamedKey::ScrollLock => Some(57359),
        NamedKey::NumLock => Some(57360),
        NamedKey::PrintScreen => Some(57361),
        NamedKey::Pause => Some(57362),
        NamedKey::ContextMenu => Some(57363),
        NamedKey::F(n) => {
            if 13 <= n && n <= 35 {
                Some(57376 + (n - 13) as u32)
            } else {
                None
            }
        },
        NamedKey::MediaPlay => Some(57428),
        NamedKey::MediaPause => Some(57429),
        NamedKey::MediaPlayPause => Some(57430),
        NamedKey::MediaRecord => Some(57437),
        NamedKey::MediaStop => Some(57432),
        NamedKey::MediaFastForward => Some(57433),
        NamedKey::MediaRewind => Some(57434),
        NamedKey::MediaTrackNext => Some(57435),
        NamedKey::MediaTrackPrevious => Some(57436),
        NamedKey::AudioVolumeDown => Some(57438),
        NamedKey::AudioVolumeUp => Some(57439),
        NamedKey::AudioVolumeMute => Some(57440),
        NamedKey::AltGraph => Some(57453),
        NamedKey::Shift | NamedKey::Control | NamedKey::Alt | NamedKey::Super | NamedKey::Meta
        | NamedKey::Hyper => modifier_named_key_code(pk, named),
        _ => None,
    }
}

/// A cursor key in kitty mode: `CSI 1 ; mods x` with modifiers, else
/// `ESC O x` (application cursor mode) or `CSI x`.
pub open spec fn kitty_letter_form(mods: Option<Seq<char>>, prefix_o: bool, suffix: char) -> Seq<
    char,
> {
    match mods {
        Some(ms) => seq!['\x1b', '[', '1', ';'] + ms + seq![suffix],
        None => if prefix_o {
            seq!['\x1b', 'O', suffix]
        } else {
            seq!['\x1b', '[', suffix]
        },
    }
}

/// A numbered key in kitty mode: `CSI n [; mods] ~`.
pub open spec fn kitty_tilde_form(mods: Option<Seq<char>>, number: u16) -> Seq<char> {
    seq!['\x1b', '['] + decimal(number as nat) + match mods {
        Some(ms) => seq![';'] + ms,
        None => seq![],
    } + seq!['~']
}

/// The kitty encoding of a named key, as text; none for keys left to the
/// text path (enter, tab and backspace unless everything is reported, and
/// an unmodified space).
pub open spec fn kitty_named(
    key: Key,
    pk: Option<PhysicalKey>,
    app_cursor: bool,
    m: Modifiers,
    report_all: bool,
    report_events: bool,
    kind: KeyEventKind,
) -> Option<Seq<char>> {
    let mods = kitty_modifiers(m, report_events, kind);
    match key {
        Key::Named(named) => {
            if !report_all && (named == NamedKey::Enter || named == NamedKey::Tab || named
                == NamedKey::Backspace) {
                None
            } else if !report_all && named == NamedKey::Space && !m.shift && !m.alt && !m.control
                && !m.super_key {
                None
            } else {
                match named {
                    NamedKey::ArrowUp => Some(kitty_letter_form(mods, app_cursor, 'A')),
                    NamedKey::ArrowDown => Some(kitty_letter_form(mods, app_cursor, 'B')),
                    NamedKey::ArrowRight => Some(kitty_letter_form(mods, app_cursor, 'C')),
                    NamedKey::ArrowLeft => Some(kitty_letter_form(mods, app_cursor, 'D')),
                    NamedKey::Home => Some(kitty_letter_form(mods, app_cursor, 'H')),
                    NamedKey::End => Some(kitty_letter_form(mods, app_cursor, 'F')),
                    NamedKey::Insert => Some(kitty_tilde_form(mods, 2)),
                    NamedKey::Delete => Some(kitty_tilde_form(mods, 3)),
                    NamedKey::PageUp => Some(kitty_tilde_form(mods, 5)),
                    NamedKey::PageDown => Some(kitty_tilde_form(mods, 6)),
                    NamedKey::F(n) => if n == 1 {
                        Some(kitty_letter_form(mods, false, 'P'))
                    } else if n == 2 {
                        Some(kitty_letter_form(mods, false, 'Q'))
                    } else if n == 4 {
                        Some(kitty_letter_form(mods, false, 'S'))
                    } else if n == 3 {
                        Some(kitty_tilde_form(mods, 13))
                    } else if n == 5 {
                        Some(kitty_tilde_form(mods, 15))
                    } else if 6 <= n <= 10 {
                        Some(kitty_tilde_form(mods, (n + 11) as u16))
                    } else if n == 11 || n == 12 {
                        Some(kitty_tilde_form(mods, (n + 12) as u16))
                    } else {
                        match named_code(pk, named) {
                            Some(code) => Some(kitty_csi_u_text(decimal(code as nat), mods, None)),
                            None => None,
                        }
                    },
                    _ => match named_code(pk, named) {
                        Some(code) => Some(kitty_csi_u_text(decimal(code as nat), mods, None)),
                        None => None,
                    },
                }
            }
        },
        _ => None,
    }
}

fn letter_form(mods: &Option<String>, prefix_o: bool, suffix: char) -> (r: String)
    ensures
        r@ == kitty_letter_form(opt_view(*mods), prefix_o, suffix),
{
    let mut s = String::new();
    push_char(&mut s, '\x1b');
    match mods {
        Some(ms) => {
            push_char(&mut s, '[');
            push_char(&mut s, '1');
            push_char(&mut s, ';');
            s.append(ms.as_str());
        },
        None => {
            push_char(
                &mut s,
                if prefix_o {
                    'O'
                } else {
                    '['
                },
            );
        },
    }
    push_char(&mut s, suffix);
    assert(s@ =~= kitty_letter_form(opt_view(*mods), prefix_o, suffix));
    s
}

fn tilde_form(mods: &Option<String>, number: u16) -> (r: String)
    ensures
        r@ == kitty_tilde_form(opt_view(*mods), number),
{
    let mut s = String::new();
    push_char(&mut s, '\x1b');
    push_char(&mut s, '[');
    push_decimal(&mut s, number as u32);
    match mods {
        Some(ms) => {
            push_char(&mut s, ';');
            s.append(ms.as_str());
        },
        None => {},
    }
    push_char(&mut s, '~');
    assert(s@ =~= kitty_tilde_form(opt_view(*mods), number));
    s
}

fn csi_u_text(code: u32, mods: Option<String>, text: Option<String>) -> (r: String)
    ensures
        r@ == kitty_csi_u_text(decimal(code as nat), opt_view(mods), opt_view(text)),
{
    let mut first = String::new();
    push_decimal(&mut first, code);
    assert(first@ =~= decimal(code as nat));
    csi_u_of(first.as_str(), mods, text)
}

/// `kitty_csi_u_text` as a string.
fn csi_u_of(first: &str, mods: Option<String>, text: Option<String>) -> (r: String)
    ensures
        r@ == kitty_csi_u_text(first@, opt_view(mods), opt_view(text)),
{
    let mut seq = String::new();
    push_char(&mut seq, '\x1b');
    push_char(&mut seq, '[');
    seq.append(first);
    if mods.is_some() || text.is_some() {
        push_char(&mut seq, ';');
        if let Some(ms) = &mods {
            seq.append(ms.as_str());
        }
    }
    if let Some(t) = &text {
        push_char(&mut seq, ';');
        seq.append(t.as_str());
    }
    push_char(&mut seq, 'u');
    assert(seq@ =~= kitty_csi_u_text(first@, opt_view(mods), opt_view(text)));
    seq
}

fn encode_kitty_named_key(
    key: &Key,
    pk: Option<PhysicalKey>,
    app_cursor: bool,
    m: Modifiers,
    report_all: bool,
    report_events: bool,
    kind: KeyEventKind,
) -> (r: Option<String>)
    ensures
        opt_view(r) == kitty_named(*key, pk, app_cursor, m, report_all, report_events, kind),
{
    let mods = kitty_modifier_field(m, report_events, kind);
    let named = match key {
        Key::Named(named) => *named,
        _ => return None,
    };
    if !report_all && (named == NamedKey::Enter || named == NamedKey::Tab || named
        == NamedKey::Backspace) {
        return None;
    }
    if !report_all && named == NamedKey::Space && !m.shift && !m.alt && !m.control && !m.super_key {
        return None;
    }
    let out = match named {
        NamedKey::ArrowUp => letter_form(&mods, app_cursor, 'A'),
        NamedKey::ArrowDown => letter_form(&mods, app_cursor, 'B'),
        NamedKey::ArrowRight => letter_form(&mods, app_cursor, 'C'),
        NamedKey::ArrowLeft => letter_form(&mods, app_cursor, 'D'),
        NamedKey::Home => letter_form(&mods, app_cursor, 'H'),
        NamedKey::End => letter_form(&mods, app_cursor, 'F'),
        NamedKey::Insert => tilde_form(&mods, 2),
        NamedKey::Delete => tilde_form(&mods, 3),
        NamedKey::PageUp => tilde_form(&mods, 5),
        NamedKey::PageDown => tilde_form(&mods, 6),
        NamedKey::F(n) if n == 1 => letter_form(&mods, false, 'P'),
        NamedKey::F(n) if n == 2 => letter_form(&mods, false, 'Q'),
        NamedKey::F(n) if n == 4 => letter_form(&mods, false, 'S'),
        NamedKey::F(n) if n == 3 => tilde_form(&mods, 13),
        NamedKey::F(n) if n == 5 => tilde_form(&mods, 15),
        NamedKey::F(n) if 6 <= n && n <= 10 => tilde_form(&mods, (n + 11) as u16),
        NamedKey::F(n) if n == 11 || n == 12 => tilde_form(&mods, (n + 12) as u16),
        _ => {
            let code = match kitty_named_key_code(pk, named) {
                Some(code) => code,
                None => return None,
            };
            csi_u_text(code, mods, None)
        },
    };
    Some(out)
}

/// Whether a modifier that changes what a text key means is held.
pub open spec fn ambiguous_modifiers(m: Modifiers) -> bool {
    m.shift || m.alt || m.control || m.super_key
}

/// Whether a modifier that changes what a text key means is held: then the
/// key is reported as `CSI u` even when only disambiguation is asked for.
fn text_key_is_ambiguous(modifiers: Modifiers) -> (b: bool)
    ensures
        b == ambiguous_modifiers(modifiers),
{
    modifiers.shift || modifiers.alt || modifiers.control || modifiers.super_key
}

/// The key code of a text key: its base-layout character when known, else
/// the first character of the key (ASCII letters in lower case).
pub open spec fn primary_codepoint(key: Key, pk: Option<PhysicalKey>) -> Option<u32> {
    match base_layout(pk) {
        Some(b) => Some(b),
        None => match key {
            Key::Character(s) => if s@.len() == 0 {
                None
            } else if 'A' <= s@[0] <= 'Z' {
                Some(((s@[0] as u32) + 32) as u32)
            } else {
                Some(s@[0] as u32)
            },
            _ => None,
        },
    }
}

fn text_key_primary_codepoint(key: &Key, pk: Option<PhysicalKey>) -> (r: Option<u32>)
    ensures
        r == primary_codepoint(*key, pk),
{
    if let Some(b) = base_layout_codepoint(pk) {
        return Some(b);
    }
    match key {
        Key::Character(s) => {
            let v = chars_of(s.as_str());
            if v.len() == 0 {
                return None;
            }
            let c = v[0];
            if 'A' <= c && c <= 'Z' {
                Some(c as u32 + 32)
            } else {
                Some(c as u32)
            }
        },
        _ => None,
    }
}

/// The key field of a text key: the key code, and with alternate keys
/// reported also the shifted character and the base-layout key when they
/// differ from it (`code:shifted:base`, empty parts kept as `::`).
pub open spec fn kitty_first(
    primary: u32,
    text: Option<&str>,
    pk: Option<PhysicalKey>,
    m: Modifiers,
    report_alternate: bool,
) -> Seq<char> {
    if !report_alternate {
        decimal(primary as nat)
    } else {
        let shifted: Option<u32> = if m.shift {
            match text {
                Some(t) => if t@.len() > 0 {
                    Some(t@[0] as u32)
                } else {
                    None
                },
                None => None,
            }
        } else {
            None
        };
        let shifted = if shifted == Some(primary) {
            None
        } else {
            shifted
        };
        let base = if base_layout(pk) == Some(primary) {
            None
        } else {
            base_layout(pk)
        };
        match (shifted, base) {
            (Some(sh), Some(b)) => decimal(primary as nat) + seq![':'] + decimal(sh as nat) + seq![
                ':',
            ] + decimal(b as nat),
            (Some(sh), None) => decimal(primary as nat) + seq![':'] + decimal(sh as nat),
            (None, Some(b)) => decimal(primary as nat) + seq![':', ':'] + decimal(b as nat),
            (None, None) => decimal(primary as nat),
        }
    }
}

fn kitty_first_param(
    primary: u32,
    text: Option<&str>,
    pk: Option<PhysicalKey>,
    m: Modifiers,
    report_alternate: bool,
) -> (r: String)
    ensures
        r@ == kitty_first(primary, text, pk, m, report_alternate),
{
    let mut s = String::new();
    push_decimal(&mut s, primary);
    if !report_alternate {
        assert(s@ =~= decimal(primary as nat));
        return s;
    }
    let shifted: Option<u32> = if m.shift {
        match text {
            Some(t) => {
                let v = chars_of(t);
                if v.len() > 0 {
                    Some(v[0] as u32)
                } else {
                    None
                }
            },
            None => None,
        }
    } else {
        None
    };
    let shifted = if shifted == Some(primary) {
        None
    } else {
        shifted
    };
    let base = base_layout_codepoint(pk);
    let base = if base == Some(primary) {
        None
    } else {
        base
    };
    match (shifted, base) {
        (Some(sh), Some(b)) => {
            push_char(&mut s, ':');
            push_decimal(&mut s, sh);
            push_char(&mut s, ':');
            push_decimal(&mut s, b);
        },
        (Some(sh), None) => {
            push_char(&mut s, ':');
            push_decimal(&mut s, sh);
        },
        (None, Some(b)) => {
            push_char(&mut s, ':');
            push_char(&mut s, ':');
            push_decimal(&mut s, b);
        },
        (None, None) => {},
    }
    assert(s@ =~= kitty_first(primary, text, pk, m, report_alternate));
    s
}

/// Whether a key event types text.
pub open spec fn produces_text(text: Option<&str>) -> bool {
    text matches Some(t) && t@.len() > 0
}

/// The kitty encoding of a key under the given flags, as text; none when the
/// key is left to the legacy encoding.
pub open spec fn kitty_key(
    key: Key,
    text: Option<&str>,
    pk: Option<PhysicalKey>,
    app_cursor: bool,
    m: Modifiers,
    flags: u8,
    kind: KeyEventKind,
) -> Option<Seq<char>> {
    let report_all = flags & KITTY_KBD_REPORT_ALL != 0;
    let report_events = flags & KITTY_KBD_REPORT_EVENTS != 0;
    let report_alternate = flags & KITTY_KBD_REPORT_ALTERNATE != 0;
    let report_text = report_all && (flags & KITTY_KBD_REPORT_TEXT != 0);
    let disambiguate = flags & KITTY_KBD_DISAMBIGUATE != 0;
    let typing = produces_text(text);
    let mods = kitty_modifiers(m, report_events, kind);
    let text_field = if report_text {
        kitty_text(text)
    } else {
        None
    };
    match keypad_code(pk, typing) {
        Some(code) if report_all || (disambiguate && !typing) => Some(
            kitty_csi_u_text(decimal(code as nat), mods, text_field),
        ),
        _ => match kitty_named(key, pk, app_cursor, m, report_all, report_events, kind) {
            Some(b) => Some(b),
            None => if !typing {
                None
            } else if !report_all && (kind == KeyEventKind::Repeat || kind == KeyEventKind::Release) {
                None
            } else if !report_all && !disambiguate && kind == KeyEventKind::Press {
                None
            } else if !report_all && !ambiguous_modifiers(m) {
                None
            } else {
                match primary_codepoint(key, pk) {
                    Some(primary) => Some(
                        kitty_csi_u_text(
                            kitty_first(primary, text, pk, m, report_alternate),
                            mods,
                            text_field,
                        ),
                    ),
                    None => None,
                }
            },
        },
    }
}

fn encode_kitty_key(
    key: &Key,
    text: Option<&str>,
    pk: Option<PhysicalKey>,
    app_cursor: bool,
    m: Modifiers,
    flags: u8,
    kind: KeyEventKind,
) -> (r: Option<String>)
    ensures
        opt_view(r) == kitty_key(*key, text, pk, app_cursor, m, flags, kind),
{
    let report_all = flags & KITTY_KBD_REPORT_ALL != 0;
    let report_events = flags & KITTY_KBD_REPORT_EVENTS != 0;
    let report_alternate = flags & KITTY_KBD_REPORT_ALTERNATE != 0;
    let report_text = report_all && (flags & KITTY_KBD_REPORT_TEXT != 0);
    let disambiguate = flags & KITTY_KBD_DISAMBIGUATE != 0;
    let typing = match text {
        Some(t) => !t.is_empty(),
        None => false,
    };
    if let Some(code) = kitty_keypad_code(pk, typing) {
        if report_all || (disambiguate && !typing) {
            let mods = kitty_modifier_field(m, report_events, kind);
            let text_field = if report_text {
                kitty_text_field(text)
            } else {
                None
            };
            return Some(csi_u_text(code, mods, text_field));
        }
    }
    if let Some(bytes) = encode_kitty_named_key(
        key,
        pk,
        app_cursor,
        m,
        report_all,
        report_events,
        kind,
    ) {
        return Some(bytes);
    }
    if !typing {
        return None;
    }
    if !report_all && (kind == KeyEventKind::Repeat || kind == KeyEventKind::Release) {
        return None;
    }
    if !report_all && !disambiguate && kind == KeyEventKind::Press {
        return None;
    }
    if !report_all && !text_key_is_ambiguous(m) {
        return None;
    }
    let primary = match text_key_primary_codepoint(key, pk) {
        Some(p) => p,
        None => return None,
    };
    let first = kitty_first_param(primary, text, pk, m, report_alternate);
    let mods = kitty_modifier_field(m, report_events, kind);
    let text_field = if report_text {
        kitty_text_field(text)
    } else {
        None
    };
    Some(csi_u_of(first.as_str(), mods, text_field))
}

/// The bytes a key event sends, as text: the kitty encoding when the kitty
/// keyboard protocol is on and it covers the key, otherwise the legacy
/// encoding (nothing for a release).
pub open spec fn key_text(
    key: Key,
    text: Option<&str>,
    pk: Option<PhysicalKey>,
    app_cursor: bool,
    m: Modifiers,
    flags: u8,
    kind: KeyEventKind,
) -> Option<Seq<char>> {
    match (if flags != 0 {
        kitty_key(key, text, pk, app_cursor, m, flags, kind)
    } else {
        None
    }) {
        Some(t) => Some(t),
        None => if kind == KeyEventKind::Release {
            None
        } else {
            legacy_key(key, app_cursor, m)
        },
    }
}

/// The bytes a key event sends to the application.
pub fn key_to_bytes(
    key: &Key,
    text: Option<&str>,
    physical_key: Option<PhysicalKey>,
    app_cursor: bool,
    modifiers: Modifiers,
    kitty_flags: u8,
    event_kind: KeyEventKind,
) -> (r: Option<Vec<u8>>)
    ensures
        match r {
            Some(bytes) => key_text(
                *key,
                text,
                physical_key,
                app_cursor,
                modifiers,
                kitty_flags,
                event_kind,
            ) matches Some(t) && bytes@ == encode_utf8(t),
            None => key_text(
                *key,
                text,
                physical_key,
                app_cursor,
                modifiers,
                kitty_flags,
                event_kind,
            ) is None,
        },
{
    if kitty_flags != 0 {
        if let Some(s) = encode_kitty_key(
            key,
            text,
            physical_key,
            app_cursor,
            modifiers,
            kitty_flags,
            event_kind,
        ) {
            return Some(s.as_str().as_bytes_vec());
        }
    }
    if event_kind == KeyEventKind::Release {
        return None;
    }
    match legacy_key_to_bytes(key, app_cursor, modifiers) {
        Some(s) => Some(s.as_str().as_bytes_vec()),
        None => None,
    }
}


/// No modifier held.
pub open spec fn no_modifiers() -> Modifiers {
    Modifiers { shift: false, control: false, alt: false, super_key: false }
}

/// Every function key F1 to F12 sends something when pressed (or repeated)
/// without modifiers and without the kitty protocol: F1, F2 and F4 send
/// `ESC [ P`, `ESC [ Q` and `ESC [ S`, F3 and F5 `ESC [ 13 ~` and
/// `ESC [ 15 ~`, F6 to F10 `ESC [ 17 ~` to `ESC [ 21 ~`, and F11 and F12
/// `ESC [ 23 ~` and `ESC [ 24 ~`. The cursor-key mode does not change them.
pub proof fn lemma_function_keys_send_their_sequences(
    n: u8,
    text: Option<&str>,
    pk: Option<PhysicalKey>,
    app_cursor: bool,
    kind: KeyEventKind,
)
    requires
        1 <= n <= 12,
        kind != KeyEventKind::Release,
    ensures
        ({
            let sent = key_text(Key::Named(NamedKey::F(n)), text, pk, app_cursor, no_modifiers(), 0, kind);
            &&& n == 1 ==> sent == Some(seq!['\x1b', '[', 'P'])
            &&& n == 2 ==> sent == Some(seq!['\x1b', '[', 'Q'])
            &&& n == 3 ==> sent == Some(seq!['\x1b', '[', '1', '3', '~'])
            &&& n == 4 ==> sent == Some(seq!['\x1b', '[', 'S'])
            &&& n == 5 ==> sent == Some(seq!['\x1b', '[', '1', '5', '~'])
            &&& n == 6 ==> sent == Some(seq!['\x1b', '[', '1', '7', '~'])
            &&& n == 7 ==> sent == Some(seq!['\x1b', '[', '1', '8', '~'])
            &&& n == 8 ==> sent == Some(seq!['\x1b', '[', '1', '9', '~'])
            &&& n == 9 ==> sent == Some(seq!['\x1b', '[', '2', '0', '~'])
            &&& n == 10 ==> sent == Some(seq!['\x1b', '[', '2', '1', '~'])
            &&& n == 11 ==> sent == Some(seq!['\x1b', '[', '2', '3', '~'])
            &&& n == 12 ==> sent == Some(seq!['\x1b', '[', '2', '4', '~'])
        }),
{
    let m = no_modifiers();
    let key = Key::Named(NamedKey::F(n));
    assert(legacy_modifier_value(m) == 1);
    assert(key_text(key, text, pk, app_cursor, m, 0, kind) == legacy_key(key, app_cursor, m));
    assert(legacy_key(key, app_cursor, m) == legacy_named(NamedKey::F(n), app_cursor, m));
    if n == 1 || n == 2 || n == 4 {
    } else {
        let v: u16 = if 6 <= n <= 10 {
            (n + 11) as u16
        } else if n >= 11 {
            (n + 12) as u16
        } else if n == 3 {
            13
        } else {
            15
        };
        assert(legacy_function_key(n) == Some::<(Option<char>, u16)>((None, v)));
        reveal_with_fuel(decimal, 3);
        let d = seq![
            crate::input::digit_char((v / 10) as int),
            crate::input::digit_char((v % 10) as int),
        ];
        assert(decimal(v as nat) =~= d);
        assert(legacy_sequence(false, m, None, v, '~') == Some(
            seq!['\x1b', '['] + decimal(v as nat) + seq![] + seq!['~'],
        ));
        let sent = seq!['\x1b', '['] + d + seq![] + seq!['~'];
        assert(sent =~= seq!['\x1b', '[', d[0], d[1], '~']);
        assert(crate::input::digit_char(0) == '0');
        assert(crate::input::digit_char(1) == '1');
        assert(crate::input::digit_char(2) == '2');
        assert(crate::input::digit_char(3) == '3');
        assert(crate::input::digit_char(4) == '4');
        assert(crate::input::digit_char(5) == '5');
        assert(crate::input::digit_char(7) == '7');
        assert(crate::input::digit_char(8) == '8');
        assert(crate::input::digit_char(9) == '9');
    }
}


/// The xterm modifier parameter written as a digit: one plus 1 for shift,
/// 2 for alt and 4 for control.
pub open spec fn modifier_digit(m: Modifiers) -> char {
    ('1' as int + (if m.shift { 1int } else { 0 }) + (if m.alt { 2int } else { 0 }) + (if m.control {
        4int
    } else {
        0
    })) as char
}

/// The arrow keys, Home and End, pressed without the kitty protocol:
/// unmodified they send `ESC [ X` (`ESC O X` in application cursor mode);
/// with shift, alt or control they send `ESC [ 1 ; v X`, `v` the modifier
/// parameter; with super they send nothing.
pub proof fn lemma_cursor_keys(
    named: NamedKey,
    letter: char,
    app_cursor: bool,
    m: Modifiers,
    kind: KeyEventKind,
)
    requires
        kind != KeyEventKind::Release,
        (named == NamedKey::ArrowUp && letter == 'A') || (named == NamedKey::ArrowDown && letter
            == 'B') || (named == NamedKey::ArrowRight && letter == 'C') || (named
            == NamedKey::ArrowLeft && letter == 'D') || (named == NamedKey::Home && letter == 'H')
            || (named == NamedKey::End && letter == 'F'),
    ensures
        ({
            let sent = key_text(Key::Named(named), None, None, app_cursor, m, 0, kind);
            &&& m.super_key ==> sent is None
            &&& !m.super_key && !m.shift && !m.alt && !m.control ==> sent == Some(
                seq![
                    '\x1b',
                    if app_cursor {
                        'O'
                    } else {
                        '['
                    },
                    letter,
                ],
            )
            &&& !m.super_key && (m.shift || m.alt || m.control) ==> sent == Some(
                seq!['\x1b', '[', '1', ';', modifier_digit(m), letter],
            )
        }),
{
    let v = legacy_modifier_value(m);
    assert(1 <= v <= 8);
    assert(decimal(v as nat) =~= seq![crate::input::digit_char(v)]);
    assert(crate::input::digit_char(v) == modifier_digit(m));
    assert(seq!['\x1b', '[', '1', ';'] + decimal(v as nat) + seq![letter] =~= seq![
        '\x1b',
        '[',
        '1',
        ';',
        modifier_digit(m),
        letter,
    ]);
}

/// Control with a letter sends the letter's control code, `a` (or `A`) 1
/// through `z` (or `Z`) 26, after an `ESC` when alt is held too.
pub proof fn lemma_control_letters(s: String, c: char, alt: bool, kind: KeyEventKind)
    requires
        s@ == seq![c],
        ('a' <= c <= 'z') || ('A' <= c <= 'Z'),
        kind != KeyEventKind::Release,
    ensures
        ({
            let m = Modifiers { shift: false, control: true, alt, super_key: false };
            let code = if 'a' <= c <= 'z' {
                c as int - 'a' as int + 1
            } else {
                c as int - 'A' as int + 1
            };
            &&& 1 <= code <= 26
            &&& key_text(Key::Character(s), None, None, false, m, 0, kind) == Some(
                if alt {
                    seq!['\x1b', code as char]
                } else {
                    seq![code as char]
                },
            )
        }),
{
}

/// Enter, Tab, Backspace and Escape, pressed without the kitty protocol,
/// send carriage return, tab (or `ESC [ Z` with shift), DEL (or BS with
/// control) and ESC, each after an `ESC` when alt is held.
pub proof fn lemma_editing_keys(app_cursor: bool, m: Modifiers, kind: KeyEventKind)
    requires
        kind != KeyEventKind::Release,
    ensures
        ({
            let esc = if m.alt {
                seq!['\x1b']
            } else {
                seq![]
            };
            &&& key_text(Key::Named(NamedKey::Enter), None, None, app_cursor, m, 0, kind) == Some(
                esc + seq!['\r'],
            )
            &&& key_text(Key::Named(NamedKey::Escape), None, None, app_cursor, m, 0, kind) == Some(
                esc + seq!['\x1b'],
            )
            &&& key_text(Key::Named(NamedKey::Tab), None, None, app_cursor, m, 0, kind) == Some(
                esc + if m.shift {
                    seq!['\x1b', '[', 'Z']
                } else {
                    seq!['\t']
                },
            )
            &&& key_text(Key::Named(NamedKey::Backspace), None, None, app_cursor, m, 0, kind) == Some(
                esc + seq![
                    if m.control {
                        '\x08'
                    } else {
                        '\x7f'
                    },
                ],
            )
        }),
{
    assert(alt_prefixed(m.alt, seq!['\r']) =~= (if m.alt { seq!['\x1b'] } else { seq![] }) + seq!['\r']);
    assert(alt_prefixed(m.alt, seq!['\x1b']) =~= (if m.alt { seq!['\x1b'] } else { seq![] }) + seq!['\x1b']);
    let tab = if m.shift {
        seq!['\x1b', '[', 'Z']
    } else {
        seq!['\t']
    };
    assert(alt_prefixed(m.alt, tab) =~= (if m.alt { seq!['\x1b'] } else { seq![] }) + tab);
    let bs = seq![
        if m.control {
            '\x08'
        } else {
            '\x7f'
        },
    ];
    assert(alt_prefixed(m.alt, bs) =~= (if m.alt { seq!['\x1b'] } else { seq![] }) + bs);
}


/// With the kitty protocol asking for disambiguation, control with a
/// lower-case letter is sent as `CSI code ; 5 u`: the letter's code point
/// and the modifier parameter of control (5), whatever text the key types.
pub proof fn lemma_kitty_control_letter(s: String, t: &str, c: char, kind: KeyEventKind)
    requires
        s@ == seq![c],
        t@.len() > 0,
        'a' <= c <= 'z',
        kind == KeyEventKind::Press,
    ensures
        key_text(
            Key::Character(s),
            Some(t),
            None,
            false,
            Modifiers { shift: false, control: true, alt: false, super_key: false },
            KITTY_KBD_DISAMBIGUATE,
            kind,
        ) == Some(seq!['\x1b', '['] + decimal(c as nat) + seq![';', '5', 'u']),
{
    let m = Modifiers { shift: false, control: true, alt: false, super_key: false };
    let f = KITTY_KBD_DISAMBIGUATE;
    assert(f & KITTY_KBD_REPORT_ALL == 0 && f & KITTY_KBD_REPORT_EVENTS == 0 && f
        & KITTY_KBD_REPORT_ALTERNATE == 0 && f & KITTY_KBD_DISAMBIGUATE != 0) by (bit_vector)
        requires
            f == 1u8,
            KITTY_KBD_REPORT_ALL == 8u8,
            KITTY_KBD_REPORT_EVENTS == 2u8,
            KITTY_KBD_REPORT_ALTERNATE == 4u8,
            KITTY_KBD_DISAMBIGUATE == 1u8,
    ;
    assert(kitty_modifier_value(m) == 5);
    reveal_with_fuel(decimal, 2);
    assert(decimal(5) =~= seq!['5']);
    assert(kitty_modifiers(m, false, kind) == Some(seq!['5']));
    assert(primary_codepoint(Key::Character(s), None) == Some(c as u32));
    let first = decimal(c as nat);
    assert(kitty_first(c as u32, Some(t), None, m, false) == first);
    assert(kitty_csi_u_text(first, Some(seq!['5']), None) =~= seq!['\x1b', '['] + first + seq![
        ';',
        '5',
        'u',
    ]);
}

} // verus!
