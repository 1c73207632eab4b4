//! Keyboard input: the kind of a key event and the kitty keyboard
//! protocol's `CSI u` encoding.
use vstd::prelude::*;
use vstd::string::{StrSliceExecFns, StringExecFns};
use vstd::utf8::encode_utf8;

verus! {

/// Whether a key went down, repeats, or went up.
#[derive(Debug, Clone, Copy, PartialEq, Eq, Structural)]
pub enum KeyEventKind {
    Press,
    Repeat,
    Release,
}

} // verus!

verus! {

/// A decimal digit character.
pub open spec fn digit_char(d: int) -> char {
    ('0' as int + d) as char
}

/// The decimal numeral of `n`, without leading zeros.
pub open spec fn decimal(n: nat) -> Seq<char>
    decreases n,
{
    if n < 10 {
        seq![digit_char(n as int)]
    } else {
        decimal(n / 10) + seq![digit_char((n % 10) as int)]
    }
}

/// Appends the decimal numeral of `n`.
pub fn push_decimal(s: &mut String, n: u32)
    ensures
        final(s)@ == old(s)@ + decimal(n as nat),
    decreases n,
{
    if n >= 10 {
        push_decimal(s, n / 10);
    }
    let d = (n % 10) as u8;
    crate::text::push_char(s, (0x30 + d) as char);
    assert(final(s)@ =~= old(s)@ + decimal(n as nat)) by {
        assert(((0x30 + d) as char) == digit_char((n % 10) as int));
    }
}

/// Whether a character is a control character (general category Cc).
pub open spec fn is_control_char(c: char) -> bool {
    (c as u32) < 0x20 || (0x7f <= (c as u32) && (c as u32) < 0xa0)
}

/// The decimal code points of the characters of `s` that are not control
/// characters.
pub open spec fn printable_codes(s: Seq<char>) -> Seq<Seq<char>>
    decreases s.len(),
{
    if s.len() == 0 {
        seq![]
    } else {
        let rest = printable_codes(s.drop_last());
        if is_control_char(s.last()) {
            rest
        } else {
            rest.push(decimal(s.last() as u32 as nat))
        }
    }
}

/// The parts joined with `:` between them.
pub open spec fn colon_joined(parts: Seq<Seq<char>>) -> Seq<char>
    decreases parts.len(),
{
    if parts.len() == 0 {
        seq![]
    } else if parts.len() == 1 {
        parts[0]
    } else {
        colon_joined(parts.drop_last()) + seq![':'] + parts.last()
    }
}

/// The text field of a kitty `CSI u` key report: the code points of the
/// text's printable characters, separated by `:`; none without printable text.
pub open spec fn kitty_text(text: Option<&str>) -> Option<Seq<char>> {
    match text {
        None => None,
        Some(t) => if printable_codes(t@).len() == 0 {
            None
        } else {
            Some(colon_joined(printable_codes(t@)))
        },
    }
}

pub fn kitty_text_field(text: Option<&str>) -> (r: Option<String>)
    ensures
        match r {
            Some(s) => kitty_text(text) == Some(s@),
            None => kitty_text(text) is None,
        },
{
    let t = match text {
        Some(t) => t,
        None => return None,
    };
    let v = crate::text::chars_of(t);
    let mut out = String::new();
    let mut count: usize = 0;
    let mut i: usize = 0;
    while i < v.len()
        invariant
            i <= v@.len(),
            v@ == t@,
            count == printable_codes(v@.subrange(0, i as int)).len(),
            count <= i,
            out@ == colon_joined(printable_codes(v@.subrange(0, i as int))),
        decreases v@.len() - i,
    {
        let c = v[i];
        let code = c as u32;
        assert(v@.subrange(0, i + 1).drop_last() =~= v@.subrange(0, i as int));
        if !(code < 0x20 || (0x7f <= code && code < 0xa0)) {
            if count > 0 {
                crate::text::push_char(&mut out, ':');
            }
            push_decimal(&mut out, code);
            count = count + 1;
            proof {
                let parts = printable_codes(v@.subrange(0, i as int));
                assert(parts.push(decimal(code as nat)).drop_last() =~= parts);
            }
        }
        i = i + 1;
    }
    assert(v@.subrange(0, v@.len() as int) =~= v@);
    if count == 0 {
        None
    } else {
        Some(out)
    }
}

/// A kitty `CSI u` sequence: `ESC [`, the key field, then `;` and the
/// modifier field when there is a modifier or a text field, then `;` and the
/// text field when there is one, and `u`.
pub open spec fn kitty_csi_u_text(first: Seq<char>, mods: Option<Seq<char>>, text: Option<
    Seq<char>,
>) -> Seq<char> {
    let head = seq!['\x1b', '['] + first;
    let with_mods = if mods is Some || text is Some {
        head + seq![';'] + match mods {
            Some(m) => m,
            None => seq![],
        }
    } else {
        head
    };
    let with_text = match text {
        Some(t) => with_mods + seq![';'] + t,
        None => with_mods,
    };
    with_text + seq!['u']
}

/// The view of an optional string.
pub open spec fn opt_view(s: Option<String>) -> Option<Seq<char>> {
    match s {
        Some(v) => Some(v@),
        None => None,
    }
}

/// Formats a kitty `CSI u` key report as UTF-8 bytes.
pub fn format_kitty_csi_u(first: &str, modifier_field: Option<String>, text_field: Option<String>) -> (r:
    Vec<u8>)
    ensures
        r@ == encode_utf8(kitty_csi_u_text(first@, opt_view(modifier_field), opt_view(text_field))),
{
    let mut seq = String::new();
    crate::text::push_char(&mut seq, '\x1b');
    crate::text::push_char(&mut seq, '[');
    seq.append(first);
    if modifier_field.is_some() || text_field.is_some() {
        crate::text::push_char(&mut seq, ';');
        if let Some(mods) = &modifier_field {
            seq.append(mods.as_str());
        }
    }
    if let Some(text) = &text_field {
        crate::text::push_char(&mut seq, ';');
        seq.append(text.as_str());
    }
    crate::text::push_char(&mut seq, 'u');
    assert(seq@ =~= kitty_csi_u_text(first@, opt_view(modifier_field), opt_view(text_field)));
    seq.as_str().as_bytes_vec()
}

} // verus!
