//! Colours: `#RRGGBB` configuration colours and the resolution of cell
//! colours (palette index or packed RGB) to 24-bit RGB.
use crate::grid::COLOR_FLAG_RGB;
use crate::text::{chars_of, is_white_space, push_char, white_space};
use vstd::prelude::*;
use vstd::string::StringExecFns;

verus! {

/// An opaque RGB colour written as `#RRGGBB` in configuration files.
#[derive(Debug, Clone, Copy, PartialEq, Eq, Structural)]
pub struct HexColor {
    pub r: u8,
    pub g: u8,
    pub b: u8,
}

/// The 24-bit value `0xRRGGBB` of three channels.
pub open spec fn rgb24(r: int, g: int, b: int) -> int {
    r * 0x10000 + g * 0x100 + b
}

impl HexColor {
    pub fn new(r: u8, g: u8, b: u8) -> (c: Self)
        ensures
            c == (HexColor { r, g, b }),
    {
        HexColor { r, g, b }
    }

    /// Packs the colour as `0x00RRGGBB`.
    pub fn as_u32_rgb(self) -> (v: u32)
        ensures
            v == rgb24(self.r as int, self.g as int, self.b as int),
    {
        let r = self.r as u32;
        let g = self.g as u32;
        let b = self.b as u32;
        let v = (r << 16) | (g << 8) | b;
        assert(v == r * 0x10000 + g * 0x100 + b) by (bit_vector)
            requires
                r < 256,
                g < 256,
                b < 256,
                v == (r << 16) | (g << 8) | b,
        ;
        v
    }
}


/// The 16 base colours of the palette (Tango), as `0xRRGGBB`.
pub open spec fn base_palette(i: int) -> u32 {
    if i == 0 { 0x000000 }
    else if i == 1 { 0xcc0000 }
    else if i == 2 { 0x4e9a06 }
    else if i == 3 { 0xc4a000 }
    else if i == 4 { 0x3465a4 }
    else if i == 5 { 0x75507b }
    else if i == 6 { 0x06989a }
    else if i == 7 { 0xd3d7cf }
    else if i == 8 { 0x555753 }
    else if i == 9 { 0xef2929 }
    else if i == 10 { 0x8ae234 }
    else if i == 11 { 0xfce94f }
    else if i == 12 { 0x729fcf }
    else if i == 13 { 0xad7fa8 }
    else if i == 14 { 0x34e2e2 }
    else { 0xeeeeec }
}

/// The RGB value of an entry of the 256-colour palette: the 16 base colours,
/// then the 6x6x6 colour cube with levels `0, 51, .., 255`, then a 24-step
/// grey ramp `8, 18, .., 238`.
pub open spec fn indexed_rgb(idx: u8) -> int {
    if idx < 16 {
        base_palette(idx as int) as int
    } else if idx < 232 {
        let v = idx - 16;
        rgb24((v / 36) * 51, ((v % 36) / 6) * 51, (v % 6) * 51)
    } else {
        let v = 8 + (idx - 232) * 10;
        rgb24(v, v, v)
    }
}

/// The RGB value of a cell colour: a packed `0xRRGGBB` when the RGB flag is
/// set, a palette entry (the low byte) otherwise.
pub open spec fn color_rgb(c: u32) -> int {
    if c & COLOR_FLAG_RGB != 0 {
        (c & 0x00ff_ffff) as int
    } else {
        indexed_rgb(c as u8)
    }
}

fn base_palette_rgb(i: u8) -> (v: u32)
    requires
        i < 16,
    ensures
        v == base_palette(i as int),
{
    match i {
        0 => 0x000000,
        1 => 0xcc0000,
        2 => 0x4e9a06,
        3 => 0xc4a000,
        4 => 0x3465a4,
        5 => 0x75507b,
        6 => 0x06989a,
        7 => 0xd3d7cf,
        8 => 0x555753,
        9 => 0xef2929,
        10 => 0x8ae234,
        11 => 0xfce94f,
        12 => 0x729fcf,
        13 => 0xad7fa8,
        14 => 0x34e2e2,
        _ => 0xeeeeec,
    }
}

/// Resolves a cell colour to `0xRRGGBB`.
pub fn to_rgb(c: u32) -> (v: u32)
    ensures
        v == color_rgb(c),
{
    if c & COLOR_FLAG_RGB != 0 {
        c & 0x00ff_ffff
    } else {
        let idx = c as u8;
        if idx < 16 {
            base_palette_rgb(idx)
        } else if idx < 232 {
            let v = idx - 16;
            let r = ((v / 36) * 51) as u32;
            let g = (((v % 36) / 6) * 51) as u32;
            let b = ((v % 6) * 51) as u32;
            r * 0x10000 + g * 0x100 + b
        } else {
            let v = 8 + (idx - 232) as u32 * 10;
            v * 0x10000 + v * 0x100 + v
        }
    }
}

/// `s` without its leading white space.
pub open spec fn trim_start(s: Seq<char>) -> Seq<char>
    decreases s.len(),
{
    if s.len() > 0 && is_white_space(s[0]) {
        trim_start(s.drop_first())
    } else {
        s
    }
}

/// `s` without its trailing white space.
pub open spec fn trim_end(s: Seq<char>) -> Seq<char>
    decreases s.len(),
{
    if s.len() > 0 && is_white_space(s.last()) {
        trim_end(s.drop_last())
    } else {
        s
    }
}

/// `s` without leading or trailing white space.
pub open spec fn trim(s: Seq<char>) -> Seq<char> {
    trim_end(trim_start(s))
}

/// The number of bytes of the UTF-8 encoding of a character.
pub open spec fn utf8_width(c: char) -> int {
    if (c as u32) < 0x80 {
        1
    } else if (c as u32) < 0x800 {
        2
    } else if (c as u32) < 0x10000 {
        3
    } else {
        4
    }
}

/// The number of bytes of the UTF-8 encoding of `s`.
pub open spec fn utf8_len(s: Seq<char>) -> int
    decreases s.len(),
{
    if s.len() == 0 {
        0
    } else {
        utf8_len(s.drop_last()) + utf8_width(s.last())
    }
}

/// The value of a hexadecimal digit, either case.
pub open spec fn hex_digit(c: char) -> Option<u8> {
    if '0' <= c <= '9' {
        Some((c as u32 - '0' as u32) as u8)
    } else if 'a' <= c <= 'f' {
        Some((c as u32 - 'a' as u32 + 10) as u8)
    } else if 'A' <= c <= 'F' {
        Some((c as u32 - 'A' as u32 + 10) as u8)
    } else {
        None
    }
}

/// What `u8::from_str_radix(.., 16)` gives for a two-character string: a
/// leading `+` sign and one digit, or two digits.
pub open spec fn hex_pair(a: char, b: char) -> Option<u8> {
    if a == '+' {
        hex_digit(b)
    } else {
        match (hex_digit(a), hex_digit(b)) {
            (Some(x), Some(y)) => Some((x * 16 + y) as u8),
            _ => None,
        }
    }
}

/// The `k`-th two-byte component of the six bytes after `#`: it parses only
/// when those two bytes are ASCII characters, so that the characters before
/// them are one byte each.
pub open spec fn hex_component(raw: Seq<char>, k: int) -> Option<u8> {
    if 2 * k + 2 <= raw.len() && forall|j: int| 0 <= j < 2 * k + 2 ==> (raw[j] as u32) < 0x80 {
        hex_pair(raw[2 * k], raw[2 * k + 1])
    } else {
        None
    }
}

/// What parsing `#RRGGBB` gives: surrounding white space is ignored; the error
/// message names the first problem and quotes the trimmed input.
pub open spec fn parse_hex_color(input: Seq<char>) -> Result<HexColor, Seq<char>> {
    let s = trim(input);
    if s.len() == 0 || s[0] != '#' {
        Err("expected #RRGGBB, got "@ + s)
    } else {
        let raw = s.drop_first();
        if utf8_len(raw) != 6 {
            Err("expected 6 hex digits, got "@ + s)
        } else {
            match (hex_component(raw, 0), hex_component(raw, 1), hex_component(raw, 2)) {
                (None, _, _) => Err("invalid red component in "@ + s),
                (Some(_), None, _) => Err("invalid green component in "@ + s),
                (Some(_), Some(_), None) => Err("invalid blue component in "@ + s),
                (Some(r), Some(g), Some(b)) => Ok(HexColor { r, g, b }),
            }
        }
    }
}

/// Whether the two bytes of component `k` of the six bytes after `#`, once
/// the components before it were read as ASCII, end inside a character: the
/// character there is three or four bytes long, or it is one byte long and
/// the next is longer. Slicing the string there panics.
pub open spec fn splits_char(raw: Seq<char>, k: int) -> bool {
    2 * k < raw.len() && (utf8_width(raw[2 * k]) >= 3 || (utf8_width(raw[2 * k]) == 1 && 2 * k + 1
        < raw.len() && utf8_width(raw[2 * k + 1]) >= 2))
}

/// The inputs on which parsing `#RRGGBB` panics: six bytes follow `#`, and
/// the first component that is not two hexadecimal ASCII characters splits
/// a character.
pub open spec fn hex_parse_panics(input: Seq<char>) -> bool {
    let s = trim(input);
    let raw = s.drop_first();
    &&& s.len() > 0 && s[0] == '#'
    &&& utf8_len(raw) == 6
    &&& (splits_char(raw, 0) || (hex_component(raw, 0) is Some && splits_char(raw, 1)) || (
    hex_component(raw, 0) is Some && hex_component(raw, 1) is Some && splits_char(raw, 2)))
}

fn char_utf8_width(c: char) -> (w: usize)
    ensures
        w == utf8_width(c),
{
    let v = c as u32;
    if v < 0x80 {
        1
    } else if v < 0x800 {
        2
    } else if v < 0x10000 {
        3
    } else {
        4
    }
}

fn hex_digit_value(c: char) -> (d: Option<u8>)
    ensures
        d == hex_digit(c),
{
    if '0' <= c && c <= '9' {
        Some((c as u32 - '0' as u32) as u8)
    } else if 'a' <= c && c <= 'f' {
        Some((c as u32 - 'a' as u32 + 10) as u8)
    } else if 'A' <= c && c <= 'F' {
        Some((c as u32 - 'A' as u32 + 10) as u8)
    } else {
        None
    }
}

fn hex_pair_value(a: char, b: char) -> (d: Option<u8>)
    ensures
        d == hex_pair(a, b),
{
    if a == '+' {
        hex_digit_value(b)
    } else {
        match (hex_digit_value(a), hex_digit_value(b)) {
            (Some(x), Some(y)) => Some(x * 16 + y),
            _ => None,
        }
    }
}

proof fn lemma_utf8_len_prefix(s: Seq<char>, k: int)
    requires
        0 <= k <= s.len(),
    ensures
        utf8_len(s.subrange(0, k)) <= utf8_len(s),
    decreases s.len(),
{
    if k < s.len() {
        assert(s.drop_last().subrange(0, k) =~= s.subrange(0, k));
        lemma_utf8_len_prefix(s.drop_last(), k);
    } else {
        assert(s.subrange(0, k) =~= s);
    }
}

proof fn lemma_utf8_len_ascii(s: Seq<char>)
    requires
        forall|q: int| 0 <= q < s.len() ==> (s[q] as u32) < 0x80,
    ensures
        utf8_len(s) == s.len(),
    decreases s.len(),
{
    if s.len() > 0 {
        lemma_utf8_len_ascii(s.drop_last());
    }
}

/// `prefix` followed by the characters `v[from..to]`.
fn message(prefix: &str, v: &Vec<char>, from: usize, to: usize) -> (m: String)
    requires
        from <= to <= v.len(),
    ensures
        m@ == prefix@ + v@.subrange(from as int, to as int),
{
    let mut m = String::from_str(prefix);
    let mut k = from;
    while k < to
        invariant
            from <= k <= to <= v.len(),
            m@ == prefix@ + v@.subrange(from as int, k as int),
        decreases to - k,
    {
        push_char(&mut m, v[k]);
        assert(v@.subrange(from as int, k + 1) =~= v@.subrange(from as int, k as int).push(v@[k as int]));
        k = k + 1;
    }
    m
}

impl HexColor {
    /// Parses `#RRGGBB` (hex digits of either case), ignoring surrounding
    /// white space; `None` for the inputs on which slicing the components
    /// would split a character.
    fn parse_core(input: &str) -> (r: Option<Result<HexColor, String>>)
        ensures
            r is None <==> hex_parse_panics(input@),
            match r {
                Some(Ok(c)) => parse_hex_color(input@) == Ok::<HexColor, Seq<char>>(c),
                Some(Err(m)) => parse_hex_color(input@) == Err::<HexColor, Seq<char>>(m@),
                None => true,
            },
    {
        let v = chars_of(input);
        let n = v.len();
        let mut i: usize = 0;
        assert(v@.subrange(0, n as int) =~= v@);
        while i < n && white_space(v[i])
            invariant
                i <= n == v@.len(),
                trim_start(v@.subrange(i as int, n as int)) == trim_start(v@),
            decreases n - i,
        {
            assert(v@.subrange(i as int, n as int).drop_first() =~= v@.subrange(i + 1, n as int));
            i = i + 1;
        }
        assert(trim_start(v@) == v@.subrange(i as int, n as int));
        let mut j: usize = n;
        while j > i && white_space(v[j - 1])
            invariant
                i <= j <= n == v@.len(),
                trim_end(v@.subrange(i as int, j as int)) == trim(v@),
            decreases j - i,
        {
            assert(v@.subrange(i as int, j as int).drop_last() =~= v@.subrange(i as int, j - 1));
            j = j - 1;
        }
        let ghost s = v@.subrange(i as int, j as int);
        assert(trim(input@) == s);
        if i == j || v[i] != '#' {
            return Some(Err(message("expected #RRGGBB, got ", &v, i, j)));
        }
        let ghost raw = s.drop_first();
        // The byte length of the characters after `#`, stopping once past six.
        let mut total: usize = 0;
        let mut k: usize = i + 1;
        while k < j && total <= 6
            invariant
                i + 1 <= k <= j <= n == v@.len(),
                raw == v@.subrange(i + 1, j as int),
                total == utf8_len(v@.subrange(i + 1, k as int)),
            decreases j - k,
        {
            assert(v@.subrange(i + 1, k + 1).drop_last() =~= v@.subrange(i + 1, k as int));
            total = total + char_utf8_width(v[k]);
            k = k + 1;
        }
        proof {
            assert(raw.subrange(0, k - (i + 1)) =~= v@.subrange(i + 1, k as int));
            lemma_utf8_len_prefix(raw, k - (i + 1));
        }
        if total != 6 || k < j {
            return Some(Err(message("expected 6 hex digits, got ", &v, i, j)));
        }
        assert(v@.subrange(i + 1, k as int) =~= raw);
        // The number of ASCII characters at the start of `raw`.
        let mut p: usize = 0;
        while p < j - (i + 1) && (v[i + 1 + p] as u32) < 0x80
            invariant
                i + 1 + p <= j <= n == v@.len(),
                raw == v@.subrange(i + 1, j as int),
                forall|q: int| 0 <= q < p ==> (raw[q] as u32) < 0x80,
            decreases j - (i + 1) - p,
        {
            p = p + 1;
        }
        assert(p < raw.len() ==> (raw[p as int] as u32) >= 0x80);
        let ghost comps = (hex_component(raw, 0), hex_component(raw, 1), hex_component(raw, 2));
        let mut parts: [u8; 3] = [0, 0, 0];
        let mut c: usize = 0;
        while c < 3
            invariant
                c <= 3,
                i + 1 + p <= j <= n == v@.len(),
                raw == v@.subrange(i + 1, j as int),
                forall|q: int| 0 <= q < p ==> (raw[q] as u32) < 0x80,
                p < raw.len() ==> (raw[p as int] as u32) >= 0x80,
                forall|q: int| 0 <= q < c ==> hex_component(raw, q) == Some(#[trigger] parts@[q]),
                utf8_len(raw) == 6,
                trim(input@) == s,
                s == v@.subrange(i as int, j as int),
                s.len() > 0 && s[0] == '#',
                raw == s.drop_first(),
            decreases 3 - c,
        {
            let part = if 2 * c + 2 <= p {
                hex_pair_value(v[i + 1 + 2 * c], v[i + 2 + 2 * c])
            } else {
                proof {
                    if p == raw.len() {
                        lemma_utf8_len_ascii(raw);
                    }
                    assert(!(forall|q: int| 0 <= q < 2 * c + 2 ==> (raw[q] as u32) < 0x80)) by {
                        assert((raw[p as int] as u32) >= 0x80);
                    }
                }
                None
            };
            assert(part == hex_component(raw, c as int));
            match part {
                Some(value) => {
                    parts[c] = value;
                },
                None => {
                    assert(c > 0 ==> hex_component(raw, 0) == Some(parts@[0]));
                    assert(c > 1 ==> hex_component(raw, 1) == Some(parts@[1]));
                    // Components before this one were ASCII, so its first
                    // character starts at byte 2c.
                    proof {
                        if c > 0 {
                            assert(hex_component(raw, c as int - 1) == Some(parts@[c - 1]));
                            assert(forall|q: int| 0 <= q < 2 * c ==> (raw[q] as u32) < 0x80);
                        }
                        if raw.len() <= 2 * c {
                            assert(raw.subrange(0, raw.len() as int) =~= raw);
                            lemma_utf8_len_ascii(raw);
                        }
                    }
                    let first = char_utf8_width(v[i + 1 + 2 * c]);
                    let splits = first >= 3 || (first == 1 && i + 2 + 2 * c < j && char_utf8_width(
                        v[i + 2 + 2 * c],
                    ) >= 2);
                    assert(splits == splits_char(raw, c as int));
                    if splits {
                        return None;
                    }
                    let prefix = if c == 0 {
                        "invalid red component in "
                    } else if c == 1 {
                        "invalid green component in "
                    } else {
                        "invalid blue component in "
                    };
                    return Some(Err(message(prefix, &v, i, j)));
                },
            }
            c = c + 1;
        }
        assert(hex_component(raw, 0) == Some(parts@[0]));
        assert(hex_component(raw, 1) == Some(parts@[1]));
        assert(hex_component(raw, 2) == Some(parts@[2]));
        Some(Ok(HexColor { r: parts[0], g: parts[1], b: parts[2] }))
    }

    /// Parses `#RRGGBB` (hex digits of either case), ignoring surrounding
    /// white space. Slicing the two-byte components must not split a
    /// character (see `parse_would_panic`).
    pub fn parse(input: &str) -> (r: Result<HexColor, String>)
        requires
            !hex_parse_panics(input@),
        ensures
            match r {
                Ok(c) => parse_hex_color(input@) == Ok::<HexColor, Seq<char>>(c),
                Err(m) => parse_hex_color(input@) == Err::<HexColor, Seq<char>>(m@),
            },
    {
        match Self::parse_core(input) {
            Some(r) => r,
            None => {
                proof {
                    assert(false);
                }
                Err(String::new())
            },
        }
    }

    /// Whether parsing `input` would slice a component in the middle of a
    /// character.
    pub fn parse_would_panic(input: &str) -> (b: bool)
        ensures
            b == hex_parse_panics(input@),
    {
        Self::parse_core(input).is_none()
    }
}

/// The lower-case hexadecimal digit of a value below 16.
pub open spec fn hex_char(d: int) -> char {
    if d < 10 {
        ('0' as int + d) as char
    } else {
        ('a' as int + d - 10) as char
    }
}

/// `#rrggbb` in lower-case hexadecimal.
pub open spec fn hex_color_text(c: HexColor) -> Seq<char> {
    seq![
        '#',
        hex_char((c.r / 16) as int),
        hex_char((c.r % 16) as int),
        hex_char((c.g / 16) as int),
        hex_char((c.g % 16) as int),
        hex_char((c.b / 16) as int),
        hex_char((c.b % 16) as int),
    ]
}

fn hex_digit_char(d: u8) -> (c: char)
    requires
        d < 16,
    ensures
        c == hex_char(d as int),
{
    if d < 10 {
        (0x30 + d) as char
    } else {
        (0x61 + d - 10) as char
    }
}

impl HexColor {
    /// The colour as `#rrggbb`, the form it is written back to configuration.
    pub fn to_hex_string(&self) -> (s: String)
        ensures
            s@ == hex_color_text(*self),
    {
        let mut s = String::new();
        push_char(&mut s, '#');
        push_char(&mut s, hex_digit_char(self.r / 16));
        push_char(&mut s, hex_digit_char(self.r % 16));
        push_char(&mut s, hex_digit_char(self.g / 16));
        push_char(&mut s, hex_digit_char(self.g % 16));
        push_char(&mut s, hex_digit_char(self.b / 16));
        push_char(&mut s, hex_digit_char(self.b % 16));
        assert(s@ =~= hex_color_text(*self));
        s
    }
}

/// The error that `from_str` gives where slicing a component would split a
/// character.
pub open spec fn split_component_message() -> Seq<char> {
    "component is not on a character boundary"@
}

impl std::str::FromStr for HexColor {
    type Err = String;

    fn from_str(input: &str) -> (r: Result<HexColor, String>)
        ensures
            match r {
                Ok(c) => !hex_parse_panics(input@) && parse_hex_color(input@) == Ok::<
                    HexColor,
                    Seq<char>,
                >(c),
                Err(m) => if hex_parse_panics(input@) {
                    m@ == split_component_message()
                } else {
                    parse_hex_color(input@) == Err::<HexColor, Seq<char>>(m@)
                },
            },
    {
        match HexColor::parse_core(input) {
            Some(r) => r,
            None => Err("component is not on a character boundary".to_owned()),
        }
    }
}

/// A colour written as `#rrggbb` parses back to itself.
pub proof fn lemma_hex_color_text_roundtrip(c: HexColor)
    ensures
        parse_hex_color(hex_color_text(c)) == Ok::<HexColor, Seq<char>>(c),
{
    let t = hex_color_text(c);
    assert(!is_white_space(t[0]));
    assert(trim_start(t) == t);
    assert(t.last() == hex_char((c.b % 16) as int));
    assert(!is_white_space(t.last()));
    assert(trim_end(t) == t);
    let raw = t.drop_first();
    assert(raw =~= seq![
        hex_char((c.r / 16) as int),
        hex_char((c.r % 16) as int),
        hex_char((c.g / 16) as int),
        hex_char((c.g % 16) as int),
        hex_char((c.b / 16) as int),
        hex_char((c.b % 16) as int),
    ]);
    lemma_utf8_len_ascii(raw);
    lemma_hex_char_digit((c.r / 16) as int);
    lemma_hex_char_digit((c.r % 16) as int);
    lemma_hex_char_digit((c.g / 16) as int);
    lemma_hex_char_digit((c.g % 16) as int);
    lemma_hex_char_digit((c.b / 16) as int);
    lemma_hex_char_digit((c.b % 16) as int);
    assert(hex_component(raw, 0) == Some(c.r));
    assert(hex_component(raw, 1) == Some(c.g));
    assert(hex_component(raw, 2) == Some(c.b));
}

proof fn lemma_hex_char_digit(d: int)
    requires
        0 <= d < 16,
    ensures
        hex_digit(hex_char(d)) == Some(d as u8),
        hex_char(d) != '+',
        (hex_char(d) as u32) < 0x80,
{
}


/// The palette entries 16 to 231 form a 6x6x6 colour cube: entry
/// `16 + 36 r + 6 g + b` (each of `r`, `g`, `b` below 6) is red `51 r`, green
/// `51 g` and blue `51 b`, packed as `0xRRGGBB`. So 196 is pure red, 46 pure
/// green and 21 pure blue.
pub proof fn lemma_colour_cube(r: int, g: int, b: int)
    requires
        0 <= r < 6,
        0 <= g < 6,
        0 <= b < 6,
    ensures
        color_rgb((16 + 36 * r + 6 * g + b) as u32) == (51 * r) * 0x10000 + (51 * g) * 0x100 + 51
            * b,
{
    let c: u32 = (16 + 36 * r + 6 * g + b) as u32;
    assert(16 <= c < 232);
    assert(c & COLOR_FLAG_RGB == 0) by (bit_vector)
        requires
            c < 232,
            COLOR_FLAG_RGB == 0x8000_0000u32,
    ;
    assert((c as u8) as u32 == c) by (bit_vector)
        requires
            c < 232,
    ;
    let v = (c as u8) - 16;
    assert(v == 36 * r + 6 * g + b);
    assert(v / 36 == r && (v % 36) / 6 == g && v % 6 == b) by (nonlinear_arith)
        requires
            v == 36 * r + 6 * g + b,
            0 <= r < 6,
            0 <= g < 6,
            0 <= b < 6,
    ;
}

/// The palette entries 232 to 255 are a grey ramp: entry `232 + k` has red,
/// green and blue all `8 + 10 k`.
pub proof fn lemma_grey_ramp(k: int)
    requires
        0 <= k < 24,
    ensures
        color_rgb((232 + k) as u32) == (8 + 10 * k) * 0x10000 + (8 + 10 * k) * 0x100 + (8 + 10 * k),
{
    let c: u32 = (232 + k) as u32;
    assert(c & COLOR_FLAG_RGB == 0) by (bit_vector)
        requires
            c < 256,
            COLOR_FLAG_RGB == 0x8000_0000u32,
    ;
    assert((c as u8) as u32 == c) by (bit_vector)
        requires
            c < 256,
    ;
}

/// A colour with the RGB flag set is its low 24 bits, `0xRRGGBB`: the
/// channels come back as they were packed.
pub proof fn lemma_true_colour(r: u8, g: u8, b: u8)
    ensures
        color_rgb(COLOR_FLAG_RGB | ((r as u32) << 16) | ((g as u32) << 8) | (b as u32)) == (r as int)
            * 0x10000 + (g as int) * 0x100 + (b as int),
{
    let c: u32 = COLOR_FLAG_RGB | ((r as u32) << 16) | ((g as u32) << 8) | (b as u32);
    assert(c & COLOR_FLAG_RGB != 0 && c & 0x00ff_ffff == (r as u32) * 0x10000 + (g as u32)
        * 0x100 + (b as u32)) by (bit_vector)
        requires
            COLOR_FLAG_RGB == 0x8000_0000u32,
            c == COLOR_FLAG_RGB | ((r as u32) << 16) | ((g as u32) << 8) | (b as u32),
    ;
}

} // verus!
