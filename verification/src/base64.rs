//! Lenient base64 decoding as terminals see it in OSC 52 clipboard requests
//! and kitty graphics payloads: padding and line breaks are skipped anywhere,
//! any other byte outside the alphabet is an error, and trailing bits that do
//! not fill a byte are dropped.
use vstd::prelude::*;

verus! {

/// The 6-bit value of a byte of the standard base64 alphabet.
pub open spec fn sextet_value(b: u8) -> Option<u8> {
    if 0x41 <= b <= 0x5a {
        Some((b - 0x41) as u8)
    } else if 0x61 <= b <= 0x7a {
        Some((b - 0x61 + 26) as u8)
    } else if 0x30 <= b <= 0x39 {
        Some((b - 0x30 + 52) as u8)
    } else if b == 0x2b {
        Some(62u8)
    } else if b == 0x2f {
        Some(63u8)
    } else {
        None
    }
}

/// Bytes that are skipped wherever they occur: `=`, line feed, carriage return.
pub open spec fn is_skipped(b: u8) -> bool {
    b == 0x3d || b == 0x0a || b == 0x0d
}

/// The 6-bit values of the input, or `None` when it holds a byte that is
/// neither skipped nor part of the alphabet.
pub open spec fn sextets(input: Seq<u8>) -> Option<Seq<u8>>
    decreases input.len(),
{
    if input.len() == 0 {
        Some(Seq::empty())
    } else {
        match sextets(input.drop_last()) {
            None => None,
            Some(s) => {
                let b = input.last();
                if is_skipped(b) {
                    Some(s)
                } else {
                    match sextet_value(b) {
                        Some(v) => Some(s.push(v)),
                        None => None,
                    }
                }
            },
        }
    }
}

/// The bytes carried by 6-bit values: every group of four gives three bytes,
/// and a final group of two or three gives one or two bytes.
pub open spec fn bytes_of_sextets(s: Seq<u8>) -> Seq<u8>
    decreases s.len(),
{
    if s.len() >= 4 {
        seq![
            (s[0] * 4 + s[1] / 16) as u8,
            ((s[1] % 16) * 16 + s[2] / 4) as u8,
            ((s[2] % 4) * 64 + s[3]) as u8,
        ] + bytes_of_sextets(s.skip(4))
    } else if s.len() == 3 {
        seq![(s[0] * 4 + s[1] / 16) as u8, ((s[1] % 16) * 16 + s[2] / 4) as u8]
    } else if s.len() == 2 {
        seq![(s[0] * 4 + s[1] / 16) as u8]
    } else {
        Seq::empty()
    }
}

/// The decoded bytes of `input`, or `None` when it holds an invalid byte.
pub open spec fn base64_decoded(input: Seq<u8>) -> Option<Seq<u8>> {
    match sextets(input) {
        Some(s) => Some(bytes_of_sextets(s)),
        None => None,
    }
}

/// The byte that one more 6-bit value completes after `s`, if it completes one.
pub open spec fn completed_byte(s: Seq<u8>, v: u8) -> Seq<u8> {
    let r = s.len() % 4;
    if r == 0 {
        Seq::empty()
    } else if r == 1 {
        seq![(s.last() * 4 + v / 16) as u8]
    } else if r == 2 {
        seq![((s.last() % 16) * 16 + v / 4) as u8]
    } else {
        seq![((s.last() % 4) * 64 + v) as u8]
    }
}

/// Appending one 6-bit value appends at most the one byte it completes.
pub proof fn lemma_bytes_of_sextets_push(s: Seq<u8>, v: u8)
    requires
        forall|i: int| 0 <= i < s.len() ==> s[i] < 64,
        v < 64,
    ensures
        bytes_of_sextets(s.push(v)) == bytes_of_sextets(s) + completed_byte(s, v),
    decreases s.len(),
{
    if s.len() >= 4 {
        let t = s.skip(4);
        assert forall|i: int| 0 <= i < t.len() implies t[i] < 64 by {
            assert(t[i] == s[i + 4]);
        }
        lemma_bytes_of_sextets_push(t, v);
        let sp = s.push(v);
        assert(sp.skip(4) =~= t.push(v));
        assert(t.len() % 4 == s.len() % 4);
        if s.len() % 4 != 0 {
            assert(t.last() == s.last());
        }
        assert(completed_byte(t, v) == completed_byte(s, v));
        assert(sp[0] == s[0] && sp[1] == s[1] && sp[2] == s[2] && sp[3] == s[3]);
        let q = seq![
            (s[0] * 4 + s[1] / 16) as u8,
            ((s[1] % 16) * 16 + s[2] / 4) as u8,
            ((s[2] % 4) * 64 + s[3]) as u8,
        ];
        assert(bytes_of_sextets(sp) == q + bytes_of_sextets(t.push(v)));
        assert(bytes_of_sextets(s) == q + bytes_of_sextets(t));
        let c = completed_byte(s, v);
        assert(q + (bytes_of_sextets(t) + c) =~= (q + bytes_of_sextets(t)) + c);
    } else if s.len() == 3 {
        let sp = s.push(v);
        assert(sp.skip(4) =~= Seq::<u8>::empty());
        assert(bytes_of_sextets(sp.skip(4)) =~= Seq::<u8>::empty());
        assert(sp[0] == s[0] && sp[1] == s[1] && sp[2] == s[2] && sp[3] == v);
        assert(bytes_of_sextets(s.push(v)) =~= bytes_of_sextets(s) + completed_byte(s, v));
    } else if s.len() == 2 {
        assert(bytes_of_sextets(s.push(v)) =~= bytes_of_sextets(s) + completed_byte(s, v));
    } else if s.len() == 1 {
        assert(bytes_of_sextets(s.push(v)) =~= bytes_of_sextets(s) + completed_byte(s, v));
    } else {
        assert(bytes_of_sextets(s.push(v)) =~= bytes_of_sextets(s) + completed_byte(s, v));
    }
}

proof fn lemma_sextets_small(input: Seq<u8>)
    requires
        sextets(input) is Some,
    ensures
        forall|i: int|
            0 <= i < sextets(input).unwrap().len() ==> #[trigger] sextets(input).unwrap()[i] < 64,
    decreases input.len(),
{
    if input.len() > 0 {
        lemma_sextets_small(input.drop_last());
    }
}

/// The 6-bit value of `b`, if it is a base64 alphabet byte.
fn sextet_of(b: u8) -> (v: Option<u8>)
    ensures
        v == sextet_value(b),
{
    if 0x41 <= b && b <= 0x5a {
        Some(b - 0x41)
    } else if 0x61 <= b && b <= 0x7a {
        Some(b - 0x61 + 26)
    } else if 0x30 <= b && b <= 0x39 {
        Some(b - 0x30 + 52)
    } else if b == 0x2b {
        Some(62)
    } else if b == 0x2f {
        Some(63)
    } else {
        None
    }
}

/// Decodes lenient base64; `None` on a byte outside the alphabet that is
/// not skipped.
pub fn decode_lenient(input: &[u8]) -> (r: Option<Vec<u8>>)
    ensures
        match r {
            Some(out) => base64_decoded(input@) == Some(out@),
            None => base64_decoded(input@) is None,
        },
{
    let mut out: Vec<u8> = Vec::new();
    let mut buf: u32 = 0;
    let mut bits: u32 = 0;
    let mut i: usize = 0;
    let ghost mut s: Seq<u8> = Seq::empty();
    let ghost mut last: u8 = 0;
    proof {
        assert(input@.subrange(0, 0) =~= Seq::<u8>::empty());
    }
    while i < input.len()
        invariant
            i <= input@.len(),
            sextets(input@.subrange(0, i as int)) == Some(s),
            forall|k: int| 0 <= k < s.len() ==> s[k] < 64,
            out@ == bytes_of_sextets(s),
            s.len() > 0 ==> last == s.last(),
            s.len() % 4 == 0 ==> bits == 0 && buf == 0,
            s.len() % 4 == 1 ==> bits == 6 && buf == last,
            s.len() % 4 == 2 ==> bits == 4 && buf == last % 16,
            s.len() % 4 == 3 ==> bits == 2 && buf == last % 4,
        decreases input@.len() - i,
    {
        let b = input[i];
        proof {
            assert(input@.subrange(0, i + 1).drop_last() =~= input@.subrange(0, i as int));
            assert(input@.subrange(0, i + 1).last() == b);
        }
        if b == 0x3d || b == 0x0a || b == 0x0d {
            i = i + 1;
            continue;
        }
        let v = match sextet_of(b) {
            Some(v) => v,
            None => {
                proof {
                    lemma_sextets_none_extends(input@, (i + 1) as int);
                }
                return None;
            },
        };
        let ghost prev = s;
        proof {
            lemma_bytes_of_sextets_push(s, v);
            s = s.push(v);
            last = v;
        }
        let v32 = v as u32;
        let old_buf = buf;
        let old_bits = bits;
        buf = (buf << 6) | v32;
        bits = bits + 6;
        if bits >= 8 {
            bits = bits - 8;
            let byte = #[verifier::truncate] ((buf >> bits) as u8);
            out.push(byte);
            assert(bits < 8 ==> (1u32 << bits) >= 1) by (bit_vector);
            let mask = (1u32 << bits) - 1;
            buf = buf & mask;
            proof {
                assert(bits == 4 ==> mask == 15) by (bit_vector)
                    requires
                        mask == (1u32 << bits) - 1,
                ;
                assert(bits == 2 ==> mask == 3) by (bit_vector)
                    requires
                        mask == (1u32 << bits) - 1,
                ;
                assert(bits == 0 ==> mask == 0) by (bit_vector)
                    requires
                        mask == (1u32 << bits) - 1,
                ;
                let pl = prev.last();
                if old_bits == 6 {
                    assert(byte == (pl * 4 + v / 16) as u8 && buf == v % 16) by (bit_vector)
                        requires
                            old_buf == pl as u32,
                            pl < 64,
                            v < 64,
                            v32 == v as u32,
                            byte == ((((old_buf << 6) | v32) >> 4u32) as u8),
                            buf == (((old_buf << 6) | v32) & 15u32),
                    ;
                } else if old_bits == 4 {
                    assert(byte == ((pl % 16) * 16 + v / 4) as u8 && buf == v % 4) by (bit_vector)
                        requires
                            old_buf == (pl % 16) as u32,
                            pl < 64,
                            v < 64,
                            v32 == v as u32,
                            byte == ((((old_buf << 6) | v32) >> 2u32) as u8),
                            buf == (((old_buf << 6) | v32) & 3u32),
                    ;
                } else {
                    assert(old_bits == 2);
                    assert(byte == ((pl % 4) * 64 + v) as u8 && buf == 0) by (bit_vector)
                        requires
                            old_buf == (pl % 4) as u32,
                            pl < 64,
                            v < 64,
                            v32 == v as u32,
                            byte == ((((old_buf << 6) | v32) >> 0u32) as u8),
                            buf == (((old_buf << 6) | v32) & 0u32),
                    ;
                }
            }
        } else {
            proof {
                assert(old_bits == 0 && old_buf == 0);
                assert(buf == v) by (bit_vector)
                    requires
                        old_buf == 0u32,
                        v32 == v as u32,
                        buf == (old_buf << 6) | v32,
                ;
            }
        }
        i = i + 1;
    }
    proof {
        assert(input@.subrange(0, input@.len() as int) =~= input@);
    }
    Some(out)
}

/// Once a prefix holds an invalid byte, so does every longer prefix.
proof fn lemma_sextets_none_extends(input: Seq<u8>, k: int)
    requires
        0 < k <= input.len(),
        sextets(input.subrange(0, k - 1)) is Some,
        !is_skipped(input[k - 1]),
        sextet_value(input[k - 1]) is None,
    ensures
        sextets(input) is None,
    decreases input.len() - k,
{
    assert(input.subrange(0, k).drop_last() =~= input.subrange(0, k - 1));
    if k == input.len() {
        assert(input.subrange(0, k) =~= input);
    } else {
        lemma_sextets_none_prefix(input, k);
    }
}

proof fn lemma_sextets_none_prefix(input: Seq<u8>, k: int)
    requires
        0 < k <= input.len(),
        sextets(input.subrange(0, k)) is None,
    ensures
        sextets(input) is None,
    decreases input.len() - k,
{
    if k < input.len() {
        assert(input.subrange(0, k + 1).drop_last() =~= input.subrange(0, k));
        lemma_sextets_none_prefix(input, k + 1);
    } else {
        assert(input.subrange(0, k) =~= input);
    }
}


/// The standard base64 alphabet: `A`-`Z`, `a`-`z`, `0`-`9`, `+`, `/` for the
/// values 0 to 63.
pub open spec fn alphabet_byte(v: int) -> u8 {
    if v < 26 {
        (0x41 + v) as u8
    } else if v < 52 {
        (0x61 + v - 26) as u8
    } else if v < 62 {
        (0x30 + v - 52) as u8
    } else if v == 62 {
        0x2bu8
    } else {
        0x2fu8
    }
}

/// Any three bytes, written as the four base64 characters of their 24 bits
/// (high bits first), decode back to the same three bytes.
pub proof fn lemma_three_bytes_roundtrip(a: u8, b: u8, c: u8)
    ensures
        base64_decoded(
            seq![
                alphabet_byte((a / 4) as int),
                alphabet_byte((a % 4) * 16 + b / 16),
                alphabet_byte((b % 16) * 4 + c / 64),
                alphabet_byte((c % 64) as int),
            ],
        ) == Some(seq![a, b, c]),
{
    let v0: int = (a / 4) as int;
    let v1: int = (a % 4) * 16 + b / 16;
    let v2: int = (b % 16) * 4 + c / 64;
    let v3: int = (c % 64) as int;
    let input = seq![alphabet_byte(v0), alphabet_byte(v1), alphabet_byte(v2), alphabet_byte(v3)];
    assert(0 <= v1 < 64 && 0 <= v2 < 64) by (nonlinear_arith)
        requires
            v1 == (a % 4) * 16 + b / 16,
            v2 == (b % 16) * 4 + c / 64,
            a < 256,
            b < 256,
            c < 256,
    ;
    lemma_alphabet_value(v0);
    lemma_alphabet_value(v1);
    lemma_alphabet_value(v2);
    lemma_alphabet_value(v3);
    assert(input.drop_last() =~= seq![alphabet_byte(v0), alphabet_byte(v1), alphabet_byte(v2)]);
    assert(input.drop_last().drop_last() =~= seq![alphabet_byte(v0), alphabet_byte(v1)]);
    assert(input.drop_last().drop_last().drop_last() =~= seq![alphabet_byte(v0)]);
    assert(input.drop_last().drop_last().drop_last().drop_last() =~= Seq::<u8>::empty());
    reveal_with_fuel(sextets, 5);
    let sx = seq![v0 as u8, v1 as u8, v2 as u8, v3 as u8];
    assert(sextets(input) =~= Some(sx));
    assert(sx.skip(4) =~= Seq::<u8>::empty());
    assert(v0 * 4 + v1 / 16 == a && (v1 % 16) * 16 + v2 / 4 == b && (v2 % 4) * 64 + v3 == c)
        by (nonlinear_arith)
        requires
            v0 == a / 4,
            v1 == (a % 4) * 16 + b / 16,
            v2 == (b % 16) * 4 + c / 64,
            v3 == c % 64,
            a < 256,
            b < 256,
            c < 256,
    ;
    assert(sx[0] == v0 && sx[1] == v1 && sx[2] == v2 && sx[3] == v3);
    reveal_with_fuel(bytes_of_sextets, 2);
    assert(bytes_of_sextets(sx.skip(4)) =~= Seq::<u8>::empty());
    assert(bytes_of_sextets(sx) =~= seq![a, b, c]);
}

proof fn lemma_alphabet_value(v: int)
    requires
        0 <= v < 64,
    ensures
        sextet_value(alphabet_byte(v)) == Some(v as u8),
        !is_skipped(alphabet_byte(v)),
{
}

/// Padding and line breaks are skipped wherever they occur: one more such
/// byte at the end of the input changes nothing.
pub proof fn lemma_skipped_byte_ignored(input: Seq<u8>, b: u8)
    requires
        is_skipped(b),
    ensures
        base64_decoded(input.push(b)) == base64_decoded(input),
{
    assert(input.push(b).drop_last() =~= input);
}

/// A byte outside the alphabet that is not skipped makes the whole input
/// invalid, wherever it is followed by more input.
pub proof fn lemma_invalid_byte_rejected(input: Seq<u8>, b: u8)
    requires
        !is_skipped(b),
        sextet_value(b) is None,
    ensures
        base64_decoded(input.push(b)) is None,
{
    assert(input.push(b).drop_last() =~= input);
}

} // verus!
