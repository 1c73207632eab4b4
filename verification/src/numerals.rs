//! Decimal numerals: reading them as `str::parse` does for unsigned
//! integers, and writing them.
use crate::input::{decimal, digit_char};
use crate::text::{chars_of, push_char};
use vstd::prelude::*;

verus! {

pub open spec fn is_digit(c: char) -> bool {
    '0' <= c <= '9'
}

/// The number a string of decimal digits spells.
pub open spec fn digits_value(s: Seq<char>) -> int
    decreases s.len(),
{
    if s.len() == 0 {
        0
    } else {
        digits_value(s.drop_last()) * 10 + (s.last() as int - '0' as int)
    }
}

/// The digits of an unsigned numeral: without its leading `+`, if any.
pub open spec fn unsigned_digits(s: Seq<char>) -> Seq<char> {
    if s.len() > 0 && s[0] == '+' {
        s.drop_first()
    } else {
        s
    }
}

/// What `str::parse::<usize>` gives: the value of a non-empty run of decimal
/// digits with an optional leading `+`, when it fits a `usize`.
pub open spec fn parse_usize(s: Seq<char>) -> Option<usize> {
    let d = unsigned_digits(s);
    if d.len() > 0 && (forall|k: int| 0 <= k < d.len() ==> is_digit(#[trigger] d[k])) && digits_value(d)
        <= usize::MAX {
        Some(digits_value(d) as usize)
    } else {
        None
    }
}

proof fn lemma_digits_value_prefix(d: Seq<char>, k: int)
    requires
        0 <= k <= d.len(),
        forall|j: int| 0 <= j < d.len() ==> is_digit(#[trigger] d[j]),
    ensures
        0 <= digits_value(d.subrange(0, k)) <= digits_value(d),
    decreases d.len(),
{
    if k < d.len() {
        let front = d.drop_last();
        assert forall|j: int| 0 <= j < front.len() implies is_digit(#[trigger] front[j]) by {
            assert(front[j] == d[j]);
        }
        lemma_digits_value_prefix(front, k);
        assert(front.subrange(0, k) =~= d.subrange(0, k));
        assert(is_digit(d[d.len() - 1]));
        lemma_digits_value_prefix(front, front.len() as int);
        assert(front.subrange(0, front.len() as int) =~= front);
    } else {
        assert(d.subrange(0, k) =~= d);
        if d.len() > 0 {
            let front = d.drop_last();
            assert forall|j: int| 0 <= j < front.len() implies is_digit(#[trigger] front[j]) by {
                assert(front[j] == d[j]);
            }
            lemma_digits_value_prefix(front, front.len() as int);
            assert(front.subrange(0, front.len() as int) =~= front);
            assert(is_digit(d[d.len() - 1]));
        }
    }
}

/// What `str::parse::<u64>` gives: the same numerals, when they fit a `u64`.
pub open spec fn parse_u64(s: Seq<char>) -> Option<u64> {
    let d = unsigned_digits(s);
    if d.len() > 0 && (forall|k: int| 0 <= k < d.len() ==> is_digit(#[trigger] d[k])) && digits_value(d)
        <= u64::MAX {
        Some(digits_value(d) as u64)
    } else {
        None
    }
}

/// Reads an unsigned decimal numeral, as `str::parse::<usize>` does.
pub fn parse_usize_str(s: &str) -> (r: Option<usize>)
    ensures
        r == parse_usize(s@),
{
    assert(usize::MAX as int <= u64::MAX as int);
    let r = parse_u64_str(s);
    let ghost d = unsigned_digits(s@);
    assert(parse_u64(s@) is None ==> parse_usize(s@) is None);
    match r {
        Some(v) => {
            assert(d.len() > 0 && (forall|k: int| 0 <= k < d.len() ==> is_digit(#[trigger] d[k])));
            proof {
                lemma_digits_value_prefix(d, d.len() as int);
                assert(d.subrange(0, d.len() as int) =~= d);
            }
            assert(digits_value(d) == v as int);
            if v <= usize::MAX as u64 {
                Some(v as usize)
            } else {
                None
            }
        },
        None => None,
    }
}

/// Reads an unsigned decimal numeral, as `str::parse::<u64>` does.
pub fn parse_u64_str(s: &str) -> (r: Option<u64>)
    ensures
        r == parse_u64(s@),
{
    let v = chars_of(s);
    let n = v.len();
    let start: usize = if n > 0 && v[0] == '+' {
        1
    } else {
        0
    };
    let ghost d = unsigned_digits(s@);
    assert(d =~= v@.subrange(start as int, n as int));
    if start == n {
        return None;
    }
    let mut k: usize = start;
    while k < n
        invariant
            start <= k <= n == v@.len(),
            v@ == s@,
            d == unsigned_digits(s@),
            d == v@.subrange(start as int, n as int),
            forall|j: int| 0 <= j < k - start ==> is_digit(#[trigger] d[j]),
        decreases n - k,
    {
        if !('0' <= v[k] && v[k] <= '9') {
            assert(!is_digit(d[k - start]));
            assert(parse_u64(s@) is None);
            return None;
        }
        k = k + 1;
    }
    let mut value: u64 = 0;
    let mut k: usize = start;
    while k < n
        invariant
            start <= k <= n == v@.len(),
            v@ == s@,
            d == unsigned_digits(s@),
            d == v@.subrange(start as int, n as int),
            forall|j: int| 0 <= j < d.len() ==> is_digit(#[trigger] d[j]),
            value == digits_value(d.subrange(0, k - start)),
        decreases n - k,
    {
        let ghost next = d.subrange(0, k - start + 1);
        assert(next.drop_last() =~= d.subrange(0, k - start));
        assert(next.last() == v@[k as int]);
        assert(is_digit(d[k - start]));
        assert(d[k - start] == v@[k as int]);
        let digit = ((v[k] as u32) - ('0' as u32)) as u64;
        assert(digit == next.last() as int - '0' as int);
        match value.checked_mul(10) {
            Some(tens) => match tens.checked_add(digit) {
                Some(sum) => {
                    value = sum;
                },
                None => {
                    proof {
                        lemma_digits_value_prefix(d, k - start + 1);
                        assert(digits_value(next) == value * 10 + digit);
                        assert(digits_value(d) > u64::MAX);
                    }
                    return None;
                },
            },
            None => {
                proof {
                    lemma_digits_value_prefix(d, k - start + 1);
                }
                return None;
            },
        }
        k = k + 1;
    }
    assert(d.subrange(0, n - start) =~= d);
    Some(value)
}

/// The decimal numeral of `n` has only digits and spells `n`.
pub(crate) proof fn lemma_decimal_digits(n: nat)
    ensures
        decimal(n).len() > 0,
        forall|k: int| 0 <= k < decimal(n).len() ==> is_digit(#[trigger] decimal(n)[k]),
        digits_value(decimal(n)) == n,
    decreases n,
{
    if n < 10 {
        let d = decimal(n);
        assert(d.drop_last() =~= Seq::<char>::empty());
        assert(digits_value(d.drop_last()) == 0);
        assert(digit_char(n as int) as int == '0' as int + n);
        assert(d.last() == digit_char(n as int));
    }
    if n >= 10 {
        lemma_decimal_digits(n / 10);
        let d = decimal(n);
        assert(d.drop_last() =~= decimal(n / 10));
        assert(d.last() == digit_char((n % 10) as int));
        assert(digit_char((n % 10) as int) as int == '0' as int + n % 10);
        assert(digits_value(d) == digits_value(decimal(n / 10)) * 10 + n % 10);
        assert forall|k: int| 0 <= k < d.len() implies is_digit(#[trigger] d[k]) by {
            if k < d.len() - 1 {
                assert(d[k] == decimal(n / 10)[k]);
            }
        }
    }
}

/// Reading a number written in decimal gives the number back.
pub proof fn lemma_parse_decimal(n: usize)
    ensures
        parse_usize(decimal(n as nat)) == Some(n),
{
    lemma_decimal_digits(n as nat);
    let d = decimal(n as nat);
    assert(is_digit(d[0]));
    assert(unsigned_digits(d) == d);
}

/// Reading a 64-bit number written in decimal gives the number back.
pub proof fn lemma_parse_decimal_u64(n: u64)
    ensures
        parse_u64(decimal(n as nat)) == Some(n),
{
    lemma_decimal_digits(n as nat);
    let d = decimal(n as nat);
    assert(is_digit(d[0]));
    assert(unsigned_digits(d) == d);
}

/// Appends the decimal numeral of `n`.
pub fn push_decimal_usize(s: &mut String, n: usize)
    ensures
        final(s)@ == old(s)@ + decimal(n as nat),
    decreases n,
{
    if n >= 10 {
        push_decimal_usize(s, n / 10);
    }
    let d = (n % 10) as u8;
    push_char(s, (0x30 + d) as char);
    assert(final(s)@ =~= old(s)@ + decimal(n as nat)) by {
        assert(((0x30 + d) as char) == digit_char((n % 10) as int));
    }
}

/// Appends the decimal numeral of `n`.
pub fn push_decimal_u64(s: &mut String, n: u64)
    ensures
        final(s)@ == old(s)@ + decimal(n as nat),
    decreases n,
{
    if n >= 10 {
        push_decimal_u64(s, n / 10);
    }
    let d = (n % 10) as u8;
    push_char(s, (0x30 + d) as char);
    assert(final(s)@ =~= old(s)@ + decimal(n as nat)) by {
        assert(((0x30 + d) as char) == digit_char((n % 10) as int));
    }
}

} // verus!
