//! Reading numbers and addresses out of command text.

use vstd::prelude::*;
use vstd::string::*;

verus! {

/// The value of `c` as a digit, whatever the radix: `0-9`, then `a-z` or
/// `A-Z` for ten and up. Anything else is no digit.
pub open spec fn digit_of(c: char) -> Option<nat> {
    if '0' <= c <= '9' {
        Some((c as nat - '0' as nat) as nat)
    } else if 'a' <= c <= 'z' {
        Some((c as nat - 'a' as nat + 10) as nat)
    } else if 'A' <= c <= 'Z' {
        Some((c as nat - 'A' as nat + 10) as nat)
    } else {
        None
    }
}

/// The number that a run of digits denotes in `radix`, most significant digit
/// first, or `None` if a character is not a digit of that radix. The empty
/// run denotes zero.
pub open spec fn digits_value(digits: Seq<char>, radix: nat) -> Option<nat>
    decreases digits.len(),
{
    if digits.len() == 0 {
        Some(0)
    } else {
        match (digits_value(digits.drop_last(), radix), digit_of(digits.last())) {
            (Some(high), Some(low)) => if low < radix {
                Some(high * radix + low)
            } else {
                None
            },
            _ => None,
        }
    }
}

/// The unsigned number that `text` denotes in `radix`: an optional `+`, then
/// at least one digit, and a value that fits in 64 bits.
pub open spec fn number_of(text: Seq<char>, radix: nat) -> Option<u64> {
    let digits = if text.len() > 0 && text[0] == '+' {
        text.skip(1)
    } else {
        text
    };
    if digits.len() == 0 {
        None
    } else {
        match digits_value(digits, radix) {
            Some(value) => if value <= u64::MAX {
                Some(value as u64)
            } else {
                None
            },
            None => None,
        }
    }
}

/// The address that `text` denotes: hexadecimal, with or without a leading
/// `0x` or `0X`.
pub open spec fn address_of(text: Seq<char>) -> Option<u64> {
    if text.len() >= 2 && text[0] == '0' && (text[1] == 'x' || text[1] == 'X') {
        number_of(text.skip(2), 16)
    } else {
        number_of(text, 16)
    }
}

/// A run of digits that denotes a number is made of digits throughout, and
/// no prefix of it denotes more than the whole.
proof fn lemma_digits_prefix(digits: Seq<char>, radix: nat, n: int)
    requires
        0 <= n <= digits.len(),
        radix >= 1,
        digits_value(digits, radix) is Some,
    ensures
        digits_value(digits.take(n), radix) is Some,
        digits_value(digits.take(n), radix)->0 <= digits_value(digits, radix)->0,
    decreases digits.len(),
{
    if n == digits.len() {
        assert(digits.take(n) =~= digits);
    } else {
        let front = digits.drop_last();
        assert(front.take(n) =~= digits.take(n));
        lemma_digits_prefix(front, radix, n);
        let high = digits_value(front, radix)->0;
        assert(high <= high * radix) by (nonlinear_arith)
            requires
                radix >= 1,
                high >= 0,
        ;
    }
}

fn digit(c: char) -> (d: Option<u64>)
    ensures
        d is Some == digit_of(c) is Some,
        d is Some ==> d->0 == digit_of(c)->0 && d->0 < 36,
{
    let code: u32 = c as u32;
    if 48 <= code && code <= 57 {
        Some((code - 48) as u64)
    } else if 97 <= code && code <= 122 {
        Some((code - 97 + 10) as u64)
    } else if 65 <= code && code <= 90 {
        Some((code - 65 + 10) as u64)
    } else {
        None
    }
}

/// Parses the part of `text` from character `from` on as an unsigned number.
pub(crate) fn parse_from(text: &str, from: usize, radix: u64) -> (parsed: Option<u64>)
    requires
        from <= text@.len(),
        2 <= radix <= 36,
    ensures
        parsed == number_of(text@.skip(from as int), radix as nat),
{
    let n: usize = text.unicode_len();
    let ghost tail = text@.skip(from as int);
    let mut i: usize = from;
    if i < n && text.get_char(i) == '+' {
        i = i + 1;
    }
    if i == n {
        return None;
    }
    let start: usize = i;
    let ghost digits = text@.skip(start as int);
    assert(digits =~= if tail.len() > 0 && tail[0] == '+' {
        tail.skip(1)
    } else {
        tail
    });
    let ghost goal = number_of(tail, radix as nat);
    let mut acc: u64 = 0;
    while i < n
        invariant
            start <= i <= n,
            start < n,
            goal == match digits_value(digits, radix as nat) {
                Some(value) => if value <= u64::MAX {
                    Some(value as u64)
                } else {
                    None
                },
                None => None,
            },
            n == text@.len(),
            digits == text@.skip(start as int),
            2 <= radix <= 36,
            digits_value(digits.take(i - start), radix as nat) == Some(acc as nat),
            goal == number_of(text@.skip(from as int), radix as nat),
        decreases n - i,
    {
        let c: char = text.get_char(i);
        let ghost shorter = digits.take(i - start);
        let ghost longer = digits.take(i - start + 1);
        proof {
            assert(longer.drop_last() =~= shorter);
            assert(longer.last() == c);
            if digits_value(digits, radix as nat) is Some {
                lemma_digits_prefix(digits, radix as nat, i - start + 1);
            }
        }
        let low: u64 = match digit(c) {
            Some(d) => d,
            None => {
                return None;
            },
        };
        if low >= radix {
            return None;
        }
        let shifted: u64 = match acc.checked_mul(radix) {
            Some(m) => m,
            None => {
                return None;
            },
        };
        acc = match shifted.checked_add(low) {
            Some(v) => v,
            None => {
                return None;
            },
        };
        i = i + 1;
    }
    assert(digits.take(n - start) =~= digits);
    Some(acc)
}

/// Parses `text` as an unsigned number in `radix`.
pub fn parse_unsigned(text: &str, radix: u64) -> (parsed: Option<u64>)
    requires
        2 <= radix <= 36,
    ensures
        parsed == number_of(text@, radix as nat),
{
    assert(text@.skip(0) =~= text@);
    parse_from(text, 0, radix)
}

/// Parses the part of `text` from character `from` on as an address.
pub(crate) fn parse_address_from(text: &str, from: usize) -> (parsed: Option<u64>)
    requires
        from <= text@.len(),
    ensures
        parsed == address_of(text@.skip(from as int)),
{
    let n: usize = text.unicode_len();
    let ghost tail = text@.skip(from as int);
    if n - from >= 2 && text.get_char(from) == '0' {
        let marker: char = text.get_char(from + 1);
        if marker == 'x' || marker == 'X' {
            assert(tail.skip(2) =~= text@.skip(from + 2));
            return parse_from(text, from + 2, 16);
        }
    }
    parse_from(text, from, 16)
}

/// Parses a hexadecimal address, with or without a leading `0x`.
pub fn parse_address(addr: &str) -> (parsed: Option<u64>)
    ensures
        parsed == address_of(addr@),
{
    assert(addr@.skip(0) =~= addr@);
    parse_address_from(addr, 0)
}

} // verus!
