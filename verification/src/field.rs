//! The two fields of a record that are not free text: the port, a decimal
//! number that fits in 16 bits, and the protocol, one of two names written in
//! either case.

use vstd::prelude::*;
use crate::TransportProtocol;

verus! {

/// Whether `c` is one of the ten decimal digits.
pub open spec fn is_digit(c: char) -> bool {
    '0' <= c <= '9'
}

/// The number that the digit `c` stands for.
pub open spec fn digit_value(c: char) -> nat {
    if is_digit(c) {
        (c as u32 - '0' as u32) as nat
    } else {
        0
    }
}

/// Whether `s` is a non-empty run of decimal digits.
pub open spec fn is_decimal(s: Seq<char>) -> bool {
    s.len() > 0 && forall|i: int| 0 <= i < s.len() ==> is_digit(#[trigger] s[i])
}

/// The number that the digits of `s` write in base ten.
pub open spec fn decimal_value(s: Seq<char>) -> nat
    decreases s.len(),
{
    if s.len() == 0 {
        0
    } else {
        10 * decimal_value(s.drop_last()) + digit_value(s.last())
    }
}

/// `s` without the `+` that it may start with.
pub open spec fn unsigned(s: Seq<char>) -> Seq<char> {
    if s.len() > 0 && s[0] == '+' {
        s.skip(1)
    } else {
        s
    }
}

/// The port that `s` writes: a decimal number of any length that is at most
/// 65535, with an optional `+` before it.
pub open spec fn spec_parse_port(s: Seq<char>) -> Option<u16> {
    let digits = unsigned(s);
    if is_decimal(digits) && decimal_value(digits) <= u16::MAX {
        Some(decimal_value(digits) as u16)
    } else {
        None
    }
}

/// A number is at least the number that any prefix of its digits writes.
pub proof fn lemma_decimal_value_grows(s: Seq<char>, n: int)
    requires
        0 <= n <= s.len(),
    ensures
        decimal_value(s.take(n)) <= decimal_value(s),
    decreases s.len(),
{
    if n == s.len() {
        assert(s.take(n) == s);
    } else {
        assert(s.drop_last().take(n) == s.take(n));
        lemma_decimal_value_grows(s.drop_last(), n);
    }
}

/// The port that `s` writes, if it writes one.
pub fn parse_port(s: &[char]) -> (port: Option<u16>)
    ensures
        port == spec_parse_port(s@),
{
    let start: usize = if s.len() > 0 && s[0] == '+' {
        1
    } else {
        0
    };
    let ghost digits = unsigned(s@);
    if start == s.len() {
        return None;
    }
    let mut value: u32 = 0;
    let mut at: usize = start;
    while at < s.len()
        invariant
            start <= at <= s@.len(),
            digits == s@.skip(start as int),
            digits == unsigned(s@),
            forall|i: int| 0 <= i < at - start ==> is_digit(#[trigger] digits[i]),
            value == decimal_value(digits.take(at - start)),
            value <= u16::MAX,
        decreases s@.len() - at,
    {
        let c = s[at];
        assert(c == digits[at - start]);
        if !('0' <= c && c <= '9') {
            return None;
        }
        let digit: u32 = c as u32 - '0' as u32;
        proof {
            assert(digits.take(at - start + 1).drop_last() == digits.take(at - start));
        }
        value = value * 10 + digit;
        if value > 65535 {
            proof {
                lemma_decimal_value_grows(digits, at - start + 1);
            }
            return None;
        }
        at += 1;
    }
    proof {
        assert(digits.take(at - start) == digits);
    }
    Some(value as u16)
}

/// `c`, or the small letter for it if `c` is one of the capital letters
/// `A` to `Z`.
pub open spec fn to_ascii_lowercase(c: char) -> char {
    if 'A' <= c <= 'Z' {
        ((c as u32) + 32) as char
    } else {
        c
    }
}

/// `s` with each capital letter from `A` to `Z` replaced by its small
/// letter.
pub open spec fn lowercase(s: Seq<char>) -> Seq<char> {
    s.map_values(|c: char| to_ascii_lowercase(c))
}

/// The protocol that `s` names: `tcp` or `udp`, in small or capital letters
/// or any mixture of them.
pub open spec fn spec_parse_protocol(s: Seq<char>) -> Option<TransportProtocol> {
    if lowercase(s) =~= seq!['t', 'c', 'p'] {
        Some(TransportProtocol::Tcp)
    } else if lowercase(s) =~= seq!['u', 'd', 'p'] {
        Some(TransportProtocol::Udp)
    } else {
        None
    }
}

/// The case of the letters of a protocol's name does not count.
pub proof fn lemma_protocol_ignores_case(s: Seq<char>)
    ensures
        spec_parse_protocol(lowercase(s)) == spec_parse_protocol(s),
{
}

/// Whether `c` is the small letter `small` or the capital letter `capital`.
fn is_letter(c: char, small: char, capital: char) -> (b: bool)
    requires
        'a' <= small <= 'z',
        capital as u32 + 32 == small as u32,
    ensures
        b == (to_ascii_lowercase(c) == small),
{
    c == small || c == capital
}

/// The protocol that `s` names, if it names one.
pub fn parse_protocol(s: &[char]) -> (protocol: Option<TransportProtocol>)
    ensures
        protocol == spec_parse_protocol(s@),
{
    if s.len() != 3 {
        return None;
    }
    if is_letter(s[2], 'p', 'P') {
        if is_letter(s[0], 't', 'T') && is_letter(s[1], 'c', 'C') {
            return Some(TransportProtocol::Tcp);
        }
        if is_letter(s[0], 'u', 'U') && is_letter(s[1], 'd', 'D') {
            return Some(TransportProtocol::Udp);
        }
    }
    None
}

} // verus!
