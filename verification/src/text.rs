//! Putting text together and reading it: the messages and descriptions that
//! the library hands out, numbers in decimal digits, and bytes in
//! hexadecimal digits.

use vstd::prelude::*;
use crate::field::Field;

verus! {

/// Appends `string` to the end of `s`: `String::push_str` of the standard
/// library, which leaves in `s` what it held followed by `string`.
pub assume_specification[ String::push_str ](s: &mut String, string: &str)
    ensures
        final(s)@ == old(s)@ + string@,
;

/// Appends `ch` to the end of `s`: `String::push` of the standard library,
/// which leaves in `s` what it held followed by `ch`.
pub assume_specification[ String::push ](s: &mut String, ch: char)
    ensures
        final(s)@ == old(s)@.push(ch),
;

/// The hexadecimal digit of a number below 16, in lower case.
pub open spec fn hex_digit_of(n: u8) -> char {
    if n == 0 {
        '0'
    } else if n == 1 {
        '1'
    } else if n == 2 {
        '2'
    } else if n == 3 {
        '3'
    } else if n == 4 {
        '4'
    } else if n == 5 {
        '5'
    } else if n == 6 {
        '6'
    } else if n == 7 {
        '7'
    } else if n == 8 {
        '8'
    } else if n == 9 {
        '9'
    } else if n == 10 {
        'a'
    } else if n == 11 {
        'b'
    } else if n == 12 {
        'c'
    } else if n == 13 {
        'd'
    } else if n == 14 {
        'e'
    } else {
        'f'
    }
}

/// The bytes in hexadecimal digits: two for each byte, the higher first.
pub open spec fn hex_of(bytes: Seq<u8>) -> Seq<char>
    decreases bytes.len(),
{
    if bytes.len() == 0 {
        Seq::empty()
    } else {
        hex_of(bytes.drop_last()).push(hex_digit_of(bytes.last() / 16)).push(
            hex_digit_of(bytes.last() % 16),
        )
    }
}

/// The hexadecimal digit of a number below 16, in lower case.
pub fn hex_digit(n: u8) -> (digit: char)
    requires
        n < 16,
    ensures
        digit == hex_digit_of(n),
{
    if n == 0 {
        '0'
    } else if n == 1 {
        '1'
    } else if n == 2 {
        '2'
    } else if n == 3 {
        '3'
    } else if n == 4 {
        '4'
    } else if n == 5 {
        '5'
    } else if n == 6 {
        '6'
    } else if n == 7 {
        '7'
    } else if n == 8 {
        '8'
    } else if n == 9 {
        '9'
    } else if n == 10 {
        'a'
    } else if n == 11 {
        'b'
    } else if n == 12 {
        'c'
    } else if n == 13 {
        'd'
    } else if n == 14 {
        'e'
    } else {
        'f'
    }
}

/// Appends the bytes to `text` in hexadecimal digits.
pub fn push_hex(text: &mut String, bytes: &Vec<u8>)
    ensures
        final(text)@ == old(text)@ + hex_of(bytes@),
{
    let mut i: usize = 0;
    assert(bytes@.take(0) =~= Seq::empty());
    assert(text@ + Seq::<char>::empty() =~= text@);
    while i < bytes.len()
        invariant
            i <= bytes.len(),
            text@ == old(text)@ + hex_of(bytes@.take(i as int)),
        decreases bytes.len() - i,
    {
        assert(bytes@.take(i + 1).drop_last() =~= bytes@.take(i as int));
        let ghost before = hex_of(bytes@.take(i as int));
        let byte = bytes[i];
        text.push(hex_digit(byte / 16));
        text.push(hex_digit(byte % 16));
        assert(text@ =~= old(text)@ + before.push(hex_digit_of(byte / 16)).push(
            hex_digit_of(byte % 16),
        ));
        i += 1;
    }
    assert(bytes@.take(i as int) =~= bytes@);
}

/// The value of a hexadecimal digit, in either case.
pub open spec fn hex_value_of(c: char) -> Option<u8> {
    if c == '0' {
        Some(0u8)
    } else if c == '1' {
        Some(1u8)
    } else if c == '2' {
        Some(2u8)
    } else if c == '3' {
        Some(3u8)
    } else if c == '4' {
        Some(4u8)
    } else if c == '5' {
        Some(5u8)
    } else if c == '6' {
        Some(6u8)
    } else if c == '7' {
        Some(7u8)
    } else if c == '8' {
        Some(8u8)
    } else if c == '9' {
        Some(9u8)
    } else if c == 'a' || c == 'A' {
        Some(10u8)
    } else if c == 'b' || c == 'B' {
        Some(11u8)
    } else if c == 'c' || c == 'C' {
        Some(12u8)
    } else if c == 'd' || c == 'D' {
        Some(13u8)
    } else if c == 'e' || c == 'E' {
        Some(14u8)
    } else if c == 'f' || c == 'F' {
        Some(15u8)
    } else {
        None
    }
}

/// The bytes that hexadecimal digits spell, two digits for each byte, the
/// higher first; none where a character is no digit or a digit is left over.
pub open spec fn bytes_of_hex(text: Seq<char>) -> Option<Seq<u8>>
    decreases text.len(),
{
    if text.len() == 0 {
        Some(Seq::empty())
    } else if text.len() == 1 {
        None
    } else {
        match (
            bytes_of_hex(text.take(text.len() - 2)),
            hex_value_of(text[text.len() - 2]),
            hex_value_of(text[text.len() - 1]),
        ) {
            (Some(bytes), Some(high), Some(low)) => Some(bytes.push((high * 16 + low) as u8)),
            _ => None,
        }
    }
}

/// Digits of which one is left over spell no bytes, and neither do digits
/// that follow digits that spell none.
pub proof fn lemma_bytes_of_hex_prefix(text: Seq<char>, i: int)
    requires
        0 <= i,
        2 * i <= text.len(),
        text.len() % 2 == 1 || bytes_of_hex(text.take(2 * i)) is None,
    ensures
        bytes_of_hex(text) is None,
    decreases text.len(),
{
    if text.len() % 2 == 1 {
        if text.len() >= 2 {
            lemma_bytes_of_hex_prefix(text.take(text.len() - 2), 0);
        }
    } else if 2 * i == text.len() {
        assert(text.take(2 * i) =~= text);
    } else {
        let front = text.take(text.len() - 2);
        assert(front.take(2 * i) =~= text.take(2 * i));
        lemma_bytes_of_hex_prefix(front, i);
    }
}

/// The value of the hexadecimal digit `c`, in either case.
pub fn hex_value(c: char) -> (value: Option<u8>)
    ensures
        value == hex_value_of(c),
        value matches Some(v) ==> v < 16,
{
    if c == '0' {
        Some(0)
    } else if c == '1' {
        Some(1)
    } else if c == '2' {
        Some(2)
    } else if c == '3' {
        Some(3)
    } else if c == '4' {
        Some(4)
    } else if c == '5' {
        Some(5)
    } else if c == '6' {
        Some(6)
    } else if c == '7' {
        Some(7)
    } else if c == '8' {
        Some(8)
    } else if c == '9' {
        Some(9)
    } else if c == 'a' || c == 'A' {
        Some(10)
    } else if c == 'b' || c == 'B' {
        Some(11)
    } else if c == 'c' || c == 'C' {
        Some(12)
    } else if c == 'd' || c == 'D' {
        Some(13)
    } else if c == 'e' || c == 'E' {
        Some(14)
    } else if c == 'f' || c == 'F' {
        Some(15)
    } else {
        None
    }
}

/// The bytes that the hexadecimal digits of `text` spell.
pub fn hex_bytes(text: &str) -> (bytes: Option<Vec<u8>>)
    ensures
        match bytes {
            Some(b) => bytes_of_hex(text@) == Some(b@),
            None => bytes_of_hex(text@) is None,
        },
{
    let n = text.unicode_len();
    if n % 2 != 0 {
        proof {
            lemma_bytes_of_hex_prefix(text@, 0);
        }
        return None;
    }
    let mut bytes: Vec<u8> = Vec::new();
    let mut i: usize = 0;
    assert(text@.take(0) =~= Seq::empty());
    while 2 * i < n
        invariant
            n == text@.len(),
            n % 2 == 0,
            2 * i <= n,
            bytes_of_hex(text@.take(2 * i)) == Some(bytes@),
        decreases n - 2 * i,
    {
        let ghost upto = text@.take(2 * i + 2);
        assert(upto.take(upto.len() - 2) =~= text@.take(2 * i));
        assert(upto[upto.len() - 2] == text@[2 * i]);
        assert(upto[upto.len() - 1] == text@[2 * i + 1]);
        match (hex_value(text.get_char(2 * i)), hex_value(text.get_char(2 * i + 1))) {
            (Some(high), Some(low)) => {
                bytes.push(high * 16 + low);
            },
            _ => {
                proof {
                    lemma_bytes_of_hex_prefix(text@, i + 1);
                }
                return None;
            },
        }
        i += 1;
    }
    assert(text@.take(2 * i) =~= text@);
    Some(bytes)
}

/// Bytes are read again from their hexadecimal digits.
pub proof fn lemma_hex_round_trip(bytes: Seq<u8>)
    ensures
        hex_of(bytes).len() == 2 * bytes.len(),
        bytes_of_hex(hex_of(bytes)) == Some(bytes),
    decreases bytes.len(),
{
    if bytes.len() > 0 {
        let front = bytes.drop_last();
        let b = bytes.last();
        lemma_hex_round_trip(front);
        let text = hex_of(bytes);
        assert(text.take(text.len() - 2) =~= hex_of(front));
        assert(text[text.len() - 2] == hex_digit_of(b / 16));
        assert(text[text.len() - 1] == hex_digit_of(b % 16));
        assert(hex_value_of(hex_digit_of(b / 16)) == Some((b / 16) as u8));
        assert(hex_value_of(hex_digit_of(b % 16)) == Some((b % 16) as u8));
        assert((b / 16) * 16 + b % 16 == b);
        assert(front.push(b) =~= bytes);
    }
}

/// The number in decimal digits, without leading zeros.
pub open spec fn decimal_of(n: nat) -> Seq<char>
    decreases n,
{
    if n < 10 {
        seq![hex_digit_of(n as u8)]
    } else {
        decimal_of(n / 10).push(hex_digit_of((n % 10) as u8))
    }
}

/// A field element as it is written: its value in decimal digits, followed
/// by the word `field`.
pub open spec fn field_text(f: Field) -> Seq<char> {
    decimal_of(f.as_nat()) + "field"@
}

/// Appends the value of `f` to `text` in decimal digits.
pub fn push_decimal(text: &mut String, f: Field)
    ensures
        final(text)@ == old(text)@ + decimal_of(f.as_nat()),
{
    let mut digits: Vec<char> = Vec::new();
    let mut rest = f;
    assert(decimal_of(f.as_nat()) + Seq::<char>::empty() =~= decimal_of(f.as_nat()));
    while !rest.below_ten()
        invariant
            decimal_of(f.as_nat()) == decimal_of(rest.as_nat()) + digits@,
        decreases rest.as_nat(),
    {
        let (quotient, last) = rest.div_ten();
        let ghost before = digits@;
        let digit = hex_digit(last);
        digits.insert(0, digit);
        assert(decimal_of(quotient.as_nat()).push(digit) + before =~= decimal_of(
            quotient.as_nat(),
        ) + digits@);
        rest = quotient;
    }
    let ghost before = digits@;
    let first = hex_digit(rest.w0 as u8);
    digits.insert(0, first);
    assert(digits@ =~= decimal_of(rest.as_nat()) + before);
    let mut i: usize = 0;
    assert(text@ + digits@.take(0) =~= text@);
    while i < digits.len()
        invariant
            i <= digits.len(),
            text@ == old(text)@ + digits@.take(i as int),
        decreases digits.len() - i,
    {
        text.push(digits[i]);
        assert(old(text)@ + digits@.take(i + 1) =~= (old(text)@ + digits@.take(i as int)).push(
            digits@[i as int],
        ));
        i += 1;
    }
    assert(digits@.take(i as int) =~= digits@);
}

/// Appends `f` to `text` as it is written: its value in decimal digits,
/// followed by the word `field`.
pub fn push_field(text: &mut String, f: Field)
    ensures
        final(text)@ == old(text)@ + field_text(f),
{
    push_decimal(text, f);
    text.push_str("field");
    assert(text@ =~= old(text)@ + field_text(f));
}

} // verus!
