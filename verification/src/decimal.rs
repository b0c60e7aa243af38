//! Whole numbers as decimal text, and decimal text as whole numbers.

use crate::codec::string_from_utf8;
use vstd::prelude::*;
use vstd::utf8::{
    encode_utf8, encode_utf8_decode_utf8, encode_utf8_valid_utf8, is_ascii_chars,
    is_ascii_chars_encode_utf8, };

verus! {

/// The character of a decimal digit.
pub open spec fn digit_char(digit: nat) -> char {
    (0x30 + digit) as char
}

/// A number in decimal, without leading zeros.
pub open spec fn decimal_text(n: nat) -> Seq<char>
    decreases n,
{
    if n < 10 {
        seq![digit_char(n)]
    } else {
        decimal_text(n / 10).push(digit_char(n % 10))
    }
}

proof fn lemma_decimal_text_is_ascii(n: nat)
    ensures
        is_ascii_chars(decimal_text(n)),
        decimal_text(n).len() > 0,
    decreases n,
{
    if n >= 10 {
        lemma_decimal_text_is_ascii(n / 10);
    }
}

/// The characters of the bytes, last byte first.
pub open spec fn reversed_chars(bytes: Seq<u8>) -> Seq<char> {
    Seq::new(bytes.len(), |i: int| bytes[bytes.len() - 1 - i] as char)
}

/// The decimal text of `n`.
pub fn u64_to_text(n: u64) -> (words: String)
    ensures
        words@ == decimal_text(n as nat),
{
    // the digits, last one first
    let mut reversed: Vec<u8> = Vec::new();
    let mut rest: u64 = n;
    proof {
        assert(decimal_text(rest as nat) + reversed_chars(reversed@) =~= decimal_text(n as nat));
    }
    while rest >= 10
        invariant
            decimal_text(n as nat) == decimal_text(rest as nat) + reversed_chars(reversed@),
        decreases rest,
    {
        let ghost prev = reversed@;
        let ghost prev_rest = rest;
        let digit = (rest % 10) as u8;
        reversed.push(0x30u8 + digit);
        rest = rest / 10;
        proof {
            let d = digit_char((prev_rest % 10) as nat);
            assert(reversed_chars(reversed@) =~= seq![d] + reversed_chars(prev));
            assert(decimal_text(prev_rest as nat) == decimal_text(rest as nat).push(d));
            assert(decimal_text(rest as nat).push(d) + reversed_chars(prev) =~= decimal_text(rest as nat) + (seq![d]
                + reversed_chars(prev)));
        }
    }
    let ghost prev = reversed@;
    reversed.push(0x30u8 + rest as u8);
    let ghost chars = decimal_text(n as nat);
    proof {
        assert(decimal_text(rest as nat) == seq![digit_char(rest as nat)]);
        assert(reversed_chars(reversed@) =~= seq![digit_char(rest as nat)] + reversed_chars(prev));
        assert(chars == reversed_chars(reversed@));
    }
    let mut bytes: Vec<u8> = Vec::new();
    let mut i: usize = reversed.len();
    while i > 0
        invariant
            i <= reversed@.len(),
            bytes@.len() == reversed@.len() - i,
            forall|k: int| 0 <= k < bytes@.len() ==> bytes@[k] == reversed@[reversed@.len() - 1 - k],
        decreases i,
    {
        i = i - 1;
        bytes.push(reversed[i]);
    }
    proof {
        lemma_decimal_text_is_ascii(n as nat);
        is_ascii_chars_encode_utf8(chars);
        assert(bytes@ =~= encode_utf8(chars)) by {
            assert forall|k: int| 0 <= k < bytes@.len() implies bytes@[k] == encode_utf8(chars)[k] by {
                assert(chars[k] as u8 == encode_utf8(chars)[k]);
                assert(chars[k] == reversed@[reversed@.len() - 1 - k] as char);
                assert(0 <= chars[k] as int <= 0x7f);
            }
        }
        encode_utf8_valid_utf8(chars);
        encode_utf8_decode_utf8(chars);
    }
    match string_from_utf8(bytes) {
        Some(words) => words,
        None => String::new(),
    }
}

/// The bytes are decimal digits, at least one.
pub open spec fn is_digits(text: Seq<u8>) -> bool {
    text.len() > 0 && forall|i: int| 0 <= i < text.len() ==> 0x30 <= #[trigger] text[i] <= 0x39
}

/// The number that decimal digits spell.
pub open spec fn digits_value(text: Seq<u8>) -> nat
    decreases text.len(),
{
    if text.len() == 0 {
        0
    } else {
        digits_value(text.drop_last()) * 10 + (text.last() - 0x30) as nat
    }
}

/// The whole number that the text spells: decimal digits behind an optional
/// sign, and nothing else. `None` for any other text.
pub open spec fn integer_of(text: Seq<u8>) -> Option<int> {
    if text.len() > 0 && text[0] == 0x2d {
        if is_digits(text.skip(1)) {
            Some(-(digits_value(text.skip(1)) as int))
        } else {
            None
        }
    } else if text.len() > 0 && text[0] == 0x2b {
        if is_digits(text.skip(1)) {
            Some(digits_value(text.skip(1)) as int)
        } else {
            None
        }
    } else if is_digits(text) {
        Some(digits_value(text) as int)
    } else {
        None
    }
}

/// The 64-bit number that the text spells, if it spells one that fits.
pub open spec fn i64_of(text: Seq<u8>) -> Option<i64> {
    match integer_of(text) {
        Some(v) => if i64::MIN <= v <= i64::MAX {
            Some(v as i64)
        } else {
            None
        },
        None => None,
    }
}

proof fn lemma_digits_value_grows(text: Seq<u8>, upto: int)
    requires
        0 <= upto <= text.len(),
        forall|i: int| 0 <= i < text.len() ==> 0x30 <= #[trigger] text[i] <= 0x39,
    ensures
        digits_value(text.subrange(0, upto)) <= digits_value(text),
    decreases text.len() - upto,
{
    if upto < text.len() {
        let front = text.drop_last();
        if upto <= front.len() {
            assert(front.subrange(0, upto) =~= text.subrange(0, upto));
            lemma_digits_value_grows(front, upto);
        }
    } else {
        assert(text.subrange(0, upto) =~= text);
    }
}

/// The number that the bytes from `start` on spell, where they are digits
/// and the number is at most 2^63.
fn parse_digits(text: &[u8], start: usize) -> (value: Option<u128>)
    requires
        start <= text@.len(),
    ensures
        ({
            let digits = text@.subrange(start as int, text@.len() as int);
            match value {
                Some(v) => is_digits(digits) && v == digits_value(digits) && v <= 0x8000_0000_0000_0000,
                None => !is_digits(digits) || digits_value(digits) > 0x8000_0000_0000_0000,
            }
        }),
{
    let n = text.len();
    let ghost digits = text@.subrange(start as int, n as int);
    if start == n {
        return None;
    }
    let mut acc: u128 = 0;
    let mut i: usize = start;
    proof {
        assert(digits.subrange(0, 0) =~= Seq::<u8>::empty());
    }
    while i < n
        invariant
            start <= i <= n,
            start < n,
            n == text@.len(),
            digits == text@.subrange(start as int, n as int),
            forall|k: int| 0 <= k < i - start ==> 0x30 <= #[trigger] digits[k] <= 0x39,
            acc == digits_value(digits.subrange(0, i - start)),
            acc <= 0x8000_0000_0000_0000,
        decreases n - i,
    {
        let byte = text[i];
        if byte < 0x30 || byte > 0x39 {
            assert(digits[i - start] == byte);
            return None;
        }
        proof {
            let next = digits.subrange(0, i - start + 1);
            assert(next.drop_last() =~= digits.subrange(0, i - start));
            assert(next.last() == byte);
        }
        acc = acc * 10 + (byte - 0x30) as u128;
        if acc > 0x8000_0000_0000_0000u128 {
            proof {
                if is_digits(digits) {
                    lemma_digits_value_grows(digits, i - start + 1);
                }
            }
            return None;
        }
        i = i + 1;
    }
    proof {
        assert(digits.subrange(0, i - start) =~= digits);
    }
    Some(acc)
}

/// Reads a whole number in decimal: digits behind an optional sign.
pub fn parse_i64(text: &[u8]) -> (value: Option<i64>)
    ensures
        value == i64_of(text@),
{
    let n = text.len();
    if n == 0 {
        return None;
    }
    let negative = text[0] == 0x2d;
    let start: usize = if text[0] == 0x2d || text[0] == 0x2b {
        1
    } else {
        0
    };
    proof {
        assert(text@.subrange(start as int, n as int) =~= text@.skip(start as int));
        if start == 0 {
            assert(text@.skip(0) =~= text@);
        }
    }
    match parse_digits(text, start) {
        None => None,
        Some(acc) => {
            if negative {
                if acc == 0x8000_0000_0000_0000u128 {
                    Some(i64::MIN)
                } else {
                    Some(-(acc as i64))
                }
            } else if acc == 0x8000_0000_0000_0000u128 {
                None
            } else {
                Some(acc as i64)
            }
        },
    }
}

} // verus!
