//! Encoding integers as base-57 strings and decoding them again.

use vstd::prelude::*;
use vstd::utf8::{
    decode_utf8, encode_utf8, encode_utf8_decode_utf8, encode_utf8_valid_utf8,
    is_ascii_chars, is_ascii_chars_encode_utf8, valid_utf8,
};
use crate::alphabet::{
    build_decode_table, digit_char, digit_value, is_digit_char, lemma_digit_value_range,
    table_entry, ALPHABET, BASE, INVALID,
};
use crate::error::Id57Error;
use crate::numeral::{
    all_digits, decoding, digit_prefix_len, encoding, lemma_digit_prefix_exists,
    lemma_digit_prefix_len, lemma_value_prefix, lemma_value_push, numeral, value_of, zeros,
};

verus! {

/// The characters whose ASCII codes are `bytes`.
pub open spec fn ascii_chars(bytes: Seq<u8>) -> Seq<char> {
    Seq::new(bytes.len(), |i: int| bytes[i] as char)
}

/// True when every byte of `bytes` is an ASCII code.
pub open spec fn is_ascii_bytes(bytes: Seq<u8>) -> bool {
    forall|i: int| 0 <= i < bytes.len() ==> #[trigger] bytes[i] < 128
}

/// ASCII bytes are valid UTF-8 and encode their own characters.
pub proof fn lemma_ascii_is_utf8(bytes: Seq<u8>)
    requires
        is_ascii_bytes(bytes),
    ensures
        valid_utf8(bytes),
        decode_utf8(bytes) == ascii_chars(bytes),
{
    let chars = ascii_chars(bytes);
    assert(is_ascii_chars(chars));
    is_ascii_chars_encode_utf8(chars);
    assert(encode_utf8(chars) =~= bytes);
    encode_utf8_valid_utf8(chars);
    encode_utf8_decode_utf8(chars);
}

/// `String::from_utf8`: the string whose UTF-8 encoding is `bytes`, or
/// nothing where `bytes` is not valid UTF-8.
#[verifier::external_body]
fn string_from_utf8(bytes: Vec<u8>) -> (out: Option<String>)
    ensures
        out is Some <==> valid_utf8(bytes@),
        out matches Some(s) ==> s@ == decode_utf8(bytes@),
{
    match String::from_utf8(bytes) {
        Ok(s) => Some(s),
        Err(_) => None,
    }
}

/// The string made of the ASCII characters `bytes`.
fn ascii_string(bytes: Vec<u8>) -> (out: String)
    requires
        is_ascii_bytes(bytes@),
    ensures
        out@ == ascii_chars(bytes@),
{
    proof {
        lemma_ascii_is_utf8(bytes@);
    }
    match string_from_utf8(bytes) {
        Some(s) => s,
        None => unreached(),
    }
}

/// The digits of `value` as ASCII bytes, most significant first, without
/// padding. Zero is the single zero digit.
pub fn encode_base57_raw(value: u128) -> (bytes: Vec<u8>)
    ensures
        is_ascii_bytes(bytes@),
        ascii_chars(bytes@) == numeral(value as nat),
{
    let mut rest = value;
    let mut buf: Vec<u8> = Vec::new();
    if rest == 0 {
        buf.push(ALPHABET[0]);
        assert(ascii_chars(buf@) =~= numeral(0));
        return buf;
    }
    while rest > 0
        invariant
            is_ascii_bytes(buf@),
            rest > 0 ==> numeral(value as nat) == numeral(rest as nat) + ascii_chars(
                buf@,
            ).reverse(),
            rest == 0 ==> numeral(value as nat) == ascii_chars(buf@).reverse(),
        decreases rest,
    {
        let remainder = (rest % BASE) as usize;
        let ghost before = buf@;
        let ghost digit = digit_char(remainder as nat);
        buf.push(ALPHABET[remainder]);
        proof {
            assert(ascii_chars(buf@).reverse() =~= seq![digit] + ascii_chars(before).reverse());
            if rest >= 57 {
                assert(numeral(rest as nat) == numeral((rest / 57) as nat).push(digit));
                assert(numeral((rest / 57) as nat).push(digit) + ascii_chars(before).reverse()
                    =~= numeral((rest / 57) as nat) + (seq![digit] + ascii_chars(
                    before,
                ).reverse()));
            } else {
                assert(numeral(rest as nat) =~= seq![digit]);
            }
        }
        rest = rest / BASE;
    }
    let mut bytes: Vec<u8> = Vec::new();
    let mut left: usize = buf.len();
    while left > 0
        invariant
            left <= buf.len(),
            bytes.len() == buf.len() - left,
            forall|j: int| 0 <= j < bytes.len() ==> bytes@[j] == buf@[buf.len() - 1 - j],
        decreases left,
    {
        left -= 1;
        bytes.push(buf[left]);
    }
    assert(ascii_chars(bytes@) =~= ascii_chars(buf@).reverse());
    bytes
}

/// Encodes `value` in base 57. Where `pad_to` gives a width that the
/// digits of `value` do not reach, zero digits are put in front until the
/// string has that width; a longer string is never cut.
pub fn encode_base57(value: u128, pad_to: Option<usize>) -> (out: String)
    ensures
        out@ == encoding(value as nat, pad_to),
{
    let mut digits = encode_base57_raw(value);
    let ghost natural = digits@;
    assert(ascii_chars(natural).len() == natural.len());
    let mut bytes: Vec<u8> = Vec::new();
    if let Some(width) = pad_to {
        if width > digits.len() {
            let fill = width - digits.len();
            while bytes.len() < fill
                invariant
                    forall|j: int| 0 <= j < bytes.len() ==> bytes@[j] == ALPHABET@[0],
                    bytes.len() <= fill,
                decreases fill - bytes.len(),
            {
                bytes.push(ALPHABET[0]);
            }
            assert(ascii_chars(bytes@) =~= zeros(fill as nat));
        }
    }
    let ghost padding = bytes@;
    bytes.append(&mut digits);
    assert(ascii_chars(bytes@) =~= ascii_chars(padding) + ascii_chars(natural));
    assert(ascii_chars(Seq::<u8>::empty()) + ascii_chars(natural) =~= ascii_chars(natural));
    ascii_string(bytes)
}

/// Looks `ch` up in the decode table: its digit value, or nothing where
/// `ch` is not ASCII or no digit of the alphabet.
fn digit_of(table: &[u8; 256], ch: char) -> (digit: Option<u8>)
    requires
        forall|b: u8| #[trigger] table@[b as int] == table_entry(b),
    ensures
        digit is Some <==> is_digit_char(ch),
        digit matches Some(d) ==> d == digit_value(ch) && d < 57,
{
    proof {
        if is_digit_char(ch) {
            lemma_digit_value_range(ch);
        }
    }
    let code = ch as u32;
    if code >= 128 {
        return None;
    }
    let byte = code as u8;
    assert(byte as char == ch);
    let entry = table[byte as usize];
    assert(entry == table_entry(byte));
    if entry == INVALID {
        None
    } else {
        Some(entry)
    }
}

/// Decodes a base-57 string. The characters are read from the left; each
/// must be a digit of the alphabet, and the number read so far must stay
/// within 128 bits. Positions in errors count characters, not bytes.
pub fn decode_base57(value: &str) -> (r: Result<u128, Id57Error>)
    ensures
        r == decoding(value@),
{
    let count = value.unicode_len();
    if count == 0 {
        return Err(Id57Error::EmptyInput);
    }
    let table = build_decode_table();
    let mut result: u128 = 0;
    let mut index: usize = 0;
    for ch in it: value.chars()
        invariant
            it.seq() == value@,
            count == value@.len(),
            count > 0,
            index == it.index(),
            all_digits(value@.take(index as int)),
            result == value_of(value@.take(index as int)),
            forall|b: u8| #[trigger] table@[b as int] == table_entry(b),
    {
        let ghost read = value@.take(index as int);
        assert(ch == value@[index as int]);
        let digit = match digit_of(&table, ch) {
            Some(digit) => digit,
            None => {
                proof {
                    lemma_digit_prefix_len(value@, index as int);
                }
                return Err(Id57Error::InvalidCharacter { character: ch, position: index });
            },
        };
        proof {
            lemma_digit_value_range(ch);
            assert(value@.take(index + 1) =~= read.push(ch));
            lemma_value_push(read, ch);
            assert forall|j: int| 0 <= j < index + 1 implies is_digit_char(
                #[trigger] value@.take(index + 1)[j],
            ) by {
                if j < index {
                    assert(read[j] == value@[j]);
                }
            }
        }
        let next = match result.checked_mul(BASE) {
            Some(scaled) => scaled.checked_add(digit as u128),
            None => None,
        };
        match next {
            Some(sum) => {
                result = sum;
            },
            None => {
                proof {
                    lemma_digit_prefix_exists(value@);
                    let k = digit_prefix_len(value@);
                    if k <= index {
                        assert(value@.take(index + 1)[k] == value@[k]);
                    }
                    assert(value@.take(k).take(index + 1) =~= value@.take(index + 1));
                    lemma_value_prefix(value@.take(k), index + 1);
                }
                return Err(Id57Error::Overflow);
            },
        }
        index += 1;
    }
    proof {
        assert(value@.take(index as int) =~= value@);
        lemma_digit_prefix_len(value@, index as int);
    }
    Ok(result)
}

} // verus!
