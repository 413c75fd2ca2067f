//! The digit alphabet and the table that reads a digit back from its byte.

use vstd::prelude::*;

verus! {

/// The radix of the numeral system.
pub const BASE: u128 = 57;

/// The entry of the decode table for a byte that is no digit.
pub const INVALID: u8 = 0xFF;

/// The digit characters in order of their value, as ASCII bytes:
/// `2`..`9`, `A`..`H`, `J`..`N`, `P`..`Z`, `a`..`k`, `m`..`z`.
/// The digits `0` and `1` and the letters `I`, `O` and `l` are left out
/// because they are easily mistaken for one another.
pub const ALPHABET: [u8; 57] = [
    50, 51, 52, 53, 54, 55, 56, 57,
    65, 66, 67, 68, 69, 70, 71, 72,
    74, 75, 76, 77, 78,
    80, 81, 82, 83, 84, 85, 86, 87, 88, 89, 90,
    97, 98, 99, 100, 101, 102, 103, 104, 105, 106, 107,
    109, 110, 111, 112, 113, 114, 115, 116, 117, 118, 119, 120, 121, 122,
];

/// The character that stands for the digit value `d`.
pub open spec fn digit_char(d: nat) -> char
    recommends
        d < 57,
{
    ALPHABET@[d as int] as char
}

/// True when `c` is one of the 57 digit characters.
pub open spec fn is_digit_char(c: char) -> bool {
    exists|d: nat| d < 57 && #[trigger] digit_char(d) == c
}

/// The digit value that `c` stands for, where `c` is a digit character.
pub open spec fn digit_value(c: char) -> nat
    recommends
        is_digit_char(c),
{
    choose|d: nat| d < 57 && #[trigger] digit_char(d) == c
}

/// What the decode table holds for the byte `b`: the digit value of the
/// ASCII character `b`, or `INVALID` where that character is no digit.
pub open spec fn table_entry(b: u8) -> u8 {
    if is_digit_char(b as char) {
        digit_value(b as char) as u8
    } else {
        INVALID
    }
}

/// The alphabet is strictly increasing in ASCII order, so digit value and
/// digit character are ordered alike and no character occurs twice.
pub proof fn lemma_alphabet_increasing()
    ensures
        forall|i: int, j: int| 0 <= i < j < 57 ==> ALPHABET@[i] < ALPHABET@[j],
        forall|i: nat, j: nat|
            i < j < 57 ==> (#[trigger] digit_char(i) as u32) < (#[trigger] digit_char(j) as u32),
{
}

/// The alphabet has 57 characters, no two of them alike, and none of the
/// characters `0`, `O`, `1`, `I` and `l`.
pub proof fn alphabet_is_unambiguous()
    ensures
        ALPHABET@.len() == 57,
        forall|i: nat, j: nat|
            i < 57 && j < 57 && i != j ==> #[trigger] digit_char(i) != #[trigger] digit_char(j),
        !is_digit_char('0'),
        !is_digit_char('O'),
        !is_digit_char('1'),
        !is_digit_char('I'),
        !is_digit_char('l'),
{
    lemma_alphabet_increasing();
    assert forall|i: nat, j: nat| i < 57 && j < 57 && i != j implies #[trigger] digit_char(i)
        != #[trigger] digit_char(j) by {
        if i < j {
            assert((digit_char(i) as u32) < (digit_char(j) as u32));
        } else {
            assert((digit_char(j) as u32) < (digit_char(i) as u32));
        }
    }
}

/// Every digit character is a printable ASCII character.
pub proof fn lemma_digit_char_ascii(d: nat)
    requires
        d < 57,
    ensures
        is_digit_char(digit_char(d)),
        0x32 <= digit_char(d) as u32 <= 0x7a,
        digit_char(d) as u8 == ALPHABET@[d as int],
{
}

/// A digit character stands for exactly one digit value.
pub proof fn lemma_digit_value(d: nat)
    requires
        d < 57,
    ensures
        digit_value(digit_char(d)) == d,
{
    lemma_alphabet_increasing();
    let e = digit_value(digit_char(d));
    assert(e < 57 && digit_char(e) == digit_char(d));
    if e < d {
        assert((digit_char(e) as u32) < (digit_char(d) as u32));
    } else if d < e {
        assert((digit_char(d) as u32) < (digit_char(e) as u32));
    }
}

/// The digit value of a digit character lies in `0..57` and leads back to
/// the character.
pub proof fn lemma_digit_value_range(c: char)
    requires
        is_digit_char(c),
    ensures
        digit_value(c) < 57,
        digit_char(digit_value(c)) == c,
        c as u32 <= 0x7a,
{
}

/// Builds the table that maps each byte to the digit value of its ASCII
/// character, and to `INVALID` where the character is no digit.
pub fn build_decode_table() -> (table: [u8; 256])
    ensures
        forall|b: u8| #[trigger] table@[b as int] == table_entry(b),
{
    let mut table = [INVALID; 256];
    let mut i: usize = 0;
    while i < 57
        invariant
            i <= 57,
            forall|b: u8|
                #![trigger table@[b as int]]
                (exists|d: int| 0 <= d < i && ALPHABET@[d] == b) ==> 0 <= table@[b as int] < i
                    && ALPHABET@[table@[b as int] as int] == b,
            forall|b: u8|
                #![trigger table@[b as int]]
                !(exists|d: int| 0 <= d < i && ALPHABET@[d] == b) ==> table@[b as int] == INVALID,
        decreases 57 - i,
    {
        proof {
            lemma_alphabet_increasing();
        }
        table[ALPHABET[i] as usize] = i as u8;
        i += 1;
    }
    proof {
        assert forall|b: u8| #[trigger] table@[b as int] == table_entry(b) by {
            if is_digit_char(b as char) {
                let d = digit_value(b as char);
                assert(ALPHABET@[d as int] == b);
                let e = table@[b as int] as nat;
                lemma_digit_value(e);
                assert(digit_char(e) == b as char);
            } else {
                if exists|d: int| 0 <= d < 57 && ALPHABET@[d] == b {
                    let d = choose|d: int| 0 <= d < 57 && ALPHABET@[d] == b;
                    assert(digit_char(d as nat) == b as char);
                }
            }
        }
    }
    table
}

} // verus!
