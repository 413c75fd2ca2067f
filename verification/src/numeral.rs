//! Base-57 positional notation over sequences of characters: what a string
//! of digits denotes, how a number is written, and how the two agree.

use vstd::prelude::*;
use crate::alphabet::{
    alphabet_is_unambiguous, digit_char, digit_value, is_digit_char, lemma_digit_char_ascii,
    lemma_digit_value,
};
use crate::error::Id57Error;

verus! {

/// The number that the digit characters of `s` denote, most significant
/// digit first.
pub open spec fn value_of(s: Seq<char>) -> nat
    decreases s.len(),
{
    if s.len() == 0 {
        0
    } else {
        value_of(s.drop_last()) * 57 + digit_value(s.last())
    }
}

/// The shortest digit string that denotes `n`: no leading zero digit, and
/// the single zero digit for 0.
pub open spec fn numeral(n: nat) -> Seq<char>
    decreases n,
{
    if n < 57 {
        seq![digit_char(n)]
    } else {
        numeral(n / 57).push(digit_char(n % 57))
    }
}

/// `count` zero digits.
pub open spec fn zeros(count: nat) -> Seq<char> {
    Seq::new(count, |i: int| digit_char(0))
}

/// The encoding of `n`: its numeral, with zero digits in front of it until
/// it is `width` characters long where a `width` is given. A numeral longer
/// than `width` is left as it is.
pub open spec fn encoding(n: nat, pad_to: Option<usize>) -> Seq<char> {
    match pad_to {
        Some(width) if width > numeral(n).len() => zeros((width - numeral(n).len()) as nat)
            + numeral(n),
        _ => numeral(n),
    }
}

/// True when every character of `s` is a digit character.
pub open spec fn all_digits(s: Seq<char>) -> bool {
    forall|i: int| 0 <= i < s.len() ==> is_digit_char(#[trigger] s[i])
}

/// True when the first `k` characters of `s` are digit characters and the
/// next one, if there is one, is not.
pub open spec fn is_digit_prefix_len(s: Seq<char>, k: int) -> bool {
    &&& 0 <= k <= s.len()
    &&& all_digits(s.take(k))
    &&& k < s.len() ==> !is_digit_char(s[k])
}

/// The number of digit characters at the start of `s`: the position of the
/// first character outside the alphabet, or the length of `s`.
pub open spec fn digit_prefix_len(s: Seq<char>) -> int {
    choose|k: int| is_digit_prefix_len(s, k)
}

/// What decoding `s` gives. The empty string is refused. Otherwise the
/// digits in front of the first character outside the alphabet are read:
/// if they denote more than 128 bits can hold, that is an overflow; else
/// that character is reported with its position; and where all characters
/// are digits, the result is the number that they denote.
pub open spec fn decoding(s: Seq<char>) -> Result<u128, Id57Error> {
    let k = digit_prefix_len(s);
    if s.len() == 0 {
        Err(Id57Error::EmptyInput)
    } else if value_of(s.take(k)) > u128::MAX {
        Err(Id57Error::Overflow)
    } else if k < s.len() {
        Err(Id57Error::InvalidCharacter { character: s[k], position: k as usize })
    } else {
        Ok(value_of(s) as u128)
    }
}

/// A string has one digit prefix length.
pub proof fn lemma_digit_prefix_len(s: Seq<char>, k: int)
    requires
        is_digit_prefix_len(s, k),
    ensures
        digit_prefix_len(s) == k,
{
    let j = digit_prefix_len(s);
    assert(is_digit_prefix_len(s, j));
    if j < k {
        assert(s.take(k)[j] == s[j]);
    } else if k < j {
        assert(s.take(j)[k] == s[k]);
    }
}

/// Every string has a digit prefix length.
pub proof fn lemma_digit_prefix_exists(s: Seq<char>)
    ensures
        is_digit_prefix_len(s, digit_prefix_len(s)),
{
    lemma_digit_prefix_from(s, 0);
}

/// A prefix of digits can be extended up to the first character that is
/// none, or to the end of the string.
proof fn lemma_digit_prefix_from(s: Seq<char>, i: int)
    requires
        0 <= i <= s.len(),
        all_digits(s.take(i)),
    ensures
        exists|k: int| is_digit_prefix_len(s, k),
    decreases s.len() - i,
{
    if i == s.len() || !is_digit_char(s[i]) {
        assert(is_digit_prefix_len(s, i));
    } else {
        assert forall|j: int| 0 <= j < i + 1 implies is_digit_char(#[trigger] s.take(i + 1)[j]) by {
            if j < i {
                assert(s.take(i)[j] == s[j]);
            }
        }
        lemma_digit_prefix_from(s, i + 1);
    }
}

/// A string denotes at least what any of its prefixes denotes.
pub proof fn lemma_value_prefix(s: Seq<char>, j: int)
    requires
        0 <= j <= s.len(),
    ensures
        value_of(s.take(j)) <= value_of(s),
    decreases s.len() - j,
{
    if j == s.len() {
        assert(s.take(j) =~= s);
    } else {
        assert(s.drop_last().take(j) =~= s.take(j));
        lemma_value_prefix(s.drop_last(), j);
        assert(value_of(s.drop_last()) * 57 >= value_of(s.drop_last())) by (nonlinear_arith);
    }
}

/// Appending a digit multiplies by the radix and adds the digit.
pub proof fn lemma_value_push(s: Seq<char>, c: char)
    ensures
        value_of(s.push(c)) == value_of(s) * 57 + digit_value(c),
{
    assert(s.push(c).drop_last() =~= s);
}

/// A numeral is made of digits, is not empty, denotes its number, and
/// starts with the zero digit only where it is the numeral of 0.
pub proof fn lemma_numeral(n: nat)
    ensures
        numeral(n).len() >= 1,
        all_digits(numeral(n)),
        value_of(numeral(n)) == n,
        n > 0 ==> numeral(n)[0] != digit_char(0),
    decreases n,
{
    alphabet_is_unambiguous();
    if n < 57 {
        let s = numeral(n);
        lemma_digit_char_ascii(n);
        lemma_digit_value(n);
        assert(s.drop_last() =~= Seq::<char>::empty());
        assert(value_of(s.drop_last()) == 0);
    } else {
        lemma_numeral(n / 57);
        lemma_digit_char_ascii(n % 57);
        lemma_digit_value(n % 57);
        lemma_value_push(numeral(n / 57), digit_char(n % 57));
    }
}

/// Zero digits in front of a digit string do not change what it denotes.
pub proof fn lemma_value_leading_zeros(count: nat, s: Seq<char>)
    ensures
        value_of(zeros(count) + s) == value_of(s),
    decreases s.len(), count,
{
    let z = zeros(count);
    lemma_digit_value(0);
    if s.len() == 0 {
        assert(z + s =~= z);
        if count > 0 {
            assert(z.drop_last() =~= zeros((count - 1) as nat));
            assert(zeros((count - 1) as nat) + s =~= zeros((count - 1) as nat));
            lemma_value_leading_zeros((count - 1) as nat, s);
        }
    } else {
        assert((z + s).drop_last() =~= z + s.drop_last());
        lemma_value_leading_zeros(count, s.drop_last());
    }
}

/// 57 to the power `width`: the number of digit strings of that length,
/// and the least number whose numeral is longer.
pub open spec fn capacity(width: nat) -> nat
    decreases width,
{
    if width == 0 {
        1
    } else {
        57 * capacity((width - 1) as nat)
    }
}

/// A numeral has at most `width` digits exactly when its number is below
/// `capacity(width)`.
pub proof fn lemma_numeral_len(n: nat, width: nat)
    requires
        width >= 1,
    ensures
        numeral(n).len() <= width <==> n < capacity(width),
    decreases width,
{
    if width == 1 {
        assert(capacity(1) == 57) by {
            reveal_with_fuel(capacity, 2);
        }
        if n >= 57 {
            lemma_numeral(n / 57);
        }
    } else {
        if n >= 57 {
            lemma_numeral_len(n / 57, (width - 1) as nat);
        } else {
            lemma_capacity_positive((width - 1) as nat);
        }
    }
}

/// No capacity is zero.
pub proof fn lemma_capacity_positive(width: nat)
    ensures
        capacity(width) >= 1,
    decreases width,
{
    if width > 0 {
        lemma_capacity_positive((width - 1) as nat);
    }
}

/// Eleven digits hold the numbers below 20635899893042801193, and 22 digits
/// hold every number of 128 bits.
pub proof fn lemma_capacity_values()
    ensures
        capacity(11) == 20_635_899_893_042_801_193,
        capacity(22) == 425_840_364_395_683_893_717_099_776_640_122_223_249,
        capacity(22) > u128::MAX,
{
    reveal_with_fuel(capacity, 12);
    assert(capacity(11) == 20_635_899_893_042_801_193);
    assert(capacity(22) == 20_635_899_893_042_801_193 * capacity(11));
}

/// An encoding is made of digits, denotes its number, and is as long as
/// the numeral or the requested width, whichever is more.
pub proof fn lemma_encoding(n: nat, pad_to: Option<usize>)
    ensures
        all_digits(encoding(n, pad_to)),
        value_of(encoding(n, pad_to)) == n,
        encoding(n, pad_to).len() >= numeral(n).len() >= 1,
        encoding(n, pad_to).len() == match pad_to {
            Some(width) if width > numeral(n).len() => width as nat,
            _ => numeral(n).len(),
        },
{
    lemma_numeral(n);
    lemma_digit_char_ascii(0);
    if let Some(width) = pad_to {
        if width > numeral(n).len() {
            lemma_value_leading_zeros((width - numeral(n).len()) as nat, numeral(n));
        }
    }
}

/// Decoding what was encoded gives the number back, whatever padding the
/// encoding was made with.
pub proof fn round_trip(v: u128, pad_to: Option<usize>)
    ensures
        decoding(encoding(v as nat, pad_to)) == Ok::<u128, Id57Error>(v),
{
    let s = encoding(v as nat, pad_to);
    lemma_encoding(v as nat, pad_to);
    assert(s.take(s.len() as int) =~= s);
    lemma_digit_prefix_len(s, s.len() as int);
}

/// Padding to a width that the numeral does not exceed gives a string of
/// exactly that width, which decodes to the number.
pub proof fn padding_preserves_value(v: u128, width: usize)
    requires
        width >= numeral(v as nat).len(),
    ensures
        encoding(v as nat, Some(width)).len() == width,
        decoding(encoding(v as nat, Some(width))) == Ok::<u128, Id57Error>(v),
{
    lemma_encoding(v as nat, Some(width));
    round_trip(v, Some(width));
}

} // verus!
