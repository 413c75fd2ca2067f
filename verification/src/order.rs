//! The order of strings by their characters, and why digit strings of one
//! width are ordered as the numbers that they denote.

use vstd::prelude::*;
use crate::alphabet::{
    digit_value, is_digit_char, lemma_alphabet_increasing, lemma_digit_value_range,
};
use crate::numeral::{all_digits, value_of};

verus! {

/// True when `a` and `b` agree on their first `k` characters and then `a`
/// ends while `b` goes on, or `a` has the character with the smaller code.
pub open spec fn precedes_at(a: Seq<char>, b: Seq<char>, k: int) -> bool {
    &&& 0 <= k <= a.len()
    &&& k <= b.len()
    &&& a.take(k) == b.take(k)
    &&& k < b.len()
    &&& k < a.len() ==> (a[k] as u32) < (b[k] as u32)
}

/// True when `a` comes before `b` in lexicographic order by character
/// code, the order in which strings are sorted.
pub open spec fn precedes(a: Seq<char>, b: Seq<char>) -> bool {
    exists|k: int| precedes_at(a, b, k)
}

/// Two digit strings of one length that denote one number are equal.
pub proof fn lemma_fixed_width_equal(a: Seq<char>, b: Seq<char>)
    requires
        a.len() == b.len(),
        all_digits(a),
        all_digits(b),
        value_of(a) == value_of(b),
    ensures
        a == b,
    decreases a.len(),
{
    if a.len() > 0 {
        let x = a.last();
        let y = b.last();
        lemma_digit_value_range(x);
        lemma_digit_value_range(y);
        lemma_drop_last_digits(a);
        lemma_drop_last_digits(b);
        lemma_fixed_width_equal(a.drop_last(), b.drop_last());
        assert(a =~= a.drop_last().push(x));
        assert(b =~= b.drop_last().push(y));
    } else {
        assert(a =~= b);
    }
}

/// Of two digit strings of one length, the one that denotes the smaller
/// number has the smaller character where they first differ.
pub proof fn lemma_fixed_width_order(a: Seq<char>, b: Seq<char>)
    requires
        a.len() == b.len(),
        all_digits(a),
        all_digits(b),
        value_of(a) < value_of(b),
    ensures
        exists|k: int| 0 <= k < a.len() && #[trigger] precedes_at(a, b, k),
    decreases a.len(),
{
    if a.len() > 0 {
        let x = a.last();
        let y = b.last();
        let front_a = a.drop_last();
        let front_b = b.drop_last();
        lemma_digit_value_range(x);
        lemma_digit_value_range(y);
        lemma_drop_last_digits(a);
        lemma_drop_last_digits(b);
        if value_of(front_a) < value_of(front_b) {
            lemma_fixed_width_order(front_a, front_b);
            let k = choose|k: int|
                0 <= k < front_a.len() && #[trigger] precedes_at(front_a, front_b, k);
            assert(a.take(k) =~= front_a.take(k));
            assert(b.take(k) =~= front_b.take(k));
            assert(precedes_at(a, b, k));
        } else {
            assert(value_of(front_a) == value_of(front_b));
            lemma_fixed_width_equal(front_a, front_b);
            lemma_alphabet_increasing();
            let k = a.len() - 1;
            assert(a.take(k) =~= front_a);
            assert(b.take(k) =~= front_b);
            assert(digit_value(x) < digit_value(y));
            assert(precedes_at(a, b, k));
        }
    }
}

/// A digit string without its last character is a digit string.
proof fn lemma_drop_last_digits(s: Seq<char>)
    requires
        s.len() > 0,
        all_digits(s),
    ensures
        all_digits(s.drop_last()),
{
    assert forall|i: int| 0 <= i < s.drop_last().len() implies is_digit_char(
        #[trigger] s.drop_last()[i],
    ) by {
        assert(s.drop_last()[i] == s[i]);
    }
}

/// What follows two strings of one length does not change which of them
/// comes first.
pub proof fn lemma_precedes_extend(a: Seq<char>, b: Seq<char>, x: Seq<char>, y: Seq<char>, k: int)
    requires
        a.len() == b.len(),
        0 <= k < a.len(),
        precedes_at(a, b, k),
    ensures
        precedes(a + x, b + y),
{
    assert((a + x).take(k) =~= a.take(k));
    assert((b + y).take(k) =~= b.take(k));
    assert(precedes_at(a + x, b + y, k));
}

} // verus!
