//! Byte-at-a-time folds: the weighted digit sum of a decimal or an
//! alphanumeric string, read from its right end.

use vstd::prelude::*;
use crate::model::{
    DIGIT_0, DIGIT_9, LETTER_A, LETTER_Z, all_alphanum, all_decimal, digit_value, digits_of,
    flag_before, is_digit, is_letter, lemma_luhn_sum_last, luhn_sum, symbol_weight, weight,
};

verus! {

/// For each digit value, what a doubled position adds on top of the value
/// itself, modulo ten.
pub const DELTA: [u8; 10] = [0, 1, 2, 3, 4, 6, 7, 8, 9, 0];

/// For each letter, its sum when its ones digit stands at a doubled position.
pub const LETTER_ONES_DOUBLED: [u8; 26] = [
    1, 3, 5, 7, 9, 2, 4, 6, 8, 10, 2, 4, 6, 8, 10, 3, 5, 7, 9, 11, 3, 5, 7, 9, 11, 4,
];

/// For each letter, its sum when its tens digit stands at a doubled position.
pub const LETTER_TENS_DOUBLED: [u8; 26] = [
    2, 3, 4, 5, 6, 7, 8, 9, 10, 11, 4, 5, 6, 7, 8, 9, 10, 11, 12, 13, 6, 7, 8, 9, 10, 11,
];

/// The correction that a doubled position adds to the digit value `d`.
pub open spec fn delta(d: int) -> int {
    if d == 9 {
        0
    } else if d >= 5 {
        d + 1
    } else {
        d
    }
}

/// What the symbol `b` adds to the running total of the byte-wise folds.
pub open spec fn table_weight(b: u8, transform: bool) -> int {
    if is_digit(b) {
        if transform {
            digit_value(b) + delta(digit_value(b))
        } else {
            digit_value(b)
        }
    } else {
        symbol_weight(b, transform)
    }
}

/// The total that the byte-wise folds reach on `s`.
pub open spec fn table_sum(s: Seq<u8>, transform: bool) -> int
    decreases s.len(),
{
    if s.len() == 0 {
        0
    } else {
        table_sum(s.drop_last(), flag_before(s.last(), transform)) + table_weight(
            s.last(),
            transform,
        )
    }
}

/// The letter tables hold, for the letter with index `i`, the sums of its two
/// digit values with one of them doubled.
pub proof fn lemma_letter_tables(i: int)
    requires
        0 <= i < 26,
    ensures
        LETTER_ONES_DOUBLED[i] == weight((10 + i) / 10, false) + weight((10 + i) % 10, true),
        LETTER_TENS_DOUBLED[i] == weight((10 + i) / 10, true) + weight((10 + i) % 10, false),
{
}

/// The folds' total and the Luhn sum leave the same remainder modulo ten.
pub proof fn lemma_table_sum_congruent(s: Seq<u8>, transform: bool)
    ensures
        table_sum(s, transform) % 10 == luhn_sum(digits_of(s), transform) % 10,
    decreases s.len(),
{
    if s.len() > 0 {
        lemma_table_sum_congruent(s.drop_last(), flag_before(s.last(), transform));
        lemma_luhn_sum_last(s, transform);
    }
}

/// Weighted digit sum of a decimal string. `correct` says whether the last
/// byte stands at a doubled position. `None` if any byte is not a digit.
pub fn fold10(correct: bool, raw: &[u8]) -> (sum: Option<u128>)
    ensures
        sum.is_some() == all_decimal(raw@),
        sum matches Some(v) ==> v == table_sum(raw@, correct),
{
    let mut flag = correct;
    let mut acc: u128 = 0;
    let mut i: usize = raw.len();
    proof {
        assert(raw@.take(i as int) == raw@);
    }
    while i > 0
        invariant
            i <= raw.len(),
            forall|j: int| i <= j < raw.len() ==> is_digit(#[trigger] raw@[j]),
            acc <= 17 * (raw.len() - i),
            acc + table_sum(raw@.take(i as int), flag) == table_sum(raw@, correct),
        decreases i,
    {
        i -= 1;
        let c = raw[i];
        proof {
            assert(raw@.take(i + 1).drop_last() == raw@.take(i as int));
            assert(raw@.take(i + 1).last() == c);
        }
        if DIGIT_0 <= c && c <= DIGIT_9 {
            let digit = (c - DIGIT_0) as usize;
            acc += digit as u128;
            if flag {
                acc += DELTA[digit] as u128;
            }
            flag = !flag;
        } else {
            return None;
        }
    }
    proof {
        assert(raw@.take(0).len() == 0);
    }
    Some(acc)
}

/// Weighted digit sum of an alphanumeric string. `correct` says whether the
/// last digit value stands at a doubled position. `None` if any byte is
/// neither a digit nor a capital letter.
pub fn fold36(correct: bool, raw: &[u8]) -> (sum: Option<u128>)
    ensures
        sum.is_some() == all_alphanum(raw@),
        sum matches Some(v) ==> v == table_sum(raw@, correct),
{
    let mut flag = correct;
    let mut acc: u128 = 0;
    let mut i: usize = raw.len();
    proof {
        assert(raw@.take(i as int) == raw@);
    }
    while i > 0
        invariant
            i <= raw.len(),
            forall|j: int| i <= j < raw.len() ==> (is_digit(#[trigger] raw@[j]) || is_letter(raw@[j])),
            acc <= 17 * (raw.len() - i),
            acc + table_sum(raw@.take(i as int), flag) == table_sum(raw@, correct),
        decreases i,
    {
        i -= 1;
        let c = raw[i];
        proof {
            assert(raw@.take(i + 1).drop_last() == raw@.take(i as int));
            assert(raw@.take(i + 1).last() == c);
        }
        if DIGIT_0 <= c && c <= DIGIT_9 {
            let digit = (c - DIGIT_0) as usize;
            acc += digit as u128;
            if flag {
                acc += DELTA[digit] as u128;
            }
            flag = !flag;
        } else if LETTER_A <= c && c <= LETTER_Z {
            let letter = (c - LETTER_A) as usize;
            proof {
                lemma_letter_tables(letter as int);
            }
            if flag {
                acc += LETTER_ONES_DOUBLED[letter] as u128;
            } else {
                acc += LETTER_TENS_DOUBLED[letter] as u128;
            }
        } else {
            return None;
        }
    }
    proof {
        assert(raw@.take(0).len() == 0);
    }
    Some(acc)
}

} // verus!
