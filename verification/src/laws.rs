//! What the check digit promises: it completes its body, and it catches a
//! changed digit and most swaps of neighbouring digits.

use vstd::prelude::*;
use crate::fold::{lemma_table_sum_congruent, table_sum};
use crate::mixer::{column_high, column_sum, lemma_luhn_sum_by_columns};
use crate::model::{
    DIGIT_0, DIGIT_9, all_alphanum, all_decimal, alphanum_checksum, alphanum_valid,
    decimal_checksum, decimal_valid, digit_value, digits_of, doubled, flag_before, is_digit,
    is_letter, lemma_digits_of_are_digit_values, lemma_luhn_sum_last, luhn_sum, weight,
};
use crate::swar::{carry_sum, lemma_carry_sum_congruent};

verus! {

/// The digit that follows `b`, with `9` followed by `0`.
pub open spec fn bumped(b: u8) -> u8 {
    if b == DIGIT_9 {
        DIGIT_0
    } else {
        (b + 1) as u8
    }
}

/// `s` with the bytes at `i` and `i + 1` exchanged.
pub open spec fn swapped(s: Seq<u8>, i: int) -> Seq<u8> {
    s.update(i, s[i + 1]).update(i + 1, s[i])
}

/// On a decimal string the byte-wise fold, the word-parallel fold and the
/// column sums that a mixer keeps of its digit values all leave the Luhn
/// sum's remainder modulo ten, whichever end the doubling starts from: the
/// tiers agree on validity and on the check digit.
pub proof fn lemma_tiers_agree(s: Seq<u8>, transform: bool)
    requires
        all_decimal(s),
    ensures
        table_sum(s, transform) % 10 == luhn_sum(digits_of(s), transform) % 10,
        carry_sum(s, transform) % 10 == luhn_sum(digits_of(s), transform) % 10,
        2 * column_sum(digits_of(s), transform) - 9 * column_high(digits_of(s), transform)
            + column_sum(digits_of(s), !transform) == luhn_sum(digits_of(s), transform),
{
    lemma_table_sum_congruent(s, transform);
    lemma_carry_sum_congruent(s, transform);
    assert(all_alphanum(s));
    lemma_digits_of_are_digit_values(s);
    lemma_luhn_sum_by_columns(digits_of(s), transform);
}

/// A decimal identifier is valid as an alphanumeric one exactly if it is
/// valid as a decimal one, and has the same check digit either way.
pub proof fn lemma_alphabets_agree(s: Seq<u8>)
    requires
        all_decimal(s),
    ensures
        alphanum_valid(s) == decimal_valid(s),
        alphanum_checksum(s) == decimal_checksum(s),
{
    assert(all_alphanum(s));
}

/// A decimal body followed by its check digit is valid.
pub proof fn lemma_checksum_completes_decimal(body: Seq<u8>, c: u8)
    requires
        decimal_checksum(body) == Some(c),
    ensures
        decimal_valid(body.push(c)),
{
    let s = body.push(c);
    assert(s.drop_last() =~= body);
    assert(s.last() == c);
    lemma_luhn_sum_last(s, false);
    assert forall|i: int| 0 <= i < s.len() implies is_digit(#[trigger] s[i]) by {
        if i < body.len() {
            assert(is_digit(body[i]));
        }
    }
}

/// An alphanumeric body followed by its check digit is valid.
pub proof fn lemma_checksum_completes_alphanum(body: Seq<u8>, c: u8)
    requires
        alphanum_checksum(body) == Some(c),
    ensures
        alphanum_valid(body.push(c)),
{
    let s = body.push(c);
    assert(s.drop_last() =~= body);
    assert(s.last() == c);
    lemma_luhn_sum_last(s, false);
    assert forall|i: int| 0 <= i < s.len() implies (is_digit(#[trigger] s[i]) || is_letter(
        s[i],
    )) by {
        if i < body.len() {
            assert(is_digit(body[i]) || is_letter(body[i]));
        }
    }
}

/// Putting another digit in the place of one digit of a string moves its
/// Luhn sum by an amount that is no multiple of ten.
pub proof fn lemma_change_moves_sum(s: Seq<u8>, i: int, c: u8, transform: bool)
    requires
        0 <= i < s.len(),
        is_digit(s[i]),
        is_digit(c),
        c != s[i],
    ensures
        (luhn_sum(digits_of(s.update(i, c)), transform) - luhn_sum(digits_of(s), transform)) % 10
            != 0,
    decreases s.len(),
{
    let t = s.update(i, c);
    lemma_luhn_sum_last(s, transform);
    lemma_luhn_sum_last(t, transform);
    if i == s.len() - 1 {
        assert(t.drop_last() =~= s.drop_last());
    } else {
        assert(t.drop_last() =~= s.drop_last().update(i, c));
        lemma_change_moves_sum(s.drop_last(), i, c, flag_before(s.last(), transform));
    }
}

/// Two digit values that differ, and are not 0 and 9, weigh differently
/// modulo ten when they change places.
pub proof fn lemma_places_matter(a: int, b: int, transform: bool)
    requires
        0 <= a < 10,
        0 <= b < 10,
        a != b,
        !(a == 0 && b == 9),
        !(a == 9 && b == 0),
    ensures
        (weight(b, !transform) + weight(a, transform) - weight(a, !transform) - weight(
            b,
            transform,
        )) % 10 != 0,
{
    let da = doubled(a) - a;
    let db = doubled(b) - b;
    assert(da != db && da - db != 10 && db - da != 10);
    assert(-4 <= da <= 4 && -4 <= db <= 4);
}

/// Exchanging two neighbouring digits that differ, and are not `0` and `9`,
/// moves the Luhn sum by an amount that is no multiple of ten.
pub proof fn lemma_swap_moves_sum(s: Seq<u8>, i: int, transform: bool)
    requires
        0 <= i,
        i + 1 < s.len(),
        is_digit(s[i]),
        is_digit(s[i + 1]),
        s[i] != s[i + 1],
        !(s[i] == DIGIT_0 && s[i + 1] == DIGIT_9),
        !(s[i] == DIGIT_9 && s[i + 1] == DIGIT_0),
    ensures
        (luhn_sum(digits_of(swapped(s, i)), transform) - luhn_sum(digits_of(s), transform)) % 10
            != 0,
    decreases s.len(),
{
    let t = swapped(s, i);
    lemma_luhn_sum_last(s, transform);
    lemma_luhn_sum_last(t, transform);
    if i + 1 == s.len() - 1 {
        let a = digit_value(s[i]);
        let b = digit_value(s[i + 1]);
        let rest = luhn_sum(digits_of(s.drop_last().drop_last()), transform);
        lemma_luhn_sum_last(s.drop_last(), !transform);
        lemma_luhn_sum_last(t.drop_last(), !transform);
        assert(t.drop_last().drop_last() =~= s.drop_last().drop_last());
        assert(s.last() == s[i + 1] && s.drop_last().last() == s[i]);
        assert(t.last() == s[i] && t.drop_last().last() == s[i + 1]);
        assert(luhn_sum(digits_of(s), transform) == rest + weight(a, !transform) + weight(
            b,
            transform,
        ));
        assert(luhn_sum(digits_of(t), transform) == rest + weight(b, !transform) + weight(
            a,
            transform,
        ));
        lemma_places_matter(a, b, transform);
    } else {
        assert(t.drop_last() =~= swapped(s.drop_last(), i));
        lemma_swap_moves_sum(s.drop_last(), i, flag_before(s.last(), transform));
    }
}

/// A valid decimal identifier stops being valid when any one of its digits
/// is stepped to the next digit, `9` to `0`.
pub proof fn lemma_single_error_detected_decimal(s: Seq<u8>, i: int)
    requires
        decimal_valid(s),
        0 <= i < s.len(),
    ensures
        !decimal_valid(s.update(i, bumped(s[i]))),
{
    assert(is_digit(s[i]));
    lemma_change_moves_sum(s, i, bumped(s[i]), false);
}

/// A valid alphanumeric identifier stops being valid when any one of its
/// digits is stepped to the next digit, `9` to `0`.
pub proof fn lemma_single_error_detected_alphanum(s: Seq<u8>, i: int)
    requires
        alphanum_valid(s),
        0 <= i < s.len(),
        is_digit(s[i]),
    ensures
        !alphanum_valid(s.update(i, bumped(s[i]))),
{
    lemma_change_moves_sum(s, i, bumped(s[i]), false);
}

/// A valid identifier stops being valid when any one of its digits is
/// replaced by another digit, whatever the two digits are.
pub proof fn lemma_changed_digit_detected(s: Seq<u8>, i: int, c: u8)
    requires
        0 <= i < s.len(),
        is_digit(s[i]),
        is_digit(c),
        c != s[i],
    ensures
        decimal_valid(s) ==> !decimal_valid(s.update(i, c)),
        alphanum_valid(s) ==> !alphanum_valid(s.update(i, c)),
{
    lemma_change_moves_sum(s, i, c, false);
}

/// A valid decimal identifier stops being valid when two neighbouring digits
/// that differ are exchanged, unless the two are `0` and `9`.
pub proof fn lemma_transposition_detected(s: Seq<u8>, i: int)
    requires
        decimal_valid(s),
        0 <= i,
        i + 1 < s.len(),
        s[i] != s[i + 1],
        !(s[i] == DIGIT_0 && s[i + 1] == DIGIT_9),
        !(s[i] == DIGIT_9 && s[i + 1] == DIGIT_0),
    ensures
        !decimal_valid(swapped(s, i)),
{
    assert(is_digit(s[i]) && is_digit(s[i + 1]));
    lemma_swap_moves_sum(s, i, false);
}

/// A string that holds a byte which is no decimal digit is not a valid
/// decimal identifier and has no decimal check digit.
pub proof fn lemma_foreign_byte_rejected_decimal(s: Seq<u8>, i: int)
    requires
        0 <= i < s.len(),
        !is_digit(s[i]),
    ensures
        !decimal_valid(s),
        decimal_checksum(s) == None::<u8>,
        !all_decimal(s),
{
}

/// A string that holds a byte which is neither a decimal digit nor a capital
/// letter is not a valid alphanumeric identifier and has no check digit.
pub proof fn lemma_foreign_byte_rejected_alphanum(s: Seq<u8>, i: int)
    requires
        0 <= i < s.len(),
        !is_digit(s[i]),
        !is_letter(s[i]),
    ensures
        !alphanum_valid(s),
        alphanum_checksum(s) == None::<u8>,
        !all_alphanum(s),
{
}

} // verus!
