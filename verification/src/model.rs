//! The mathematics of the Luhn checksum: which bytes are symbols, which digit
//! values they stand for, and the weighted sum of a run of digit values.

use vstd::prelude::*;

verus! {

/// ASCII `0`.
pub const DIGIT_0: u8 = 0x30;

/// ASCII `9`.
pub const DIGIT_9: u8 = 0x39;

/// ASCII `A`.
pub const LETTER_A: u8 = 0x41;

/// ASCII `Z`.
pub const LETTER_Z: u8 = 0x5a;

/// `b` is an ASCII decimal digit.
pub open spec fn is_digit(b: u8) -> bool {
    DIGIT_0 <= b <= DIGIT_9
}

/// `b` is an ASCII capital letter.
pub open spec fn is_letter(b: u8) -> bool {
    LETTER_A <= b <= LETTER_Z
}

/// The value of the digit `b`.
pub open spec fn digit_value(b: u8) -> int {
    b - DIGIT_0
}

/// The number that the letter `b` stands for: 10 for `A`, 35 for `Z`.
pub open spec fn letter_value(b: u8) -> int {
    b - LETTER_A + 10
}

/// Every byte of `s` is a decimal digit.
pub open spec fn all_decimal(s: Seq<u8>) -> bool {
    forall|i: int| 0 <= i < s.len() ==> is_digit(#[trigger] s[i])
}

/// Every byte of `s` is a decimal digit or a capital letter.
pub open spec fn all_alphanum(s: Seq<u8>) -> bool {
    forall|i: int| 0 <= i < s.len() ==> (is_digit(#[trigger] s[i]) || is_letter(s[i]))
}

/// The decimal digit values one symbol stands for. A digit stands for itself;
/// a letter stands for a number from 10 (`A`) to 35 (`Z`), written as its tens
/// digit followed by its ones digit. Any other byte stands for nothing.
pub open spec fn symbol_digits(b: u8) -> Seq<u8> {
    if is_digit(b) {
        seq![digit_value(b) as u8]
    } else if is_letter(b) {
        seq![(letter_value(b) / 10) as u8, (letter_value(b) % 10) as u8]
    } else {
        Seq::empty()
    }
}

/// The digit values that the symbols of `s` stand for, in reading order.
pub open spec fn digits_of(s: Seq<u8>) -> Seq<u8>
    decreases s.len(),
{
    if s.len() == 0 {
        Seq::empty()
    } else {
        digits_of(s.drop_last()) + symbol_digits(s.last())
    }
}

/// Every element of `ds` is a digit value, 0 to 9.
pub open spec fn digit_values(ds: Seq<u8>) -> bool {
    forall|i: int| 0 <= i < ds.len() ==> #[trigger] ds[i] < 10
}

/// A digit value doubled, with nine taken off when the double has two digits.
pub open spec fn doubled(d: int) -> int {
    if 2 * d > 9 {
        2 * d - 9
    } else {
        2 * d
    }
}

/// What one digit value adds to the Luhn sum at a doubled or a plain position.
pub open spec fn weight(d: int, transform: bool) -> int {
    if transform {
        doubled(d)
    } else {
        d
    }
}

/// The Luhn sum of the digit values `ds`. Positions alternate from the right
/// end; the last value stands at a doubled position exactly if `transform`.
pub open spec fn luhn_sum(ds: Seq<u8>, transform: bool) -> int
    decreases ds.len(),
{
    if ds.len() == 0 {
        0
    } else {
        luhn_sum(ds.drop_last(), !transform) + weight(ds.last() as int, transform)
    }
}

/// The ASCII digit that brings a body with Luhn sum `sum` to a multiple of ten.
pub open spec fn check_digit(sum: int) -> u8 {
    (DIGIT_0 + (10 - sum % 10) % 10) as u8
}

/// `s` is a decimal identifier whose last digit is its Luhn check digit.
pub open spec fn decimal_valid(s: Seq<u8>) -> bool {
    all_decimal(s) && luhn_sum(digits_of(s), false) % 10 == 0
}

/// `s` is an alphanumeric identifier whose last digit value is its Luhn check
/// digit.
pub open spec fn alphanum_valid(s: Seq<u8>) -> bool {
    all_alphanum(s) && luhn_sum(digits_of(s), false) % 10 == 0
}

/// The check digit to append to the decimal body `s`, if it is one.
pub open spec fn decimal_checksum(s: Seq<u8>) -> Option<u8> {
    if all_decimal(s) {
        Some(check_digit(luhn_sum(digits_of(s), true)))
    } else {
        None
    }
}

/// The check digit to append to the alphanumeric body `s`, if it is one.
pub open spec fn alphanum_checksum(s: Seq<u8>) -> Option<u8> {
    if all_alphanum(s) {
        Some(check_digit(luhn_sum(digits_of(s), true)))
    } else {
        None
    }
}

/// The position flag to the left of symbol `b`, when `b` itself stands at a
/// position with flag `transform`: a digit takes one position, a letter two.
pub open spec fn flag_before(b: u8, transform: bool) -> bool {
    if is_digit(b) {
        !transform
    } else {
        transform
    }
}

/// What the symbol `b` adds to the Luhn sum when its last digit value stands
/// at a position with flag `transform`.
pub open spec fn symbol_weight(b: u8, transform: bool) -> int {
    if is_digit(b) {
        weight(digit_value(b), transform)
    } else if is_letter(b) {
        weight(letter_value(b) / 10, !transform) + weight(letter_value(b) % 10, transform)
    } else {
        0
    }
}

/// The Luhn sum of a symbol string, taken symbol by symbol from the right.
pub proof fn lemma_luhn_sum_last(s: Seq<u8>, transform: bool)
    requires
        s.len() > 0,
    ensures
        luhn_sum(digits_of(s), transform) == luhn_sum(
            digits_of(s.drop_last()),
            flag_before(s.last(), transform),
        ) + symbol_weight(s.last(), transform),
{
    let head = digits_of(s.drop_last());
    let b = s.last();
    let ds = digits_of(s);
    assert(ds == head + symbol_digits(b));
    if is_digit(b) {
        assert(ds.drop_last() =~= head);
        assert(ds.last() == digit_value(b) as u8);
    } else if is_letter(b) {
        let tens = (letter_value(b) / 10) as u8;
        let ones = (letter_value(b) % 10) as u8;
        assert(ds.last() == ones);
        assert(ds.drop_last() =~= head.push(tens));
        assert(ds.drop_last().drop_last() =~= head);
        assert(ds.drop_last().last() == tens);
        assert(luhn_sum(ds.drop_last(), !transform) == luhn_sum(head, transform) + weight(
            tens as int,
            !transform,
        ));
    } else {
        assert(ds =~= head);
    }
}

/// The symbols of a well-formed string stand for digit values only.
pub proof fn lemma_digits_of_are_digit_values(s: Seq<u8>)
    requires
        all_alphanum(s),
    ensures
        digit_values(digits_of(s)),
    decreases s.len(),
{
    if s.len() > 0 {
        lemma_digits_of_are_digit_values(s.drop_last());
        assert(is_digit(s[s.len() - 1]) || is_letter(s[s.len() - 1]));
    }
}

} // verus!
