//! Luhn check digits over decimal digits and capital letters.

use vstd::prelude::*;
use crate::fold::{fold36, lemma_table_sum_congruent};
use crate::model::{DIGIT_0, alphanum_checksum, alphanum_valid};

verus! {

/// Whether `ascii` is a run of digits and capital letters whose last digit
/// value is the Luhn check digit of those before it.
pub fn valid(ascii: &[u8]) -> (ok: bool)
    ensures
        ok == alphanum_valid(ascii@),
{
    match fold36(false, ascii) {
        Some(v) => {
            proof {
                lemma_table_sum_congruent(ascii@, false);
            }
            v % 10 == 0
        },
        None => false,
    }
}

/// The Luhn check digit to append to `ascii`, as an ASCII byte; `None` if
/// `ascii` holds anything but decimal digits and capital letters.
pub fn checksum(ascii: &[u8]) -> (digit: Option<u8>)
    ensures
        digit == alphanum_checksum(ascii@),
{
    match fold36(true, ascii) {
        Some(sum) => {
            proof {
                lemma_table_sum_congruent(ascii@, true);
            }
            Some(DIGIT_0 + ((10 - (sum % 10)) % 10) as u8)
        },
        None => None,
    }
}

} // verus!
