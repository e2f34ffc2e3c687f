//! Luhn check digits over decimal digits only.

use vstd::prelude::*;
use crate::fold::{fold10, lemma_table_sum_congruent};
use crate::model::{DIGIT_0, decimal_checksum, decimal_valid};
use crate::vector::{block_kernel, fold10v};

verus! {

/// Whether `ascii` is a run of decimal digits whose last one is the Luhn check
/// digit of those before it.
pub fn valid(ascii: &[u8]) -> (ok: bool)
    ensures
        ok == decimal_valid(ascii@),
{
    match fold10(false, ascii) {
        Some(v) => {
            proof {
                lemma_table_sum_congruent(ascii@, false);
            }
            v % 10 == 0
        },
        None => false,
    }
}

/// The Luhn check digit to append to `ascii`, as an ASCII byte; `None` if
/// `ascii` holds anything but decimal digits.
pub fn checksum(ascii: &[u8]) -> (digit: Option<u8>)
    ensures
        digit == decimal_checksum(ascii@),
{
    match fold10(true, ascii) {
        Some(sum) => {
            proof {
                lemma_table_sum_congruent(ascii@, true);
            }
            Some(DIGIT_0 + ((10 - (sum % 10)) % 10) as u8)
        },
        None => None,
    }
}

/// [`valid`], sixteen bytes to the step, each block of sixteen summed by the
/// block kernel `kernel`.
pub fn valid_vec<K: Fn(&[u8; 16], u16) -> (bool, u16)>(ascii: &[u8], kernel: K) -> (ok: bool)
    requires
        block_kernel(kernel),
    ensures
        ok == decimal_valid(ascii@),
{
    match fold10v(false, ascii, kernel) {
        Some(v) => v % 10 == 0,
        None => false,
    }
}

/// [`checksum`], sixteen bytes to the step, each block of sixteen summed by
/// the block kernel `kernel`.
pub fn checksum_vec<K: Fn(&[u8; 16], u16) -> (bool, u16)>(ascii: &[u8], kernel: K) -> (digit:
    Option<u8>)
    requires
        block_kernel(kernel),
    ensures
        digit == decimal_checksum(ascii@),
{
    match fold10v(true, ascii, kernel) {
        Some(sum) => Some(DIGIT_0 + ((10 - (sum % 10)) % 10) as u8),
        None => None,
    }
}

} // verus!
