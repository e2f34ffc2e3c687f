//! A constant-memory accumulator that takes digit values one at a time and
//! can say at any moment whether those seen so far end in their check digit.

use vstd::prelude::*;
use crate::model::{DIGIT_0, check_digit, digit_values, luhn_sum};

verus! {

/// The sum of every second digit value of `ds`, counted from the right end;
/// the last value is among them exactly if `pick`.
pub open spec fn column_sum(ds: Seq<u8>, pick: bool) -> int
    decreases ds.len(),
{
    if ds.len() == 0 {
        0
    } else {
        column_sum(ds.drop_last(), !pick) + if pick {
            ds.last() as int
        } else {
            0
        }
    }
}

/// How many of every second digit value of `ds` are five or more; the last
/// value is among those counted exactly if `pick`.
pub open spec fn column_high(ds: Seq<u8>, pick: bool) -> int
    decreases ds.len(),
{
    if ds.len() == 0 {
        0
    } else {
        column_high(ds.drop_last(), !pick) + if pick && ds.last() >= 5 {
            1int
        } else {
            0
        }
    }
}

/// Both columns together hold at most nine per digit, and a column's sum
/// covers five for each of its high digits.
pub proof fn lemma_column_bounds(ds: Seq<u8>)
    requires
        digit_values(ds),
    ensures
        0 <= column_high(ds, true),
        0 <= column_high(ds, false),
        5 * column_high(ds, true) <= column_sum(ds, true),
        5 * column_high(ds, false) <= column_sum(ds, false),
        column_sum(ds, true) + column_sum(ds, false) <= 9 * ds.len(),
    decreases ds.len(),
{
    if ds.len() > 0 {
        lemma_column_bounds(ds.drop_last());
        assert(ds[ds.len() - 1] < 10);
    }
}

/// The Luhn sum is twice the doubled column, less nine for each of its high
/// digits, plus the plain column.
pub proof fn lemma_luhn_sum_by_columns(ds: Seq<u8>, transform: bool)
    requires
        digit_values(ds),
    ensures
        luhn_sum(ds, transform) == 2 * column_sum(ds, transform) - 9 * column_high(ds, transform)
            + column_sum(ds, !transform),
    decreases ds.len(),
{
    if ds.len() > 0 {
        lemma_luhn_sum_by_columns(ds.drop_last(), !transform);
        assert(ds[ds.len() - 1] < 10);
    }
}

/// One column: the sum of its digit values, and how many are five or more.
#[derive(Clone, Copy)]
struct Blob {
    sum: usize,
    five_or_higher: usize,
}

/// Luhn accumulator for input that arrives digit by digit, such as a card
/// number with spaces in it. Its view is the run of digit values pushed.
///
/// It keeps two columns and lets them change roles with every digit, so that
/// it never has to know how many digits are still to come.
pub struct Mixer {
    /// The column that the next digit joins.
    current: Blob,
    /// The column that the last digit joined.
    previous: Blob,
    seen: Ghost<Seq<u8>>,
}

impl View for Mixer {
    type V = Seq<u8>;

    closed spec fn view(&self) -> Seq<u8> {
        self.seen@
    }
}

impl Default for Mixer {
    /// A mixer that has seen nothing.
    fn default() -> (m: Self)
        ensures
            m@ == Seq::<u8>::empty(),
            m.current() == (0int, 0int),
            m.previous() == (0int, 0int),
            m.columns_match(),
    {
        Mixer {
            current: Blob { sum: 0, five_or_higher: 0 },
            previous: Blob { sum: 0, five_or_higher: 0 },
            seen: Ghost(Seq::empty()),
        }
    }
}

impl Mixer {
    #[verifier::type_invariant]
    spec fn inv(self) -> bool {
        &&& digit_values(self.seen@)
        &&& self.seen@.len() <= Self::capacity()
        &&& self.previous.sum == column_sum(self.seen@, true)
        &&& self.previous.five_or_higher == column_high(self.seen@, true)
        &&& self.current.sum == column_sum(self.seen@, false)
        &&& self.current.five_or_higher == column_high(self.seen@, false)
    }

    /// The column that the next digit joins: its sum, and how many of its
    /// digits are five or more.
    pub closed spec fn current(&self) -> (int, int) {
        (self.current.sum as int, self.current.five_or_higher as int)
    }

    /// The column that the last digit joined: its sum, and how many of its
    /// digits are five or more.
    pub closed spec fn previous(&self) -> (int, int) {
        (self.previous.sum as int, self.previous.five_or_higher as int)
    }

    /// Of the digits seen, those at every second place counted from the last
    /// make up the previous column, and the others the current one.
    pub open spec fn columns_match(&self) -> bool {
        &&& self.previous() == (column_sum(self@, true), column_high(self@, true))
        &&& self.current() == (column_sum(self@, false), column_high(self@, false))
    }

    /// How many digits a mixer takes before its sums could leave `usize`.
    pub open spec fn capacity() -> int {
        (usize::MAX / 18) as int
    }

    /// Takes the next digit value: `1` for the character `1`, and for a
    /// letter its tens digit in one call, its ones digit in the next.
    pub fn push(&mut self, digit: u8)
        requires
            digit < 10,
            old(self)@.len() < Self::capacity(),
        ensures
            final(self)@ == old(self)@.push(digit),
            final(self).current() == old(self).previous(),
            final(self).previous() == (
                old(self).current().0 + digit,
                old(self).current().1 + if digit >= 5 {
                    1int
                } else {
                    0
                },
            ),
            final(self).columns_match(),
    {
        proof {
            use_type_invariant(&*self);
            lemma_column_bounds(self.seen@);
        }
        let mut joined = self.current;
        if digit >= 5 {
            joined.five_or_higher += 1;
        }
        joined.sum += digit as usize;
        let ghost seen = self.seen@.push(digit);
        proof {
            assert(seen.drop_last() =~= self.seen@);
        }
        *self = Mixer { current: self.previous, previous: joined, seen: Ghost(seen) };
    }

    /// Whether the last digit pushed is the check digit of those before it.
    /// True of a mixer that has seen nothing.
    pub fn valid(&self) -> (ok: bool)
        ensures
            ok == (luhn_sum(self@, false) % 10 == 0),
            ok == ((2 * self.current().0 - 9 * self.current().1 + self.previous().0) % 10 == 0),
            self.columns_match(),
    {
        proof {
            use_type_invariant(self);
            lemma_column_bounds(self.seen@);
            lemma_luhn_sum_by_columns(self.seen@, false);
        }
        (self.current.sum * 2 - self.current.five_or_higher * 9 + self.previous.sum) % 10 == 0
    }

    /// The check digit to append to the digits pushed, as an ASCII byte; `0`
    /// for a mixer that has seen nothing.
    pub fn checksum(&self) -> (digit: u8)
        ensures
            digit == check_digit(luhn_sum(self@, true)),
            digit == check_digit(
                2 * self.previous().0 - 9 * self.previous().1 + self.current().0,
            ),
            self.columns_match(),
    {
        proof {
            use_type_invariant(self);
            lemma_column_bounds(self.seen@);
            lemma_luhn_sum_by_columns(self.seen@, true);
        }
        let checksum: usize = self.previous.sum * 2 - self.previous.five_or_higher * 9
            + self.current.sum;
        DIGIT_0 + ((10 - (checksum % 10)) % 10) as u8
    }
}

} // verus!
