//! Word-parallel fold: eight digits at a time, packed into one `u64`.

use vstd::prelude::*;
use crate::model::{
    DIGIT_0, all_decimal, decimal_checksum, decimal_valid, digits_of, is_digit,
    lemma_luhn_sum_last, luhn_sum,
};

verus! {

/// `0x30` in every byte lane.
pub const ZEROS: u64 = 0x3030_3030_3030_3030;

/// The top bit of every byte lane.
pub const TOPS: u64 = 0x8080_8080_8080_8080;

/// What lifts every byte above `9` into its lane's top bit.
pub const PAST_NINE: u64 = 0x4646_4646_4646_4646;

/// `1` in every byte lane.
pub const ONES: u64 = 0x0101_0101_0101_0101;

/// Lane weights when the last byte stands at a plain position.
pub const WEIGHTS_PLAIN_LAST: u64 = 0x0201_0201_0201_0201;

/// Lane weights when the last byte stands at a doubled position.
pub const WEIGHTS_DOUBLED_LAST: u64 = 0x0102_0102_0102_0102;

/// Taking the word from this leaves a borrow in each doubled lane that holds
/// five or more, when the last byte stands at a plain position.
pub const FIVES_PLAIN_LAST: u64 = 0x7f34_7f34_7f34_7f34;

/// The same when the last byte stands at a doubled position.
pub const FIVES_DOUBLED_LAST: u64 = 0x347f_347f_347f_347f;

/// Byte lane `k` of `w`, lane 0 being the lowest.
pub open spec fn lane(w: u64, k: u64) -> u64 {
    (w >> (8 * k)) & 0xff
}

/// Every byte lane of `w` holds an ASCII digit.
pub open spec fn digit_lanes(w: u64) -> bool {
    &&& 0x30 <= lane(w, 0) <= 0x39
    &&& 0x30 <= lane(w, 1) <= 0x39
    &&& 0x30 <= lane(w, 2) <= 0x39
    &&& 0x30 <= lane(w, 3) <= 0x39
    &&& 0x30 <= lane(w, 4) <= 0x39
    &&& 0x30 <= lane(w, 5) <= 0x39
    &&& 0x30 <= lane(w, 6) <= 0x39
    &&& 0x30 <= lane(w, 7) <= 0x39
}

/// 1 if the byte `b` is the digit five or a higher one, else 0.
pub open spec fn high(b: u64) -> int {
    if b >= 0x35 {
        1
    } else {
        0
    }
}

/// What the digit byte `b` adds to the word-parallel total: itself at a plain
/// position; at a doubled one its double, and one more if it is five or more.
pub open spec fn carry_weight(b: u64, transform: bool) -> int {
    if transform {
        2 * (b - 0x30) + high(b)
    } else {
        b - 0x30
    }
}

/// The total of `carry_weight` over the eight lanes of `w`, the top lane
/// being the last byte.
pub open spec fn word_sum(w: u64, transform: bool) -> int {
    carry_weight(lane(w, 7), transform) + carry_weight(lane(w, 6), !transform) + carry_weight(
        lane(w, 5),
        transform,
    ) + carry_weight(lane(w, 4), !transform) + carry_weight(lane(w, 3), transform) + carry_weight(
        lane(w, 2),
        !transform,
    ) + carry_weight(lane(w, 1), transform) + carry_weight(lane(w, 0), !transform)
}

/// The two overflow tests together find exactly the words made of digits.
#[verifier::rlimit(50)]
proof fn lemma_range_test(w: u64, a: u64, v: u64)
    by (bit_vector)
    requires
        a == if w + PAST_NINE > 0xffff_ffff_ffff_ffff {
            (w + PAST_NINE - 0x1_0000_0000_0000_0000) as u64
        } else {
            (w + PAST_NINE) as u64
        },
        v == if w - ZEROS < 0 {
            (w - ZEROS + 0x1_0000_0000_0000_0000) as u64
        } else {
            (w - ZEROS) as u64
        },
    ensures
        ((a | v) & TOPS == 0) == digit_lanes(w),
        digit_lanes(w) ==> v == w - ZEROS,
{
}

/// Taking `0x30` from every lane of a word of digits leaves the digit values.
#[verifier::rlimit(50)]
proof fn lemma_digit_values(w: u64, v: u64)
    by (bit_vector)
    requires
        digit_lanes(w),
        v == (w - ZEROS) as u64,
    ensures
        v & 0xf0f0_f0f0_f0f0_f0f0 == 0,
        lane(v, 0) == lane(w, 0) - 0x30,
        lane(v, 1) == lane(w, 1) - 0x30,
        lane(v, 2) == lane(w, 2) - 0x30,
        lane(v, 3) == lane(w, 3) - 0x30,
        lane(v, 4) == lane(w, 4) - 0x30,
        lane(v, 5) == lane(w, 5) - 0x30,
        lane(v, 6) == lane(w, 6) - 0x30,
        lane(v, 7) == lane(w, 7) - 0x30,
{
}

/// With the last byte at a plain position, the multiply gathers the digit
/// values, each times its lane's weight, in the top lane of the product.
#[verifier::rlimit(100)]
proof fn lemma_weighted_plain_last(v: u64, p: u64)
    by (bit_vector)
    requires
        v & 0xf0f0_f0f0_f0f0_f0f0 == 0,
        p == (((v as nat * WEIGHTS_PLAIN_LAST as nat) % 0x1_0000_0000_0000_0000nat) as u64) >> 56,
    ensures
        p == lane(v, 7) + 2 * lane(v, 6) + lane(v, 5) + 2 * lane(v, 4) + lane(v, 3) + 2 * lane(
            v,
            2,
        ) + lane(v, 1) + 2 * lane(v, 0),
{
}

/// With the last byte at a doubled position, the multiply gathers the digit
/// values, each times its lane's weight, in the top lane of the product.
#[verifier::rlimit(100)]
proof fn lemma_weighted_doubled_last(v: u64, p: u64)
    by (bit_vector)
    requires
        v & 0xf0f0_f0f0_f0f0_f0f0 == 0,
        p == (((v as nat * WEIGHTS_DOUBLED_LAST as nat) % 0x1_0000_0000_0000_0000nat) as u64) >> 56,
    ensures
        p == 2 * lane(v, 7) + lane(v, 6) + 2 * lane(v, 5) + lane(v, 4) + 2 * lane(v, 3) + lane(
            v,
            2,
        ) + 2 * lane(v, 1) + lane(v, 0),
{
}

/// The subtraction borrows in exactly the doubled lanes that hold five or
/// more, and the second multiply counts the borrows.
#[verifier::rlimit(50)]
proof fn lemma_borrow_count(w: u64, transform: bool, f: u64, c: u64)
    by (bit_vector)
    requires
        digit_lanes(w),
        transform ==> f == if FIVES_DOUBLED_LAST - w < 0 {
            (FIVES_DOUBLED_LAST - w + 0x1_0000_0000_0000_0000) as u64
        } else {
            (FIVES_DOUBLED_LAST - w) as u64
        },
        !transform ==> f == if FIVES_PLAIN_LAST - w < 0 {
            (FIVES_PLAIN_LAST - w + 0x1_0000_0000_0000_0000) as u64
        } else {
            (FIVES_PLAIN_LAST - w) as u64
        },
        c == ((((f & TOPS) >> 7) as nat * ONES as nat) % 0x1_0000_0000_0000_0000nat) as u64 >> 56,
    ensures
        transform ==> c == high(lane(w, 7)) + high(lane(w, 5)) + high(lane(w, 3)) + high(
            lane(w, 1),
        ),
        !transform ==> c == high(lane(w, 6)) + high(lane(w, 4)) + high(lane(w, 2)) + high(
            lane(w, 0),
        ),
{
}

/// A word put together from eight bytes holds each in its lane.
#[verifier::rlimit(50)]
proof fn lemma_lanes_of_packed(
    b0: u8,
    b1: u8,
    b2: u8,
    b3: u8,
    b4: u8,
    b5: u8,
    b6: u8,
    b7: u8,
    w: u64,
)
    by (bit_vector)
    requires
        w == (b0 as u64) << 56 | (b1 as u64) << 48 | (b2 as u64) << 40 | (b3 as u64) << 32 | (
        b4 as u64) << 24 | (b5 as u64) << 16 | (b6 as u64) << 8 | (b7 as u64),
    ensures
        lane(w, 7) == b0,
        lane(w, 6) == b1,
        lane(w, 5) == b2,
        lane(w, 4) == b3,
        lane(w, 3) == b4,
        lane(w, 2) == b5,
        lane(w, 1) == b6,
        lane(w, 0) == b7,
{
}

/// The byte `k` places before position `end` of `s`; in front of the start
/// of `s`, the digit `0`.
pub open spec fn padded(s: Seq<u8>, end: int, k: int) -> u8 {
    if k < end {
        s[end - 1 - k]
    } else {
        DIGIT_0
    }
}

/// The lanes of `w` hold the eight bytes of `s` before `end`, the last one
/// in the top lane, with `0` where `s` has fewer.
pub open spec fn holds_tail(w: u64, s: Seq<u8>, end: int) -> bool {
    &&& lane(w, 7) == padded(s, end, 0)
    &&& lane(w, 6) == padded(s, end, 1)
    &&& lane(w, 5) == padded(s, end, 2)
    &&& lane(w, 4) == padded(s, end, 3)
    &&& lane(w, 3) == padded(s, end, 4)
    &&& lane(w, 2) == padded(s, end, 5)
    &&& lane(w, 1) == padded(s, end, 6)
    &&& lane(w, 0) == padded(s, end, 7)
}

/// What is left of `s` in front of the `k` bytes before `end`.
pub open spec fn front(s: Seq<u8>, end: int, k: int) -> Seq<u8> {
    s.take(if end > k { end - k } else { 0 })
}

/// The total that the word-parallel fold reaches on the decimal string `s`.
pub open spec fn carry_sum(s: Seq<u8>, transform: bool) -> int
    decreases s.len(),
{
    if s.len() == 0 {
        0
    } else {
        carry_sum(s.drop_last(), !transform) + carry_weight(s.last() as u64, transform)
    }
}

/// On a decimal string, the word-parallel total and the Luhn sum leave the
/// same remainder modulo ten.
pub proof fn lemma_carry_sum_congruent(s: Seq<u8>, transform: bool)
    requires
        all_decimal(s),
    ensures
        carry_sum(s, transform) % 10 == luhn_sum(digits_of(s), transform) % 10,
    decreases s.len(),
{
    if s.len() > 0 {
        assert(is_digit(s[s.len() - 1]));
        lemma_carry_sum_congruent(s.drop_last(), !transform);
        lemma_luhn_sum_last(s, transform);
    }
}

proof fn lemma_carry_sum_step(s: Seq<u8>, end: int, k: int, transform: bool)
    requires
        0 <= end <= s.len(),
        0 <= k,
    ensures
        carry_sum(front(s, end, k), transform) == carry_sum(front(s, end, k + 1), !transform)
            + carry_weight(padded(s, end, k) as u64, transform),
{
    if k < end {
        assert(front(s, end, k).drop_last() =~= front(s, end, k + 1));
    }
}

/// The total of a string ending in the bytes of a word is the word's total
/// on top of the total of what stands in front of them.
proof fn lemma_carry_sum_word(s: Seq<u8>, end: int, transform: bool, w: u64)
    requires
        0 <= end <= s.len(),
        holds_tail(w, s, end),
    ensures
        carry_sum(s.take(end), transform) == carry_sum(front(s, end, 8), transform) + word_sum(
            w,
            transform,
        ),
{
    lemma_carry_sum_step(s, end, 0, transform);
    lemma_carry_sum_step(s, end, 1, !transform);
    lemma_carry_sum_step(s, end, 2, transform);
    lemma_carry_sum_step(s, end, 3, !transform);
    lemma_carry_sum_step(s, end, 4, transform);
    lemma_carry_sum_step(s, end, 5, !transform);
    lemma_carry_sum_step(s, end, 6, transform);
    lemma_carry_sum_step(s, end, 7, !transform);
}

/// A word holds digits in every lane exactly if the bytes it was loaded
/// from are digits.
proof fn lemma_tail_digits(s: Seq<u8>, end: int, w: u64)
    requires
        0 <= end <= s.len(),
        holds_tail(w, s, end),
    ensures
        digit_lanes(w) == (forall|j: int| end - 8 <= j < end && 0 <= j ==> is_digit(#[trigger] s[j])),
{
    if digit_lanes(w) {
        assert forall|j: int| end - 8 <= j < end && 0 <= j implies is_digit(#[trigger] s[j]) by {
            let k = end - 1 - j;
            assert(s[j] == padded(s, end, k));
            assert(k == 0 || k == 1 || k == 2 || k == 3 || k == 4 || k == 5 || k == 6 || k == 7);
        }
    }
    if forall|j: int| end - 8 <= j < end && 0 <= j ==> is_digit(#[trigger] s[j]) {
        assert forall|k: int| 0 <= k < 8 implies is_digit(#[trigger] padded(s, end, k)) by {
            if k < end {
                assert(is_digit(s[end - 1 - k]));
            }
        }
        assert(is_digit(padded(s, end, 0)));
        assert(is_digit(padded(s, end, 1)));
        assert(is_digit(padded(s, end, 2)));
        assert(is_digit(padded(s, end, 3)));
        assert(is_digit(padded(s, end, 4)));
        assert(is_digit(padded(s, end, 5)));
        assert(is_digit(padded(s, end, 6)));
        assert(is_digit(padded(s, end, 7)));
    }
}

/// The byte `k` places before `end`, or the digit `0` in front of the start.
fn byte_before(raw: &[u8], end: usize, k: usize) -> (b: u8)
    requires
        end <= raw.len(),
    ensures
        b == padded(raw@, end as int, k as int),
{
    if k < end {
        raw[end - 1 - k]
    } else {
        DIGIT_0
    }
}

/// Packs the eight bytes before `end` into a word, right-aligned and filled
/// up with the digit `0`.
pub fn load_word(raw: &[u8], end: usize) -> (w: u64)
    requires
        end <= raw.len(),
    ensures
        holds_tail(w, raw@, end as int),
{
    let b0 = byte_before(raw, end, 0);
    let b1 = byte_before(raw, end, 1);
    let b2 = byte_before(raw, end, 2);
    let b3 = byte_before(raw, end, 3);
    let b4 = byte_before(raw, end, 4);
    let b5 = byte_before(raw, end, 5);
    let b6 = byte_before(raw, end, 6);
    let b7 = byte_before(raw, end, 7);
    let w: u64 = (b0 as u64) << 56 | (b1 as u64) << 48 | (b2 as u64) << 40 | (b3 as u64) << 32 | (
    b4 as u64) << 24 | (b5 as u64) << 16 | (b6 as u64) << 8 | (b7 as u64);
    proof {
        lemma_lanes_of_packed(b0, b1, b2, b3, b4, b5, b6, b7, w);
    }
    w
}

/// The total of one word of digits: the weighted digit values from the top
/// lane of a product, and one more for each doubled digit of five or more.
pub fn fold_word(correct: bool, w: u64) -> (sum: Option<u64>)
    ensures
        sum.is_some() == digit_lanes(w),
        sum matches Some(v) ==> v == word_sum(w, correct),
{
    let a = w.wrapping_add(PAST_NINE);
    let v = w.wrapping_sub(ZEROS);
    proof {
        lemma_range_test(w, a, v);
    }
    if (a | v) & TOPS != 0 {
        return None;
    }
    let (weights, fives) = if correct {
        (WEIGHTS_DOUBLED_LAST, FIVES_DOUBLED_LAST)
    } else {
        (WEIGHTS_PLAIN_LAST, FIVES_PLAIN_LAST)
    };
    let p = v.wrapping_mul(weights) >> 56;
    let f = fives.wrapping_sub(w);
    let c = ((f & TOPS) >> 7).wrapping_mul(ONES) >> 56;
    proof {
        lemma_digit_values(w, v);
        if correct {
            lemma_weighted_doubled_last(v, p);
        } else {
            lemma_weighted_plain_last(v, p);
        }
        lemma_borrow_count(w, correct, f, c);
    }
    Some(p + c)
}

/// Weighted digit sum of a decimal string, eight bytes to the step.
/// `correct` says whether the last byte stands at a doubled position. `None`
/// if any byte is not a digit.
pub fn fold10w(correct: bool, raw: &[u8]) -> (sum: Option<u128>)
    ensures
        sum.is_some() == all_decimal(raw@),
        sum matches Some(v) ==> v == carry_sum(raw@, correct),
{
    let mut acc: u128 = 0;
    let mut end: usize = raw.len();
    proof {
        assert(raw@.take(end as int) == raw@);
    }
    while end > 0
        invariant
            end <= raw.len(),
            forall|j: int| end <= j < raw.len() ==> is_digit(#[trigger] raw@[j]),
            acc <= 152 * (raw.len() - end),
            acc + carry_sum(raw@.take(end as int), correct) == carry_sum(raw@, correct),
        decreases end,
    {
        let w = load_word(raw, end);
        proof {
            lemma_tail_digits(raw@, end as int, w);
            lemma_carry_sum_word(raw@, end as int, correct, w);
        }
        match fold_word(correct, w) {
            Some(part) => {
                acc += part as u128;
            },
            None => {
                return None;
            },
        }
        end = if end >= 8 {
            end - 8
        } else {
            0
        };
    }
    proof {
        assert(raw@.take(0).len() == 0);
    }
    Some(acc)
}

/// Whether `ascii` is a run of decimal digits whose last one is the Luhn check
/// digit of those before it.
pub fn valid(ascii: &[u8]) -> (ok: bool)
    ensures
        ok == decimal_valid(ascii@),
{
    match fold10w(false, ascii) {
        Some(v) => {
            proof {
                lemma_carry_sum_congruent(ascii@, false);
            }
            v % 10 == 0
        },
        None => false,
    }
}

/// The Luhn check digit to append to `ascii`, as an ASCII byte; `None` if
/// `ascii` holds anything but decimal digits.
pub fn checksum(ascii: &[u8]) -> (digit: Option<u8>)
    ensures
        digit == decimal_checksum(ascii@),
{
    match fold10w(true, ascii) {
        Some(sum) => {
            proof {
                lemma_carry_sum_congruent(ascii@, true);
            }
            Some(DIGIT_0 + ((10 - (sum % 10)) % 10) as u8)
        },
        None => None,
    }
}

} // verus!
