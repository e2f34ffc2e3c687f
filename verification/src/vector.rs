//! Sixteen-byte blocks for a vector register: how a string is cut into them,
//! what a block kernel owes for each, and the fold that adds the blocks up.
//!
//! The kernel itself is a parameter, so that a caller can hand in one made of
//! processor instructions; `fold_block` is the portable one.

use vstd::prelude::*;
use crate::model::{
    DIGIT_0, DIGIT_9, all_decimal, digit_value, digits_of, is_digit, lemma_luhn_sum_last,
    luhn_sum, weight,
};

verus! {

/// The mask under which the even lanes of a block are doubled.
pub const EVEN_LANES: u16 = 0x00ff;

/// The mask under which the odd lanes of a block are doubled.
pub const ODD_LANES: u16 = 0xff00;

/// For each digit value its double, with nine taken off above nine; the
/// table has one entry for every value that four bits can hold.
pub const DOUBLED: [u8; 16] = [0, 2, 4, 6, 8, 1, 3, 5, 7, 9, 0, 0, 0, 0, 0, 0];

/// How many bytes of a string go into the block that ends at `end`.
pub open spec fn block_len(end: int) -> int {
    if end < 16 {
        end
    } else {
        16
    }
}

/// The block that ends at position `end` of `s`: the bytes before `end`, at
/// most sixteen, at its front, and the digit `0` in the lanes left over.
pub open spec fn block_at(s: Seq<u8>, end: int) -> Seq<u8> {
    Seq::new(
        16,
        |i: int|
            if i < block_len(end) {
                s[end - block_len(end) + i]
            } else {
                DIGIT_0
            },
    )
}

/// The mask for a block of `len` bytes whose last byte stands at a doubled
/// position exactly if `transform`.
pub open spec fn block_mask(transform: bool, len: int) -> u16 {
    if transform == (len % 2 == 0) {
        ODD_LANES
    } else {
        EVEN_LANES
    }
}

/// Lane `i` is doubled under `mask`.
pub open spec fn lane_doubled(mask: u16, i: int) -> bool {
    (i % 2 == 0) == (mask == EVEN_LANES)
}

/// The Luhn weights of the first `n` lanes of a block, added up.
pub open spec fn lanes_total(block: Seq<u8>, mask: u16, n: int) -> int
    decreases n,
{
    if n <= 0 {
        0
    } else {
        lanes_total(block, mask, n - 1) + weight(
            digit_value(block[n - 1]),
            lane_doubled(mask, n - 1),
        )
    }
}

/// What a block kernel owes: whether all sixteen lanes hold digits, and if
/// so, the Luhn weights of the sixteen added up.
pub open spec fn kernel_result(block: Seq<u8>, mask: u16, r: (bool, u16)) -> bool {
    &&& r.0 == all_decimal(block)
    &&& r.0 ==> r.1 == lanes_total(block, mask, 16)
}

/// `kernel` is a block kernel: it takes any block under either mask, and
/// returns what a block kernel owes.
pub open spec fn block_kernel<K: Fn(&[u8; 16], u16) -> (bool, u16)>(kernel: K) -> bool {
    &&& forall|b: &[u8; 16], m: u16|
        (m == EVEN_LANES || m == ODD_LANES) ==> call_requires(kernel, (b, m))
    &&& forall|b: &[u8; 16], m: u16, r: (bool, u16)|
        (m == EVEN_LANES || m == ODD_LANES) && call_ensures(kernel, (b, m), r) ==> kernel_result(
            b@,
            m,
            r,
        )
}

/// The lanes of a block add what its bytes add to the Luhn sum of the
/// string, one lane after the other.
proof fn lemma_lanes(s: Seq<u8>, end: int, transform: bool, n: int)
    requires
        0 <= end <= s.len(),
        0 <= n <= block_len(end),
        all_decimal(block_at(s, end)),
    ensures
        luhn_sum(
            digits_of(s.take(end - block_len(end) + n)),
            lane_doubled(block_mask(transform, block_len(end)), n - 1),
        ) == luhn_sum(
            digits_of(s.take(end - block_len(end))),
            lane_doubled(block_mask(transform, block_len(end)), -1),
        ) + lanes_total(block_at(s, end), block_mask(transform, block_len(end)), n),
    decreases n,
{
    if n > 0 {
        let start = end - block_len(end);
        let mask = block_mask(transform, block_len(end));
        let t = s.take(start + n);
        lemma_lanes(s, end, transform, n - 1);
        lemma_luhn_sum_last(t, lane_doubled(mask, n - 1));
        assert(t.drop_last() =~= s.take(start + n - 1));
        assert(t.last() == block_at(s, end)[n - 1]);
        assert(is_digit(block_at(s, end)[n - 1]));
    }
}

/// The lanes that were filled up add nothing.
proof fn lemma_filled_lanes(s: Seq<u8>, end: int, mask: u16, n: int)
    requires
        0 <= end <= s.len(),
        block_len(end) <= n <= 16,
    ensures
        lanes_total(block_at(s, end), mask, n) == lanes_total(block_at(s, end), mask, block_len(end)),
    decreases n,
{
    if n > block_len(end) {
        lemma_filled_lanes(s, end, mask, n - 1);
    }
}

/// A block holds digits only exactly if the bytes it was cut from are digits.
proof fn lemma_block_digits(s: Seq<u8>, end: int)
    requires
        0 <= end <= s.len(),
    ensures
        all_decimal(block_at(s, end)) == (forall|j: int|
            end - block_len(end) <= j < end ==> is_digit(#[trigger] s[j])),
{
    let b = block_at(s, end);
    let start = end - block_len(end);
    if all_decimal(b) {
        assert forall|j: int| start <= j < end implies is_digit(#[trigger] s[j]) by {
            assert(is_digit(b[j - start]));
        }
    }
}

/// The total of a block is what its bytes add to the Luhn sum of the string.
proof fn lemma_block_total(s: Seq<u8>, end: int, transform: bool)
    requires
        0 <= end <= s.len(),
        all_decimal(block_at(s, end)),
    ensures
        luhn_sum(digits_of(s.take(end)), transform) == luhn_sum(
            digits_of(s.take(end - block_len(end))),
            if block_len(end) % 2 == 0 {
                transform
            } else {
                !transform
            },
        ) + lanes_total(block_at(s, end), block_mask(transform, block_len(end)), 16),
{
    lemma_lanes(s, end, transform, block_len(end));
    lemma_filled_lanes(s, end, block_mask(transform, block_len(end)), 16);
}

/// Cuts the block that ends at `end` out of `raw`.
pub fn load_block(raw: &[u8], end: usize) -> (block: [u8; 16])
    requires
        end <= raw.len(),
    ensures
        block@ == block_at(raw@, end as int),
{
    let mut buf = [DIGIT_0;16];
    let len: usize = if end < 16 {
        end
    } else {
        16
    };
    let mut i: usize = 0;
    while i < len
        invariant
            i <= len,
            len == block_len(end as int),
            end <= raw.len(),
            forall|j: int| 0 <= j < i ==> buf@[j] == raw@[end - len + j],
            forall|j: int| i <= j < 16 ==> buf@[j] == DIGIT_0,
        decreases len - i,
    {
        buf[i] = raw[end - len + i];
        i += 1;
    }
    proof {
        assert(buf@ =~= block_at(raw@, end as int));
    }
    buf
}

/// The mask for a block of `len` bytes.
pub fn lane_mask(correct: bool, len: usize) -> (mask: u16)
    ensures
        mask == block_mask(correct, len as int),
{
    if correct == (len % 2 == 0) {
        ODD_LANES
    } else {
        EVEN_LANES
    }
}

/// The portable block kernel, lane after lane: the range test, the doubled
/// value from the table, the choice by the mask, and the sum.
pub fn fold_block(block: &[u8; 16], mask: u16) -> (r: (bool, u16))
    ensures
        kernel_result(block@, mask, r),
{
    let mut ok = true;
    let mut sum: u16 = 0;
    let mut i: usize = 0;
    while i < 16
        invariant
            i <= 16,
            ok == (forall|j: int| 0 <= j < i ==> is_digit(#[trigger] block@[j])),
            ok ==> sum == lanes_total(block@, mask, i as int),
            sum <= 9 * i,
        decreases 16 - i,
    {
        let c = block[i];
        if DIGIT_0 <= c && c <= DIGIT_9 {
            let digit = (c - DIGIT_0) as usize;
            if (i % 2 == 0) == (mask == EVEN_LANES) {
                sum += DOUBLED[digit] as u16;
            } else {
                sum += digit as u16;
            }
        } else {
            ok = false;
        }
        i += 1;
    }
    (ok, sum)
}

/// Weighted digit sum of a decimal string, sixteen bytes to the step, each
/// block summed by `kernel`. `correct` says whether the last byte stands at a
/// doubled position. `None` if any byte is not a digit.
pub fn fold10v<K: Fn(&[u8; 16], u16) -> (bool, u16)>(correct: bool, raw: &[u8], kernel: K) -> (sum:
    Option<u128>)
    requires
        block_kernel(kernel),
    ensures
        sum.is_some() == all_decimal(raw@),
        sum matches Some(v) ==> v == luhn_sum(digits_of(raw@), correct),
{
    let mut acc: u128 = 0;
    let mut valid = true;
    let mut end: usize = raw.len();
    proof {
        assert(raw@.take(end as int) == raw@);
    }
    while end > 0
        invariant
            end <= raw.len(),
            block_kernel(kernel),
            valid == (forall|j: int| end <= j < raw.len() ==> is_digit(#[trigger] raw@[j])),
            valid ==> acc + luhn_sum(digits_of(raw@.take(end as int)), correct) == luhn_sum(
                digits_of(raw@),
                correct,
            ),
            acc <= 0xffff * (raw.len() - end),
        decreases end,
    {
        let len: usize = if end < 16 {
            end
        } else {
            16
        };
        let block = load_block(raw, end);
        let mask = lane_mask(correct, len);
        let r = kernel(&block, mask);
        let ok = r.0;
        let part = r.1;
        proof {
            assert(kernel_result(block@, mask, r));
            lemma_block_digits(raw@, end as int);
            if ok {
                lemma_block_total(raw@, end as int, correct);
            }
            if len < 16 {
                assert(raw@.take(0).len() == 0);
            }
        }
        valid = valid && ok;
        acc += part as u128;
        end -= len;
    }
    proof {
        assert(raw@.take(0).len() == 0);
    }
    if valid {
        Some(acc)
    } else {
        None
    }
}

} // verus!
