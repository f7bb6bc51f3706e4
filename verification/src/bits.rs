//! Bit ranges of a byte buffer.
//!
//! Bits are numbered from 0 at the most significant bit of byte 0 and go on,
//! left to right, into byte 1 and so on. A field is a half-open range
//! `[start, end)` of such bit numbers, at most 64 bits wide.
use vstd::arithmetic::power2::{lemma2_to64, lemma_pow2_unfold, pow2};
use vstd::bits::lemma_u64_shl_is_mul;
use vstd::prelude::*;

verus! {

/// Bit `i` of a byte, counted from its most significant bit.
pub open spec fn byte_bit(b: u8, i: int) -> bool {
    b & (0x80u8 >> (i as u8)) != 0
}

/// Bit `j` of a word, counted from its least significant bit.
pub open spec fn word_bit(v: u64, j: int) -> bool {
    (v >> (j as u64)) & 1 == 1
}

/// Bit `i` of a buffer.
pub open spec fn bit_at(bytes: Seq<u8>, i: int) -> bool {
    byte_bit(bytes[i / 8], i % 8)
}

/// The number that the bits `[start, end)` of a buffer spell, first bit most
/// significant.
pub open spec fn bits_value(bytes: Seq<u8>, start: int, end: int) -> nat
    decreases end - start,
{
    if end <= start {
        0
    } else {
        2 * bits_value(bytes, start, end - 1) + if bit_at(bytes, end - 1) {
            1nat
        } else {
            0nat
        }
    }
}

/// `after` is `before` with the bits `[start, end)` replaced by the top
/// `end - start` bits of `input`, highest first; every other bit is kept.
pub open spec fn bits_replaced(
    before: Seq<u8>,
    after: Seq<u8>,
    start: int,
    end: int,
    input: u64,
) -> bool {
    &&& after.len() == before.len()
    &&& forall|i: int|
        0 <= i < 8 * before.len() ==> #[trigger] bit_at(after, i) == if start <= i < end {
            word_bit(input, 63 - (i - start))
        } else {
            bit_at(before, i)
        }
}

/// A value of a field of `bits` bits, moved to the top of a word: the form
/// in which `set_bit_range` takes it.
pub open spec fn staged_word(raw: u64, bits: nat) -> u64 {
    raw << ((64 - bits) as u64)
}

/// The byte whose bits `[start, end)` are set and no others.
pub open spec fn spec_bit_range_mask(start: u8, end: u8) -> u8 {
    (((0xffu8 << start) >> start) >> ((8 - end) as u8)) << ((8 - end) as u8)
}

/// What a shift to the left gives where it is defined, else zero.
pub open spec fn spec_shl_over(val: u8, shift: u32) -> u8 {
    if shift < 8 {
        val << shift
    } else {
        0
    }
}

proof fn lemma_tail_mask_bit(offset: u8, p: u8)
    by (bit_vector)
    requires
        offset < 8,
        p < 8,
    ensures
        ((0xffu8 >> offset) & (0x80u8 >> p) != 0) == (p >= offset),
{
}

proof fn lemma_head_mask_bit(offset: u32, p: u8)
    by (bit_vector)
    requires
        offset < 8,
        p < 8,
    ensures
        ((0xffu8 << offset) & (0x80u8 >> p) != 0) == (p < 8 - offset),
{
}

proof fn lemma_and_bit(a: u8, mask: u8, p: u8)
    by (bit_vector)
    ensures
        ((a & mask) & (0x80u8 >> p) != 0) == (a & (0x80u8 >> p) != 0 && mask & (0x80u8 >> p) != 0),
{
}

/// A bit of `a & mask` is set where it is set in both.
pub proof fn lemma_masked_bit(a: u8, mask: u8, i: int)
    requires
        0 <= i < 8,
    ensures
        byte_bit(a & mask, i) == (byte_bit(a, i) && byte_bit(mask, i)),
{
    lemma_and_bit(a, mask, i as u8);
}

proof fn lemma_zero_byte_bit(p: u8)
    by (bit_vector)
    ensures
        0u8 & (0x80u8 >> p) == 0,
{
}

proof fn lemma_range_mask_bit(start: u8, end: u8, p: u8)
    by (bit_vector)
    requires
        start < 8,
        end <= 8,
        p < 8,
    ensures
        (spec_bit_range_mask(start, end) & (0x80u8 >> p) != 0) == (start <= p < end),
{
}

/// The mask of the bits of a byte from `bit_offset` on.
pub fn tail_bits_mask(bit_offset: usize) -> (mask: u8)
    requires
        bit_offset < 8,
    ensures
        mask == 0xffu8 >> bit_offset,
        forall|i: int| 0 <= i < 8 ==> #[trigger] byte_bit(mask, i) == (i >= bit_offset),
{
    let mask = u8::MAX >> bit_offset;
    proof {
        assert forall|i: int| 0 <= i < 8 implies #[trigger] byte_bit(mask, i) == (i
            >= bit_offset) by {
            lemma_tail_mask_bit(bit_offset as u8, i as u8);
        }
    }
    mask
}

/// The mask of the first `8 - bit_offset` bits of a byte; no bit where the
/// offset, cut to 32 bits, is 8 or more.
pub fn head_bits_mask(bit_offset: usize) -> (mask: u8)
    ensures
        mask == spec_shl_over(0xffu8, bit_offset as u32),
        forall|i: int|
            0 <= i < 8 ==> #[trigger] byte_bit(mask, i) == (i < 8 - (bit_offset as u32)),
{
    let mask = shl_over(u8::MAX, bit_offset);
    proof {
        assert forall|i: int| 0 <= i < 8 implies #[trigger] byte_bit(mask, i) == (i < 8 - (
        bit_offset as u32)) by {
            if (bit_offset as u32) < 8 {
                lemma_head_mask_bit(bit_offset as u32, i as u8);
            } else {
                lemma_zero_byte_bit(i as u8);
            }
        }
    }
    mask
}

/// Shifts `val` to the left by `shift`, cut to 32 bits; zero where that is
/// 8 or more.
pub fn shl_over(val: u8, shift: usize) -> (shifted: u8)
    ensures
        shifted == spec_shl_over(val, shift as u32),
{
    let amount = #[verifier::truncate] (shift as u32);
    if amount < 8 {
        val << amount
    } else {
        0
    }
}

/// The mask that keeps the bits `[start, end)` of a byte.
pub fn bit_range_mask(start: usize, end: usize) -> (mask: u8)
    requires
        start < 8,
        1 <= end <= 8,
    ensures
        mask == spec_bit_range_mask(start as u8, end as u8),
        forall|i: int| 0 <= i < 8 ==> #[trigger] byte_bit(mask, i) == (start <= i < end),
{
    let mask = (((u8::MAX << start) >> start) >> (8 - end)) << (8 - end);
    proof {
        assert forall|i: int| 0 <= i < 8 implies #[trigger] byte_bit(mask, i) == (start <= i
            < end) by {
            lemma_range_mask_bit(start as u8, end as u8, i as u8);
        }
    }
    mask
}

/// Splits two bit numbers into the bytes they fall in and their places
/// within those bytes.
pub fn start_end_bytes_and_bits(start_bit: usize, end_bit: usize) -> (parts: (
    usize,
    usize,
    usize,
    usize,
))
    ensures
        parts.0 == start_bit / 8,
        parts.1 == end_bit / 8,
        parts.2 == start_bit % 8,
        parts.3 == end_bit % 8,
{
    let start_byte = start_bit / 8;
    let end_byte = end_bit / 8;
    let start_bit_index = start_bit % 8;
    let end_bit_index = end_bit % 8;
    (start_byte, end_byte, start_bit_index, end_bit_index)
}

proof fn lemma_window_step(b: u8, s: u8, e: u8)
    by (bit_vector)
    requires
        s < e <= 8,
    ensures
        ((b & spec_bit_range_mask(s, e)) >> ((8 - e) as u8)) == 2 * ((b & spec_bit_range_mask(
            s,
            (e - 1) as u8,
        )) >> ((8 - (e - 1)) as u8)) + (if b & (0x80u8 >> ((e - 1) as u8)) != 0 {
            1int
        } else {
            0int
        }),
{
}

proof fn lemma_window_empty(b: u8, s: u8)
    by (bit_vector)
    requires
        s <= 8,
    ensures
        ((b & spec_bit_range_mask(s, s)) >> ((8 - s) as u8)) == 0,
{
}

proof fn lemma_shift_or(acc: u64, w: u64, n: u64)
    by (bit_vector)
    requires
        n <= 8,
        w < (1u64 << n),
        acc <= (u64::MAX >> n),
    ensures
        (acc << n) | w == (acc << n) + w,
{
}

/// A masked byte, shifted down, is what the kept bits spell.
proof fn lemma_window_value(bytes: Seq<u8>, k: int, s: int, e: int)
    requires
        0 <= k < bytes.len(),
        0 <= s <= e <= 8,
    ensures
        ((bytes[k] & spec_bit_range_mask(s as u8, e as u8)) >> ((8 - e) as u8)) == bits_value(
            bytes,
            8 * k + s,
            8 * k + e,
        ),
    decreases e - s,
{
    if e == s {
        lemma_window_empty(bytes[k], s as u8);
    } else {
        lemma_window_value(bytes, k, s, e - 1);
        lemma_window_step(bytes[k], s as u8, e as u8);
        assert((8 * k + e - 1) / 8 == k);
        assert((8 * k + e - 1) % 8 == e - 1);
    }
}

/// A range of `n` bits spells a number below `2^n`.
pub proof fn lemma_bits_value_bound(bytes: Seq<u8>, start: int, end: int)
    requires
        start <= end,
    ensures
        bits_value(bytes, start, end) < pow2((end - start) as nat),
    decreases end - start,
{
    if end == start {
        lemma2_to64();
    } else {
        lemma_bits_value_bound(bytes, start, end - 1);
        lemma_pow2_unfold((end - start) as nat);
    }
}

/// What a range spells is what its head spells, moved up by the width of
/// its tail, plus what the tail spells.
pub proof fn lemma_bits_value_split(bytes: Seq<u8>, start: int, mid: int, end: int)
    requires
        start <= mid <= end,
    ensures
        bits_value(bytes, start, end) == bits_value(bytes, start, mid) * pow2((end - mid) as nat)
            + bits_value(bytes, mid, end),
    decreases end - mid,
{
    if end == mid {
        lemma2_to64();
    } else {
        lemma_bits_value_split(bytes, start, mid, end - 1);
        lemma_pow2_unfold((end - mid) as nat);
        let head = bits_value(bytes, start, mid);
        let p = pow2((end - 1 - mid) as nat);
        assert(2 * (head * p) == head * (2 * p)) by (nonlinear_arith);
    }
}

/// Reads the bits `[start_bit, end_bit)` of `bytes` as a number, first bit
/// most significant.
pub fn extract_bit_range(start_bit: usize, end_bit: usize, bytes: &[u8]) -> (out: u64)
    requires
        start_bit <= end_bit,
        end_bit - start_bit <= 64,
        end_bit <= 8 * bytes@.len(),
    ensures
        out == bits_value(bytes@, start_bit as int, end_bit as int),
{
    let mut out = 0u64;
    let mut num_out_bits = 0usize;
    let (start_byte, end_byte, start_bit_index, end_bit_index) = start_end_bytes_and_bits(
        start_bit,
        end_bit,
    );
    let mut index = start_byte;
    while index <= end_byte
        invariant
            start_bit <= end_bit,
            end_bit - start_bit <= 64,
            end_bit <= 8 * bytes@.len(),
            start_byte == start_bit / 8,
            end_byte == end_bit / 8,
            start_bit_index == start_bit % 8,
            end_bit_index == end_bit % 8,
            start_byte <= index <= end_byte + 1,
            index == start_byte ==> num_out_bits == 0,
            start_byte < index <= end_byte ==> start_bit + num_out_bits == 8 * index,
            index == end_byte + 1 ==> start_bit + num_out_bits == end_bit,
            out == bits_value(bytes@, start_bit as int, start_bit + num_out_bits),
        ensures
            start_bit + num_out_bits == end_bit,
            out == bits_value(bytes@, start_bit as int, end_bit as int),
        decreases end_byte + 1 - index,
    {
        let byte_start_bit = if index == start_byte {
            start_bit_index
        } else {
            0
        };
        let byte_end_bit = if index == end_byte {
            end_bit_index
        } else {
            8
        };
        if byte_end_bit == 0 {
            break ;
        }
        let mask = bit_range_mask(byte_start_bit, byte_end_bit);
        let masked_byte = bytes[index] & mask;
        let new_byte = masked_byte >> (8 - byte_end_bit);
        let num_new_bits = byte_end_bit - byte_start_bit;
        proof {
            let lo = start_bit + num_out_bits;
            let hi = 8 * index + byte_end_bit;
            assert(lo == 8 * index + byte_start_bit);
            lemma_window_value(bytes@, index as int, byte_start_bit as int, byte_end_bit as int);
            lemma_bits_value_split(bytes@, start_bit as int, lo, hi);
            lemma_bits_value_bound(bytes@, start_bit as int, hi);
            lemma_bits_value_bound(bytes@, lo, hi);
            lemma_bits_value_bound(bytes@, start_bit as int, lo);
            lemma_word_append(out, new_byte as u64, num_new_bits as u64, (hi - start_bit) as nat);
        }
        out = (out << num_new_bits) | (new_byte as u64);
        num_out_bits += num_new_bits;
        index += 1;
    }
    out
}

/// Appending `n` bits to a word by shift and or is multiplying by `2^n`
/// and adding, as long as the result fits.
proof fn lemma_word_append(acc: u64, w: u64, n: u64, total: nat)
    requires
        n <= 8,
        n <= total <= 64,
        w < pow2(n as nat),
        acc * pow2(n as nat) + w < pow2(total),
    ensures
        (acc << n) | w == acc * pow2(n as nat) + w,
{
    lemma2_to64();
    vstd::arithmetic::power2::lemma2_to64_rest();
    if total < 64 {
        vstd::arithmetic::power2::lemma_pow2_strictly_increases(total, 64);
    }
    assert(acc * pow2(n as nat) <= u64::MAX);
    lemma_u64_shl_is_mul(acc, n);
    lemma_u64_shl_is_mul(1, n);
    vstd::bits::lemma_u64_mul_pow2_le_max_iff_max_shr(acc, n, u64::MAX);
    lemma_shift_or(acc, w, n);
}

/// The bits of a byte after a window of it was overwritten from `input`:
/// inside the window they are the next bits of `input`, counted from the
/// `done`-th below its top; outside it they are the old ones.
proof fn lemma_merged_bit(old_byte: u8, input: u64, s: u8, e: u8, done: u8, p: u8)
    by (bit_vector)
    requires
        s < e <= 8,
        done + (e - s) <= 64,
        p < 8,
    ensures
        ({
            let n = (e - s) as u8;
            let new_bits = (input >> ((64 - n - done) as u8)) as u8;
            let discard = (8 - n) as u8;
            let masked = (new_bits << discard) >> discard;
            let in_place = masked << ((8 - e) as u8);
            let merged = (old_byte & !spec_bit_range_mask(s, e)) | in_place;
            (merged & (0x80u8 >> p) != 0) == if s <= p < e {
                (input >> ((63 - (done + (p - s))) as u64)) & 1 == 1
            } else {
                old_byte & (0x80u8 >> p) != 0
            }
        }),
{
}

/// Writes the top `end_bit - start_bit` bits of `input` over the bits
/// `[start_bit, end_bit)` of `bytes`, highest first, and leaves every other
/// bit as it was.
pub fn set_bit_range(start_bit: usize, end_bit: usize, input: u64, bytes: &mut [u8])
    requires
        start_bit < end_bit,
        end_bit - start_bit <= 64,
        end_bit <= 8 * old(bytes)@.len(),
    ensures
        bits_replaced(old(bytes)@, final(bytes)@, start_bit as int, end_bit as int, input),
{
    let mut num_set_bits = 0usize;
    let (start_byte, end_byte, start_bit_index, end_bit_index) = start_end_bytes_and_bits(
        start_bit,
        end_bit,
    );
    let mut index = start_byte;
    while index <= end_byte
        invariant
            start_bit < end_bit,
            end_bit - start_bit <= 64,
            end_bit <= 8 * old(bytes)@.len(),
            start_byte == start_bit / 8,
            end_byte == end_bit / 8,
            start_bit_index == start_bit % 8,
            end_bit_index == end_bit % 8,
            start_byte <= index <= end_byte + 1,
            index == start_byte ==> num_set_bits == 0,
            start_byte < index <= end_byte ==> start_bit + num_set_bits == 8 * index,
            index == end_byte + 1 ==> start_bit + num_set_bits == end_bit,
            bits_replaced(old(bytes)@, bytes@, start_bit as int, start_bit + num_set_bits, input),
        ensures
            bits_replaced(old(bytes)@, bytes@, start_bit as int, end_bit as int, input),
        decreases end_byte + 1 - index,
    {
        let byte_start_bit = if index == start_byte {
            start_bit_index
        } else {
            0
        };
        let byte_end_bit = if index == end_byte {
            end_bit_index
        } else {
            8
        };
        if byte_end_bit == 0 {
            break ;
        }
        let num_new_bits = byte_end_bit - byte_start_bit;
        // The upper bits are written first.
        let new_bits = #[verifier::truncate] ((input >> ((64 - num_new_bits) - num_set_bits)) as u8);
        // Only `num_new_bits` bits are wanted: they go to the low end.
        let bits_to_discard = 8 - num_new_bits;
        let new_bits_masked = (new_bits << bits_to_discard) >> bits_to_discard;
        let new_bits_in_place = new_bits_masked << (8 - byte_end_bit);
        let mask = bit_range_mask(byte_start_bit, byte_end_bit);
        let inv_mask = !mask;
        let old_byte = bytes[index];
        let masked_old_byte = old_byte & inv_mask;
        let new_byte = masked_old_byte | new_bits_in_place;
        let ghost before = bytes@;
        bytes[index] = new_byte;
        proof {
            let lo = start_bit + num_set_bits;
            let hi = 8 * index + byte_end_bit;
            assert(lo == 8 * index + byte_start_bit);
            assert forall|i: int| 0 <= i < 8 * bytes@.len() implies #[trigger] bit_at(bytes@, i)
                == if start_bit <= i < hi {
                word_bit(input, 63 - (i - start_bit))
            } else {
                bit_at(old(bytes)@, i)
            } by {
                assert(bit_at(before, i) == if start_bit <= i < lo {
                    word_bit(input, 63 - (i - start_bit))
                } else {
                    bit_at(old(bytes)@, i)
                });
                if i / 8 == index {
                    lemma_merged_bit(
                        old_byte,
                        input,
                        byte_start_bit as u8,
                        byte_end_bit as u8,
                        num_set_bits as u8,
                        (i % 8) as u8,
                    );
                }
            }
        }
        num_set_bits += num_new_bits;
        index += 1;
    }
}

proof fn lemma_shift_step(input: u64, k: u64)
    by (bit_vector)
    requires
        k < 63,
    ensures
        (input >> k) == 2 * (input >> ((k + 1) as u64)) + (if (input >> k) & 1 == 1 {
            1int
        } else {
            0int
        }),
{
}

proof fn lemma_top_bit(input: u64)
    by (bit_vector)
    ensures
        (input >> 63) == (if (input >> 63) & 1 == 1 {
            1int
        } else {
            0int
        }),
{
}

proof fn lemma_shift_back(raw: u64, n: u64)
    by (bit_vector)
    requires
        1 <= n <= 64,
    ensures
        n < 64 ==> ((raw << ((64 - n) as u64)) >> ((64 - n) as u64)) == raw & (((1u64 << n) - 1) as u64),
        n == 64 ==> ((raw << ((64 - n) as u64)) >> ((64 - n) as u64)) == raw,
{
}

/// Bits that were written from the top of `input` spell the top of `input`.
proof fn lemma_written_prefix_value(after: Seq<u8>, start: int, upto: int, input: u64)
    requires
        start < upto <= start + 64,
        forall|i: int|
            start <= i < upto ==> #[trigger] bit_at(after, i) == word_bit(input, 63 - (i - start)),
    ensures
        bits_value(after, start, upto) == input >> ((64 - (upto - start)) as u64),
    decreases upto - start,
{
    let last = upto - 1;
    assert(bit_at(after, last) == word_bit(input, 63 - (last - start)));
    if upto == start + 1 {
        assert(bits_value(after, start, start) == 0);
        lemma_top_bit(input);
    } else {
        lemma_written_prefix_value(after, start, last, input);
        lemma_shift_step(input, (64 - (upto - start)) as u64);
    }
}

/// Reading a range back after it was written gives the top bits of the
/// word that was written.
pub proof fn lemma_replaced_range_value(
    before: Seq<u8>,
    after: Seq<u8>,
    start: int,
    end: int,
    input: u64,
)
    requires
        0 <= start < end <= 8 * before.len(),
        end - start <= 64,
        bits_replaced(before, after, start, end, input),
    ensures
        bits_value(after, start, end) == input >> ((64 - (end - start)) as u64),
{
    lemma_written_prefix_value(after, start, end, input);
}

/// A value of `end - start` bits that was staged and written over
/// `[start, end)` is read back from there as it was.
pub proof fn lemma_round_trip(
    before: Seq<u8>,
    after: Seq<u8>,
    start: int,
    end: int,
    value: u64,
)
    requires
        0 <= start < end <= 8 * before.len(),
        end - start <= 64,
        value < pow2((end - start) as nat),
        bits_replaced(before, after, start, end, staged_word(value, (end - start) as nat)),
    ensures
        bits_value(after, start, end) == value,
{
    let bits = (end - start) as nat;
    lemma_replaced_range_value(before, after, start, end, staged_word(value, bits));
    lemma_staged_value(value, bits);
    vstd::arithmetic::div_mod::lemma_small_mod(value as nat, pow2(bits));
}

/// Writing a range changes what no range apart from it spells.
pub proof fn lemma_other_range_kept(
    before: Seq<u8>,
    after: Seq<u8>,
    start: int,
    end: int,
    input: u64,
    a: int,
    b: int,
)
    requires
        bits_replaced(before, after, start, end, input),
        0 <= a <= b <= 8 * before.len(),
        b <= start || end <= a,
    ensures
        bits_value(after, a, b) == bits_value(before, a, b),
    decreases b - a,
{
    if a < b {
        lemma_other_range_kept(before, after, start, end, input, a, b - 1);
        assert(bit_at(after, b - 1) == bit_at(before, b - 1));
    }
}

proof fn lemma_same_bits_same_byte(x: u8, y: u8)
    by (bit_vector)
    requires
        (x & 0x80 != 0) == (y & 0x80 != 0),
        (x & 0x40 != 0) == (y & 0x40 != 0),
        (x & 0x20 != 0) == (y & 0x20 != 0),
        (x & 0x10 != 0) == (y & 0x10 != 0),
        (x & 0x08 != 0) == (y & 0x08 != 0),
        (x & 0x04 != 0) == (y & 0x04 != 0),
        (x & 0x02 != 0) == (y & 0x02 != 0),
        (x & 0x01 != 0) == (y & 0x01 != 0),
    ensures
        x == y,
{
}

proof fn lemma_bit_masks()
    by (bit_vector)
    ensures
        0x80u8 >> 0u8 == 0x80,
        0x80u8 >> 1u8 == 0x40,
        0x80u8 >> 2u8 == 0x20,
        0x80u8 >> 3u8 == 0x10,
        0x80u8 >> 4u8 == 0x08,
        0x80u8 >> 5u8 == 0x04,
        0x80u8 >> 6u8 == 0x02,
        0x80u8 >> 7u8 == 0x01,
{
}

/// Buffers of one length that agree in every bit are the same.
pub proof fn lemma_bits_determine_bytes(a: Seq<u8>, b: Seq<u8>)
    requires
        a.len() == b.len(),
        forall|i: int| 0 <= i < 8 * a.len() ==> #[trigger] bit_at(a, i) == bit_at(b, i),
    ensures
        a == b,
{
    assert forall|k: int| 0 <= k < a.len() implies a[k] == b[k] by {
        lemma_bit_masks();
        assert(bit_at(a, 8 * k) == bit_at(b, 8 * k));
        assert(bit_at(a, 8 * k + 1) == bit_at(b, 8 * k + 1));
        assert(bit_at(a, 8 * k + 2) == bit_at(b, 8 * k + 2));
        assert(bit_at(a, 8 * k + 3) == bit_at(b, 8 * k + 3));
        assert(bit_at(a, 8 * k + 4) == bit_at(b, 8 * k + 4));
        assert(bit_at(a, 8 * k + 5) == bit_at(b, 8 * k + 5));
        assert(bit_at(a, 8 * k + 6) == bit_at(b, 8 * k + 6));
        assert(bit_at(a, 8 * k + 7) == bit_at(b, 8 * k + 7));
        lemma_same_bits_same_byte(a[k], b[k]);
    }
    assert(a =~= b);
}

/// Ranges that spell the same number hold the same bits.
pub proof fn lemma_value_determines_bits(a: Seq<u8>, b: Seq<u8>, start: int, end: int)
    requires
        start <= end,
        bits_value(a, start, end) == bits_value(b, start, end),
    ensures
        forall|i: int| start <= i < end ==> #[trigger] bit_at(a, i) == bit_at(b, i),
    decreases end - start,
{
    if start < end {
        lemma_value_determines_bits(a, b, start, end - 1);
    }
}

/// What is left after a range was written is one buffer and no other.
pub proof fn lemma_replaced_is_unique(
    before: Seq<u8>,
    after: Seq<u8>,
    other: Seq<u8>,
    start: int,
    end: int,
    input: u64,
)
    requires
        bits_replaced(before, after, start, end, input),
        bits_replaced(before, other, start, end, input),
    ensures
        after == other,
{
    lemma_bits_determine_bytes(after, other);
}

/// A buffer of zero bytes spells zero in every range.
pub proof fn lemma_zero_bits_value(bytes: Seq<u8>, a: int, b: int)
    requires
        0 <= a <= b <= 8 * bytes.len(),
        forall|k: int| 0 <= k < bytes.len() ==> bytes[k] == 0,
    ensures
        bits_value(bytes, a, b) == 0,
    decreases b - a,
{
    if a < b {
        lemma_zero_bits_value(bytes, a, b - 1);
        lemma_zero_byte_bit(((b - 1) % 8) as u8);
    }
}

/// A value moved to the top of a word for a field of `bits` bits, and read
/// back from there, is the value cut to its low `bits` bits.
pub proof fn lemma_staged_value(raw: u64, bits: nat)
    requires
        1 <= bits <= 64,
    ensures
        (staged_word(raw, bits) >> ((64 - bits) as u64)) == (raw as nat) % pow2(bits),
{
    lemma2_to64();
    vstd::arithmetic::power2::lemma2_to64_rest();
    lemma_shift_back(raw, bits as u64);
    if bits < 64 {
        vstd::bits::lemma_u64_pow2_no_overflow(bits);
        lemma_u64_shl_is_mul(1, bits as u64);
        vstd::bits::lemma_u64_low_bits_mask_is_mod(raw, bits);
    } else {
        vstd::arithmetic::div_mod::lemma_small_mod(raw as nat, pow2(64));
    }
}

} // verus!
