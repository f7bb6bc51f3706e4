use bitfield::bits::{
    bit_range_mask, extract_bit_range, head_bits_mask, set_bit_range, shl_over,
    start_end_bytes_and_bits, tail_bits_mask,
};

/// Bit `i` of `bytes`, counted from the most significant bit of byte 0.
fn bit(bytes: &[u8], i: usize) -> u64 {
    ((bytes[i / 8] >> (7 - i % 8)) & 1) as u64
}

/// The bits `[start, end)` read one by one.
fn read_slowly(bytes: &[u8], start: usize, end: usize) -> u64 {
    let mut out = 0u64;
    for i in start..end {
        out = (out << 1) | bit(bytes, i);
    }
    out
}

fn pattern(len: usize, seed: u8) -> Vec<u8> {
    (0..len).map(|i| (i as u8).wrapping_mul(37).wrapping_add(seed) ^ 0xa5).collect()
}

#[test]
fn tail_bits_mask_values() {
    assert_eq!(tail_bits_mask(0), 0b1111_1111);
    assert_eq!(tail_bits_mask(1), 0b0111_1111);
    assert_eq!(tail_bits_mask(3), 0b0001_1111);
    assert_eq!(tail_bits_mask(7), 0b0000_0001);
}

#[test]
fn head_bits_mask_values() {
    assert_eq!(head_bits_mask(0), 0b1111_1111);
    assert_eq!(head_bits_mask(1), 0b1111_1110);
    assert_eq!(head_bits_mask(5), 0b1110_0000);
    assert_eq!(head_bits_mask(7), 0b1000_0000);
    assert_eq!(head_bits_mask(8), 0);
    assert_eq!(head_bits_mask(200), 0);
}

#[test]
fn shl_over_shifts_or_gives_zero() {
    assert_eq!(shl_over(0b0000_0001, 0), 0b0000_0001);
    assert_eq!(shl_over(0b0000_0001, 3), 0b0000_1000);
    assert_eq!(shl_over(0b1100_0011, 4), 0b0011_0000);
    assert_eq!(shl_over(0b1111_1111, 7), 0b1000_0000);
    assert_eq!(shl_over(0b1111_1111, 8), 0);
    assert_eq!(shl_over(0b1111_1111, 9), 0);
    assert_eq!(shl_over(0b1111_1111, 31), 0);
}

#[test]
fn bit_range_mask_values() {
    assert_eq!(bit_range_mask(0, 8), 0b1111_1111);
    assert_eq!(bit_range_mask(0, 1), 0b1000_0000);
    assert_eq!(bit_range_mask(7, 8), 0b0000_0001);
    assert_eq!(bit_range_mask(2, 5), 0b0011_1000);
    assert_eq!(bit_range_mask(3, 3), 0);
    assert_eq!(bit_range_mask(5, 2), 0);
}

#[test]
fn bit_range_mask_keeps_exactly_the_range() {
    for start in 0..8usize {
        for end in 1..=8usize {
            let mask = bit_range_mask(start, end);
            for i in 0..8usize {
                let set = mask & (0x80u8 >> i) != 0;
                assert_eq!(set, start <= i && i < end, "start {start} end {end} bit {i}");
            }
        }
    }
}

#[test]
fn start_end_bytes_and_bits_values() {
    assert_eq!(start_end_bytes_and_bits(0, 8), (0, 1, 0, 0));
    assert_eq!(start_end_bytes_and_bits(7, 8), (0, 1, 7, 0));
    assert_eq!(start_end_bytes_and_bits(13, 30), (1, 3, 5, 6));
    assert_eq!(start_end_bytes_and_bits(64, 64), (8, 8, 0, 0));
}

#[test]
fn extract_reads_most_significant_bit_first() {
    let bytes = [0b1010_0000u8, 0b0000_0001];
    assert_eq!(extract_bit_range(0, 1, &bytes), 1);
    assert_eq!(extract_bit_range(1, 2, &bytes), 0);
    assert_eq!(extract_bit_range(0, 3, &bytes), 0b101);
    assert_eq!(extract_bit_range(0, 8, &bytes), 0b1010_0000);
    assert_eq!(extract_bit_range(0, 16, &bytes), 0b1010_0000_0000_0001);
    assert_eq!(extract_bit_range(4, 16, &bytes), 1);
    assert_eq!(extract_bit_range(2, 11, &bytes), 0b1000_0000_0);
}

#[test]
fn extract_of_an_empty_range_is_zero() {
    let bytes = [0xffu8, 0xff];
    assert_eq!(extract_bit_range(0, 0, &bytes), 0);
    assert_eq!(extract_bit_range(5, 5, &bytes), 0);
    assert_eq!(extract_bit_range(8, 8, &bytes), 0);
    assert_eq!(extract_bit_range(16, 16, &bytes), 0);
}

#[test]
fn extract_of_sixty_four_bits() {
    let bytes = [0x01u8, 0x23, 0x45, 0x67, 0x89, 0xab, 0xcd, 0xef, 0xf0];
    assert_eq!(extract_bit_range(0, 64, &bytes), 0x0123_4567_89ab_cdef);
    assert_eq!(extract_bit_range(8, 72, &bytes), 0x2345_6789_abcd_eff0);
    assert_eq!(extract_bit_range(4, 68, &bytes), 0x1234_5678_9abc_deff);
    assert_eq!(extract_bit_range(1, 65, &bytes), 0x0246_8acf_1357_9bdf);
}

#[test]
fn extract_that_ends_on_the_last_byte_boundary_reads_no_further() {
    let bytes = [0b0000_0001u8];
    assert_eq!(extract_bit_range(7, 8, &bytes), 1);
    assert_eq!(extract_bit_range(0, 8, &bytes), 1);
    let bytes = [0xffu8, 0b0000_0001];
    assert_eq!(extract_bit_range(15, 16, &bytes), 1);
    assert_eq!(extract_bit_range(3, 16, &bytes), 0b1_1111_0000_0001);
}

#[test]
fn one_bit_at_offset_seven_leaves_the_next_byte_alone() {
    let mut bytes = [0b0000_0000u8, 0b1010_1010];
    set_bit_range(7, 8, 1u64 << 63, &mut bytes);
    assert_eq!(bytes, [0b0000_0001, 0b1010_1010]);
    assert_eq!(extract_bit_range(7, 8, &bytes), 1);
    set_bit_range(7, 8, 0, &mut bytes);
    assert_eq!(bytes, [0b0000_0000, 0b1010_1010]);
    assert_eq!(extract_bit_range(7, 8, &bytes), 0);

    let mut bytes = [0b1111_1110u8, 0b0101_0101];
    set_bit_range(7, 8, 1u64 << 63, &mut bytes);
    assert_eq!(bytes, [0b1111_1111, 0b0101_0101]);
}

#[test]
fn one_bit_at_offset_seven_of_a_single_byte() {
    let mut bytes = [0b1010_1010u8];
    set_bit_range(7, 8, 1u64 << 63, &mut bytes);
    assert_eq!(bytes, [0b1010_1011]);
}

#[test]
fn set_takes_the_top_bits_of_the_word() {
    let mut bytes = [0u8; 2];
    set_bit_range(4, 12, 0xabu64 << 56, &mut bytes);
    assert_eq!(bytes, [0x0a, 0xb0]);
    // What lies below the top eight bits of the word is not written.
    let mut bytes = [0u8; 2];
    set_bit_range(4, 12, (0xabu64 << 56) | 0x00ff_ffff_ffff_ffff, &mut bytes);
    assert_eq!(bytes, [0x0a, 0xb0]);
}

#[test]
fn set_keeps_the_bits_around_the_range() {
    let mut bytes = [0xffu8; 3];
    set_bit_range(5, 19, 0, &mut bytes);
    assert_eq!(bytes, [0b1111_1000, 0b0000_0000, 0b0001_1111]);
    let mut bytes = [0x00u8; 3];
    set_bit_range(5, 19, u64::MAX, &mut bytes);
    assert_eq!(bytes, [0b0000_0111, 0b1111_1111, 0b1110_0000]);
}

#[test]
fn set_of_sixty_four_bits_across_nine_bytes() {
    let mut bytes = [0xffu8; 9];
    set_bit_range(1, 65, 0x0123_4567_89ab_cdef, &mut bytes);
    assert_eq!(extract_bit_range(1, 65, &bytes), 0x0123_4567_89ab_cdef);
    assert_eq!(extract_bit_range(0, 1, &bytes), 1);
    assert_eq!(extract_bit_range(65, 72, &bytes), 0b111_1111);
    assert_eq!(bytes, [0x80, 0x91, 0xa2, 0xb3, 0xc4, 0xd5, 0xe6, 0xf7, 0xff]);
}

#[test]
fn extract_agrees_with_reading_bit_by_bit_for_every_range() {
    let bytes = pattern(9, 0x3c);
    for start in 0..=64usize {
        for end in start..=64usize {
            assert_eq!(
                extract_bit_range(start, end, &bytes),
                read_slowly(&bytes, start, end),
                "start {start} end {end}"
            );
        }
    }
    for start in 0..8usize {
        assert_eq!(
            extract_bit_range(start, start + 64, &bytes),
            read_slowly(&bytes, start, start + 64)
        );
    }
}

#[test]
fn what_is_set_is_read_back_for_every_range() {
    for start in 0..64usize {
        for end in (start + 1)..=64usize {
            let width = end - start;
            let value = 0x9e37_79b9_7f4a_7c15u64 >> (64 - width);
            let before = pattern(8, (start * 3 + end) as u8);
            let mut bytes = before.clone();
            set_bit_range(start, end, value << (64 - width), &mut bytes);
            assert_eq!(extract_bit_range(start, end, &bytes), value, "start {start} end {end}");
            for i in 0..64usize {
                if i < start || i >= end {
                    assert_eq!(bit(&bytes, i), bit(&before, i), "start {start} end {end} bit {i}");
                }
            }
        }
    }
}
