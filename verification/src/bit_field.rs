//! Packed structures as types of their own: a fixed byte array, and field
//! access at bit offsets that the type's author lays out.
use crate::as_bytes::{
    lemma_le_agree,
    lemma_le_bytes_value,
    lemma_le_zero_tail,
    AsBytes,
};
use crate::bits::{
    bits_replaced,
    bits_value,
    byte_bit,
    extract_bit_range,
    head_bits_mask,
    lemma_bits_value_bound,
    lemma_masked_bit,
    lemma_replaced_range_value,
    lemma_staged_value,
    set_bit_range,
    staged_word,
};
use crate::checks::TotalSizeIsMultipleOfEightBits;
use crate::specifier::{lemma_occupied_bytes, Specifier};
use vstd::arithmetic::div_mod::lemma_small_mod;
use vstd::arithmetic::power2::{lemma2_to64, lemma_pow2_strictly_increases, pow2};
use vstd::prelude::*;

verus! {

/// A packed structure with a byte array of its own. The type says how to
/// reach the bytes; the trait reads and writes fields in them.
pub trait BitField {
    /// The size of the structure in bytes.
    const SIZE: usize;

    /// The size of the structure in bits, modulo 8, as a marker type: only
    /// the marker for zero is accepted.
    type SizeMod8: TotalSizeIsMultipleOfEightBits;

    /// The bytes, first byte first.
    spec fn data(&self) -> Seq<u8>;

    /// The byte at `index`.
    fn get_byte(&self, index: usize) -> (byte: u8)
        requires
            index < self.data().len(),
        ensures
            byte == self.data()[index as int],
    ;

    /// Puts `byte` at `index`.
    fn set_byte(&mut self, index: usize, byte: u8)
        requires
            index < old(self).data().len(),
        ensures
            final(self).data() == old(self).data().update(index as int, byte),
    ;

    /// The bytes, first byte first: `SIZE` of them.
    fn get_data(&self) -> (bytes: &[u8])
        ensures
            bytes@ == self.data(),
            bytes@.len() == Self::SIZE,
    ;

    /// The bytes, to be written in place.
    fn get_data_mut(&mut self) -> (bytes: &mut [u8])
        ensures
            bytes@ == old(self).data(),
            final(bytes)@ == final(self).data(),
    ;

    /// The byte at `index` with only its first `bit_offset` bits kept.
    fn get_byte_masked(&self, index: usize, bit_offset: usize) -> (byte: u8)
        requires
            index < self.data().len(),
            bit_offset <= 8,
        ensures
            forall|i: int|
                0 <= i < 8 ==> #[trigger] byte_bit(byte, i) == (i < bit_offset && byte_bit(
                    self.data()[index as int],
                    i,
                )),
    {
        let raw_byte = self.get_byte(index);
        let mask = head_bits_mask(8 - bit_offset);
        proof {
            assert forall|i: int| 0 <= i < 8 implies #[trigger] byte_bit(raw_byte & mask, i) == (i
                < bit_offset && byte_bit(raw_byte, i)) by {
                lemma_masked_bit(raw_byte, mask, i);
            }
        }
        raw_byte & mask
    }

    /// Where a field that starts at bit `offset` lies: its place in its
    /// first byte, that byte, and the byte in which it ends.
    fn get_offset_and_byte_range<T: Specifier>(spec: &T, offset: usize) -> (parts: (
        usize,
        usize,
        usize,
    ))
        requires
            spec.wf(),
            offset + spec.spec_bits() <= usize::MAX,
        ensures
            parts.0 == offset % 8,
            parts.1 == offset / 8,
            parts.2 == (offset + spec.spec_bits()) / 8,
    {
        let bit_offset = offset % 8;
        let start_byte = offset / 8;
        let fin_byte = (offset + spec.bits()) / 8;
        (bit_offset, start_byte, fin_byte)
    }

    /// Reads the field that `spec` describes and that starts at bit
    /// `offset`, into an integer wide enough for it.
    fn get_field<T: Specifier, R: AsBytes>(&self, spec: &T, offset: usize) -> (out: R)
        requires
            spec.wf(),
            spec.spec_bits() <= 8 * R::spec_width(),
            offset + spec.spec_bits() <= usize::MAX,
            offset + spec.spec_bits() <= 8 * self.data().len(),
        ensures
            out.spec_value() == bits_value(
                self.data(),
                offset as int,
                offset + spec.spec_bits(),
            ),
    {
        let data = self.get_data();
        let bits = spec.bits();
        let extracted_bits = extract_bit_range(offset, offset + bits, data);
        let extracted_bytes = extracted_bits.to_bytes();
        let num_out_bytes = spec.occupied_bytes();
        proof {
            R::lemma_widths();
            lemma_occupied_bytes(bits as nat);
        }
        let mut out_bytes: Vec<u8> = vec![0u8; R::WIDTH];
        let mut i: usize = 0;
        while i < num_out_bytes
            invariant
                i <= num_out_bytes <= R::WIDTH <= 8,
                extracted_bytes@.len() == 8,
                out_bytes@.len() == R::WIDTH,
                forall|j: int| 0 <= j < i ==> out_bytes@[j] == extracted_bytes@[j],
                forall|j: int| i <= j < R::WIDTH ==> out_bytes@[j] == 0,
            decreases num_out_bytes - i,
        {
            out_bytes[i] = extracted_bytes[i];
            i += 1;
        }
        proof {
            let count = num_out_bytes as int;
            lemma_le_zero_tail(out_bytes@, count, R::WIDTH as int);
            lemma_le_agree(out_bytes@, extracted_bytes@, count);
            lemma_le_bytes_value(extracted_bits as nat, 8, count);
            lemma_bits_value_bound(data@, offset as int, offset + bits);
            if bits < 8 * count {
                lemma_pow2_strictly_increases(bits as nat, (8 * count) as nat);
            }
            lemma_small_mod(extracted_bits as nat, pow2((8 * count) as nat));
        }
        R::from_bytes(out_bytes)
    }

    /// Writes the low bits of `val`, as many as the field is wide, to the
    /// field that `spec` describes and that starts at bit `offset`. No
    /// other bit changes.
    fn set_field<T: Specifier, R: AsBytes>(&mut self, spec: &T, offset: usize, val: R)
        requires
            spec.wf(),
            offset + spec.spec_bits() <= usize::MAX,
            offset + spec.spec_bits() <= 8 * old(self).data().len(),
        ensures
            bits_replaced(
                old(self).data(),
                final(self).data(),
                offset as int,
                offset + spec.spec_bits(),
                staged_word(val.spec_value() as u64, spec.spec_bits()),
            ),
            bits_value(final(self).data(), offset as int, offset + spec.spec_bits())
                == val.spec_value() % pow2(spec.spec_bits()),
    {
        let bits = spec.bits();
        if bits == 0 {
            proof {
                lemma2_to64();
            }
            return ;
        }
        let in_as_u64 = val.widen();
        let shift_amt = 64 - bits;
        let shifted_in_u64 = in_as_u64 << shift_amt;
        let data_mut = self.get_data_mut();
        let ghost before = data_mut@;
        set_bit_range(offset, offset + bits, shifted_in_u64, data_mut);
        proof {
            lemma_replaced_range_value(
                before,
                data_mut@,
                offset as int,
                offset + bits,
                shifted_in_u64,
            );
            lemma_staged_value(in_as_u64, bits as nat);
        }
    }
}

} // verus!
