//! What a field descriptor has to tell: its width, and from that the
//! storage width, the padding and the bytes it takes.
use crate::width::{get_set_get_value, storage_width_for};
use vstd::prelude::*;

verus! {

/// The padding bits above a value of `bits` bits that stands left-aligned
/// in its storage width.
pub open spec fn shift_amount_for(bits: nat) -> nat {
    (storage_width_for(bits) - bits) as nat
}

/// The whole bytes that a value of `bits` bits takes once it stands
/// right-justified in its storage width.
pub open spec fn occupied_bytes_for(bits: nat) -> nat {
    (storage_width_for(bits) / 8 - shift_amount_for(bits) / 8) as nat
}

/// The occupied bytes are just enough bytes for the bits.
pub proof fn lemma_occupied_bytes(bits: nat)
    requires
        bits <= 64,
    ensures
        occupied_bytes_for(bits) == (bits + 7) / 8,
        bits <= 8 * occupied_bytes_for(bits) <= storage_width_for(bits),
{
}

/// A descriptor of a field of fixed width, at most 64 bits.
pub trait Specifier {
    /// The descriptor is one that its constructor could have made.
    spec fn wf(&self) -> bool;

    /// The width of the field in bits.
    spec fn spec_bits(&self) -> nat;

    /// No field is wider than 64 bits.
    proof fn lemma_width_bound(&self)
        requires
            self.wf(),
        ensures
            self.spec_bits() <= 64,
    ;

    /// The width of the field in bits.
    fn bits(&self) -> (bits: usize)
        requires
            self.wf(),
        ensures
            bits == self.spec_bits(),
            bits <= 64,
    ;

    /// The width in bits of the smallest standard unsigned integer that
    /// holds a value of the field.
    fn storage_width(&self) -> (width: usize)
        requires
            self.wf(),
        ensures
            width == storage_width_for(self.spec_bits()),
    {
        get_set_get_value(self.bits())
    }

    /// The padding bits above the value when it stands left-aligned in its
    /// storage width.
    fn shift_amount(&self) -> (shift: usize)
        requires
            self.wf(),
        ensures
            shift == shift_amount_for(self.spec_bits()),
            shift + self.spec_bits() == storage_width_for(self.spec_bits()),
    {
        self.storage_width() - self.bits()
    }

    /// The whole bytes that the value takes in its storage width.
    fn occupied_bytes(&self) -> (count: usize)
        requires
            self.wf(),
        ensures
            count == occupied_bytes_for(self.spec_bits()),
    {
        self.storage_width() / 8 - self.shift_amount() / 8
    }
}

} // verus!
