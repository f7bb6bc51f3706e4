//! Field widths and the unsigned integer widths that carry them.
use crate::error::RangeError;
use crate::specifier::Specifier;
use vstd::prelude::*;

verus! {

/// The standard storage widths: 8 doubled some number of times.
pub open spec fn is_storage_width(w: nat) -> bool
    decreases w,
{
    w == 8 || (w > 8 && w % 2 == 0 && is_storage_width(w / 2))
}

/// The smallest of 8, 16, 32 and 64 that is at least `bits`.
pub open spec fn storage_width_for(bits: nat) -> nat
    recommends
        bits <= 64,
{
    if bits <= 8 {
        8
    } else if bits <= 16 {
        16
    } else if bits <= 32 {
        32
    } else {
        64
    }
}

/// Doubles from 8 until the width holds `num` bits: the result is the
/// smallest storage width that is at least `num`.
pub fn get_set_get_value(num: usize) -> (width: usize)
    requires
        num <= usize::MAX / 2 + 1,
    ensures
        is_storage_width(width as nat),
        width >= num,
        width == 8 || width / 2 < num,
        num <= 64 ==> width == storage_width_for(num as nat),
{
    let mut i: usize = 8;
    while i < num
        invariant
            i >= 8,
            is_storage_width(i as nat),
            i == 8 || i / 2 < num,
            num <= usize::MAX / 2 + 1,
        decreases usize::MAX - i,
    {
        i *= 2;
    }
    proof {
        reveal_with_fuel(is_storage_width, 5);
    }
    i
}

/// A width of 1 to 64 bits.
#[derive(Debug, Clone, Copy, PartialEq, Eq)]
pub struct WidthSpec {
    bits: usize,
}

impl View for WidthSpec {
    type V = nat;

    /// The width in bits.
    closed spec fn view(&self) -> nat {
        self.bits as nat
    }
}

impl WidthSpec {
    /// The width of `bits` bits, for 1 to 64 bits.
    pub fn new(bits: usize) -> (made: Result<WidthSpec, RangeError>)
        ensures
            match made {
                Ok(width) => 1 <= bits <= 64 && width.wf() && width@ == bits,
                Err(e) => (bits == 0 || bits > 64) && e == RangeError::WidthOutOfRange,
            },
    {
        if bits == 0 || bits > 64 {
            Err(RangeError::WidthOutOfRange)
        } else {
            Ok(WidthSpec { bits })
        }
    }
}

impl Specifier for WidthSpec {
    open spec fn wf(&self) -> bool {
        1 <= self@ <= 64
    }

    open spec fn spec_bits(&self) -> nat {
        self@
    }

    proof fn lemma_width_bound(&self) {
    }

    fn bits(&self) -> (bits: usize) {
        self.bits
    }
}

} // verus!
