//! What can go wrong, and when.
use vstd::prelude::*;

verus! {

/// A schema that is refused when it is defined: no instance of it can ever
/// be built.
#[derive(Debug, Clone, Copy, PartialEq, Eq)]
pub enum SchemaError {
    /// The fields' widths add up to `total_bits`, which is no whole number
    /// of bytes.
    TotalBitsNotMultipleOfEight { total_bits: usize },
    /// An enumerated field has `count` variants, which is no power of two.
    VariantCountNotPowerOfTwo { count: usize },
    /// The variant at index `variant` has a discriminant that the field's
    /// width cannot hold. It is the first such variant.
    DiscriminantOutOfRange { variant: usize },
    /// The field at index `field` has the name of an earlier field. It is
    /// the first such field.
    DuplicateFieldName { field: usize },
}

/// The bits read for an enumerated field are no declared discriminant.
#[derive(Debug, Clone, Copy, PartialEq, Eq)]
pub struct DecodeError {
    /// The bits that were read, as a number.
    pub raw: u64,
}

/// A width or a position that no buffer or word can serve.
#[derive(Debug, Clone, Copy, PartialEq, Eq)]
pub enum RangeError {
    /// A width outside of what the operation allows: more than 64 bits, or
    /// none where at least one is asked for.
    WidthOutOfRange,
    /// A bit range that ends before it starts, or beyond the buffer.
    OutOfBounds,
}

} // verus!
