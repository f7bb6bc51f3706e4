//! The types that accessors of a packed structure take and give, and how
//! they turn into bits and back.
use crate::as_bytes::AsBytes;
use crate::error::DecodeError;
use crate::specifier::Specifier;
use crate::width::WidthSpec;
use vstd::arithmetic::power2::{lemma2_to64, pow2};
use vstd::prelude::*;

verus! {

/// A type whose values can stand in a field of a packed structure.
pub trait BitfieldSpecifier: Sized {
    /// The descriptor of the field that holds a value of this type.
    type Specifier: Specifier;

    /// The type that the field's accessors take and give.
    type InOutType;

    /// The width of the field in bits.
    spec fn spec_bits() -> nat;

    /// The number that stands for `value` in the field.
    spec fn spec_into_bits(value: Self::InOutType) -> nat;

    /// The descriptor of the field.
    fn specifier() -> (spec: Self::Specifier)
        ensures
            spec.wf(),
            spec.spec_bits() == Self::spec_bits(),
    ;

    /// The number that stands for `value` in the field: it fits in the
    /// field's width.
    fn into_bits(value: Self::InOutType) -> (bits: u64)
        ensures
            bits == Self::spec_into_bits(value),
            bits < pow2(Self::spec_bits()),
    ;
}

/// A type whose values can be read back from the integer that carries a
/// field.
pub trait BitfieldFrom<T: AsBytes>: Sized {
    /// The value that `val` stands for, if it stands for one.
    spec fn spec_from(val: T) -> Option<Self>;

    /// The value that `val` stands for. Bits that stand for none are
    /// refused.
    fn from(val: T) -> (converted: Result<Self, DecodeError>)
        ensures
            match Self::spec_from(val) {
                Some(value) => converted == Ok::<Self, DecodeError>(value),
                None => converted == Err::<Self, DecodeError>(
                    DecodeError { raw: val.spec_value() as u64 },
                ),
            },
    ;
}

impl BitfieldSpecifier for bool {
    type Specifier = WidthSpec;

    type InOutType = bool;

    open spec fn spec_bits() -> nat {
        1
    }

    open spec fn spec_into_bits(value: bool) -> nat {
        if value {
            1
        } else {
            0
        }
    }

    fn specifier() -> (spec: WidthSpec) {
        WidthSpec::new(1).unwrap()
    }

    fn into_bits(value: bool) -> (bits: u64) {
        proof {
            lemma2_to64();
        }
        if value {
            1
        } else {
            0
        }
    }
}

impl BitfieldFrom<u8> for bool {
    open spec fn spec_from(val: u8) -> Option<bool> {
        Some(val != 0)
    }

    fn from(val: u8) -> (converted: Result<bool, DecodeError>) {
        Ok(val != 0)
    }
}

impl<T: AsBytes> BitfieldFrom<T> for T {
    open spec fn spec_from(val: T) -> Option<T> {
        Some(val)
    }

    fn from(val: T) -> (converted: Result<T, DecodeError>) {
        Ok(val)
    }
}

} // verus!
