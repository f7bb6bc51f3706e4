//! Marker types that let the compiler refuse a packed structure whose size
//! is no whole number of bytes, or an enumerated value whose discriminant
//! is out of range, where the structure is a type of its own.
use vstd::prelude::*;

verus! {

/// Implemented by `ZeroMod8` alone: a structure's size marker must have
/// it.
pub trait TotalSizeIsMultipleOfEightBits {

}

/// The answer yes to a check made in the types.
#[derive(Default)]
pub struct True;

/// The answer no to a check made in the types.
#[derive(Default)]
pub struct False;

/// Turns the outcome of a check, a constant, into `True` or `False`.
pub trait DiscriminantCheck<const VALID: bool> {
    type Valid;
}

impl<T> DiscriminantCheck<true> for T {
    type Valid = True;
}

impl<T> DiscriminantCheck<false> for T {
    type Valid = False;
}

/// Implemented by `True` alone.
pub trait DiscriminantInRange {

}

impl DiscriminantInRange for True {

}

/// Turns a size in bits, taken modulo 8, into one of the eight markers.
pub trait TotalSizeMod8<const SIZE: usize> {
    type Size;
}

/// The type that carries the eight impls of `TotalSizeMod8`.
pub struct SizeMarker;

/// A size that is a whole number of bytes.
pub struct ZeroMod8;

/// A size of one bit more than a whole number of bytes.
pub struct OneMod8;

/// A size of two bits more than a whole number of bytes.
pub struct TwoMod8;

/// A size of three bits more than a whole number of bytes.
pub struct ThreeMod8;

/// A size of four bits more than a whole number of bytes.
pub struct FourMod8;

/// A size of five bits more than a whole number of bytes.
pub struct FiveMod8;

/// A size of six bits more than a whole number of bytes.
pub struct SixMod8;

/// A size of seven bits more than a whole number of bytes.
pub struct SevenMod8;

impl TotalSizeMod8<0> for SizeMarker {
    type Size = ZeroMod8;
}

impl TotalSizeMod8<1> for SizeMarker {
    type Size = OneMod8;
}

impl TotalSizeMod8<2> for SizeMarker {
    type Size = TwoMod8;
}

impl TotalSizeMod8<3> for SizeMarker {
    type Size = ThreeMod8;
}

impl TotalSizeMod8<4> for SizeMarker {
    type Size = FourMod8;
}

impl TotalSizeMod8<5> for SizeMarker {
    type Size = FiveMod8;
}

impl TotalSizeMod8<6> for SizeMarker {
    type Size = SixMod8;
}

impl TotalSizeMod8<7> for SizeMarker {
    type Size = SevenMod8;
}

impl TotalSizeIsMultipleOfEightBits for ZeroMod8 {

}

} // verus!
