//! The unsigned integers that carry field values, and their bytes.
use vstd::arithmetic::div_mod::{lemma_mod_breakdown, lemma_small_mod};
use vstd::arithmetic::power2::{
    lemma2_to64,
    lemma2_to64_rest,
    lemma_pow2_adds,
    lemma_pow2_pos,
    lemma_pow2_strictly_increases,
    pow2,
};
use vstd::bits::{lemma_u64_shl_is_mul, lemma_u64_shr_is_div};
use vstd::prelude::*;

verus! {

/// The number whose little-endian bytes are the first `count` bytes of
/// `bytes`: byte `i` counts `256^i` times.
pub open spec fn le_value_upto(bytes: Seq<u8>, count: int) -> nat
    decreases count,
{
    if count <= 0 {
        0
    } else {
        le_value_upto(bytes, count - 1) + bytes[count - 1] as nat * pow2((8 * (count - 1)) as nat)
    }
}

/// The number whose little-endian bytes are `bytes`.
pub open spec fn le_value(bytes: Seq<u8>) -> nat {
    le_value_upto(bytes, bytes.len() as int)
}

/// The first `width` little-endian bytes of `value`.
pub open spec fn le_bytes(value: nat, width: nat) -> Seq<u8> {
    Seq::new(width, |i: int| ((value / pow2((8 * i) as nat)) % 256) as u8)
}

/// `count` bytes spell a number below `256^count`.
pub proof fn lemma_le_value_bound(bytes: Seq<u8>, count: int)
    requires
        0 <= count,
    ensures
        le_value_upto(bytes, count) < pow2((8 * count) as nat),
    decreases count,
{
    lemma2_to64();
    if count > 0 {
        lemma_le_value_bound(bytes, count - 1);
        let low = pow2((8 * (count - 1)) as nat);
        lemma_pow2_adds((8 * (count - 1)) as nat, 8);
        let top = bytes[count - 1] as nat;
        assert(top * low <= 255 * low) by (nonlinear_arith)
            requires
                top <= 255,
        ;
        assert(low * 256 == 255 * low + low) by (nonlinear_arith);
    }
}

/// Zero bytes at the upper end add nothing.
pub proof fn lemma_le_zero_tail(bytes: Seq<u8>, from: int, count: int)
    requires
        0 <= from <= count,
        forall|i: int| from <= i < count ==> bytes[i] == 0,
    ensures
        le_value_upto(bytes, count) == le_value_upto(bytes, from),
    decreases count - from,
{
    if from < count {
        lemma_le_zero_tail(bytes, from, count - 1);
    }
}

/// Bytes that agree spell the same number.
pub proof fn lemma_le_agree(a: Seq<u8>, b: Seq<u8>, count: int)
    requires
        0 <= count,
        forall|i: int| 0 <= i < count ==> a[i] == b[i],
    ensures
        le_value_upto(a, count) == le_value_upto(b, count),
    decreases count,
{
    if count > 0 {
        lemma_le_agree(a, b, count - 1);
    }
}

/// The first `count` little-endian bytes of a number spell the number cut
/// to as many bytes.
pub proof fn lemma_le_bytes_value(value: nat, width: nat, count: int)
    requires
        0 <= count <= width,
    ensures
        le_value_upto(le_bytes(value, width), count) == value % pow2((8 * count) as nat),
    decreases count,
{
    lemma2_to64();
    if count > 0 {
        lemma_le_bytes_value(value, width, count - 1);
        let low = pow2((8 * (count - 1)) as nat);
        lemma_pow2_pos((8 * (count - 1)) as nat);
        lemma_pow2_adds((8 * (count - 1)) as nat, 8);
        lemma_mod_breakdown(value as int, low as int, 256);
        let digit = (value / low) % 256;
        assert(le_bytes(value, width)[count - 1] == digit as u8);
        assert(low * digit == digit * low) by (nonlinear_arith);
    }
}

/// A number that fits in `width` bytes is what its little-endian bytes
/// spell.
pub proof fn lemma_le_round_trip(value: nat, width: nat)
    requires
        value < pow2(8 * width),
    ensures
        le_value(le_bytes(value, width)) == value,
{
    lemma_le_bytes_value(value, width, width as int);
    lemma_small_mod(value, pow2(8 * width));
}

proof fn lemma_low_byte(shifted: u64)
    by (bit_vector)
    ensures
        (shifted as u8) == shifted % 256,
{
}

/// The first `width` little-endian bytes of `value`.
fn le_bytes_of(value: u64, width: usize) -> (bytes: Vec<u8>)
    requires
        width <= 8,
    ensures
        bytes@ == le_bytes(value as nat, width as nat),
{
    let mut bytes: Vec<u8> = Vec::new();
    let mut i: usize = 0;
    while i < width
        invariant
            i <= width <= 8,
            bytes@.len() == i,
            forall|j: int| 0 <= j < i ==> bytes@[j] == le_bytes(value as nat, width as nat)[j],
        decreases width - i,
    {
        let shifted = value >> (8 * i);
        let byte = #[verifier::truncate] (shifted as u8);
        proof {
            lemma_u64_shr_is_div(value, (8 * i) as u64);
            lemma_low_byte(shifted);
        }
        bytes.push(byte);
        i += 1;
    }
    assert(bytes@ =~= le_bytes(value as nat, width as nat));
    bytes
}

/// The number whose little-endian bytes are `bytes`.
fn le_value_of(bytes: &Vec<u8>) -> (value: u64)
    requires
        bytes@.len() <= 8,
    ensures
        value == le_value(bytes@),
{
    let mut value: u64 = 0;
    let mut i: usize = 0;
    while i < bytes.len()
        invariant
            i <= bytes@.len() <= 8,
            value == le_value_upto(bytes@, i as int),
        decreases bytes@.len() - i,
    {
        proof {
            lemma_le_value_bound(bytes@, i as int);
            lemma_le_value_bound(bytes@, i + 1);
            lemma2_to64_rest();
            if 8 * (i + 1) < 64 {
                lemma_pow2_strictly_increases((8 * (i + 1)) as nat, 64);
            }
            lemma_u64_shl_is_mul(bytes@[i as int] as u64, (8 * i) as u64);
        }
        value = value + ((bytes[i] as u64) << (8 * i));
        i += 1;
    }
    value
}

/// An unsigned integer of 1, 2, 4 or 8 bytes that carries a field's
/// value.
pub trait AsBytes: Sized {
    /// The width in bytes.
    const WIDTH: usize;

    /// The width in bits.
    const BITS: usize;

    /// The width in bytes.
    spec fn spec_width() -> nat;

    /// The integer as a number.
    spec fn spec_value(&self) -> nat;

    /// The two constants agree with `spec_width`, which is at most the
    /// width of a 64-bit word.
    proof fn lemma_widths()
        ensures
            Self::WIDTH == Self::spec_width(),
            Self::BITS == 8 * Self::spec_width(),
            1 <= Self::spec_width() <= 8,
    ;

    /// Every value fits in its width.
    proof fn lemma_value_bound(&self)
        ensures
            self.spec_value() < pow2(8 * Self::spec_width()),
    ;

    /// The integer as a 64-bit word.
    fn widen(&self) -> (word: u64)
        ensures
            word == self.spec_value(),
    ;

    /// The bytes of the integer, least significant first.
    fn to_bytes(&self) -> (bytes: Vec<u8>)
        ensures
            bytes@ == le_bytes(self.spec_value(), Self::spec_width()),
    ;

    /// The integer whose bytes, least significant first, are `bytes`.
    fn from_bytes(bytes: Vec<u8>) -> (value: Self)
        requires
            bytes@.len() == Self::spec_width(),
        ensures
            value.spec_value() == le_value(bytes@),
    ;
}

impl AsBytes for u8 {
    const WIDTH: usize = 1;

    const BITS: usize = 8;

    open spec fn spec_width() -> nat {
        1
    }

    open spec fn spec_value(&self) -> nat {
        *self as nat
    }

    proof fn lemma_widths() {
    }

    proof fn lemma_value_bound(&self) {
        lemma2_to64();
    }

    fn widen(&self) -> (word: u64) {
        *self as u64
    }

    fn to_bytes(&self) -> (bytes: Vec<u8>) {
        le_bytes_of(*self as u64, 1)
    }

    fn from_bytes(bytes: Vec<u8>) -> (value: Self) {
        proof {
            lemma_le_value_bound(bytes@, 1);
            lemma2_to64();
        }
        le_value_of(&bytes) as u8
    }
}

impl AsBytes for u16 {
    const WIDTH: usize = 2;

    const BITS: usize = 16;

    open spec fn spec_width() -> nat {
        2
    }

    open spec fn spec_value(&self) -> nat {
        *self as nat
    }

    proof fn lemma_widths() {
    }

    proof fn lemma_value_bound(&self) {
        lemma2_to64();
    }

    fn widen(&self) -> (word: u64) {
        *self as u64
    }

    fn to_bytes(&self) -> (bytes: Vec<u8>) {
        le_bytes_of(*self as u64, 2)
    }

    fn from_bytes(bytes: Vec<u8>) -> (value: Self) {
        proof {
            lemma_le_value_bound(bytes@, 2);
            lemma2_to64();
        }
        le_value_of(&bytes) as u16
    }
}

impl AsBytes for u32 {
    const WIDTH: usize = 4;

    const BITS: usize = 32;

    open spec fn spec_width() -> nat {
        4
    }

    open spec fn spec_value(&self) -> nat {
        *self as nat
    }

    proof fn lemma_widths() {
    }

    proof fn lemma_value_bound(&self) {
        lemma2_to64();
    }

    fn widen(&self) -> (word: u64) {
        *self as u64
    }

    fn to_bytes(&self) -> (bytes: Vec<u8>) {
        le_bytes_of(*self as u64, 4)
    }

    fn from_bytes(bytes: Vec<u8>) -> (value: Self) {
        proof {
            lemma_le_value_bound(bytes@, 4);
            lemma2_to64();
        }
        le_value_of(&bytes) as u32
    }
}

impl AsBytes for u64 {
    const WIDTH: usize = 8;

    const BITS: usize = 64;

    open spec fn spec_width() -> nat {
        8
    }

    open spec fn spec_value(&self) -> nat {
        *self as nat
    }

    proof fn lemma_widths() {
    }

    proof fn lemma_value_bound(&self) {
        lemma2_to64_rest();
    }

    fn widen(&self) -> (word: u64) {
        *self
    }

    fn to_bytes(&self) -> (bytes: Vec<u8>) {
        let bytes = le_bytes_of(*self, 8);
        assert(bytes@ == le_bytes(self.spec_value(), Self::spec_width()));
        bytes
    }

    fn from_bytes(bytes: Vec<u8>) -> (value: Self) {
        le_value_of(&bytes)
    }
}

} // verus!
