//! The bytes of a packed structure.
use crate::bits::{bits_replaced, bits_value, extract_bit_range, set_bit_range};
use crate::error::RangeError;
use vstd::prelude::*;

verus! {

/// Why the bit range `[start, end)` cannot be read from or written to a
/// buffer of `len` bytes through a 64-bit word, if it cannot.
pub open spec fn range_error(len: nat, start: int, end: int) -> Option<RangeError> {
    if start > end {
        Some(RangeError::OutOfBounds)
    } else if end - start > 64 {
        Some(RangeError::WidthOutOfRange)
    } else if end > 8 * len {
        Some(RangeError::OutOfBounds)
    } else {
        None
    }
}

/// A byte array of fixed length, all zero when it is made.
#[derive(Debug, Clone, PartialEq, Eq)]
pub struct BitBuffer {
    bytes: Vec<u8>,
}

impl View for BitBuffer {
    type V = Seq<u8>;

    /// The bytes, first byte first.
    closed spec fn view(&self) -> Seq<u8> {
        self.bytes@
    }
}

impl BitBuffer {
    /// A buffer of `len` zero bytes.
    pub fn new(len: usize) -> (buffer: BitBuffer)
        ensures
            buffer@.len() == len,
            forall|i: int| 0 <= i < len ==> buffer@[i] == 0,
    {
        BitBuffer { bytes: vec![0u8; len] }
    }

    /// The length in bytes.
    pub fn len(&self) -> (len: usize)
        ensures
            len == self@.len(),
    {
        self.bytes.len()
    }

    /// The bytes, first byte first.
    pub fn as_slice(&self) -> (bytes: &[u8])
        ensures
            bytes@ == self@,
    {
        self.bytes.as_slice()
    }

    /// The bytes, to be written in place. The length cannot change.
    pub(crate) fn as_mut_slice(&mut self) -> (bytes: &mut [u8])
        ensures
            bytes@ == old(self)@,
            final(bytes)@ == final(self)@,
    {
        self.bytes.as_mut_slice()
    }

    /// The byte at `index`.
    pub fn get_byte(&self, index: usize) -> (got: Result<u8, RangeError>)
        ensures
            got == if index < self@.len() {
                Ok::<u8, RangeError>(self@[index as int])
            } else {
                Err(RangeError::OutOfBounds)
            },
    {
        if index < self.bytes.len() {
            Ok(self.bytes[index])
        } else {
            Err(RangeError::OutOfBounds)
        }
    }

    /// Puts `byte` at `index`.
    pub fn set_byte(&mut self, index: usize, byte: u8) -> (done: Result<(), RangeError>)
        ensures
            index < old(self)@.len() ==> done is Ok && final(self)@ == old(self)@.update(
                index as int,
                byte,
            ),
            index >= old(self)@.len() ==> done == Err::<(), RangeError>(RangeError::OutOfBounds)
                && final(self)@ == old(self)@,
    {
        if index < self.bytes.len() {
            self.bytes[index] = byte;
            Ok(())
        } else {
            Err(RangeError::OutOfBounds)
        }
    }

    /// Tells whether `[start, end)` can be read or written, as
    /// `range_error` defines it.
    fn check_range(&self, start: usize, end: usize) -> (checked: Result<(), RangeError>)
        ensures
            checked == match range_error(self@.len(), start as int, end as int) {
                Some(e) => Err::<(), RangeError>(e),
                None => Ok(()),
            },
    {
        if start > end {
            Err(RangeError::OutOfBounds)
        } else if end - start > 64 {
            Err(RangeError::WidthOutOfRange)
        } else if end / 8 > self.bytes.len() || (end / 8 == self.bytes.len() && end % 8 != 0) {
            Err(RangeError::OutOfBounds)
        } else {
            Ok(())
        }
    }

    /// Reads the bits `[start, end)` as a number, first bit most
    /// significant. A range of more than 64 bits is refused, and so is one
    /// that ends before it starts or beyond the buffer.
    pub fn extract(&self, start: usize, end: usize) -> (got: Result<u64, RangeError>)
        ensures
            match range_error(self@.len(), start as int, end as int) {
                Some(e) => got == Err::<u64, RangeError>(e),
                None => got matches Ok(value) && value == bits_value(
                    self@,
                    start as int,
                    end as int,
                ),
            },
    {
        match self.check_range(start, end) {
            Err(e) => Err(e),
            Ok(()) => Ok(extract_bit_range(start, end, self.bytes.as_slice())),
        }
    }

    /// Writes the top `end - start` bits of `input` over the bits
    /// `[start, end)`, highest first, and leaves every other bit as it
    /// was. A range that `extract` would refuse is refused, and nothing is
    /// written.
    pub fn insert(&mut self, start: usize, end: usize, input: u64) -> (done: Result<
        (),
        RangeError,
    >)
        ensures
            match range_error(old(self)@.len(), start as int, end as int) {
                Some(e) => done == Err::<(), RangeError>(e) && final(self)@ == old(self)@,
                None => done is Ok && bits_replaced(
                    old(self)@,
                    final(self)@,
                    start as int,
                    end as int,
                    input,
                ),
            },
    {
        match self.check_range(start, end) {
            Err(e) => Err(e),
            Ok(()) => {
                if start < end {
                    set_bit_range(start, end, input, self.bytes.as_mut_slice());
                }
                Ok(())
            },
        }
    }
}

} // verus!
