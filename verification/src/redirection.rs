//! A packed structure as a type of its own: the first byte of an entry of
//! an interrupt redirection table.
//!
//! | bits | field          |
//! |------|----------------|
//! | 0    | acknowledged   |
//! | 1    | trigger mode   |
//! | 2..5 | delivery mode  |
//! | 5..8 | reserved       |
use crate::bit_field::BitField;
use crate::bits::{bits_value, lemma_bits_value_bound, lemma_other_range_kept, lemma_zero_bits_value};
use crate::checks::{SizeMarker, TotalSizeMod8};
use crate::convert::{BitfieldFrom, BitfieldSpecifier};
use crate::error::DecodeError;
use crate::specifier::Specifier;
use crate::width::WidthSpec;
use vstd::arithmetic::div_mod::lemma_small_mod;
use vstd::arithmetic::power2::{lemma2_to64, pow2};
use vstd::prelude::*;

verus! {

/// How an interrupt is signalled.
#[derive(Debug, Clone, Copy, PartialEq, Eq)]
pub enum TriggerMode {
    Edge,
    Level,
}

/// How an interrupt is delivered.
#[derive(Debug, Clone, Copy, PartialEq, Eq)]
pub enum DeliveryMode {
    Fixed,
    Lowest,
    SMI,
    RemoteRead,
    NMI,
    Init,
    Startup,
    External,
}

impl TriggerMode {
    /// The mode that the bit `raw` stands for; `Edge` for what is no bit.
    pub open spec fn of_bits(raw: nat) -> TriggerMode {
        if raw == 1 {
            TriggerMode::Level
        } else {
            TriggerMode::Edge
        }
    }
}

impl DeliveryMode {
    /// The mode that the three bits `raw` stand for; `Fixed` for what is
    /// no three bits.
    pub open spec fn of_bits(raw: nat) -> DeliveryMode {
        if raw == 1 {
            DeliveryMode::Lowest
        } else if raw == 2 {
            DeliveryMode::SMI
        } else if raw == 3 {
            DeliveryMode::RemoteRead
        } else if raw == 4 {
            DeliveryMode::NMI
        } else if raw == 5 {
            DeliveryMode::Init
        } else if raw == 6 {
            DeliveryMode::Startup
        } else if raw == 7 {
            DeliveryMode::External
        } else {
            DeliveryMode::Fixed
        }
    }
}

impl BitfieldSpecifier for TriggerMode {
    type Specifier = WidthSpec;

    type InOutType = TriggerMode;

    open spec fn spec_bits() -> nat {
        1
    }

    open spec fn spec_into_bits(value: TriggerMode) -> nat {
        match value {
            TriggerMode::Edge => 0,
            TriggerMode::Level => 1,
        }
    }

    fn specifier() -> (spec: WidthSpec) {
        WidthSpec::new(1).unwrap()
    }

    fn into_bits(value: TriggerMode) -> (bits: u64) {
        proof {
            lemma2_to64();
        }
        match value {
            TriggerMode::Edge => 0,
            TriggerMode::Level => 1,
        }
    }
}

impl BitfieldFrom<u8> for TriggerMode {
    open spec fn spec_from(val: u8) -> Option<TriggerMode> {
        if val < 2 {
            Some(TriggerMode::of_bits(val as nat))
        } else {
            None
        }
    }

    fn from(val: u8) -> (converted: Result<TriggerMode, DecodeError>) {
        match val {
            0 => Ok(TriggerMode::Edge),
            1 => Ok(TriggerMode::Level),
            _ => Err(DecodeError { raw: val as u64 }),
        }
    }
}

impl BitfieldSpecifier for DeliveryMode {
    type Specifier = WidthSpec;

    type InOutType = DeliveryMode;

    open spec fn spec_bits() -> nat {
        3
    }

    open spec fn spec_into_bits(value: DeliveryMode) -> nat {
        match value {
            DeliveryMode::Fixed => 0,
            DeliveryMode::Lowest => 1,
            DeliveryMode::SMI => 2,
            DeliveryMode::RemoteRead => 3,
            DeliveryMode::NMI => 4,
            DeliveryMode::Init => 5,
            DeliveryMode::Startup => 6,
            DeliveryMode::External => 7,
        }
    }

    fn specifier() -> (spec: WidthSpec) {
        WidthSpec::new(3).unwrap()
    }

    fn into_bits(value: DeliveryMode) -> (bits: u64) {
        proof {
            lemma2_to64();
        }
        match value {
            DeliveryMode::Fixed => 0,
            DeliveryMode::Lowest => 1,
            DeliveryMode::SMI => 2,
            DeliveryMode::RemoteRead => 3,
            DeliveryMode::NMI => 4,
            DeliveryMode::Init => 5,
            DeliveryMode::Startup => 6,
            DeliveryMode::External => 7,
        }
    }
}

impl BitfieldFrom<u8> for DeliveryMode {
    open spec fn spec_from(val: u8) -> Option<DeliveryMode> {
        if val < 8 {
            Some(DeliveryMode::of_bits(val as nat))
        } else {
            None
        }
    }

    fn from(val: u8) -> (converted: Result<DeliveryMode, DecodeError>) {
        match val {
            0 => Ok(DeliveryMode::Fixed),
            1 => Ok(DeliveryMode::Lowest),
            2 => Ok(DeliveryMode::SMI),
            3 => Ok(DeliveryMode::RemoteRead),
            4 => Ok(DeliveryMode::NMI),
            5 => Ok(DeliveryMode::Init),
            6 => Ok(DeliveryMode::Startup),
            7 => Ok(DeliveryMode::External),
            _ => Err(DecodeError { raw: val as u64 }),
        }
    }
}

/// The bit at which the flag starts.
pub const ACKNOWLEDGED_OFFSET: usize = 0;

/// The bit at which the trigger mode starts.
pub const TRIGGER_MODE_OFFSET: usize = 1;

/// The bit at which the delivery mode starts.
pub const DELIVERY_MODE_OFFSET: usize = 2;

/// The bit at which the reserved bits start.
pub const RESERVED_OFFSET: usize = 5;

/// The size of the entry in bits, modulo 8.
pub const SIZE_MOD_8: usize = (1 + 1 + 3 + 3) % 8;

/// The fields of an entry, as values.
pub struct RedirectionFields {
    pub acknowledged: bool,
    pub trigger_mode: TriggerMode,
    pub delivery_mode: DeliveryMode,
    pub reserved: u8,
}

/// One byte: a flag, two modes and three reserved bits.
pub struct RedirectionTableEntry {
    data: [u8; 1],
}

impl BitField for RedirectionTableEntry {
    const SIZE: usize = 1;

    type SizeMod8 = <SizeMarker as TotalSizeMod8<SIZE_MOD_8>>::Size;

    closed spec fn data(&self) -> Seq<u8> {
        self.data@
    }

    fn get_byte(&self, index: usize) -> (byte: u8) {
        self.data[index]
    }

    fn set_byte(&mut self, index: usize, byte: u8) {
        self.data[index] = byte;
    }

    fn get_data(&self) -> (bytes: &[u8]) {
        assert(Self::SIZE == 1);
        &self.data
    }

    fn get_data_mut(&mut self) -> (bytes: &mut [u8]) {
        &mut self.data
    }
}

impl View for RedirectionTableEntry {
    type V = RedirectionFields;

    /// What the four fields hold.
    open spec fn view(&self) -> RedirectionFields {
        RedirectionFields {
            acknowledged: bits_value(self.data(), 0, 1) != 0,
            trigger_mode: TriggerMode::of_bits(bits_value(self.data(), 1, 2)),
            delivery_mode: DeliveryMode::of_bits(bits_value(self.data(), 2, 5)),
            reserved: bits_value(self.data(), 5, 8) as u8,
        }
    }
}

impl RedirectionTableEntry {
    /// The entry is one byte long.
    pub proof fn lemma_one_byte(&self)
        ensures
            self.data().len() == 1,
    {
    }

    /// An entry with every bit zero: not acknowledged, edge triggered,
    /// fixed delivery.
    pub fn new() -> (entry: RedirectionTableEntry)
        ensures
            entry.data() == seq![0u8],
            entry@ == (RedirectionFields {
                acknowledged: false,
                trigger_mode: TriggerMode::Edge,
                delivery_mode: DeliveryMode::Fixed,
                reserved: 0,
            }),
    {
        let entry = RedirectionTableEntry { data: [0u8;1] };
        proof {
            assert(entry.data() =~= seq![0u8]);
            lemma_zero_bits_value(entry.data(), 0, 1);
            lemma_zero_bits_value(entry.data(), 1, 2);
            lemma_zero_bits_value(entry.data(), 2, 5);
            lemma_zero_bits_value(entry.data(), 5, 8);
        }
        entry
    }

    /// Whether the interrupt was acknowledged.
    pub fn get_acknowledged(&self) -> (acknowledged: bool)
        ensures
            acknowledged == self@.acknowledged,
    {
        let spec = <bool as BitfieldSpecifier>::specifier();
        let raw = self.get_field::<WidthSpec, u8>(&spec, ACKNOWLEDGED_OFFSET);
        <bool as BitfieldFrom<u8>>::from(raw).unwrap()
    }

    /// Sets the flag and nothing else.
    pub fn set_acknowledged(&mut self, acknowledged: bool)
        ensures
            final(self)@ == (RedirectionFields { acknowledged, ..old(self)@ }),
    {
        let spec = <bool as BitfieldSpecifier>::specifier();
        let into = <bool as BitfieldSpecifier>::into_bits(acknowledged);
        self.set_field::<WidthSpec, u64>(&spec, ACKNOWLEDGED_OFFSET, into);
        proof {
            lemma2_to64();
            lemma_small_mod(into as nat, pow2(1));
            old(self).lemma_field_written(*self, 0, 1, into);
        }
    }

    /// The trigger mode. Both values of the bit stand for a mode.
    pub fn get_trigger_mode(&self) -> (trigger_mode: TriggerMode)
        ensures
            trigger_mode == self@.trigger_mode,
    {
        let spec = <TriggerMode as BitfieldSpecifier>::specifier();
        let raw = self.get_field::<WidthSpec, u8>(&spec, TRIGGER_MODE_OFFSET);
        proof {
            lemma2_to64();
            lemma_bits_value_bound(self.data(), 1, 2);
        }
        <TriggerMode as BitfieldFrom<u8>>::from(raw).unwrap()
    }

    /// Sets the trigger mode and nothing else.
    pub fn set_trigger_mode(&mut self, trigger_mode: TriggerMode)
        ensures
            final(self)@ == (RedirectionFields { trigger_mode, ..old(self)@ }),
    {
        let spec = <TriggerMode as BitfieldSpecifier>::specifier();
        let into = <TriggerMode as BitfieldSpecifier>::into_bits(trigger_mode);
        self.set_field::<WidthSpec, u64>(&spec, TRIGGER_MODE_OFFSET, into);
        proof {
            lemma2_to64();
            lemma_small_mod(into as nat, pow2(1));
            old(self).lemma_field_written(*self, 1, 2, into);
        }
    }

    /// The delivery mode. All eight values of the three bits stand for a
    /// mode.
    pub fn get_delivery_mode(&self) -> (delivery_mode: DeliveryMode)
        ensures
            delivery_mode == self@.delivery_mode,
    {
        let spec = <DeliveryMode as BitfieldSpecifier>::specifier();
        let raw = self.get_field::<WidthSpec, u8>(&spec, DELIVERY_MODE_OFFSET);
        proof {
            lemma2_to64();
            lemma_bits_value_bound(self.data(), 2, 5);
        }
        <DeliveryMode as BitfieldFrom<u8>>::from(raw).unwrap()
    }

    /// Sets the delivery mode and nothing else.
    pub fn set_delivery_mode(&mut self, delivery_mode: DeliveryMode)
        ensures
            final(self)@ == (RedirectionFields { delivery_mode, ..old(self)@ }),
    {
        let spec = <DeliveryMode as BitfieldSpecifier>::specifier();
        let into = <DeliveryMode as BitfieldSpecifier>::into_bits(delivery_mode);
        self.set_field::<WidthSpec, u64>(&spec, DELIVERY_MODE_OFFSET, into);
        proof {
            lemma2_to64();
            lemma_small_mod(into as nat, pow2(3));
            old(self).lemma_field_written(*self, 2, 5, into);
        }
    }

    /// The three reserved bits, as a number.
    pub fn get_reserved(&self) -> (reserved: u8)
        ensures
            reserved == self@.reserved,
    {
        let spec = WidthSpec::new(3).unwrap();
        self.get_field::<WidthSpec, u8>(&spec, RESERVED_OFFSET)
    }

    /// Puts the low three bits of `reserved` in the reserved field.
    pub fn set_reserved(&mut self, reserved: u8)
        ensures
            final(self)@ == (RedirectionFields { reserved: reserved % 8, ..old(self)@ }),
    {
        let spec = WidthSpec::new(3).unwrap();
        self.set_field::<WidthSpec, u8>(&spec, RESERVED_OFFSET, reserved);
        proof {
            lemma2_to64();
            old(self).lemma_field_written(*self, 5, 8, reserved as u64);
        }
    }

    /// After the bits `[start, end)` of `self` were replaced and gave
    /// `after`, the other three fields of `after` are those of `self`.
    proof fn lemma_field_written(&self, after: RedirectionTableEntry, start: int, end: int, raw: u64)
        requires
            (start, end) == (0int, 1int) || (start, end) == (1int, 2int) || (start, end) == (
                2int,
                5int,
            ) || (start, end) == (5int, 8int),
            crate::bits::bits_replaced(
                self.data(),
                after.data(),
                start,
                end,
                crate::bits::staged_word(raw, (end - start) as nat),
            ),
        ensures
            start != 0 ==> bits_value(after.data(), 0, 1) == bits_value(self.data(), 0, 1),
            start != 1 ==> bits_value(after.data(), 1, 2) == bits_value(self.data(), 1, 2),
            start != 2 ==> bits_value(after.data(), 2, 5) == bits_value(self.data(), 2, 5),
            start != 5 ==> bits_value(after.data(), 5, 8) == bits_value(self.data(), 5, 8),
    {
        let input = crate::bits::staged_word(raw, (end - start) as nat);
        if start != 0 {
            lemma_other_range_kept(self.data(), after.data(), start, end, input, 0, 1);
        }
        if start != 1 {
            lemma_other_range_kept(self.data(), after.data(), start, end, input, 1, 2);
        }
        if start != 2 {
            lemma_other_range_kept(self.data(), after.data(), start, end, input, 2, 5);
        }
        if start != 5 {
            lemma_other_range_kept(self.data(), after.data(), start, end, input, 5, 8);
        }
    }
}

} // verus!
