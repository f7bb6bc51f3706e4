//! Instances of a schema: a buffer of the schema's size, read and written
//! field by field.
use crate::bits::{
    bit_at,
    lemma_bits_value_bound,
    bits_replaced,
    bits_value,
    extract_bit_range,
    lemma_bits_determine_bytes,
    lemma_other_range_kept,
    lemma_replaced_range_value,
    lemma_staged_value,
    lemma_value_determines_bits,
    lemma_zero_bits_value,
    set_bit_range,
    staged_word,
};
use crate::buffer::BitBuffer;
use crate::enum_spec::discriminants_distinct;
use crate::error::DecodeError;
use crate::layout::{lemma_field_of_bit, lemma_offsets_ordered, FieldKind, FieldLayout};
use crate::search::lemma_first_is_least;
use crate::specifier::Specifier;
use vstd::arithmetic::div_mod::lemma_small_mod;
use vstd::arithmetic::power2::{lemma2_to64, lemma2_to64_rest, lemma_pow2_strictly_increases, pow2};
use vstd::prelude::*;

verus! {

/// What a field holds, as callers see it: a number for a plain field, the
/// name of a variant for an enumerated one.
#[derive(Debug, Clone, Copy, PartialEq, Eq)]
pub enum Value<'a> {
    Raw(u64),
    Name(&'a str),
}

/// What a field of `bits` bits keeps of `raw`: its low `bits` bits.
pub open spec fn stored_raw(raw: u64, bits: nat) -> nat {
    raw as nat % pow2(bits)
}

/// A packed structure: the bytes, and the schema that says what they mean.
#[derive(Debug, Clone, PartialEq, Eq)]
pub struct SchemaInstance<'a> {
    buffer: BitBuffer,
    layout: &'a FieldLayout,
}

impl<'a> View for SchemaInstance<'a> {
    type V = Seq<nat>;

    /// The fields' values as numbers, in the order of the schema.
    open spec fn view(&self) -> Seq<nat> {
        Seq::new(self.layout().fields().len(), |field: int| self.spec_raw(field))
    }
}

impl<'a> SchemaInstance<'a> {
    /// The schema.
    pub closed spec fn layout(&self) -> FieldLayout {
        *self.layout
    }

    /// The bytes, first byte first.
    pub closed spec fn bytes(&self) -> Seq<u8> {
        self.buffer@
    }

    /// The schema is well formed and the buffer has its size.
    pub open spec fn wf(&self) -> bool {
        &&& self.layout().wf()
        &&& self.bytes().len() == self.layout().spec_total_bytes()
    }

    /// The number that the bits of field `field` spell, first bit most
    /// significant.
    pub open spec fn spec_raw(&self, field: int) -> nat {
        bits_value(
            self.bytes(),
            self.layout().spec_offset(field) as int,
            self.layout().spec_end(field) as int,
        )
    }

    /// What `get` gives for a field that holds `raw`.
    pub open spec fn spec_decoded(&self, field: int, raw: u64, got: Result<
        Value<'a>,
        DecodeError,
    >) -> bool {
        match self.layout().fields()[field].kind {
            FieldKind::Plain(_) => got == Ok::<Value<'a>, DecodeError>(Value::Raw(raw)),
            FieldKind::Enum(spec) => match spec.spec_decode(raw) {
                Some(at) => got matches Ok(Value::Name(name)) && name@ == spec.variants()[at].name@,
                None => got == Err::<Value<'a>, DecodeError>(DecodeError { raw }),
            },
        }
    }

    /// Whether `value` can be put in field `field`: a number in any field,
    /// a name in an enumerated field that declares it.
    pub open spec fn accepts(&self, field: int, value: Value<'_>) -> bool {
        match value {
            Value::Raw(_) => true,
            Value::Name(name) => self.layout().fields()[field].kind matches FieldKind::Enum(spec)
                && spec.spec_encode(name@) is Some,
        }
    }

    /// The number that field `field` holds once `value` was put in it: the
    /// low bits of a number, the discriminant of the first variant of a
    /// name.
    pub open spec fn spec_encoded(&self, field: int, value: Value<'_>) -> nat {
        match value {
            Value::Raw(raw) => stored_raw(raw, self.layout().spec_bits(field)),
            Value::Name(name) => match self.layout().fields()[field].kind {
                FieldKind::Enum(spec) => spec.variants()[spec.spec_encode(
                    name@,
                ).unwrap()].discriminant as nat,
                FieldKind::Plain(_) => 0,
            },
        }
    }

    /// A value that fits in a field is read back as it was written:
    /// `after` is what `set_raw` leaves of `before`, and the field's place
    /// in it is what `get_raw` gives.
    pub proof fn lemma_round_trip(before: Self, after: Self, field: int, raw: u64)
        requires
            before.wf(),
            0 <= field < before.layout().fields().len(),
            raw < pow2(before.layout().spec_bits(field)),
            after@ == before@.update(field, stored_raw(raw, before.layout().spec_bits(field))),
        ensures
            after@[field] == raw,
    {
        lemma_small_mod(
            raw as nat,
            pow2(before.layout().spec_bits(field)),
        );
    }

    /// The name of a variant that was put in an enumerated field is read
    /// back as the name of a variant with the same discriminant, the first
    /// such: `after` is what `set` leaves of `before`, and `got` is what
    /// `get` then gives.
    pub proof fn lemma_round_trip_name(
        before: Self,
        after: Self,
        field: int,
        name: &str,
        got: Result<Value<'a>, DecodeError>,
    )
        requires
            before.wf(),
            0 <= field < before.layout().fields().len(),
            before.accepts(field, Value::Name(name)),
            after.layout() == before.layout(),
            after@ == before@.update(field, before.spec_encoded(field, Value::Name(name))),
            after.spec_decoded(field, after@[field] as u64, got),
        ensures
            ({
                &&& before.layout().fields()[field].kind matches FieldKind::Enum(spec)
                &&& spec.spec_encode(name@) matches Some(put)
                &&& spec.spec_decode(spec.variants()[put].discriminant) matches Some(first)
                &&& first <= put
                &&& spec.variants()[first].discriminant == spec.variants()[put].discriminant
                &&& got matches Ok(Value::Name(read))
                &&& read@ == spec.variants()[first].name@
            }),
    {
        match before.layout().fields()[field].kind {
            FieldKind::Enum(spec) => {
                let put = spec.spec_encode(name@).unwrap();
                lemma_first_is_least(
                    |i: int| spec.variants()[i].name@ == name@,
                    0,
                    spec.variants().len() as int,
                );
                spec.lemma_declared_decodes(put);
            },
            FieldKind::Plain(_) => {},
        }
    }

    /// Writing one field changes no other: `after` is what `set_raw` or
    /// `set` leaves of `before`, and every other field holds in it what it
    /// held, and decodes to what it decoded to.
    pub proof fn lemma_non_interference(
        before: Self,
        after: Self,
        field: int,
        stored: nat,
        other: int,
        got: Result<Value<'a>, DecodeError>,
    )
        requires
            before.wf(),
            0 <= field < before.layout().fields().len(),
            0 <= other < before.layout().fields().len(),
            other != field,
            after.layout() == before.layout(),
            after@ == before@.update(field, stored),
        ensures
            after@[other] == before@[other],
            after.spec_decoded(other, after@[other] as u64, got) == before.spec_decoded(
                other,
                before@[other] as u64,
                got,
            ),
    {
    }

    /// A field holds a number below two to the power of its width.
    pub proof fn lemma_value_fits(&self, field: int)
        requires
            self.wf(),
            0 <= field < self.layout().fields().len(),
        ensures
            self@[field] < pow2(self.layout().spec_bits(field)),
            self@[field] <= u64::MAX,
    {
        let bits = self.layout().spec_bits(field);
        self.layout().fields()[field].kind.lemma_width_bound();
        lemma_bits_value_bound(
            self.bytes(),
            self.layout().spec_offset(field) as int,
            self.layout().spec_end(field) as int,
        );
        lemma2_to64_rest();
        if bits < 64 {
            lemma_pow2_strictly_increases(bits, 64);
        }
    }

    /// An enumerated field that declares no discriminant twice is never
    /// refused: whatever its bits are, `get` names a variant.
    pub proof fn lemma_distinct_never_refused(
        &self,
        field: int,
        got: Result<Value<'a>, DecodeError>,
    )
        requires
            self.wf(),
            0 <= field < self.layout().fields().len(),
            self.layout().fields()[field].kind matches FieldKind::Enum(spec)
                && discriminants_distinct(spec.variants()),
            self.spec_decoded(field, self@[field] as u64, got),
        ensures
            got is Ok,
    {
        self.lemma_value_fits(field);
        match self.layout().fields()[field].kind {
            FieldKind::Enum(spec) => {
                spec.lemma_distinct_decode_all(self@[field] as u64);
            },
            FieldKind::Plain(_) => {},
        }
    }

    /// The fields' values say all there is to say: instances of one
    /// schema whose fields hold the same values have the same bytes.
    pub proof fn lemma_values_determine_bytes(one: Self, other: Self)
        requires
            one.wf(),
            other.wf(),
            one.layout() == other.layout(),
            one@ == other@,
        ensures
            one.bytes() == other.bytes(),
    {
        let layout = one.layout();
        let fields = layout.fields();
        assert forall|i: int| 0 <= i < 8 * one.bytes().len() implies #[trigger] bit_at(
            one.bytes(),
            i,
        ) == bit_at(other.bytes(), i) by {
            let field = lemma_field_of_bit(fields, i);
            assert(one.spec_raw(field) == one@[field]);
            assert(other.spec_raw(field) == other@[field]);
            lemma_value_determines_bits(
                one.bytes(),
                other.bytes(),
                layout.spec_offset(field) as int,
                layout.spec_end(field) as int,
            );
        }
        lemma_bits_determine_bytes(one.bytes(), other.bytes());
    }

    /// With every byte zero, every field holds zero.
    pub proof fn lemma_zero_init(&self, field: int)
        requires
            self.wf(),
            0 <= field < self.layout().fields().len(),
            forall|i: int| 0 <= i < self.bytes().len() ==> self.bytes()[i] == 0,
        ensures
            self@[field] == 0,
    {
        let layout = self.layout();
        lemma_offsets_ordered(layout.fields(), field, layout.fields().len() as int);
        lemma_zero_bits_value(
            self.bytes(),
            layout.spec_offset(field) as int,
            layout.spec_end(field) as int,
        );
    }

    /// A new instance of the schema, with every bit zero.
    pub fn new(layout: &'a FieldLayout) -> (instance: SchemaInstance<'a>)
        requires
            layout.wf(),
        ensures
            instance.wf(),
            instance.layout() == *layout,
            forall|i: int| 0 <= i < instance.bytes().len() ==> instance.bytes()[i] == 0,
            forall|field: int| 0 <= field < layout.fields().len() ==> instance@[field] == 0,
    {
        let buffer = BitBuffer::new(layout.total_bytes());
        let instance = SchemaInstance { buffer, layout };
        proof {
            assert forall|field: int| 0 <= field < layout.fields().len() implies instance@[field]
                == 0 by {
                instance.lemma_zero_init(field);
            }
        }
        instance
    }

    /// The schema.
    pub fn schema(&self) -> (layout: &'a FieldLayout)
        ensures
            *layout == self.layout(),
    {
        self.layout
    }

    /// The bytes, first byte first.
    pub fn as_bytes(&self) -> (bytes: &[u8])
        ensures
            bytes@ == self.bytes(),
    {
        self.buffer.as_slice()
    }

    /// The bits of field `field`, as a number.
    pub fn get_raw(&self, field: usize) -> (raw: u64)
        requires
            self.wf(),
            field < self.layout().fields().len(),
        ensures
            raw == self@[field as int],
    {
        let offset = self.layout.offset(field);
        let bits = self.layout.bits(field);
        extract_bit_range(offset, offset + bits, self.buffer.as_slice())
    }

    /// Puts the low bits of `raw`, as many as the field is wide, in field
    /// `field`. No other field changes.
    pub fn set_raw(&mut self, field: usize, raw: u64)
        requires
            old(self).wf(),
            field < old(self).layout().fields().len(),
        ensures
            final(self).wf(),
            final(self).layout() == old(self).layout(),
            final(self)@ == old(self)@.update(
                field as int,
                stored_raw(raw, old(self).layout().spec_bits(field as int)),
            ),
            bits_replaced(
                old(self).bytes(),
                final(self).bytes(),
                old(self).layout().spec_offset(field as int) as int,
                old(self).layout().spec_end(field as int) as int,
                staged_word(raw, old(self).layout().spec_bits(field as int)),
            ),
    {
        let offset = self.layout.offset(field);
        let bits = self.layout.bits(field);
        if bits == 0 {
            proof {
                lemma2_to64();
                assert(self@ =~= old(self)@.update(field as int, stored_raw(raw, 0)));
            }
            return ;
        }
        let staged = raw << (64 - bits);
        set_bit_range(offset, offset + bits, staged, self.buffer.as_mut_slice());
        proof {
            let fields = self.layout().fields();
            let before = old(self).bytes();
            let after = self.bytes();
            lemma_replaced_range_value(
                before,
                after,
                offset as int,
                offset + bits,
                staged,
            );
            lemma_staged_value(raw, bits as nat);
            assert forall|other: int| 0 <= other < fields.len() && other != field implies self@[other]
                == old(self)@[other] by {
                if other < field {
                    self.layout().lemma_fields_apart(other, field as int);
                } else {
                    self.layout().lemma_fields_apart(field as int, other);
                }
                lemma_offsets_ordered(fields, other, fields.len() as int);
                lemma_other_range_kept(
                    before,
                    after,
                    offset as int,
                    offset + bits,
                    staged,
                    self.layout().spec_offset(other) as int,
                    self.layout().spec_end(other) as int,
                );
            }
            assert(self@ =~= old(self)@.update(field as int, stored_raw(raw, bits as nat)));
        }
    }

    /// Tells whether `set` takes `value` for field `field`: the field
    /// exists, and the value is a number or a name that the field
    /// declares.
    pub fn can_set(&self, field: usize, value: Value<'_>) -> (ok: bool)
        ensures
            ok == (field < self.layout().fields().len() && self.accepts(field as int, value)),
    {
        if field >= self.layout.len() {
            return false;
        }
        match value {
            Value::Raw(_) => true,
            Value::Name(name) => match self.layout.kind(field) {
                FieldKind::Enum(spec) => spec.encode(name).is_some(),
                FieldKind::Plain(_) => false,
            },
        }
    }

    /// What field `field` holds: its number where it is plain, the name
    /// that its number stands for where it is enumerated. Bits that stand
    /// for no variant are refused.
    pub fn get(&self, field: usize) -> (got: Result<Value<'a>, DecodeError>)
        requires
            self.wf(),
            field < self.layout().fields().len(),
        ensures
            self.spec_decoded(field as int, self@[field as int] as u64, got),
    {
        let raw = self.get_raw(field);
        match self.layout.kind(field) {
            FieldKind::Plain(_) => Ok(Value::Raw(raw)),
            FieldKind::Enum(spec) => match spec.decode(raw) {
                Ok(name) => Ok(Value::Name(name)),
                Err(e) => Err(e),
            },
        }
    }

    /// Puts `value` in field `field`: the low bits of a number, or the
    /// discriminant of the variant that is named. No other field changes.
    pub fn set(&mut self, field: usize, value: Value<'_>)
        requires
            old(self).wf(),
            field < old(self).layout().fields().len(),
            old(self).accepts(field as int, value),
        ensures
            final(self).wf(),
            final(self).layout() == old(self).layout(),
            final(self)@ == old(self)@.update(
                field as int,
                old(self).spec_encoded(field as int, value),
            ),
    {
        match value {
            Value::Raw(raw) => {
                self.set_raw(field, raw);
            },
            Value::Name(name) => {
                if let FieldKind::Enum(spec) = self.layout.kind(field) {
                    if let Some(raw) = spec.encode(name) {
                        proof {
                            lemma_first_is_least(
                                |i: int| spec.variants()[i].name@ == name@,
                                0,
                                spec.variants().len() as int,
                            );
                            lemma_small_mod(raw as nat, pow2(spec.spec_bits()));
                        }
                        self.set_raw(field, raw);
                    }
                }
            },
        }
    }
}

} // verus!
