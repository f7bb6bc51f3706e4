//! Schemas: the ordered fields of a packed structure, and where each one
//! starts.
use crate::enum_spec::EnumSpec;
use crate::error::SchemaError;
use crate::search::{first_from, lemma_first_found, lemma_first_none};
use crate::specifier::Specifier;
use crate::text::same_text;
use crate::width::WidthSpec;
use vstd::prelude::*;

verus! {

/// What a field holds: a plain number of some width, or one of a closed
/// set of named values.
#[derive(Debug, Clone, PartialEq, Eq)]
pub enum FieldKind {
    Plain(WidthSpec),
    Enum(EnumSpec),
}

impl Specifier for FieldKind {
    open spec fn wf(&self) -> bool {
        match self {
            FieldKind::Plain(width) => width.wf(),
            FieldKind::Enum(spec) => spec.wf(),
        }
    }

    open spec fn spec_bits(&self) -> nat {
        match self {
            FieldKind::Plain(width) => width.spec_bits(),
            FieldKind::Enum(spec) => spec.spec_bits(),
        }
    }

    proof fn lemma_width_bound(&self) {
        match self {
            FieldKind::Plain(width) => width.lemma_width_bound(),
            FieldKind::Enum(spec) => spec.lemma_width_bound(),
        }
    }

    fn bits(&self) -> (bits: usize) {
        match self {
            FieldKind::Plain(width) => width.bits(),
            FieldKind::Enum(spec) => spec.bits(),
        }
    }
}

/// A field as it is declared: its name and what it holds.
#[derive(Debug, Clone, PartialEq, Eq)]
pub struct FieldSpec {
    pub name: String,
    pub kind: FieldKind,
}

impl FieldSpec {
    /// A field called `name` that holds a number of the given width.
    pub fn plain(name: &str, width: WidthSpec) -> (field: FieldSpec)
        ensures
            field.name@ == name@,
            field.kind == FieldKind::Plain(width),
    {
        FieldSpec { name: name.to_owned(), kind: FieldKind::Plain(width) }
    }

    /// A field called `name` that holds one of the variants of `spec`.
    pub fn enumerated(name: &str, spec: EnumSpec) -> (field: FieldSpec)
        ensures
            field.name@ == name@,
            field.kind == FieldKind::Enum(spec),
    {
        FieldSpec { name: name.to_owned(), kind: FieldKind::Enum(spec) }
    }
}

/// The bit at which field `index` starts: the widths of the fields before
/// it, added up.
pub open spec fn offset_of(fields: Seq<FieldSpec>, index: int) -> nat
    decreases index,
{
    if index <= 0 {
        0
    } else {
        offset_of(fields, index - 1) + fields[index - 1].kind.spec_bits()
    }
}

/// The widths of all fields, added up.
pub open spec fn total_bits_of(fields: Seq<FieldSpec>) -> nat {
    offset_of(fields, fields.len() as int)
}

/// No two fields have the same name.
pub open spec fn names_distinct(fields: Seq<FieldSpec>) -> bool {
    forall|i: int, j: int|
        0 <= i < j < fields.len() ==> (#[trigger] fields[i]).name@ != (#[trigger] fields[j]).name@
}

/// Field `index` has the name of a field before it.
pub open spec fn repeats_a_name(fields: Seq<FieldSpec>, index: int) -> bool {
    exists|i: int| 0 <= i < index && (#[trigger] fields[i]).name@ == fields[index].name@
}

/// The first field that has the name of a field before it.
pub open spec fn first_duplicate(fields: Seq<FieldSpec>) -> Option<int> {
    first_from(|j: int| repeats_a_name(fields, j), 0, fields.len() as int)
}

/// The first field of the given name.
pub open spec fn first_named(fields: Seq<FieldSpec>, name: Seq<char>) -> Option<int> {
    first_from(|j: int| fields[j].name@ == name, 0, fields.len() as int)
}

/// The fields that a schema may have: each well formed, no name twice,
/// and a whole number of bytes in all.
pub open spec fn valid_schema(fields: Seq<FieldSpec>) -> bool {
    &&& forall|i: int| 0 <= i < fields.len() ==> (#[trigger] fields[i]).kind.wf()
    &&& names_distinct(fields)
    &&& total_bits_of(fields) % 8 == 0
}

/// Offsets grow with the index, by at least the widths in between.
pub proof fn lemma_offsets_ordered(fields: Seq<FieldSpec>, i: int, j: int)
    requires
        0 <= i < j <= fields.len(),
    ensures
        offset_of(fields, i) + fields[i].kind.spec_bits() <= offset_of(fields, j),
    decreases j - i,
{
    if i + 1 < j {
        lemma_offsets_ordered(fields, i, j - 1);
    }
}

/// Every bit of the structure lies in a field: the result is the index of
/// a field that holds bit `bit`.
pub proof fn lemma_field_of_bit(fields: Seq<FieldSpec>, bit: int) -> (index: int)
    requires
        0 <= bit < total_bits_of(fields),
    ensures
        0 <= index < fields.len(),
        offset_of(fields, index) <= bit < offset_of(fields, index) + fields[index].kind.spec_bits(),
{
    lemma_field_before(fields, bit, fields.len() as int)
}

/// A bit before the end of the first `count` fields lies in one of them.
proof fn lemma_field_before(fields: Seq<FieldSpec>, bit: int, count: int) -> (index: int)
    requires
        0 <= count <= fields.len(),
        0 <= bit < offset_of(fields, count),
    ensures
        0 <= index < count,
        offset_of(fields, index) <= bit < offset_of(fields, index) + fields[index].kind.spec_bits(),
    decreases count,
{
    if bit >= offset_of(fields, count - 1) {
        count - 1
    } else {
        lemma_field_before(fields, bit, count - 1)
    }
}

/// A schema that was checked: the fields in their order, each with the bit
/// at which it starts, and the size of the whole.
#[derive(Debug, Clone, PartialEq, Eq)]
pub struct FieldLayout {
    fields: Vec<FieldSpec>,
    offsets: Vec<usize>,
    total_bits: usize,
}

impl FieldLayout {
    /// The fields, in the order of their declaration.
    pub closed spec fn fields(&self) -> Seq<FieldSpec> {
        self.fields@
    }

    /// The offsets and the size that are kept are those of the fields.
    pub closed spec fn sums_kept(&self) -> bool {
        &&& self.offsets@.len() == self.fields@.len()
        &&& forall|i: int|
            0 <= i < self.fields@.len() ==> (#[trigger] self.offsets@[i]) == offset_of(
                self.fields@,
                i,
            )
        &&& self.total_bits == total_bits_of(self.fields@)
    }

    /// The layout is one that `new` could have made.
    pub open spec fn wf(&self) -> bool {
        &&& valid_schema(self.fields())
        &&& self.sums_kept()
    }

    /// The width of field `index` in bits.
    pub open spec fn spec_bits(&self, index: int) -> nat {
        self.fields()[index].kind.spec_bits()
    }

    /// The bit at which field `index` starts.
    pub open spec fn spec_offset(&self, index: int) -> nat {
        offset_of(self.fields(), index)
    }

    /// The bit just after field `index`.
    pub open spec fn spec_end(&self, index: int) -> nat {
        self.spec_offset(index) + self.spec_bits(index)
    }

    /// The size of the structure in bits.
    pub open spec fn spec_total_bits(&self) -> nat {
        total_bits_of(self.fields())
    }

    /// The size of the structure in bytes.
    pub open spec fn spec_total_bytes(&self) -> nat {
        self.spec_total_bits() / 8
    }

    /// Lays the fields out one after the other, with no padding. A field
    /// with the name of an earlier one is refused, and so is a total width
    /// that is no whole number of bytes.
    pub fn new(fields: Vec<FieldSpec>) -> (made: Result<FieldLayout, SchemaError>)
        requires
            forall|i: int| 0 <= i < fields@.len() ==> (#[trigger] fields@[i]).kind.wf(),
            64 * fields@.len() <= usize::MAX,
        ensures
            made is Ok <==> valid_schema(fields@),
            match made {
                Ok(layout) => layout.wf() && layout.fields() == fields@,
                Err(SchemaError::DuplicateFieldName { field }) => first_duplicate(fields@)
                    == Some(field as int),
                Err(SchemaError::TotalBitsNotMultipleOfEight { total_bits }) => names_distinct(
                    fields@,
                ) && total_bits == total_bits_of(fields@) && total_bits % 8 != 0,
                Err(_) => false,
            },
    {
        let count = fields.len();
        let mut offsets: Vec<usize> = Vec::new();
        let mut total_bits: usize = 0;
        let mut index: usize = 0;
        while index < count
            invariant
                index <= count,
                count == fields@.len(),
                64 * fields@.len() <= usize::MAX,
                forall|i: int| 0 <= i < fields@.len() ==> (#[trigger] fields@[i]).kind.wf(),
                offsets@.len() == index,
                forall|i: int| 0 <= i < index ==> (#[trigger] offsets@[i]) == offset_of(fields@, i),
                total_bits == offset_of(fields@, index as int),
                total_bits <= 64 * index,
                forall|j: int| 0 <= j < index ==> !repeats_a_name(fields@, j),
            decreases count - index,
        {
            let mut earlier: usize = 0;
            while earlier < index
                invariant
                    earlier <= index < count,
                    count == fields@.len(),
                    forall|j: int| 0 <= j < index ==> !repeats_a_name(fields@, j),
                    forall|i: int|
                        0 <= i < earlier ==> (#[trigger] fields@[i]).name@ != fields@[index as int].name@,
                decreases index - earlier,
            {
                if fields[earlier].name == fields[index].name {
                    proof {
                        assert(repeats_a_name(fields@, index as int));
                        lemma_first_found(
                            |j: int| repeats_a_name(fields@, j),
                            0,
                            index as int,
                            count as int,
                        );
                    }
                    return Err(SchemaError::DuplicateFieldName { field: index });
                }
                earlier += 1;
            }
            let bits = fields[index].kind.bits();
            offsets.push(total_bits);
            total_bits = total_bits + bits;
            index += 1;
        }
        proof {
            assert forall|i: int, j: int| 0 <= i < j < fields@.len() implies (
            #[trigger] fields@[i]).name@ != (#[trigger] fields@[j]).name@ by {
                assert(!repeats_a_name(fields@, j));
            }
        }
        if total_bits % 8 != 0 {
            return Err(SchemaError::TotalBitsNotMultipleOfEight { total_bits });
        }
        Ok(FieldLayout { fields, offsets, total_bits })
    }

    /// The size in bytes is an eighth of the size in bits, with nothing
    /// left over.
    pub proof fn lemma_size_invariant(&self)
        requires
            self.wf(),
        ensures
            self.spec_total_bits() % 8 == 0,
            self.spec_total_bytes() == self.spec_total_bits() / 8,
            8 * self.spec_total_bytes() == self.spec_total_bits(),
    {
    }

    /// No two fields share a bit: of two fields, the earlier one ends
    /// where the later one starts, or before; and every field ends within
    /// the structure.
    pub proof fn lemma_fields_apart(&self, earlier: int, later: int)
        requires
            0 <= earlier < later < self.fields().len(),
        ensures
            self.spec_end(earlier) <= self.spec_offset(later),
            self.spec_end(later) <= self.spec_total_bits(),
    {
        lemma_offsets_ordered(self.fields(), earlier, later);
        lemma_offsets_ordered(self.fields(), later, self.fields().len() as int);
    }

    /// The number of fields.
    pub fn len(&self) -> (count: usize)
        ensures
            count == self.fields().len(),
    {
        self.fields.len()
    }

    /// The name of field `index`.
    pub fn name(&self, index: usize) -> (name: &str)
        requires
            index < self.fields().len(),
        ensures
            name@ == self.fields()[index as int].name@,
    {
        self.fields[index].name.as_str()
    }

    /// What field `index` holds.
    pub fn kind(&self, index: usize) -> (kind: &FieldKind)
        requires
            index < self.fields().len(),
        ensures
            *kind == self.fields()[index as int].kind,
    {
        &self.fields[index].kind
    }

    /// The width of field `index` in bits.
    pub fn bits(&self, index: usize) -> (bits: usize)
        requires
            self.wf(),
            index < self.fields().len(),
        ensures
            bits == self.spec_bits(index as int),
            bits <= 64,
    {
        self.fields[index].kind.bits()
    }

    /// The bit at which field `index` starts.
    pub fn offset(&self, index: usize) -> (offset: usize)
        requires
            self.wf(),
            index < self.fields().len(),
        ensures
            offset == self.spec_offset(index as int),
            self.spec_end(index as int) <= self.spec_total_bits() <= usize::MAX,
    {
        proof {
            lemma_offsets_ordered(self.fields(), index as int, self.fields().len() as int);
        }
        self.offsets[index]
    }

    /// The size of the structure in bits: always a multiple of 8.
    pub fn total_bits(&self) -> (bits: usize)
        requires
            self.wf(),
        ensures
            bits == self.spec_total_bits(),
            bits % 8 == 0,
    {
        self.total_bits
    }

    /// The size of the structure in bytes: an eighth of its size in bits.
    pub fn total_bytes(&self) -> (bytes: usize)
        requires
            self.wf(),
        ensures
            bytes == self.spec_total_bytes(),
            8 * bytes == self.spec_total_bits(),
    {
        self.total_bits / 8
    }

    /// The index of the field called `name`, if there is one.
    pub fn index_of(&self, name: &str) -> (found: Option<usize>)
        ensures
            match first_named(self.fields(), name@) {
                Some(at) => found == Some(at as usize) && at < self.fields().len(),
                None => found is None,
            },
    {
        let mut i: usize = 0;
        while i < self.fields.len()
            invariant
                i <= self.fields@.len(),
                forall|j: int| 0 <= j < i ==> (#[trigger] self.fields@[j]).name@ != name@,
            decreases self.fields@.len() - i,
        {
            if same_text(self.fields[i].name.as_str(), name) {
                proof {
                    lemma_first_found(
                        |j: int| self.fields()[j].name@ == name@,
                        0,
                        i as int,
                        self.fields@.len() as int,
                    );
                }
                return Some(i);
            }
            i += 1;
        }
        proof {
            lemma_first_none(|j: int| self.fields()[j].name@ == name@, 0, self.fields@.len() as int);
        }
        None
    }
}

} // verus!
