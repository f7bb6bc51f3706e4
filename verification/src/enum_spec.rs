//! Enumerated fields: a closed set of named values, each with a small
//! integer that stands for it in the buffer.
use crate::error::{DecodeError, SchemaError};
use crate::search::{first_from, lemma_first_found, lemma_first_is_least, lemma_first_none};
use crate::specifier::Specifier;
use crate::text::same_text;
use vstd::arithmetic::power2::{
    lemma2_to64,
    lemma2_to64_rest,
    lemma_pow2_strictly_increases,
    lemma_pow2_unfold,
    pow2,
};
use vstd::prelude::*;
use vstd::set_lib::{lemma_int_range, lemma_set_subset_finite, lemma_subset_equality, set_int_range};

verus! {

/// One named value and the integer stored for it.
#[derive(Debug, Clone, PartialEq, Eq)]
pub struct Variant {
    pub name: String,
    pub discriminant: u64,
}

impl Variant {
    /// The variant called `name` that `discriminant` stands for.
    pub fn new(name: &str, discriminant: u64) -> (variant: Variant)
        ensures
            variant.name@ == name@,
            variant.discriminant == discriminant,
    {
        Variant { name: name.to_owned(), discriminant }
    }
}

/// `n` is 1, 2, 4, 8 and so on.
pub open spec fn is_power_of_two(n: nat) -> bool {
    exists|k: nat| n == #[trigger] pow2(k)
}

/// The `k` with `2^k == n`, for a power of two.
pub open spec fn log2_of(n: nat) -> nat
    recommends
        is_power_of_two(n),
{
    choose|k: nat| n == #[trigger] pow2(k)
}

/// The variants a definition may have: a power of two in number, each
/// discriminant within the width that this number gives.
pub open spec fn valid_variants(variants: Seq<Variant>) -> bool {
    &&& is_power_of_two(variants.len())
    &&& forall|i: int|
        0 <= i < variants.len() ==> (#[trigger] variants[i]).discriminant < pow2(
            log2_of(variants.len()),
        )
}

/// No discriminant is declared twice.
pub open spec fn discriminants_distinct(variants: Seq<Variant>) -> bool {
    forall|i: int, j: int|
        0 <= i < j < variants.len() ==> (#[trigger] variants[i]).discriminant != (
        #[trigger] variants[j]).discriminant
}

/// The first variant whose discriminant is `raw`.
pub open spec fn first_with_discriminant(variants: Seq<Variant>, raw: u64) -> Option<int> {
    first_from(|i: int| variants[i].discriminant == raw, 0, variants.len() as int)
}

/// The first variant whose name is `name`.
pub open spec fn first_with_name(variants: Seq<Variant>, name: Seq<char>) -> Option<int> {
    first_from(|i: int| variants[i].name@ == name, 0, variants.len() as int)
}

/// The first variant whose discriminant a field of `bits` bits cannot hold.
pub open spec fn first_out_of_range(variants: Seq<Variant>, bits: nat) -> Option<int> {
    first_from(|i: int| variants[i].discriminant >= pow2(bits), 0, variants.len() as int)
}

/// Two powers of two that are equal have the same exponent.
pub proof fn lemma_pow2_injective(a: nat, b: nat)
    requires
        pow2(a) == pow2(b),
    ensures
        a == b,
{
    if a < b {
        lemma_pow2_strictly_increases(a, b);
    } else if b < a {
        lemma_pow2_strictly_increases(b, a);
    }
}

/// The logarithm of `2^k` is `k`.
pub proof fn lemma_log2_of_pow2(k: nat)
    ensures
        is_power_of_two(pow2(k)),
        log2_of(pow2(k)) == k,
{
    lemma_pow2_injective(log2_of(pow2(k)), k);
}

/// A number strictly between two neighbouring powers of two is none.
proof fn lemma_between_powers(n: nat, k: nat)
    requires
        pow2(k) < n < pow2(k + 1),
    ensures
        !is_power_of_two(n),
{
    assert forall|j: nat| n != #[trigger] pow2(j) by {
        if j <= k {
            if j < k {
                lemma_pow2_strictly_increases(j, k);
            }
        } else {
            if j > k + 1 {
                lemma_pow2_strictly_increases(k + 1, j);
            }
        }
    }
}

/// The definition of an enumerated field.
#[derive(Debug, Clone, PartialEq, Eq)]
pub struct EnumSpec {
    variants: Vec<Variant>,
    bits: usize,
}

impl EnumSpec {
    /// The declared variants, in the order of their declaration.
    pub closed spec fn variants(&self) -> Seq<Variant> {
        self.variants@
    }

    /// The variant that `raw` decodes to: the first with that discriminant.
    pub open spec fn spec_decode(&self, raw: u64) -> Option<int> {
        first_with_discriminant(self.variants(), raw)
    }

    /// The variant that `name` stands for: the first of that name.
    pub open spec fn spec_encode(&self, name: Seq<char>) -> Option<int> {
        first_with_name(self.variants(), name)
    }

    /// Defines an enumerated field. The number of variants must be a power
    /// of two, which gives the field's width, and every discriminant must
    /// fit in that width.
    pub fn new(variants: Vec<Variant>) -> (made: Result<EnumSpec, SchemaError>)
        ensures
            made is Ok <==> valid_variants(variants@),
            match made {
                Ok(spec) => spec.wf() && spec.variants() == variants@,
                Err(SchemaError::VariantCountNotPowerOfTwo { count }) => count == variants.len()
                    && !is_power_of_two(variants.len() as nat),
                Err(SchemaError::DiscriminantOutOfRange { variant }) => is_power_of_two(
                    variants.len() as nat,
                ) && first_out_of_range(variants@, log2_of(variants.len() as nat)) == Some(
                    variant as int,
                ),
                Err(_) => false,
            },
    {
        let count = variants.len();
        let mut power: usize = 1;
        let mut bits: usize = 0;
        proof {
            lemma2_to64();
        }
        while power < count && power <= usize::MAX / 2
            invariant
                power == pow2(bits as nat),
                bits < 64,
                bits > 0 ==> pow2((bits - 1) as nat) < count,
                power >= 1,
            decreases usize::MAX - power,
        {
            proof {
                lemma_pow2_unfold((bits + 1) as nat);
                lemma2_to64_rest();
                if bits + 1 >= 64 {
                    if bits + 1 > 64 {
                        lemma_pow2_strictly_increases(64, (bits + 1) as nat);
                    }
                }
            }
            power = power * 2;
            bits = bits + 1;
        }
        if power != count {
            proof {
                if count == 0 {
                    assert forall|k: nat| 0 != #[trigger] pow2(k) by {
                        vstd::arithmetic::power2::lemma_pow2_pos(k);
                    }
                } else if power > count {
                    assert(bits > 0);
                    lemma_between_powers(count as nat, (bits - 1) as nat);
                } else {
                    lemma_pow2_unfold((bits + 1) as nat);
                    lemma_between_powers(count as nat, bits as nat);
                }
            }
            return Err(SchemaError::VariantCountNotPowerOfTwo { count });
        }
        proof {
            lemma_log2_of_pow2(bits as nat);
        }
        let limit: u64 = 1u64 << bits;
        proof {
            vstd::bits::lemma_u64_pow2_no_overflow(bits as nat);
            vstd::bits::lemma_u64_shl_is_mul(1, bits as u64);
        }
        let mut i: usize = 0;
        while i < count
            invariant
                i <= count,
                count == variants.len(),
                limit == pow2(bits as nat),
                is_power_of_two(count as nat),
                bits == log2_of(count as nat),
                forall|j: int| 0 <= j < i ==> (#[trigger] variants@[j]).discriminant < limit,
            decreases count - i,
        {
            if variants[i].discriminant >= limit {
                proof {
                    lemma_first_found(
                        |j: int| variants@[j].discriminant >= pow2(log2_of(variants@.len())),
                        0,
                        i as int,
                        count as int,
                    );
                }
                return Err(SchemaError::DiscriminantOutOfRange { variant: i });
            }
            i += 1;
        }
        Ok(EnumSpec { variants, bits })
    }

    /// A discriminant that was declared is never refused: it decodes to a
    /// variant that has it, the first such.
    pub proof fn lemma_declared_decodes(&self, at: int)
        requires
            0 <= at < self.variants().len(),
        ensures
            ({
                &&& self.spec_decode(self.variants()[at].discriminant) matches Some(first)
                &&& 0 <= first <= at
                &&& self.variants()[first].discriminant == self.variants()[at].discriminant
            }),
    {
        let raw = self.variants()[at].discriminant;
        let has_raw = |i: int| self.variants()[i].discriminant == raw;
        lemma_first_is_least(has_raw, 0, self.variants().len() as int);
        assert(has_raw(at));
    }

    /// With no discriminant declared twice, every value that the field
    /// can hold stands for a variant: nothing that is read from the field
    /// is ever refused.
    pub proof fn lemma_distinct_decode_all(&self, raw: u64)
        requires
            self.wf(),
            discriminants_distinct(self.variants()),
            raw < pow2(self.spec_bits()),
        ensures
            self.spec_decode(raw) is Some,
    {
        let variants = self.variants();
        let count = variants.len() as int;
        let declared = Seq::new(variants.len(), |i: int| variants[i].discriminant as int);
        let all = set_int_range(0, count);
        assert(declared.no_duplicates()) by {
            assert forall|i: int, j: int|
                0 <= i < declared.len() && 0 <= j < declared.len() && i != j implies declared[i]
                != declared[j] by {
                if i < j {
                    assert(variants[i].discriminant != variants[j].discriminant);
                } else {
                    assert(variants[j].discriminant != variants[i].discriminant);
                }
            }
        }
        declared.unique_seq_to_set();
        lemma_int_range(0, count);
        assert(declared.to_set().subset_of(all)) by {
            assert forall|d: int| declared.to_set().contains(d) implies all.contains(d) by {
                let i = choose|i: int| 0 <= i < declared.len() && declared[i] == d;
                assert(variants[i].discriminant < pow2(log2_of(variants.len())));
            }
        }
        lemma_set_subset_finite(all, declared.to_set());
        lemma_subset_equality(declared.to_set(), all);
        assert(all.contains(raw as int));
        assert(declared.contains(raw as int));
        let at = choose|i: int| 0 <= i < declared.len() && declared[i] == raw as int;
        let has_raw = |i: int| variants[i].discriminant == raw;
        lemma_first_is_least(has_raw, 0, count);
        assert(has_raw(at));
    }

    /// The number of variants.
    pub fn len(&self) -> (count: usize)
        ensures
            count == self.variants().len(),
    {
        self.variants.len()
    }

    /// The variant at `index`, in the order of declaration.
    pub fn variant(&self, index: usize) -> (variant: &Variant)
        requires
            index < self.variants().len(),
        ensures
            *variant == self.variants()[index as int],
    {
        &self.variants[index]
    }

    /// The name that `raw` stands for: that of the first variant whose
    /// discriminant is exactly `raw`. No variant may have it: then the
    /// bits are refused.
    pub fn decode(&self, raw: u64) -> (decoded: Result<&str, DecodeError>)
        ensures
            match self.spec_decode(raw) {
                Some(at) => decoded matches Ok(name) && name@ == self.variants()[at].name@,
                None => decoded == Err::<&str, DecodeError>(DecodeError { raw }),
            },
    {
        let mut i: usize = 0;
        while i < self.variants.len()
            invariant
                i <= self.variants@.len(),
                forall|j: int| 0 <= j < i ==> (#[trigger] self.variants@[j]).discriminant != raw,
            decreases self.variants@.len() - i,
        {
            if self.variants[i].discriminant == raw {
                proof {
                    lemma_first_found(
                        |j: int| self.variants()[j].discriminant == raw,
                        0,
                        i as int,
                        self.variants@.len() as int,
                    );
                }
                return Ok(self.variants[i].name.as_str());
            }
            i += 1;
        }
        proof {
            lemma_first_none(
                |j: int| self.variants()[j].discriminant == raw,
                0,
                self.variants@.len() as int,
            );
        }
        Err(DecodeError { raw })
    }

    /// The discriminant that stands for `name`: that of the first variant
    /// of this name. `None` where no variant has the name.
    pub fn encode(&self, name: &str) -> (encoded: Option<u64>)
        ensures
            encoded == match self.spec_encode(name@) {
                Some(at) => Some(self.variants()[at].discriminant),
                None => None,
            },
    {
        let mut i: usize = 0;
        while i < self.variants.len()
            invariant
                i <= self.variants@.len(),
                forall|j: int| 0 <= j < i ==> (#[trigger] self.variants@[j]).name@ != name@,
            decreases self.variants@.len() - i,
        {
            if same_text(self.variants[i].name.as_str(), name) {
                proof {
                    lemma_first_found(
                        |j: int| self.variants()[j].name@ == name@,
                        0,
                        i as int,
                        self.variants@.len() as int,
                    );
                }
                return Some(self.variants[i].discriminant);
            }
            i += 1;
        }
        proof {
            lemma_first_none(
                |j: int| self.variants()[j].name@ == name@,
                0,
                self.variants@.len() as int,
            );
        }
        None
    }
}

impl Specifier for EnumSpec {
    /// The variants are valid, and the width is the one they give: less
    /// than 64 bits, as the variants can be counted.
    open spec fn wf(&self) -> bool {
        &&& valid_variants(self.variants())
        &&& self.spec_bits() == log2_of(self.variants().len())
        &&& self.spec_bits() < 64
    }

    closed spec fn spec_bits(&self) -> nat {
        self.bits as nat
    }

    proof fn lemma_width_bound(&self) {
    }

    fn bits(&self) -> (bits: usize) {
        self.bits
    }
}

} // verus!
