//! The first index at which something holds.
use vstd::prelude::*;

verus! {

/// The first index in `[from, len)` at which `holds` is true, if there is
/// one.
pub open spec fn first_from(holds: spec_fn(int) -> bool, from: int, len: int) -> Option<int>
    decreases len - from,
{
    if from >= len {
        None
    } else if holds(from) {
        Some(from)
    } else {
        first_from(holds, from + 1, len)
    }
}

/// An index at which `holds` is true, after none in `[from, at)`, is the
/// first.
pub proof fn lemma_first_found(holds: spec_fn(int) -> bool, from: int, at: int, len: int)
    requires
        from <= at < len,
        holds(at),
        forall|j: int| from <= j < at ==> !#[trigger] holds(j),
    ensures
        first_from(holds, from, len) == Some(at),
    decreases at - from,
{
    if from < at {
        lemma_first_found(holds, from + 1, at, len);
    }
}

/// Where `holds` is true nowhere in `[from, len)`, there is no first index.
pub proof fn lemma_first_none(holds: spec_fn(int) -> bool, from: int, len: int)
    requires
        forall|j: int| from <= j < len ==> !#[trigger] holds(j),
    ensures
        first_from(holds, from, len) is None,
    decreases len - from,
{
    if from < len {
        lemma_first_none(holds, from + 1, len);
    }
}

/// What the first index is: in range, with `holds` true at it and at none
/// before it; and where there is none, `holds` is true nowhere.
pub proof fn lemma_first_is_least(holds: spec_fn(int) -> bool, from: int, len: int)
    ensures
        match first_from(holds, from, len) {
            Some(at) => from <= at < len && holds(at) && forall|j: int|
                from <= j < at ==> !#[trigger] holds(j),
            None => forall|j: int| from <= j < len ==> !#[trigger] holds(j),
        },
    decreases len - from,
{
    if from < len {
        lemma_first_is_least(holds, from + 1, len);
    }
}

} // verus!
