//! Finding the first position at which something is the matter.

use vstd::prelude::*;

verus! {

/// The first position between `from` and `to` at which `bad` holds; `to`
/// if there is none.
pub open spec fn spec_first_index(bad: spec_fn(int) -> bool, from: int, to: int) -> int
    decreases to - from,
{
    if from >= to {
        to
    } else if bad(from) {
        from
    } else {
        spec_first_index(bad, from + 1, to)
    }
}

/// The first bad position lies in range, is bad, and has no bad position
/// before it.
pub proof fn lemma_first_index(bad: spec_fn(int) -> bool, from: int, to: int)
    requires
        from <= to,
    ensures
        from <= spec_first_index(bad, from, to) <= to,
        spec_first_index(bad, from, to) < to ==> bad(spec_first_index(bad, from, to)),
        forall|k: int| from <= k < spec_first_index(bad, from, to) ==> !#[trigger] bad(k),
    decreases to - from,
{
    if from < to && !bad(from) {
        lemma_first_index(bad, from + 1, to);
    }
}

/// Two predicates that agree everywhere have the same first bad position.
pub proof fn lemma_first_index_agrees(
    bad1: spec_fn(int) -> bool,
    bad2: spec_fn(int) -> bool,
    from: int,
    to: int,
)
    requires
        forall|k: int| #[trigger] bad1(k) == bad2(k),
    ensures
        spec_first_index(bad1, from, to) == spec_first_index(bad2, from, to),
    decreases to - from,
{
    if from < to {
        lemma_first_index_agrees(bad1, bad2, from + 1, to);
    }
}

} // verus!
