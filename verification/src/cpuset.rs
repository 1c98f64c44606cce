//! Sets of logical processors, as the list of their identifiers.

use vstd::prelude::*;

verus! {

/// `m` occurs in `ids` and no identifier in `ids` is smaller.
pub open spec fn is_least(ids: Seq<u32>, m: u32) -> bool {
    ids.contains(m) && forall|i: int| 0 <= i < ids.len() ==> m <= ids[i]
}

/// The set that keeps only the first logical processor of `ids`, the one
/// with the smallest identifier. Of an empty set nothing can be kept.
pub open spec fn singlified(ids: Seq<u32>) -> Seq<u32> {
    if ids.len() == 0 {
        Seq::empty()
    } else {
        seq![choose|m: u32| is_least(ids, m)]
    }
}

/// A set has one least identifier at most.
pub proof fn lemma_least_is_unique(ids: Seq<u32>, a: u32, b: u32)
    requires
        is_least(ids, a),
        is_least(ids, b),
    ensures
        a == b,
{
    let i = choose|i: int| 0 <= i < ids.len() && ids[i] == a;
    let j = choose|j: int| 0 <= j < ids.len() && ids[j] == b;
    assert(b <= ids[i]);
    assert(a <= ids[j]);
}

/// What `singlified` keeps of a set that is not empty is its least identifier.
pub proof fn lemma_singlified(ids: Seq<u32>, m: u32)
    requires
        is_least(ids, m),
    ensures
        singlified(ids) == seq![m],
{
    assert(ids.len() > 0);
    lemma_least_is_unique(ids, m, choose|c: u32| is_least(ids, c));
}

/// Reduces a cpuset to one logical processor, so that a thread bound to the
/// result cannot move between the hardware threads of a core.
pub fn singlify(ids: &Vec<u32>) -> (kept: Vec<u32>)
    ensures
        kept@ == singlified(ids@),
        ids@.len() == 0 ==> kept@.len() == 0,
        ids@.len() > 0 ==> kept@.len() == 1 && is_least(ids@, kept@[0]),
{
    let mut kept: Vec<u32> = Vec::new();
    if ids.len() == 0 {
        return kept;
    }
    let mut least: u32 = ids[0];
    let mut i: usize = 1;
    while i < ids.len()
        invariant
            1 <= i <= ids@.len(),
            exists|k: int| 0 <= k < i && ids@[k] == least,
            forall|k: int| 0 <= k < i ==> least <= ids@[k],
        decreases ids@.len() - i,
    {
        if ids[i] < least {
            least = ids[i];
        }
        i += 1;
    }
    kept.push(least);
    proof {
        lemma_singlified(ids@, least);
        assert(kept@ =~= seq![least]);
    }
    kept
}

} // verus!
