//! The first position of a sequence that satisfies a predicate.
use vstd::prelude::*;

verus! {

/// The least index whose element satisfies `p`, if there is one.
pub open spec fn first_index<A>(s: Seq<A>, p: spec_fn(A) -> bool) -> Option<int> {
    if exists|i: int| 0 <= i < s.len() && #[trigger] p(s[i]) && (forall|j: int| 0 <= j < i ==> !p(s[j])) {
        Some(choose|i: int| 0 <= i < s.len() && #[trigger] p(s[i]) && (forall|j: int| 0 <= j < i ==> !p(s[j])))
    } else {
        None
    }
}

pub proof fn lemma_first_index_at<A>(s: Seq<A>, p: spec_fn(A) -> bool, i: int)
    requires
        0 <= i < s.len(),
        p(s[i]),
        forall|j: int| 0 <= j < i ==> !p(s[j]),
    ensures
        first_index(s, p) == Some(i),
{
    let k = choose|k: int| 0 <= k < s.len() && #[trigger] p(s[k]) && (forall|j: int| 0 <= j < k ==> !p(s[j]));
    if k < i {
        assert(!p(s[k]));
    } else if i < k {
        assert(!p(s[i]));
    }
}

pub proof fn lemma_first_index_none<A>(s: Seq<A>, p: spec_fn(A) -> bool)
    requires
        forall|j: int| 0 <= j < s.len() ==> !p(s[j]),
    ensures
        first_index(s, p) is None,
{
}

pub proof fn lemma_first_index_some<A>(s: Seq<A>, p: spec_fn(A) -> bool)
    requires
        first_index(s, p) is Some,
    ensures
        0 <= first_index(s, p)->0 < s.len(),
        p(s[first_index(s, p)->0]),
        forall|j: int| 0 <= j < first_index(s, p)->0 ==> !p(s[j]),
{
}

} // verus!
