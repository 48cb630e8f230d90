//! "First entry that matches" over sequences, the lookup rule used for content ids.

use vstd::prelude::*;

verus! {

/// Position of the first element of `s` satisfying `p`, if any.
pub open spec fn find_first<T>(s: Seq<T>, p: spec_fn(T) -> bool) -> Option<int> {
    if exists|i: int| 0 <= i < s.len() && #[trigger] p(s[i]) {
        Some(choose|i: int| 0 <= i < s.len() && #[trigger] p(s[i]) && forall|j: int| 0 <= j < i ==> !#[trigger] p(s[j]))
    } else {
        None
    }
}

/// A satisfying position with no satisfying position before it is the first one.
pub proof fn lemma_first_is<T>(s: Seq<T>, p: spec_fn(T) -> bool, i: int)
    requires
        0 <= i < s.len(),
        p(s[i]),
        forall|j: int| 0 <= j < i ==> !#[trigger] p(s[j]),
    ensures
        find_first(s, p) == Some(i),
{
    let c = choose|c: int| 0 <= c < s.len() && #[trigger] p(s[c]) && forall|j: int| 0 <= j < c ==> !#[trigger] p(s[j]);
    if c < i {
        assert(!p(s[c]));
    }
    if i < c {
        assert(!p(s[i]));
    }
}

/// With no satisfying position there is no first one.
pub proof fn lemma_first_none<T>(s: Seq<T>, p: spec_fn(T) -> bool)
    requires
        forall|j: int| 0 <= j < s.len() ==> !#[trigger] p(s[j]),
    ensures
        find_first(s, p) is None,
{
}

/// The first position, when there is one, satisfies `p` and has no satisfying position before it.
pub proof fn lemma_first_facts<T>(s: Seq<T>, p: spec_fn(T) -> bool)
    ensures
        find_first(s, p) matches Some(i) ==> 0 <= i < s.len() && p(s[i]) && forall|j: int| 0 <= j < i ==> !#[trigger] p(s[j]),
        find_first(s, p) is None ==> forall|j: int| 0 <= j < s.len() ==> !#[trigger] p(s[j]),
{
    if exists|i: int| 0 <= i < s.len() && #[trigger] p(s[i]) {
        let w = choose|i: int| 0 <= i < s.len() && #[trigger] p(s[i]);
        lemma_least_exists(s, p, w);
    }
}

proof fn lemma_least_exists<T>(s: Seq<T>, p: spec_fn(T) -> bool, w: int)
    requires
        0 <= w < s.len(),
        p(s[w]),
    ensures
        exists|c: int| 0 <= c < s.len() && #[trigger] p(s[c]) && forall|j: int| 0 <= j < c ==> !#[trigger] p(s[j]),
    decreases w,
{
    if exists|j: int| 0 <= j < w && #[trigger] p(s[j]) {
        let v = choose|j: int| 0 <= j < w && #[trigger] p(s[j]);
        lemma_least_exists(s, p, v);
    } else {
        assert(forall|j: int| 0 <= j < w ==> !#[trigger] p(s[j]));
    }
}

} // verus!
