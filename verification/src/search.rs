//! The first element of a sequence that has a property.

use vstd::prelude::*;

verus! {

/// `i` is the first position of `s` whose element satisfies `p`.
pub open spec fn is_first<T>(s: Seq<T>, p: spec_fn(T) -> bool, i: int) -> bool {
    &&& 0 <= i < s.len()
    &&& p(s[i])
    &&& forall|j: int| 0 <= j < i ==> !p(#[trigger] s[j])
}

/// The first position of `s` whose element satisfies `p`, if any does.
pub open spec fn first_index<T>(s: Seq<T>, p: spec_fn(T) -> bool) -> Option<int> {
    if exists|i: int| is_first(s, p, i) {
        Some(choose|i: int| is_first(s, p, i))
    } else {
        None
    }
}

/// A first position is the only one.
pub proof fn lemma_first_index_found<T>(s: Seq<T>, p: spec_fn(T) -> bool, i: int)
    requires
        is_first(s, p, i),
    ensures
        first_index(s, p) == Some(i),
{
    let chosen = choose|k: int| is_first(s, p, k);
    assert(is_first(s, p, chosen));
    if chosen < i {
        assert(!p(s[chosen]));
    } else if i < chosen {
        assert(!p(s[i]));
    }
}

/// Where no element satisfies `p` there is no first position.
pub proof fn lemma_first_index_none<T>(s: Seq<T>, p: spec_fn(T) -> bool)
    requires
        forall|j: int| 0 <= j < s.len() ==> !p(#[trigger] s[j]),
    ensures
        first_index(s, p) is None,
{
}

/// What `first_index` answers lies in the sequence, satisfies `p`, and
/// nothing before it does; where it answers nothing, no element satisfies `p`.
pub proof fn lemma_first_index<T>(s: Seq<T>, p: spec_fn(T) -> bool)
    ensures
        match first_index(s, p) {
            Some(i) => is_first(s, p, i),
            None => forall|j: int| 0 <= j < s.len() ==> !p(#[trigger] s[j]),
        },
    decreases s.len(),
{
    if first_index(s, p) is None {
        assert forall|j: int| 0 <= j < s.len() implies !p(#[trigger] s[j]) by {
            if p(s[j]) {
                lemma_some_first(s, p, j);
            }
        }
    }
}

/// An element that satisfies `p` has a first one at or before it.
pub proof fn lemma_some_first<T>(s: Seq<T>, p: spec_fn(T) -> bool, j: int)
    requires
        0 <= j < s.len(),
        p(s[j]),
    ensures
        exists|i: int| is_first(s, p, i) && i <= j,
    decreases j,
{
    if exists|k: int| 0 <= k < j && p(s[k]) {
        let k = choose|k: int| 0 <= k < j && p(s[k]);
        lemma_some_first(s, p, k);
    } else {
        assert(is_first(s, p, j));
    }
}

/// One element put in front that does not satisfy `p` moves the first
/// position by one.
pub proof fn lemma_first_index_shifted<T>(s: Seq<T>, t: Seq<T>, p: spec_fn(T) -> bool)
    requires
        t.len() == s.len() + 1,
        t.subrange(1, t.len() as int) =~= s,
        !p(t[0]),
    ensures
        first_index(t, p) == match first_index(s, p) {
            Some(i) => Some(i + 1),
            None => None,
        },
{
    assert forall|j: int| 0 <= j < s.len() implies s[j] == t[j + 1] by {
        assert(t.subrange(1, t.len() as int)[j] == t[j + 1]);
    }
    lemma_first_index(s, p);
    match first_index(s, p) {
        Some(i) => {
            assert forall|j: int| 0 <= j < i + 1 implies !p(#[trigger] t[j]) by {
                if j > 0 {
                    assert(!p(s[j - 1]));
                }
            }
            assert(is_first(t, p, i + 1));
            lemma_first_index_found(t, p, i + 1);
        },
        None => {
            assert forall|j: int| 0 <= j < t.len() implies !p(#[trigger] t[j]) by {
                if j > 0 {
                    assert(!p(s[j - 1]));
                }
            }
            lemma_first_index_none(t, p);
        },
    }
}

} // verus!
