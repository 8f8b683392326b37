//! Sequence search helpers: the first position satisfying a predicate.

use vstd::prelude::*;

verus! {

/// The first index of `s` whose element satisfies `p`, if any.
pub open spec fn first_index<T>(s: Seq<T>, p: spec_fn(T) -> bool) -> Option<int>
    decreases s.len(),
{
    if s.len() == 0 {
        None
    } else {
        match first_index(s.drop_last(), p) {
            Some(i) => Some(i),
            None => if p(s.last()) {
                Some(s.len() - 1)
            } else {
                None
            },
        }
    }
}

/// `first_index` is the least satisfying index, and nothing before it satisfies.
pub proof fn lemma_first_index<T>(s: Seq<T>, p: spec_fn(T) -> bool)
    ensures
        match first_index(s, p) {
            Some(i) => 0 <= i < s.len() && p(s[i]) && forall|j: int| 0 <= j < i ==> !p(#[trigger] s[j]),
            None => forall|j: int| 0 <= j < s.len() ==> !p(#[trigger] s[j]),
        },
    decreases s.len(),
{
    if s.len() > 0 {
        lemma_first_index(s.drop_last(), p);
        match first_index(s.drop_last(), p) {
            Some(i) => {
                assert forall|j: int| 0 <= j < i implies !p(#[trigger] s[j]) by {
                    assert(s[j] == s.drop_last()[j]);
                }
                assert(s[i] == s.drop_last()[i]);
            },
            None => {
                assert forall|j: int| 0 <= j < s.len() - 1 implies !p(#[trigger] s[j]) by {
                    assert(s[j] == s.drop_last()[j]);
                }
            },
        }
    }
}

/// The characterisation of `first_index` by its two properties.
pub proof fn lemma_first_index_is<T>(s: Seq<T>, p: spec_fn(T) -> bool, i: int)
    requires
        0 <= i < s.len(),
        p(s[i]),
        forall|j: int| 0 <= j < i ==> !p(#[trigger] s[j]),
    ensures
        first_index(s, p) == Some(i),
{
    lemma_first_index(s, p);
    match first_index(s, p) {
        Some(k) => {
            if k < i {
                assert(!p(s[k]));
            }
            if k > i {
                assert(!p(s[i]));
            }
        },
        None => {
            assert(!p(s[i]));
        },
    }
}

/// No element satisfying `p` means no first index.
pub proof fn lemma_first_index_none<T>(s: Seq<T>, p: spec_fn(T) -> bool)
    requires
        forall|j: int| 0 <= j < s.len() ==> !p(#[trigger] s[j]),
    ensures
        first_index(s, p) is None,
{
    lemma_first_index(s, p);
    match first_index(s, p) {
        Some(k) => {
            assert(!p(s[k]));
        },
        None => {},
    }
}

/// A search that found nothing before `i` and a match at `i` has its first
/// index at `i`.
pub proof fn lemma_first_index_found<T>(s: Seq<T>, p: spec_fn(T) -> bool, i: int)
    requires
        0 <= i < s.len(),
        first_index(s.take(i), p) is None,
        p(s[i]),
    ensures
        first_index(s, p) == Some(i),
{
    lemma_first_index(s.take(i), p);
    assert forall|j: int| 0 <= j < i implies !p(#[trigger] s[j]) by {
        assert(s.take(i)[j] == s[j]);
    }
    lemma_first_index_is(s, p, i);
}

/// A search over the whole sequence that found nothing.
pub proof fn lemma_first_index_absent<T>(s: Seq<T>, p: spec_fn(T) -> bool)
    requires
        first_index(s.take(s.len() as int), p) is None,
    ensures
        first_index(s, p) is None,
{
    assert(s.take(s.len() as int) =~= s);
}

/// Whether some element of `s` satisfies `p`.
pub open spec fn any<T>(s: Seq<T>, p: spec_fn(T) -> bool) -> bool {
    exists|j: int| 0 <= j < s.len() && p(#[trigger] s[j])
}

/// The number of elements of `s` satisfying `p`.
pub open spec fn count_where<T>(s: Seq<T>, p: spec_fn(T) -> bool) -> nat
    decreases s.len(),
{
    if s.len() == 0 {
        0
    } else {
        count_where(s.drop_last(), p) + if p(s.last()) {
            1nat
        } else {
            0nat
        }
    }
}

/// Some element satisfies `p` exactly when the count is positive.
pub proof fn lemma_count_positive<T>(s: Seq<T>, p: spec_fn(T) -> bool)
    ensures
        (count_where(s, p) >= 1) == (exists|i: int| 0 <= i < s.len() && p(#[trigger] s[i])),
    decreases s.len(),
{
    if s.len() > 0 {
        let t = s.drop_last();
        lemma_count_positive(t, p);
        if exists|i: int| 0 <= i < t.len() && p(#[trigger] t[i]) {
            let i = choose|i: int| 0 <= i < t.len() && p(#[trigger] t[i]);
            assert(s[i] == t[i]);
        }
        if exists|i: int| 0 <= i < s.len() && p(#[trigger] s[i]) {
            let i = choose|i: int| 0 <= i < s.len() && p(#[trigger] s[i]);
            if i < s.len() - 1 {
                assert(t[i] == s[i]);
            }
        }
    }
}

/// Two elements satisfy `p` exactly when the count is at least two.
pub proof fn lemma_count_two<T>(s: Seq<T>, p: spec_fn(T) -> bool)
    ensures
        (count_where(s, p) >= 2) == (exists|i: int, j: int|
            0 <= i < j < s.len() && p(#[trigger] s[i]) && p(#[trigger] s[j])),
    decreases s.len(),
{
    if s.len() > 0 {
        let t = s.drop_last();
        lemma_count_two(t, p);
        lemma_count_positive(t, p);
        if count_where(s, p) >= 2 {
            if p(s.last()) {
                let i = choose|i: int| 0 <= i < t.len() && p(#[trigger] t[i]);
                assert(s[i] == t[i]);
                assert(p(s[i]) && p(s[s.len() - 1]));
            } else {
                let (i, j) = choose|i: int, j: int| 0 <= i < j < t.len() && p(#[trigger] t[i]) && p(#[trigger] t[j]);
                assert(s[i] == t[i] && s[j] == t[j]);
                assert(p(s[i]) && p(s[j]));
            }
        }
        if exists|i: int, j: int| 0 <= i < j < s.len() && p(#[trigger] s[i]) && p(#[trigger] s[j]) {
            let (i, j) = choose|i: int, j: int| 0 <= i < j < s.len() && p(#[trigger] s[i]) && p(#[trigger] s[j]);
            assert(t[i] == s[i]);
            if j == s.len() - 1 {
                assert(p(t[i]));
            } else {
                assert(t[j] == s[j]);
                assert(p(t[i]) && p(t[j]));
            }
        }
    }
}

/// Counting over a prefix one longer adds the new element's contribution.
pub proof fn lemma_count_step<T>(s: Seq<T>, p: spec_fn(T) -> bool, i: int)
    requires
        0 <= i < s.len(),
    ensures
        count_where(s.take(i + 1), p) == count_where(s.take(i), p) + if p(s[i]) {
            1nat
        } else {
            0nat
        },
{
    assert(s.take(i + 1).drop_last() =~= s.take(i));
}

/// The first-index search over a prefix one longer.
pub proof fn lemma_first_index_step<T>(s: Seq<T>, p: spec_fn(T) -> bool, i: int)
    requires
        0 <= i < s.len(),
        first_index(s.take(i), p) is None,
    ensures
        first_index(s.take(i + 1), p) == if p(s[i]) {
            Some(i)
        } else {
            None::<int>
        },
{
    assert(s.take(i + 1).drop_last() =~= s.take(i));
}

} // verus!
