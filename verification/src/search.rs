//! The first element of a sequence that satisfies a predicate.
use vstd::prelude::*;

verus! {

/// The index of the first element at or after `i` that satisfies `p`.
pub open spec fn first_from<A>(s: Seq<A>, p: spec_fn(A) -> bool, i: int) -> Option<int>
    decreases s.len() - i,
{
    if i < 0 || i >= s.len() {
        None
    } else if p(s[i]) {
        Some(i)
    } else {
        first_from(s, p, i + 1)
    }
}

/// The index of the first element that satisfies `p`.
pub open spec fn first_index<A>(s: Seq<A>, p: spec_fn(A) -> bool) -> Option<int> {
    first_from(s, p, 0)
}

/// What `first_from` finds satisfies `p`, and nothing before it does.
pub proof fn lemma_first_from<A>(s: Seq<A>, p: spec_fn(A) -> bool, i: int)
    requires
        0 <= i,
    ensures
        first_from(s, p, i) matches Some(j) ==> i <= j < s.len() && p(s[j]) && forall|k: int|
            i <= k < j ==> !p(#[trigger] s[k]),
        first_from(s, p, i) is None ==> forall|k: int| i <= k < s.len() ==> !p(#[trigger] s[k]),
    decreases s.len() - i,
{
    if i < s.len() && !p(s[i]) {
        lemma_first_from(s, p, i + 1);
    }
}

/// The first index of an element satisfying `p`, with none before it.
pub proof fn lemma_first_index<A>(s: Seq<A>, p: spec_fn(A) -> bool)
    ensures
        first_index(s, p) matches Some(j) ==> 0 <= j < s.len() && p(s[j]) && forall|k: int|
            0 <= k < j ==> !p(#[trigger] s[k]),
        first_index(s, p) is None ==> forall|k: int| 0 <= k < s.len() ==> !p(#[trigger] s[k]),
{
    lemma_first_from(s, p, 0);
}

/// An element satisfying `p` with none before it is the first.
pub proof fn lemma_first_index_at<A>(s: Seq<A>, p: spec_fn(A) -> bool, j: int)
    requires
        0 <= j < s.len(),
        p(s[j]),
        forall|k: int| 0 <= k < j ==> !p(#[trigger] s[k]),
    ensures
        first_index(s, p) == Some(j),
{
    lemma_first_from_at(s, p, 0, j);
}

proof fn lemma_first_from_at<A>(s: Seq<A>, p: spec_fn(A) -> bool, i: int, j: int)
    requires
        0 <= i <= j < s.len(),
        p(s[j]),
        forall|k: int| i <= k < j ==> !p(#[trigger] s[k]),
    ensures
        first_from(s, p, i) == Some(j),
    decreases j - i,
{
    if i < j {
        lemma_first_from_at(s, p, i + 1, j);
    }
}

/// No element satisfies `p`: there is no first one.
pub proof fn lemma_first_index_none<A>(s: Seq<A>, p: spec_fn(A) -> bool)
    requires
        forall|k: int| 0 <= k < s.len() ==> !p(#[trigger] s[k]),
    ensures
        first_index(s, p) is None,
{
    lemma_first_from(s, p, 0);
}

/// Two sequences whose elements agree on the predicates elementwise have
/// their first matching element at the same index.
pub proof fn lemma_first_index_same<A, B>(s: Seq<A>, t: Seq<B>, p: spec_fn(A) -> bool, q: spec_fn(B) -> bool)
    requires
        s.len() == t.len(),
        forall|k: int| 0 <= k < s.len() ==> p(#[trigger] s[k]) == q(t[k]),
    ensures
        first_index(s, p) == first_index(t, q),
{
    lemma_first_index(s, p);
    match first_index(s, p) {
        Some(m) => {
            assert forall|k: int| 0 <= k < m implies !q(#[trigger] t[k]) by {
                assert(p(s[k]) == q(t[k]));
            }
            assert(p(s[m]) == q(t[m]));
            lemma_first_index_at(t, q, m);
        },
        None => {
            assert forall|k: int| 0 <= k < t.len() implies !q(#[trigger] t[k]) by {
                assert(p(s[k]) == q(t[k]));
            }
            lemma_first_index_none(t, q);
        },
    }
}

/// Removing an element that does not match leaves the first match in
/// place, one index earlier when it came after the removed element.
pub proof fn lemma_first_index_remove<A>(s: Seq<A>, p: spec_fn(A) -> bool, j: int)
    requires
        0 <= j < s.len(),
        !p(s[j]),
    ensures
        first_index(s.remove(j), p) == match first_index(s, p) {
            Some(m) => Some(if m < j { m } else { m - 1 }),
            None => None::<int>,
        },
{
    let r = s.remove(j);
    lemma_first_index(s, p);
    match first_index(s, p) {
        Some(m) => {
            let m2 = if m < j { m } else { m - 1 };
            assert(r[m2] == s[m]);
            assert forall|k: int| 0 <= k < m2 implies !p(#[trigger] r[k]) by {
                if k < j {
                    assert(r[k] == s[k]);
                } else {
                    assert(r[k] == s[k + 1]);
                }
            }
            lemma_first_index_at(r, p, m2);
        },
        None => {
            assert forall|k: int| 0 <= k < r.len() implies !p(#[trigger] r[k]) by {
                if k < j {
                    assert(r[k] == s[k]);
                } else {
                    assert(r[k] == s[k + 1]);
                }
            }
            lemma_first_index_none(r, p);
        },
    }
}

} // verus!
