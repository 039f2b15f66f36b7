//! Where the items of a thinned list stood in the list that they came from.

use vstd::prelude::*;

verus! {

/// `at` are positions below `len`, each above the one before.
pub open spec fn ascending(at: Seq<int>, len: nat) -> bool {
    &&& forall|j: int| 0 <= j < at.len() ==> 0 <= #[trigger] at[j] < len
    &&& forall|j: int, k: int| 0 <= j < k < at.len() ==> at[j] < at[k]
}

/// `at` are all the positions below `len`, each of them once.
pub open spec fn permutes(at: Seq<int>, len: nat) -> bool {
    &&& at.len() == len
    &&& forall|j: int| 0 <= j < at.len() ==> 0 <= #[trigger] at[j] < len
    &&& forall|j: int, k: int| 0 <= j < k < at.len() ==> at[j] != at[k]
    &&& forall|i: int| 0 <= i < len ==> #[trigger] at.contains(i)
}

/// The positions of the items that `f` keeps.
pub proof fn lemma_filter_map_positions<A, B>(s: Seq<A>, f: spec_fn(A) -> Option<B>) -> (at: Seq<
    int,
>)
    ensures
        ascending(at, s.len()),
        at.len() == s.filter_map(f).len(),
        forall|j: int|
            0 <= j < at.len() ==> f(s[#[trigger] at[j]]) == Some(s.filter_map(f)[j]),
        forall|i: int| 0 <= i < s.len() && !(#[trigger] at.contains(i)) ==> f(s[i]) is None,
    decreases s.len(),
{
    if s.len() == 0 {
        Seq::empty()
    } else {
        let init = s.drop_last();
        let before = lemma_filter_map_positions(init, f);
        let at = if f(s.last()) is Some {
            before.push(s.len() - 1)
        } else {
            before
        };
        assert forall|j: int| 0 <= j < at.len() implies f(s[#[trigger] at[j]]) == Some(
            s.filter_map(f)[j],
        ) by {
            if j < before.len() {
                assert(at[j] == before[j]);
                assert(s[at[j]] == init[before[j]]);
            }
        }
        assert forall|i: int| 0 <= i < s.len() && !(#[trigger] at.contains(i)) implies f(
            s[i],
        ) is None by {
            if i == s.len() - 1 {
                if f(s.last()) is Some {
                    assert(at[at.len() - 1] == i);
                }
            } else {
                if before.contains(i) {
                    let j = before.index_of(i);
                    assert(at[j] == i);
                }
                assert(s[i] == init[i]);
            }
        }
        at
    }
}

/// The positions of the items that `p` keeps.
pub proof fn lemma_filter_positions<A>(s: Seq<A>, p: spec_fn(A) -> bool) -> (at: Seq<int>)
    ensures
        ascending(at, s.len()),
        at.len() == s.filter(p).len(),
        forall|j: int|
            0 <= j < at.len() ==> s[#[trigger] at[j]] == s.filter(p)[j] && p(s[at[j]]),
        forall|i: int| 0 <= i < s.len() && !(#[trigger] at.contains(i)) ==> !p(s[i]),
    decreases s.len(),
{
    reveal(Seq::filter);
    if s.len() == 0 {
        Seq::empty()
    } else {
        let init = s.drop_last();
        let before = lemma_filter_positions(init, p);
        let at = if p(s.last()) {
            before.push(s.len() - 1)
        } else {
            before
        };
        assert forall|j: int| 0 <= j < at.len() implies s[#[trigger] at[j]] == s.filter(p)[j] && p(
            s[at[j]],
        ) by {
            if j < before.len() {
                assert(at[j] == before[j]);
                assert(s[at[j]] == init[before[j]]);
            }
        }
        assert forall|i: int| 0 <= i < s.len() && !(#[trigger] at.contains(i)) implies !p(s[i]) by {
            if i == s.len() - 1 {
                if p(s.last()) {
                    assert(at[at.len() - 1] == i);
                }
            } else {
                if before.contains(i) {
                    let j = before.index_of(i);
                    assert(at[j] == i);
                }
                assert(s[i] == init[i]);
            }
        }
        at
    }
}

} // verus!
