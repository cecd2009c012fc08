//! Facts about filtered sequences and about sequences without duplicates.

use vstd::prelude::*;
use vstd::seq_lib::lemma_no_dup_in_concat;

verus! {

/// Filtering a sequence of one element keeps it or leaves nothing.
pub proof fn lemma_filter_one<A>(x: A, pred: spec_fn(A) -> bool)
    ensures
        seq![x].filter(pred) == if pred(x) {
            seq![x]
        } else {
            Seq::<A>::empty()
        },
{
    reveal(Seq::filter);
    assert(seq![x].drop_last() == Seq::<A>::empty());
    assert(Seq::<A>::empty().filter(pred) == Seq::<A>::empty());
    assert(Seq::<A>::empty().push(x) == seq![x]);
}

/// A filter that every element passes changes nothing.
pub proof fn lemma_filter_all<A>(s: Seq<A>, pred: spec_fn(A) -> bool)
    requires
        forall|i: int| 0 <= i < s.len() ==> pred(#[trigger] s[i]),
    ensures
        s.filter(pred) == s,
    decreases s.len(),
{
    reveal(Seq::filter);
    if s.len() > 0 {
        lemma_filter_all(s.drop_last(), pred);
        assert(s.drop_last().push(s.last()) == s);
    }
}

/// The parts of a sequence without duplicates have none, and share nothing.
pub proof fn lemma_no_dup_parts<A>(a: Seq<A>, b: Seq<A>)
    requires
        (a + b).no_duplicates(),
    ensures
        a.no_duplicates(),
        b.no_duplicates(),
        forall|i: int, j: int| 0 <= i < a.len() && 0 <= j < b.len() ==> a[i] != b[j],
{
    assert forall|i: int, j: int| 0 <= i < a.len() && 0 <= j < a.len() && i != j implies a[i]
        != a[j] by {
        assert((a + b)[i] == a[i] && (a + b)[j] == a[j]);
    }
    assert forall|i: int, j: int| 0 <= i < b.len() && 0 <= j < b.len() && i != j implies b[i]
        != b[j] by {
        assert((a + b)[a.len() + i] == b[i] && (a + b)[a.len() + j] == b[j]);
    }
    assert forall|i: int, j: int| 0 <= i < a.len() && 0 <= j < b.len() implies a[i] != b[j] by {
        assert((a + b)[i] == a[i] && (a + b)[a.len() + j] == b[j]);
    }
}

/// Where the elements of `a` come from `pa` and those of `b` from `pb`, the
/// elements of `a + b` come from `pa + pb`.
pub proof fn lemma_within_concat<A>(a: Seq<A>, b: Seq<A>, pa: Seq<A>, pb: Seq<A>)
    requires
        forall|i: int| 0 <= i < a.len() ==> pa.contains(#[trigger] a[i]),
        forall|j: int| 0 <= j < b.len() ==> pb.contains(#[trigger] b[j]),
    ensures
        forall|k: int| 0 <= k < (a + b).len() ==> (pa + pb).contains(#[trigger] (a + b)[k]),
{
    assert forall|k: int| 0 <= k < (a + b).len() implies (pa + pb).contains(
        #[trigger] (a + b)[k],
    ) by {
        if k < a.len() {
            assert(pa.contains(a[k]));
            let i = choose|i: int| 0 <= i < pa.len() && pa[i] == a[k];
            assert((pa + pb)[i] == a[k]);
        } else {
            assert(pb.contains(b[k - a.len()]));
            let j = choose|j: int| 0 <= j < pb.len() && pb[j] == b[k - a.len()];
            assert((pa + pb)[pa.len() + j] == b[k - a.len()]);
        }
    }
}

/// Where moreover `pa + pb`, `a` and `b` have no duplicates, `a + b` has
/// none.
pub proof fn lemma_distinct_concat<A>(a: Seq<A>, b: Seq<A>, pa: Seq<A>, pb: Seq<A>)
    requires
        (pa + pb).no_duplicates(),
        a.no_duplicates(),
        b.no_duplicates(),
        forall|i: int| 0 <= i < a.len() ==> pa.contains(#[trigger] a[i]),
        forall|j: int| 0 <= j < b.len() ==> pb.contains(#[trigger] b[j]),
    ensures
        (a + b).no_duplicates(),
{
    lemma_no_dup_parts(pa, pb);
    assert forall|i: int, j: int| 0 <= i < a.len() && 0 <= j < b.len() implies a[i] != b[j] by {
        assert(pa.contains(a[i]));
        assert(pb.contains(b[j]));
    }
    lemma_no_dup_in_concat(a, b);
}

} // verus!
