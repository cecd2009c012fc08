//! The stable ordering of occurrences by their text.

use vstd::prelude::*;
use vstd::seq_lib::lemma_multiset_commutative;
use crate::occurrence::{views, Occurrence, OccurrenceView};
use crate::seq_lemmas::lemma_filter_one;
use crate::text::{
    lemma_lex_le_antisymmetric, lemma_lex_le_reflexive, lemma_lex_le_total,
    lemma_lex_le_transitive, lex_le, str_le,
};

verus! {

/// Whether the texts of `found` ascend in the order `lex_le`.
pub open spec fn sorted(found: Seq<OccurrenceView>) -> bool {
    forall|i: int, j: int|
        0 <= i < j < found.len() ==> lex_le(#[trigger] found[i].text(), #[trigger] found[j].text())
}

/// The occurrences of `found` whose text is `key`, in order.
pub open spec fn with_key(found: Seq<OccurrenceView>, key: Seq<char>) -> Seq<OccurrenceView> {
    found.filter(|o: OccurrenceView| o.text() == key)
}

/// Whether `result` is `input` in sorted order, with the occurrences of equal
/// text in the order that they have in `input`.
pub open spec fn stably_sorted(result: Seq<OccurrenceView>, input: Seq<OccurrenceView>) -> bool {
    &&& sorted(result)
    &&& result.to_multiset() == input.to_multiset()
    &&& forall|key: Seq<char>| with_key(result, key) == with_key(input, key)
}

/// The stable sort of `input`: the one sequence that is `stably_sorted` with
/// respect to it.
pub open spec fn stable_sort(input: Seq<OccurrenceView>) -> Seq<OccurrenceView> {
    choose|result: Seq<OccurrenceView>| stably_sorted(result, input)
}

/// The occurrences of the text of the last element end with that element.
proof fn lemma_with_key_last(found: Seq<OccurrenceView>)
    requires
        found.len() > 0,
    ensures
        with_key(found, found.last().text()) == with_key(
            found.drop_last(),
            found.last().text(),
        ).push(found.last()),
        forall|key: Seq<char>|
            key != found.last().text() ==> with_key(found, key) == with_key(found.drop_last(), key),
{
    assert(found.drop_last().push(found.last()) == found);
    assert forall|key: Seq<char>| #[trigger] with_key(found, key) == if found.last().text() == key {
        with_key(found.drop_last(), key).push(found.last())
    } else {
        with_key(found.drop_last(), key)
    } by {
        found.drop_last().lemma_filter_push(found.last(), |o: OccurrenceView| o.text() == key);
    }
}

/// In a sorted sequence no text comes after the text of the last element.
proof fn lemma_last_is_greatest(found: Seq<OccurrenceView>, key: Seq<char>)
    requires
        sorted(found),
        with_key(found, key).len() > 0,
    ensures
        lex_le(key, found.last().text()),
{
    let pred = |o: OccurrenceView| o.text() == key;
    let e = with_key(found, key)[0];
    found.lemma_filter_pred(pred, 0);
    assert(found.filter(pred).contains(e));
    found.lemma_filter_contains_rev(pred, e);
    let j = choose|j: int| 0 <= j < found.len() && found[j] == e;
    if j < found.len() - 1 {
        assert(lex_le(found[j].text(), found[found.len() - 1].text()));
    } else {
        lemma_lex_le_reflexive(key);
    }
}

/// Two sorted sequences of one length that agree, for every text, on the
/// occurrences of that text are equal.
proof fn lemma_sorted_unique(a: Seq<OccurrenceView>, b: Seq<OccurrenceView>)
    requires
        sorted(a),
        sorted(b),
        a.len() == b.len(),
        forall|key: Seq<char>| with_key(a, key) == with_key(b, key),
    ensures
        a == b,
    decreases a.len(),
{
    if a.len() == 0 {
        assert(a == b);
    } else {
        let x = a.last();
        let y = b.last();
        lemma_with_key_last(a);
        lemma_with_key_last(b);
        assert(with_key(a, x.text()) == with_key(b, x.text()));
        assert(with_key(a, y.text()) == with_key(b, y.text()));
        lemma_last_is_greatest(b, x.text());
        lemma_last_is_greatest(a, y.text());
        lemma_lex_le_antisymmetric(x.text(), y.text());
        assert(x == y) by {
            assert(with_key(a, x.text()).last() == x);
            assert(with_key(b, x.text()).last() == y);
        }
        let a0 = a.drop_last();
        let b0 = b.drop_last();
        assert forall|key: Seq<char>| with_key(a0, key) == with_key(b0, key) by {
            assert(with_key(a, key) == with_key(b, key));
            if key == x.text() {
                assert(with_key(a0, key) == with_key(a, key).drop_last());
                assert(with_key(b0, key) == with_key(b, key).drop_last());
            }
        }
        assert(sorted(a0)) by {
            assert forall|i: int, j: int| 0 <= i < j < a0.len() implies lex_le(
                #[trigger] a0[i].text(),
                #[trigger] a0[j].text(),
            ) by {
                assert(lex_le(a[i].text(), a[j].text()));
            }
        }
        assert(sorted(b0)) by {
            assert forall|i: int, j: int| 0 <= i < j < b0.len() implies lex_le(
                #[trigger] b0[i].text(),
                #[trigger] b0[j].text(),
            ) by {
                assert(lex_le(b[i].text(), b[j].text()));
            }
        }
        lemma_sorted_unique(a0, b0);
        assert(a == a0.push(x));
        assert(b == b0.push(y));
    }
}

/// A sequence has one stable sort: whatever is `stably_sorted` with respect
/// to `input` is `stable_sort(input)`.
pub proof fn lemma_stable_sort_unique(result: Seq<OccurrenceView>, input: Seq<OccurrenceView>)
    requires
        stably_sorted(result, input),
    ensures
        result == stable_sort(input),
{
    let other = stable_sort(input);
    assert(stably_sorted(other, input));
    vstd::seq_lib::to_multiset_len(result);
    vstd::seq_lib::to_multiset_len(other);
    lemma_sorted_unique(result, other);
}

/// `found` with the neighbours at `j` and `j + 1` exchanged.
pub open spec fn exchanged(found: Seq<OccurrenceView>, j: int) -> Seq<OccurrenceView> {
    found.update(j, found[j + 1]).update(j + 1, found[j])
}

/// Exchanging two neighbours of different text changes neither what the
/// sequence holds nor the order among occurrences of one text.
proof fn lemma_exchange(found: Seq<OccurrenceView>, j: int)
    requires
        0 <= j,
        j + 1 < found.len(),
        found[j].text() != found[j + 1].text(),
    ensures
        exchanged(found, j).to_multiset() == found.to_multiset(),
        forall|key: Seq<char>| with_key(exchanged(found, j), key) == with_key(found, key),
{
    let front = found.take(j);
    let back = found.skip(j + 2);
    let a = seq![found[j]];
    let b = seq![found[j + 1]];
    assert(found == front + a + b + back);
    assert(exchanged(found, j) == front + b + a + back);
    assert((front + a + b + back).to_multiset() == (front + b + a + back).to_multiset()) by {
        lemma_multiset_commutative(front + a + b, back);
        lemma_multiset_commutative(front + a, b);
        lemma_multiset_commutative(front, a);
        lemma_multiset_commutative(front + b + a, back);
        lemma_multiset_commutative(front + b, a);
        lemma_multiset_commutative(front, b);
        assert(front.to_multiset().add(a.to_multiset()).add(b.to_multiset()).add(
            back.to_multiset(),
        ) =~= front.to_multiset().add(b.to_multiset()).add(a.to_multiset()).add(
            back.to_multiset(),
        ));
    }
    assert forall|key: Seq<char>| with_key(exchanged(found, j), key) == with_key(found, key) by {
        let pred = |o: OccurrenceView| o.text() == key;
        Seq::filter_distributes_over_add(front + a + b, back, pred);
        Seq::filter_distributes_over_add(front + a, b, pred);
        Seq::filter_distributes_over_add(front, a, pred);
        Seq::filter_distributes_over_add(front + b + a, back, pred);
        Seq::filter_distributes_over_add(front + b, a, pred);
        Seq::filter_distributes_over_add(front, b, pred);
        lemma_filter_one(found[j], pred);
        lemma_filter_one(found[j + 1], pred);
        assert(front.filter(pred) + a.filter(pred) + b.filter(pred) + back.filter(pred)
            == front.filter(pred) + b.filter(pred) + a.filter(pred) + back.filter(pred));
    }
}

/// Sorts `occurrences` in place, ascending by text in the order `lex_le`.
/// The sort is stable: occurrences of equal text keep their order. Nothing
/// is added and nothing is lost.
pub fn bubble_sort(occurrences: &mut Vec<Occurrence>)
    ensures
        sorted(views(final(occurrences)@)),
        views(final(occurrences)@).to_multiset() == views(old(occurrences)@).to_multiset(),
        forall|key: Seq<char>|
            with_key(views(final(occurrences)@), key) == with_key(views(old(occurrences)@), key),
        views(final(occurrences)@) == stable_sort(views(old(occurrences)@)),
{
    let n = occurrences.len();
    let mut i: usize = 0;
    while i < n
        invariant
            i <= n,
            occurrences@.len() == n,
            views(occurrences@).to_multiset() == views(old(occurrences)@).to_multiset(),
            forall|key: Seq<char>|
                with_key(views(occurrences@), key) == with_key(views(old(occurrences)@), key),
            // the last `i` places hold their final occupants
            forall|p: int, q: int|
                0 <= p < q < n && n - i <= q ==> lex_le(
                    #[trigger] views(occurrences@)[p].text(),
                    #[trigger] views(occurrences@)[q].text(),
                ),
        decreases n - i,
    {
        let mut j: usize = 0;
        while j + 1 < n - i
            invariant
                i < n,
                j < n - i,
                occurrences@.len() == n,
                views(occurrences@).to_multiset() == views(old(occurrences)@).to_multiset(),
                forall|key: Seq<char>|
                    with_key(views(occurrences@), key) == with_key(views(old(occurrences)@), key),
                forall|p: int, q: int|
                    0 <= p < q < n && n - i <= q ==> lex_le(
                        #[trigger] views(occurrences@)[p].text(),
                        #[trigger] views(occurrences@)[q].text(),
                    ),
                // the occupant of place `j` is the greatest so far
                forall|p: int|
                    0 <= p < j ==> lex_le(
                        #[trigger] views(occurrences@)[p].text(),
                        views(occurrences@)[j as int].text(),
                    ),
            decreases n - i - j,
        {
            let ghost before = views(occurrences@);
            let ghost left = before[j as int].text();
            let ghost right = before[j + 1].text();
            if !str_le(occurrences[j].file_name(), occurrences[j + 1].file_name()) {
                occurrences.swap(j, j + 1);
                proof {
                    assert(views(occurrences@) == exchanged(before, j as int));
                    lemma_lex_le_reflexive(left);
                    lemma_exchange(before, j as int);
                    lemma_lex_le_total(left, right);
                    assert forall|p: int| 0 <= p < j + 1 implies lex_le(
                        #[trigger] views(occurrences@)[p].text(),
                        views(occurrences@)[j + 1].text(),
                    ) by {
                        if p < j {
                            assert(views(occurrences@)[p] == before[p]);
                        }
                    }
                    assert forall|p: int, q: int| 0 <= p < q < n && n - i <= q implies lex_le(
                        #[trigger] views(occurrences@)[p].text(),
                        #[trigger] views(occurrences@)[q].text(),
                    ) by {
                        assert(views(occurrences@)[q] == before[q]);
                        if p == j {
                            assert(lex_le(before[j + 1].text(), before[q].text()));
                        } else if p == j + 1 {
                            assert(lex_le(before[j as int].text(), before[q].text()));
                        } else {
                            assert(views(occurrences@)[p] == before[p]);
                        }
                    }
                }
            } else {
                proof {
                    assert forall|p: int| 0 <= p < j + 1 implies lex_le(
                        #[trigger] views(occurrences@)[p].text(),
                        views(occurrences@)[j + 1].text(),
                    ) by {
                        if p < j {
                            lemma_lex_le_transitive(before[p].text(), left, right);
                        }
                    }
                }
            }
            j += 1;
        }
        proof {
            // place `j` is `n - i - 1`, and its occupant is the greatest of the
            // first `n - i`
            assert(j == n - i - 1);
        }
        i += 1;
    }
    proof {
        lemma_stable_sort_unique(views(occurrences@), views(old(occurrences)@));
    }
}

} // verus!
