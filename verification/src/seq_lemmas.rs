//! Lemmas on filtered sequences.

use vstd::prelude::*;

verus! {

/// What filtering the first `i + 1` items yields, given what the first `i` yield.
pub proof fn lemma_filter_take_next<A>(s: Seq<A>, pred: spec_fn(A) -> bool, i: int)
    requires
        0 <= i < s.len(),
    ensures
        s.take(i + 1).filter(pred) == if pred(s[i]) {
            s.take(i).filter(pred).push(s[i])
        } else {
            s.take(i).filter(pred)
        },
{
    reveal(Seq::filter);
    assert(s.take(i + 1).drop_last() =~= s.take(i));
}

/// Filtering by `inner` what was filtered by `outer` is filtering by `inner`
/// alone, where everything that `inner` accepts is accepted by `outer` too.
pub proof fn lemma_filter_of_filter<A>(
    s: Seq<A>,
    outer: spec_fn(A) -> bool,
    inner: spec_fn(A) -> bool,
)
    requires
        forall|i: int| 0 <= i < s.len() && inner(#[trigger] s[i]) ==> outer(s[i]),
    ensures
        s.filter(outer).filter(inner) == s.filter(inner),
    decreases s.len(),
{
    reveal(Seq::filter);
    if s.len() > 0 {
        let rest = s.drop_last();
        lemma_filter_of_filter(rest, outer, inner);
        if outer(s.last()) {
            assert(rest.filter(outer).push(s.last()).drop_last() =~= rest.filter(outer));
        }
    }
}

/// A filtered sequence holds nothing that the sequence does not hold.
pub proof fn lemma_filter_within<A>(s: Seq<A>, pred: spec_fn(A) -> bool)
    ensures
        forall|i: int|
            0 <= i < s.filter(pred).len() ==> s.contains(#[trigger] s.filter(pred)[i]) && pred(
                s.filter(pred)[i],
            ),
{
    assert forall|i: int| 0 <= i < s.filter(pred).len() implies s.contains(
        #[trigger] s.filter(pred)[i],
    ) && pred(s.filter(pred)[i]) by {
        s.lemma_filter_pred(pred, i);
        assert(s.filter(pred).contains(s.filter(pred)[i]));
        s.lemma_filter_contains_rev(pred, s.filter(pred)[i]);
    }
}

/// Two predicates that agree on every item of a sequence keep the same
/// items of it.
pub proof fn lemma_filter_by_equal_predicates<A>(
    s: Seq<A>,
    first: spec_fn(A) -> bool,
    second: spec_fn(A) -> bool,
)
    requires
        forall|i: int| 0 <= i < s.len() ==> first(#[trigger] s[i]) == second(s[i]),
    ensures
        s.filter(first) == s.filter(second),
    decreases s.len(),
{
    reveal(Seq::filter);
    if s.len() > 0 {
        lemma_filter_by_equal_predicates(s.drop_last(), first, second);
    }
}

/// Taking one item out of a sequence lowers the number of items that a
/// predicate keeps by one where the predicate keeps that item, and leaves
/// it as it is elsewhere.
pub proof fn lemma_filter_len_remove<A>(s: Seq<A>, pred: spec_fn(A) -> bool, i: int)
    requires
        0 <= i < s.len(),
    ensures
        s.filter(pred).len() == s.remove(i).filter(pred).len() + if pred(s[i]) {
            1nat
        } else {
            0nat
        },
{
    let head = s.take(i);
    let tail = s.skip(i + 1);
    assert(s =~= head.push(s[i]) + tail);
    assert(s.remove(i) =~= head + tail);
    Seq::filter_distributes_over_add(head.push(s[i]), tail, pred);
    Seq::filter_distributes_over_add(head, tail, pred);
    assert(head.push(s[i]).filter(pred) == if pred(s[i]) {
        head.filter(pred).push(s[i])
    } else {
        head.filter(pred)
    }) by {
        reveal(Seq::filter);
        assert(head.push(s[i]).drop_last() =~= head);
    }
}

/// How many items a predicate keeps depends on the items alone, not on
/// their order.
pub proof fn lemma_filter_len_ignores_order<A>(
    first: Seq<A>,
    second: Seq<A>,
    pred: spec_fn(A) -> bool,
)
    requires
        first.to_multiset() == second.to_multiset(),
    ensures
        first.filter(pred).len() == second.filter(pred).len(),
    decreases first.len(),
{
    first.to_multiset_ensures();
    second.to_multiset_ensures();
    if first.len() == 0 {
        assert(second.len() == 0);
        assert(first =~= second);
    } else {
        let last = first.len() - 1;
        let item = first[last];
        assert(first.contains(item));
        assert(first.to_multiset().count(item) > 0);
        assert(second.to_multiset().count(item) > 0);
        assert(second.contains(item));
        let at = choose|at: int| 0 <= at < second.len() && second[at] == item;
        assert(first.remove(last).to_multiset() =~= second.remove(at).to_multiset());
        lemma_filter_len_ignores_order(first.remove(last), second.remove(at), pred);
        lemma_filter_len_remove(first, pred, last);
        lemma_filter_len_remove(second, pred, at);
    }
}

} // verus!
