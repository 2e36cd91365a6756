//! Laws of the ranking.

use crate::models::Word;
use crate::ranking::{is_ranking_of, scored_as};
use vstd::prelude::*;

verus! {

/// The scores never rise from one word to the next.
pub open spec fn descending(words: Seq<Word>) -> bool {
    forall|i: int, j: int| 0 <= i <= j < words.len() ==> words[i].entropy >= words[j].entropy
}

/// Score by score, both sequences hold the same words in the same order.
pub open spec fn same_words_per_score(first: Seq<Word>, second: Seq<Word>) -> bool {
    forall|code: i32| #[trigger]
        first.filter(scored_as(code)) == second.filter(scored_as(code))
}

/// What filtering by score yields for a sequence, given what it yields for
/// the sequence without its last word.
proof fn lemma_filter_by_score_last(words: Seq<Word>, code: i32)
    requires
        words.len() > 0,
    ensures
        words.filter(scored_as(code)) == if words.last().entropy == code {
            words.drop_last().filter(scored_as(code)).push(words.last())
        } else {
            words.drop_last().filter(scored_as(code))
        },
{
    reveal(Seq::filter);
}

/// The last word of a descending sequence has the lowest score, and no other
/// sequence with the same words per score ends on a lower one.
proof fn lemma_last_score_bounds(first: Seq<Word>, second: Seq<Word>)
    requires
        first.len() > 0,
        second.len() > 0,
        descending(second),
        same_words_per_score(first, second),
    ensures
        first.last().entropy >= second.last().entropy,
{
    let code = first.last().entropy;
    lemma_filter_by_score_last(first, code);
    let kept = first.filter(scored_as(code));
    assert(kept.last() == first.last());
    assert(second.filter(scored_as(code)) == kept);
    assert(second.filter(scored_as(code)).contains(first.last())) by {
        assert(kept[kept.len() - 1] == first.last());
    }
    second.lemma_filter_contains_rev(scored_as(code), first.last());
    let j = choose|j: int| 0 <= j < second.len() && second[j] == first.last();
    assert(second[j].entropy >= second[second.len() - 1].entropy);
}

/// Two descending sequences that hold, score by score, the same words in the
/// same order are one and the same sequence.
pub proof fn lemma_descending_order_is_unique(first: Seq<Word>, second: Seq<Word>)
    requires
        first.len() == second.len(),
        descending(first),
        descending(second),
        same_words_per_score(first, second),
    ensures
        first == second,
    decreases first.len(),
{
    if first.len() == 0 {
        assert(first =~= second);
    } else {
        lemma_last_score_bounds(first, second);
        lemma_last_score_bounds(second, first);
        let lowest = first.last().entropy;
        lemma_filter_by_score_last(first, lowest);
        lemma_filter_by_score_last(second, lowest);
        assert(first.filter(scored_as(lowest)) == second.filter(scored_as(lowest)));
        assert(first.last() == second.last()) by {
            assert(first.drop_last().filter(scored_as(lowest)).push(first.last()).last()
                == first.last());
            assert(second.drop_last().filter(scored_as(lowest)).push(second.last()).last()
                == second.last());
        }
        let first_rest = first.drop_last();
        let second_rest = second.drop_last();
        assert forall|code: i32| #[trigger]
            first_rest.filter(scored_as(code)) == second_rest.filter(scored_as(code)) by {
            lemma_filter_by_score_last(first, code);
            lemma_filter_by_score_last(second, code);
            assert(first.filter(scored_as(code)) == second.filter(scored_as(code)));
            if code == lowest {
                assert(first_rest.filter(scored_as(code)) =~= first.filter(
                    scored_as(code),
                ).drop_last());
                assert(second_rest.filter(scored_as(code)) =~= second.filter(
                    scored_as(code),
                ).drop_last());
            }
        }
        assert(descending(first_rest)) by {
            assert forall|i: int, j: int| 0 <= i <= j < first_rest.len() implies first_rest[i].entropy
                >= first_rest[j].entropy by {
                assert(first[i].entropy >= first[j].entropy);
            }
        }
        assert(descending(second_rest)) by {
            assert forall|i: int, j: int|
                0 <= i <= j < second_rest.len() implies second_rest[i].entropy
                >= second_rest[j].entropy by {
                assert(second[i].entropy >= second[j].entropy);
            }
        }
        lemma_descending_order_is_unique(first_rest, second_rest);
        assert(first =~= first_rest.push(first.last()));
        assert(second =~= second_rest.push(second.last()));
    }
}

/// The ranking of a pool is unique: the order of the scores and of the pool
/// decides the place of every word, ties included.
pub proof fn lemma_ranking_is_unique(first: Seq<Word>, second: Seq<Word>, words: Seq<Word>)
    requires
        is_ranking_of(first, words),
        is_ranking_of(second, words),
    ensures
        first == second,
{
    assert forall|code: i32| #[trigger]
        first.filter(scored_as(code)) == second.filter(scored_as(code)) by {
        assert(first.filter(scored_as(code)) == words.filter(scored_as(code)));
        assert(second.filter(scored_as(code)) == words.filter(scored_as(code)));
    }
    lemma_descending_order_is_unique(first, second);
}

} // verus!
