//! Laws of the entropy scorer.

use crate::entropy::{are_terms_of_pool, share_of_pool, EntropyTerms};
use crate::filters::{admitted_by, admitted_words};
use crate::models::{Guess, Word};
use vstd::prelude::*;

verus! {

/// A share is a part of its pool that is not empty: where feedback has a
/// share, at least one word and at most the whole pool agrees with it, so
/// the probability that the share stands for lies above zero and does not
/// exceed one. Feedback has no share exactly where the pool is empty or no
/// word agrees.
pub proof fn lemma_share_within_pool(words: Seq<Word>, guesses: Seq<Guess>)
    requires
        words.len() <= usize::MAX,
    ensures
        match share_of_pool(words, guesses) {
            Some(share) => {
                &&& 0 < share.matching <= share.total
                &&& share.total == words.len()
                &&& share.matching == admitted_words(words, guesses).len()
            },
            None => words.len() == 0 || admitted_words(words, guesses).len() == 0,
        },
{
    words.lemma_filter_len(admitted_by(guesses));
}

/// Scoring is deterministic: the terms of every word depend on the pool
/// alone, so two scorings of one pool agree word by word, however the work
/// was divided.
pub proof fn lemma_terms_depend_on_pool_alone(
    first: Seq<EntropyTerms>,
    second: Seq<EntropyTerms>,
    pool: Seq<Word>,
)
    requires
        are_terms_of_pool(first, pool),
        are_terms_of_pool(second, pool),
    ensures
        first.len() == second.len(),
        forall|i: int| 0 <= i < first.len() ==> (#[trigger] first[i])@ == second[i]@,
{
}

} // verus!
