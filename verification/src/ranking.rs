//! Ordering a scored pool: highest score first, ties in their given order.

use crate::models::Word;
use itertools::Itertools;
use std::cmp::Ordering;
use vstd::prelude::*;

verus! {

/// The words whose score code is `code`.
pub open spec fn scored_as(code: i32) -> spec_fn(Word) -> bool {
    |word: Word| word.entropy == code
}

/// `ranked` holds the words of `words` in descending order of score, and
/// words of equal score in the order in which they stand in `words`.
///
/// The last clause says that, score by score, both hold the same words in
/// the same order; so nothing is lost, added or changed.
pub open spec fn is_ranking_of(ranked: Seq<Word>, words: Seq<Word>) -> bool {
    &&& ranked.len() == words.len()
    &&& forall|i: int, j: int|
        0 <= i <= j < ranked.len() ==> ranked[i].entropy >= ranked[j].entropy
    &&& forall|code: i32| #[trigger]
        ranked.filter(scored_as(code)) == words.filter(scored_as(code))
}

/// Compares two words so that the one with the higher score comes first.
pub fn by_descending_entropy(a: &Word, b: &Word) -> (order: Ordering)
    ensures
        a.entropy > b.entropy ==> order == Ordering::Less,
        a.entropy == b.entropy ==> order == Ordering::Equal,
        a.entropy < b.entropy ==> order == Ordering::Greater,
{
    if a.entropy > b.entropy {
        Ordering::Less
    } else if a.entropy < b.entropy {
        Ordering::Greater
    } else {
        Ordering::Equal
    }
}

/// Sorts the words by descending score.
///
/// Calls `Itertools::sorted_by` with `by_descending_entropy` as the
/// comparison. That method sorts with `slice::sort_by`, which is stable: the
/// contract claims that the result is in descending order of score and that
/// words of equal score keep their order.
#[verifier::external_body]
pub(crate) fn sort_by_descending_entropy(words: Vec<Word>) -> (ranked: Vec<Word>)
    ensures
        is_ranking_of(ranked@, words@),
{
    words.into_iter().sorted_by(|a, b| by_descending_entropy(a, b)).collect()
}

} // verus!
