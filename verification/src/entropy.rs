//! The entropy scorer.
//!
//! The score of a word is the information that guessing it is expected to
//! give about the answer: the sum, over the feedback patterns that the guess
//! could meet, of `p * log2(1 / p)`, where `p` is the share of the pool that
//! agrees with the pattern. The library works out what is exact in this:
//! which share of the pool every pattern keeps (`calculate_entropy_terms`).
//! The caller turns the shares into scores, and the library gives each word
//! its score and orders the pool (`calculate_entropy_for_words`).

use crate::feedback::{feedback_entry, feedback_on};
use crate::filters::{admitted_by, admitted_words, filter_word_by_guesses};
use crate::models::{history_well_formed, pool_well_formed, Color, Guess, Word};
use crate::patterns::{feedback_patterns, pattern, PATTERN_COUNT};
use crate::ranking::{is_ranking_of, sort_by_descending_entropy};
use crate::seq_lemmas::lemma_filter_take_next;
use rayon::iter::{IntoParallelRefIterator, ParallelIterator};
use vstd::prelude::*;

verus! {

/// A part of the pool as a fraction: `matching` words out of `total`. It
/// stands for the probability that the answer is in that part.
#[derive(Clone, Copy, Debug, PartialEq, Eq)]
pub struct Share {
    /// The number of words in the part.
    pub matching: usize,
    /// The number of words in the pool.
    pub total: usize,
}

/// The exact quantities that the entropy score of a word is made of.
#[derive(Debug, PartialEq, Eq)]
pub struct EntropyTerms {
    /// For each feedback pattern, in the order of the pattern numbers, the
    /// share of the pool that agrees with the pattern; `None` where the
    /// pattern adds nothing to the score.
    pub shares: Vec<Option<Share>>,
    /// How many letters of the word repeat an earlier letter of the word.
    pub repeated_letters: usize,
}

/// The mathematical content of `EntropyTerms`.
pub struct EntropyTermsView {
    /// The share of the pool under each feedback pattern, by pattern number.
    pub shares: Seq<Option<Share>>,
    /// How many letters of the word repeat an earlier letter of the word.
    pub repeated_letters: nat,
}

impl View for EntropyTerms {
    type V = EntropyTermsView;

    open spec fn view(&self) -> EntropyTermsView {
        EntropyTermsView { shares: self.shares@, repeated_letters: self.repeated_letters as nat }
    }
}

/// The share of the pool that agrees with the feedback, as the term that
/// the feedback adds to a score: `None` where the pool is empty or no word
/// agrees, since such feedback adds nothing.
pub open spec fn share_of_pool(words: Seq<Word>, guesses: Seq<Guess>) -> Option<Share> {
    let remaining = admitted_words(words, guesses).len();
    if words.len() == 0 || remaining == 0 {
        None
    } else {
        Some(Share { matching: remaining as usize, total: words.len() as usize })
    }
}

/// How many of the letters repeat a letter that stands earlier among them:
/// the number of letters less the number of distinct letters.
pub open spec fn repeated_letters(letters: Seq<char>) -> nat {
    (letters.len() - letters.to_set().len()) as nat
}

/// The terms of the entropy of a word with the given letters, guessed
/// against the pool: the share of the pool under each feedback pattern on
/// the word, and the repeated letters of the word.
pub open spec fn entropy_terms(letters: Seq<char>, pool: Seq<Word>) -> EntropyTermsView {
    EntropyTermsView {
        shares: Seq::new(
            PATTERN_COUNT as nat,
            |number: int| share_of_pool(pool, feedback_on(letters, pattern(number))),
        ),
        repeated_letters: repeated_letters(letters),
    }
}

/// `terms` holds, for each word of the pool and in the order of the pool,
/// the entropy terms of that word as a guess against the pool.
pub open spec fn are_terms_of_pool(terms: Seq<EntropyTerms>, pool: Seq<Word>) -> bool {
    &&& terms.len() == pool.len()
    &&& forall|i: int|
        0 <= i < pool.len() ==> (#[trigger] terms[i])@ == entropy_terms(pool[i].word@, pool)
}

/// Writes out the feedback of one turn that colors the letters with the
/// colors, position by position.
pub fn feedback_for_pattern(letters: &[char], colors: &[Color]) -> (guesses: Vec<Guess>)
    requires
        colors@.len() <= letters@.len(),
    ensures
        guesses@ == feedback_on(letters@, colors@),
{
    let mut guesses: Vec<Guess> = Vec::new();
    let mut position: usize = 0;
    while position < colors.len()
        invariant
            position <= colors@.len() <= letters@.len(),
            guesses@.len() == position,
            forall|i: int|
                0 <= i < position ==> guesses@[i] == #[trigger] feedback_on(letters@, colors@)[i],
        decreases colors.len() - position,
    {
        let entry = Guess { turn: 0, letter: letters[position], position, color: colors[position] };
        assert(entry == feedback_entry(0, letters@, colors@, position as int));
        guesses.push(entry);
        position = position + 1;
    }
    assert(guesses@ =~= feedback_on(letters@, colors@));
    guesses
}

/// Counts the words of the pool that agree with every entry of the history.
pub fn count_words_by_guesses(words: &[Word], guesses: &[Guess]) -> (count: usize)
    requires
        pool_well_formed(words@),
        history_well_formed(guesses@),
    ensures
        count == admitted_words(words@, guesses@).len(),
{
    let mut count: usize = 0;
    let mut i: usize = 0;
    while i < words.len()
        invariant
            i <= words.len(),
            count <= i,
            pool_well_formed(words@),
            history_well_formed(guesses@),
            count == words@.take(i as int).filter(admitted_by(guesses@)).len(),
        decreases words.len() - i,
    {
        proof {
            lemma_filter_take_next(words@, admitted_by(guesses@), i as int);
        }
        if filter_word_by_guesses(&words[i], guesses) {
            count = count + 1;
        }
        i = i + 1;
    }
    assert(words@.take(words.len() as int) =~= words@);
    count
}

/// The term that one feedback adds to a score: the share of the pool that
/// agrees with it, or `None` where the pool is empty or no word agrees.
pub fn calculate_entropy_from_one_guess(words: &[Word], guess: Vec<Guess>) -> (share: Option<
    Share,
>)
    requires
        pool_well_formed(words@),
        history_well_formed(guess@),
    ensures
        share == share_of_pool(words@, guess@),
{
    let total_number_of_words = words.len();
    if total_number_of_words == 0 {
        return None;
    }
    let number_of_possible_words = count_words_by_guesses(words, guess.as_slice());
    if number_of_possible_words == 0 {
        return None;
    }
    Some(Share { matching: number_of_possible_words, total: total_number_of_words })
}

/// Tells whether `letter` stands among the first `end` of the letters.
fn occurs_before(letters: &[char], end: usize, letter: char) -> (found: bool)
    requires
        end <= letters@.len(),
    ensures
        found == letters@.take(end as int).contains(letter),
{
    let mut i: usize = 0;
    while i < end
        invariant
            i <= end <= letters@.len(),
            forall|j: int| 0 <= j < i ==> letters@[j] != letter,
        decreases end - i,
    {
        if letters[i] == letter {
            assert(letters@.take(end as int)[i as int] == letter);
            return true;
        }
        i = i + 1;
    }
    false
}

/// Counts the letters that repeat a letter standing earlier among them.
pub fn count_repeated_letters(letters: &[char]) -> (repeats: usize)
    ensures
        repeats == repeated_letters(letters@),
{
    let mut repeats: usize = 0;
    let mut i: usize = 0;
    assert(letters@.take(0).to_set() =~= Set::<char>::empty());
    while i < letters.len()
        invariant
            i <= letters.len(),
            repeats <= i,
            letters@.take(i as int).to_set().finite(),
            repeats + letters@.take(i as int).to_set().len() == i,
        decreases letters.len() - i,
    {
        let repeated = occurs_before(letters, i, letters[i]);
        proof {
            let earlier = letters@.take(i as int);
            assert(letters@.take(i + 1) =~= earlier.push(letters@[i as int]));
            earlier.lemma_push_to_set_commute(letters@[i as int]);
        }
        if repeated {
            repeats = repeats + 1;
        }
        i = i + 1;
    }
    assert(letters@.take(letters.len() as int) =~= letters@);
    repeats
}

/// The terms of the entropy of `word` as the next guess against the pool
/// `words`: for each of the feedback patterns that the guess could meet, the
/// share of the pool that would remain, and the repeated letters of the word.
pub fn calculate_entropy_for_word(word: &Word, words: &[Word]) -> (terms: EntropyTerms)
    requires
        word.well_formed(),
        pool_well_formed(words@),
    ensures
        terms@ == entropy_terms(word.word@, words@),
{
    let letters = word.letters();
    let repeated_letters = count_repeated_letters(letters.as_slice());
    let patterns = feedback_patterns();
    let mut shares: Vec<Option<Share>> = Vec::new();
    let mut number: usize = 0;
    while number < patterns.len()
        invariant
            number <= patterns@.len() == PATTERN_COUNT,
            letters@ == word.word@,
            word.well_formed(),
            pool_well_formed(words@),
            forall|k: int| 0 <= k < PATTERN_COUNT ==> (#[trigger] patterns@[k])@ == pattern(k),
            shares@.len() == number,
            forall|k: int|
                0 <= k < number ==> #[trigger] shares@[k] == share_of_pool(
                    words@,
                    feedback_on(word.word@, pattern(k)),
                ),
        decreases patterns.len() - number,
    {
        let guess = feedback_for_pattern(letters.as_slice(), patterns[number].as_slice());
        assert(history_well_formed(guess@)) by {
            assert forall|i: int| 0 <= i < guess@.len() implies (#[trigger] guess@[i]).well_formed() by {
                assert(guess@[i].position == i);
            }
        }
        let share = calculate_entropy_from_one_guess(words, guess);
        shares.push(share);
        number = number + 1;
    }
    let terms = EntropyTerms { shares, repeated_letters };
    assert(terms@.shares =~= entropy_terms(word.word@, words@).shares);
    terms
}

/// Works out the entropy terms of every word of the pool, on several
/// threads.
///
/// Calls rayon's `par_iter`, `map` and `collect`, with
/// `calculate_entropy_for_word` as the work done for each word. The
/// contract claims that the results come back one for each word and in the
/// order of the words, as from the sequential `iter().map(..).collect()`.
#[verifier::external_body]
fn map_words_in_parallel(words: &[Word]) -> (terms: Vec<EntropyTerms>)
    requires
        pool_well_formed(words@),
    ensures
        are_terms_of_pool(terms@, words@),
{
    words.par_iter().map(|word| calculate_entropy_for_word(word, words)).collect()
}

/// The entropy terms of every word of the pool as the next guess against
/// that same pool, in the order of the pool. The words are worked on in
/// parallel; the result does not depend on how the work is divided.
pub fn calculate_entropy_terms(words: &[Word]) -> (terms: Vec<EntropyTerms>)
    requires
        pool_well_formed(words@),
    ensures
        are_terms_of_pool(terms@, words@),
{
    map_words_in_parallel(words)
}

/// The word with its score replaced by the one of the given code.
pub open spec fn with_score(word: Word, code: i32) -> Word {
    Word { word: word.word, entropy: code, is_answer: word.is_answer }
}

/// The words of the pairs, each with the score that its pair gives it.
pub open spec fn scored_words(scored: Seq<(Word, i32)>) -> Seq<Word> {
    Seq::new(scored.len(), |i: int| with_score(scored[i].0, scored[i].1))
}

/// Gives each word the score of its pair, as a code of `crate::score`, and
/// orders the pool by descending score, words of equal score in the order in
/// which they were given.
pub fn calculate_entropy_for_words(scored: Vec<(Word, i32)>) -> (ranked: Vec<Word>)
    ensures
        is_ranking_of(ranked@, scored_words(scored@)),
{
    let mut words: Vec<Word> = Vec::new();
    let mut i: usize = 0;
    while i < scored.len()
        invariant
            i <= scored@.len(),
            words@.len() == i,
            forall|j: int| 0 <= j < i ==> words@[j] == #[trigger] scored_words(scored@)[j],
        decreases scored.len() - i,
    {
        let word = &scored[i].0;
        words.push(
            Word { word: word.word.clone(), entropy: scored[i].1, is_answer: word.is_answer },
        );
        i = i + 1;
    }
    assert(words@ =~= scored_words(scored@));
    sort_by_descending_entropy(words)
}

} // verus!
