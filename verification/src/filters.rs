//! The constraint filter: which words agree with the feedback gathered so far.

use crate::models::{history_well_formed, pool_well_formed, Color, Guess, Word};
use crate::seq_lemmas::lemma_filter_take_next;
use vstd::prelude::*;

verus! {

/// The entries that report, in the turn of `guess`, an occurrence of the
/// letter of `guess` in the answer.
pub open spec fn confirms_letter_of(guess: Guess) -> spec_fn(Guess) -> bool {
    |entry: Guess|
        entry.turn == guess.turn && entry.letter == guess.letter && entry.color != Color::Grey
}

/// How often the answer is known to hold the letter of `guess`, going by the
/// turn of `guess` alone: the number of entries of that turn that report the
/// letter as `Yellow` or `Green`.
pub open spec fn expected_total(guesses: Seq<Guess>, guess: Guess) -> nat {
    guesses.filter(confirms_letter_of(guess)).len()
}

/// Counts the entries that share turn and letter with `guess` and are marked
/// `Yellow` or `Green`.
pub fn get_expected_total_of_letters(guesses: &[Guess], guess: &Guess) -> (total: usize)
    ensures
        total == expected_total(guesses@, *guess),
{
    let mut total: usize = 0;
    let mut i: usize = 0;
    while i < guesses.len()
        invariant
            i <= guesses.len(),
            total <= i,
            total == guesses@.take(i as int).filter(confirms_letter_of(*guess)).len(),
        decreases guesses.len() - i,
    {
        let entry = &guesses[i];
        proof {
            lemma_filter_take_next(guesses@, confirms_letter_of(*guess), i as int);
        }
        if entry.turn == guess.turn && entry.letter == guess.letter {
            match entry.color {
                Color::Green | Color::Yellow => {
                    total = total + 1;
                },
                Color::Grey => {},
            }
        }
        i = i + 1;
    }
    assert(guesses@.take(guesses.len() as int) =~= guesses@);
    total
}

/// The letters equal to `letter`.
pub open spec fn is_letter(letter: char) -> spec_fn(char) -> bool {
    |c: char| c == letter
}

/// How often `letter` occurs among `letters`.
pub open spec fn letter_count(letters: Seq<char>, letter: char) -> nat {
    letters.filter(is_letter(letter)).len()
}

/// A word with the given letters agrees with the entry `guess` of the history
/// `guesses`.
///
/// A `Green` entry asks for its letter at its position. The other two forbid
/// the letter there; `Yellow` asks for at least as many occurrences of the
/// letter as its turn confirms, `Grey` for exactly as many.
pub open spec fn entry_admits(letters: Seq<char>, guesses: Seq<Guess>, guess: Guess) -> bool {
    let expected = expected_total(guesses, guess);
    let actual = letter_count(letters, guess.letter);
    match guess.color {
        Color::Green => letters[guess.position as int] == guess.letter,
        Color::Yellow => actual >= expected && letters[guess.position as int] != guess.letter,
        Color::Grey => actual == expected && letters[guess.position as int] != guess.letter,
    }
}

/// A word with the given letters agrees with every entry of the history.
pub open spec fn word_admitted(letters: Seq<char>, guesses: Seq<Guess>) -> bool {
    forall|i: int| 0 <= i < guesses.len() ==> entry_admits(letters, guesses, #[trigger] guesses[i])
}

/// The words that agree with every entry of the history.
pub open spec fn admitted_by(guesses: Seq<Guess>) -> spec_fn(Word) -> bool {
    |word: Word| word_admitted(word.word@, guesses)
}

/// The words of the pool that agree with every entry of the history, in the
/// order of the pool.
pub open spec fn admitted_words(words: Seq<Word>, guesses: Seq<Guess>) -> Seq<Word> {
    words.filter(admitted_by(guesses))
}

/// Counts the occurrences of `letter` among `letters`.
pub fn count_letter(letters: &[char], letter: char) -> (count: usize)
    ensures
        count == letter_count(letters@, letter),
{
    let mut count: usize = 0;
    let mut i: usize = 0;
    while i < letters.len()
        invariant
            i <= letters.len(),
            count <= i,
            count == letters@.take(i as int).filter(is_letter(letter)).len(),
        decreases letters.len() - i,
    {
        proof {
            lemma_filter_take_next(letters@, is_letter(letter), i as int);
        }
        if letters[i] == letter {
            count = count + 1;
        }
        i = i + 1;
    }
    assert(letters@.take(letters.len() as int) =~= letters@);
    count
}

/// Tells whether the word agrees with every entry of the history.
pub fn filter_word_by_guesses(word: &Word, guesses: &[Guess]) -> (admitted: bool)
    requires
        word.well_formed(),
        history_well_formed(guesses@),
    ensures
        admitted == word_admitted(word.word@, guesses@),
{
    let letters = word.letters();
    let mut i: usize = 0;
    while i < guesses.len()
        invariant
            i <= guesses.len(),
            letters@ == word.word@,
            word.well_formed(),
            history_well_formed(guesses@),
            forall|j: int| 0 <= j < i ==> entry_admits(word.word@, guesses@, #[trigger] guesses@[j]),
        decreases guesses.len() - i,
    {
        let guess = &guesses[i];
        let expected_total = get_expected_total_of_letters(guesses, guess);
        let actual_total = count_letter(letters.as_slice(), guess.letter);
        let agrees = match guess.color {
            Color::Green => letters[guess.position] == guess.letter,
            Color::Yellow => actual_total >= expected_total && letters[guess.position]
                != guess.letter,
            Color::Grey => expected_total == actual_total && letters[guess.position]
                != guess.letter,
        };
        if !agrees {
            assert(!entry_admits(word.word@, guesses@, guesses@[i as int]));
            return false;
        }
        i = i + 1;
    }
    true
}

/// Keeps the words of the pool that agree with every entry of the history,
/// in the order of the pool. What is kept is a pool of its own, fit to be
/// filtered again or scored.
pub fn filter_words_by_guesses(words: &[Word], guesses: &[Guess]) -> (kept: Vec<Word>)
    requires
        pool_well_formed(words@),
        history_well_formed(guesses@),
    ensures
        kept@ == admitted_words(words@, guesses@),
        pool_well_formed(kept@),
{
    let mut kept: Vec<Word> = Vec::new();
    let mut i: usize = 0;
    while i < words.len()
        invariant
            i <= words.len(),
            pool_well_formed(words@),
            history_well_formed(guesses@),
            kept@ == words@.take(i as int).filter(admitted_by(guesses@)),
            pool_well_formed(kept@),
        decreases words.len() - i,
    {
        proof {
            lemma_filter_take_next(words@, admitted_by(guesses@), i as int);
        }
        if filter_word_by_guesses(&words[i], guesses) {
            kept.push(words[i].clone());
        }
        i = i + 1;
    }
    assert(words@.take(words.len() as int) =~= words@);
    kept
}

} // verus!
