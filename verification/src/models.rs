//! The shared data model: feedback kinds, feedback entries and candidate words.

use vstd::prelude::*;

verus! {

/// Number of letters in every word of the puzzle, and so the number of
/// feedback entries that one guess produces.
pub const WORD_LENGTH: usize = 5;

/// Feedback on one letter of a guess.
#[derive(PartialEq, Eq, Clone, Copy, PartialOrd, Ord, Debug)]
pub enum Color {
    /// The letter does not occur in the answer, beyond the occurrences that
    /// the same guess reports as `Yellow` or `Green`.
    Grey,
    /// The letter occurs in the answer, but not at this position.
    Yellow,
    /// The letter stands at this position in the answer.
    Green,
}

/// One observed data point: the feedback on one letter of one guess.
#[derive(Clone, Copy, Debug, PartialEq, Eq)]
pub struct Guess {
    /// The guessing turn that the entry belongs to.
    pub turn: usize,
    /// The guessed letter.
    pub letter: char,
    /// The position of the letter in the guess, counted from zero.
    pub position: usize,
    /// The feedback received for the letter.
    pub color: Color,
}

impl Guess {
    /// The entry points at a position inside a word.
    pub open spec fn well_formed(&self) -> bool {
        self.position < WORD_LENGTH
    }

    /// Tells whether the entry points at a position inside a word.
    pub fn is_well_formed(&self) -> (ok: bool)
        ensures
            ok == self.well_formed(),
    {
        self.position < WORD_LENGTH
    }
}

/// Every entry of a history points at a position inside a word.
pub open spec fn history_well_formed(guesses: Seq<Guess>) -> bool {
    forall|i: int| 0 <= i < guesses.len() ==> (#[trigger] guesses[i]).well_formed()
}

/// Tells whether every entry of the history points at a position inside a
/// word.
pub fn is_history_well_formed(guesses: &[Guess]) -> (ok: bool)
    ensures
        ok == history_well_formed(guesses@),
{
    let mut i: usize = 0;
    while i < guesses.len()
        invariant
            i <= guesses.len(),
            forall|j: int| 0 <= j < i ==> (#[trigger] guesses@[j]).well_formed(),
        decreases guesses.len() - i,
    {
        if !guesses[i].is_well_formed() {
            return false;
        }
        i = i + 1;
    }
    true
}

/// A candidate word of the dictionary.
#[derive(Debug, PartialEq, Eq)]
pub struct Word {
    /// The letters of the word.
    pub word: String,
    /// The score of the word, as the integer code of `crate::score`: a
    /// greater code stands for a greater score, and `0` for a score of zero.
    /// It carries a meaning only once the word has been scored.
    pub entropy: i32,
    /// Whether the word may be the answer, or is accepted as a guess only.
    pub is_answer: bool,
}

impl Word {
    /// The word has exactly `WORD_LENGTH` letters.
    pub open spec fn well_formed(&self) -> bool {
        self.word@.len() == WORD_LENGTH
    }

    /// A word that has not been scored yet.
    pub fn new(word: String, is_answer: bool) -> (made: Word)
        ensures
            made.word == word,
            made.entropy == 0,
            made.is_answer == is_answer,
    {
        Word { word, entropy: 0, is_answer }
    }

    /// Tells whether the word has exactly `WORD_LENGTH` letters.
    pub fn is_well_formed(&self) -> (ok: bool)
        ensures
            ok == self.well_formed(),
    {
        self.word.as_str().unicode_len() == WORD_LENGTH
    }

    /// The letters of the word, one item each.
    pub fn letters(&self) -> (letters: Vec<char>)
        ensures
            letters@ == self.word@,
    {
        let text = self.word.as_str();
        let length: usize = text.unicode_len();
        let mut letters: Vec<char> = Vec::new();
        let mut i: usize = 0;
        while i < length
            invariant
                i <= length,
                length == text@.len(),
                letters@ == text@.take(i as int),
            decreases length - i,
        {
            letters.push(text.get_char(i));
            assert(text@.take(i + 1) =~= text@.take(i as int).push(text@[i as int]));
            i = i + 1;
        }
        assert(text@.take(length as int) =~= text@);
        letters
    }
}

impl Clone for Word {
    fn clone(&self) -> (copy: Self)
        ensures
            copy == *self,
    {
        Word { word: self.word.clone(), entropy: self.entropy, is_answer: self.is_answer }
    }
}

/// Every word of a pool has exactly `WORD_LENGTH` letters.
pub open spec fn pool_well_formed(words: Seq<Word>) -> bool {
    forall|i: int| 0 <= i < words.len() ==> (#[trigger] words[i]).well_formed()
}

/// Tells whether every word of the pool has exactly `WORD_LENGTH` letters.
pub fn is_pool_well_formed(words: &[Word]) -> (ok: bool)
    ensures
        ok == pool_well_formed(words@),
{
    let mut i: usize = 0;
    while i < words.len()
        invariant
            i <= words.len(),
            forall|j: int| 0 <= j < i ==> (#[trigger] words@[j]).well_formed(),
        decreases words.len() - i,
    {
        if !words[i].is_well_formed() {
            return false;
        }
        i = i + 1;
    }
    true
}

/// The word of a dictionary line: not scored yet, and an answer or not as
/// its list says.
pub open spec fn word_of_line(line: String, is_answer: bool) -> Word {
    Word { word: line, entropy: 0, is_answer }
}

/// The pool that two word lists make: first the answers, then the words
/// that are accepted as guesses only, each list in its own order.
pub open spec fn pool_of_lists(answers: Seq<String>, allowed_guesses: Seq<String>) -> Seq<Word> {
    Seq::new(
        answers.len() + allowed_guesses.len(),
        |i: int|
            if i < answers.len() {
                word_of_line(answers[i], true)
            } else {
                word_of_line(allowed_guesses[i - answers.len()], false)
            },
    )
}

/// Appends to the pool one unscored word for each line.
fn extend_with_lines(pool: &mut Vec<Word>, lines: &[String], is_answer: bool)
    ensures
        final(pool)@ == old(pool)@ + Seq::new(
            lines@.len(),
            |i: int| word_of_line(lines@[i], is_answer),
        ),
{
    let ghost before = pool@;
    let mut i: usize = 0;
    while i < lines.len()
        invariant
            i <= lines.len(),
            pool@.len() == before.len() + i,
            forall|j: int| 0 <= j < before.len() ==> pool@[j] == before[j],
            forall|j: int|
                0 <= j < i ==> pool@[before.len() + j] == word_of_line(
                    #[trigger] lines@[j],
                    is_answer,
                ),
        decreases lines.len() - i,
    {
        pool.push(Word::new(lines[i].clone(), is_answer));
        i = i + 1;
    }
    assert(pool@ =~= before + Seq::new(lines@.len(), |i: int| word_of_line(lines@[i], is_answer)));
}

/// Merges the list of answers and the list of words accepted as guesses
/// only into one pool of unscored words: the answers first, each word tagged
/// with the list it came from.
pub fn pool_from_lists(answers: &[String], allowed_guesses: &[String]) -> (pool: Vec<Word>)
    ensures
        pool@ == pool_of_lists(answers@, allowed_guesses@),
{
    let mut pool: Vec<Word> = Vec::new();
    extend_with_lines(&mut pool, answers, true);
    extend_with_lines(&mut pool, allowed_guesses, false);
    assert(pool@ =~= pool_of_lists(answers@, allowed_guesses@));
    pool
}

/// What is handed back for a history: the words that are still possible,
/// with their number and the size of the dictionary they were taken from.
#[derive(Debug, PartialEq, Eq)]
pub struct PossibleWords {
    /// The words that are still possible.
    pub word_list: Vec<Word>,
    /// The number of words in `word_list`.
    pub number_of_words: usize,
    /// The number of words in the whole dictionary.
    pub total_number_of_words: usize,
}

impl PossibleWords {
    /// The counts agree with the list.
    pub open spec fn well_formed(&self) -> bool {
        self.number_of_words == self.word_list@.len()
    }

    /// Puts the list together with its own length and the size of the
    /// dictionary.
    pub fn new(word_list: Vec<Word>, total_number_of_words: usize) -> (made: PossibleWords)
        ensures
            made.word_list == word_list,
            made.number_of_words == word_list@.len(),
            made.total_number_of_words == total_number_of_words,
            made.well_formed(),
    {
        let number_of_words = word_list.len();
        PossibleWords { word_list, number_of_words, total_number_of_words }
    }
}

} // verus!
