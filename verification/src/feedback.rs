//! The feedback that the puzzle gives on a guess.

use crate::filters::letter_count;
use crate::models::{Color, Guess, WORD_LENGTH};
use vstd::prelude::*;

verus! {

/// The feedback entry of the given turn that gives the letter at `position`
/// the color at `position`.
pub open spec fn feedback_entry(
    turn: usize,
    letters: Seq<char>,
    colors: Seq<Color>,
    position: int,
) -> Guess {
    Guess {
        turn,
        letter: letters[position],
        position: position as usize,
        color: colors[position],
    }
}

/// The feedback of one turn that colors the given letters with the given
/// colors, position by position.
pub open spec fn feedback_in_turn(turn: usize, letters: Seq<char>, colors: Seq<Color>) -> Seq<
    Guess,
> {
    Seq::new(colors.len(), |position: int| feedback_entry(turn, letters, colors, position))
}

/// The feedback that colors the given letters with the given colors, as the
/// scorer writes it out: its turn is numbered zero.
pub open spec fn feedback_on(letters: Seq<char>, colors: Seq<Color>) -> Seq<Guess> {
    feedback_in_turn(0, letters, colors)
}

/// One for a condition that holds, nothing for one that does not.
pub open spec fn one_if(condition: bool) -> nat {
    if condition {
        1
    } else {
        0
    }
}

/// How many of the first `end` positions of the guess hold `letter` where the
/// word holds it too.
pub open spec fn placed(word: Seq<char>, guess: Seq<char>, letter: char, end: int) -> nat
    decreases end,
{
    if end <= 0 {
        0
    } else {
        placed(word, guess, letter, end - 1) + one_if(
            guess[end - 1] == letter && word[end - 1] == letter,
        )
    }
}

/// How many of the first `end` positions of the guess hold `letter` where the
/// word holds another letter.
pub open spec fn misplaced(word: Seq<char>, guess: Seq<char>, letter: char, end: int) -> nat
    decreases end,
{
    if end <= 0 {
        0
    } else {
        misplaced(word, guess, letter, end - 1) + one_if(
            guess[end - 1] == letter && word[end - 1] != letter,
        )
    }
}

/// The color that the puzzle gives the letter at `position` of a guess when
/// the word is the answer: `Green` where the word holds the letter there;
/// else `Yellow` where the word holds the letter more often than the guess
/// places it anywhere and misplaces it to the left of the position, so that
/// an occurrence in the word is left for this one; else `Grey`.
pub open spec fn answer_color(word: Seq<char>, guess: Seq<char>, position: int) -> Color {
    let letter = guess[position];
    if word[position] == letter {
        Color::Green
    } else if placed(word, guess, letter, WORD_LENGTH as int) + misplaced(
        word,
        guess,
        letter,
        position,
    ) < letter_count(word, letter) {
        Color::Yellow
    } else {
        Color::Grey
    }
}

/// The colors that the puzzle gives a guess when the word is the answer.
pub open spec fn answer_colors(word: Seq<char>, guess: Seq<char>) -> Seq<Color> {
    Seq::new(WORD_LENGTH as nat, |position: int| answer_color(word, guess, position))
}

/// The feedback that the puzzle gives in the given turn on a guess when the
/// word is the answer.
pub open spec fn truthful_feedback(turn: usize, word: Seq<char>, guess: Seq<char>) -> Seq<Guess> {
    feedback_in_turn(turn, guess, answer_colors(word, guess))
}

} // verus!
