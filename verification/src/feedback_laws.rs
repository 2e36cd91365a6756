//! Laws of the puzzle's feedback: the filter never rejects the answer.

use crate::feedback::{
    answer_color, answer_colors, feedback_entry, misplaced, one_if, placed, truthful_feedback,
};
use crate::filters::{
    confirms_letter_of, entry_admits, expected_total, is_letter, letter_count, word_admitted,
};
use crate::models::{Color, Guess, WORD_LENGTH};
use crate::seq_lemmas::lemma_filter_take_next;
use vstd::prelude::*;

verus! {

/// How many of the first `end` positions of the guess hold `letter` and are
/// given `Yellow` when the word is the answer.
spec fn yellows(word: Seq<char>, guess: Seq<char>, letter: char, end: int) -> nat
    decreases end,
{
    if end <= 0 {
        0
    } else {
        yellows(word, guess, letter, end - 1) + one_if(
            guess[end - 1] == letter && answer_color(word, guess, end - 1) == Color::Yellow,
        )
    }
}

/// A word holds a letter at least as often as a guess places it.
proof fn lemma_placed_within_count(word: Seq<char>, guess: Seq<char>, letter: char, end: int)
    requires
        0 <= end <= word.len(),
    ensures
        placed(word, guess, letter, end) <= letter_count(word.take(end), letter),
    decreases end,
{
    if end > 0 {
        lemma_placed_within_count(word, guess, letter, end - 1);
        lemma_filter_take_next(word, is_letter(letter), end - 1);
    } else {
        word.take(0).lemma_filter_len(is_letter(letter));
    }
}

/// The misplaced occurrences of a letter grow in number from left to right.
proof fn lemma_misplaced_grows(
    word: Seq<char>,
    guess: Seq<char>,
    letter: char,
    start: int,
    end: int,
)
    requires
        0 <= start <= end,
    ensures
        misplaced(word, guess, letter, start) <= misplaced(word, guess, letter, end),
    decreases end,
{
    if start < end {
        lemma_misplaced_grows(word, guess, letter, start, end - 1);
    }
}

/// Of the misplaced occurrences of a letter, the leftmost are given
/// `Yellow`: as many as the word holds of the letter beyond those that the
/// guess has placed, or all of them if they are fewer.
proof fn lemma_yellows_count(word: Seq<char>, guess: Seq<char>, letter: char, end: int)
    requires
        0 <= end,
        placed(word, guess, letter, WORD_LENGTH as int) <= letter_count(word, letter),
    ensures
        yellows(word, guess, letter, end) == if misplaced(word, guess, letter, end)
            <= letter_count(word, letter) - placed(word, guess, letter, WORD_LENGTH as int) {
            misplaced(word, guess, letter, end) as int
        } else {
            letter_count(word, letter) - placed(word, guess, letter, WORD_LENGTH as int)
        },
    decreases end,
{
    if end > 0 {
        lemma_yellows_count(word, guess, letter, end - 1);
    }
}

/// In the feedback that the puzzle gives when the word is the answer, the
/// first entries confirm a letter as often as the guess has placed it or
/// has been given `Yellow` for it so far.
proof fn lemma_confirmed_so_far(
    turn: usize,
    word: Seq<char>,
    guess: Seq<char>,
    at: int,
    end: int,
)
    requires
        guess.len() == WORD_LENGTH,
        0 <= at < WORD_LENGTH,
        0 <= end <= WORD_LENGTH,
    ensures
        truthful_feedback(turn, word, guess).take(end).filter(
            confirms_letter_of(truthful_feedback(turn, word, guess)[at]),
        ).len() == placed(word, guess, guess[at], end) + yellows(word, guess, guess[at], end),
    decreases end,
{
    let colors = answer_colors(word, guess);
    let entries = truthful_feedback(turn, word, guess);
    let confirms = confirms_letter_of(entries[at]);
    assert(entries[at] == feedback_entry(turn, guess, colors, at));
    if end > 0 {
        lemma_confirmed_so_far(turn, word, guess, at, end - 1);
        lemma_filter_take_next(entries, confirms, end - 1);
        assert(entries[end - 1] == feedback_entry(turn, guess, colors, end - 1));
        assert(colors[end - 1] == answer_color(word, guess, end - 1));
    } else {
        entries.take(0).lemma_filter_len(confirms);
    }
}

/// A word agrees with the feedback that the puzzle gives when the word is
/// the answer, whatever the guess.
pub proof fn lemma_admitted_by_own_feedback(turn: usize, word: Seq<char>, guess: Seq<char>)
    requires
        word.len() == WORD_LENGTH,
        guess.len() == WORD_LENGTH,
    ensures
        word_admitted(word, truthful_feedback(turn, word, guess)),
{
    let colors = answer_colors(word, guess);
    let entries = truthful_feedback(turn, word, guess);
    assert forall|i: int| 0 <= i < entries.len() implies entry_admits(
        word,
        entries,
        #[trigger] entries[i],
    ) by {
        let letter = guess[i];
        assert(entries[i] == feedback_entry(turn, guess, colors, i));
        assert(colors[i] == answer_color(word, guess, i));
        assert(word.take(WORD_LENGTH as int) =~= word);
        assert(entries.take(WORD_LENGTH as int) =~= entries);
        lemma_placed_within_count(word, guess, letter, WORD_LENGTH as int);
        lemma_confirmed_so_far(turn, word, guess, i, WORD_LENGTH as int);
        lemma_yellows_count(word, guess, letter, WORD_LENGTH as int);
        lemma_misplaced_grows(word, guess, letter, i + 1, WORD_LENGTH as int);
    }
}

/// No entry of the history belongs to the given turn.
pub open spec fn turn_is_new(guesses: Seq<Guess>, turn: usize) -> bool {
    forall|i: int| 0 <= i < guesses.len() ==> (#[trigger] guesses[i]).turn != turn
}

/// Entries of other turns do not change what a turn confirms: the expected
/// total of an entry, taken over two histories put together, is that over
/// the one that holds the entry's turn, where the other holds none of it.
proof fn lemma_expected_total_of_joined(first: Seq<Guess>, second: Seq<Guess>, guess: Guess)
    ensures
        turn_is_new(first, guess.turn) ==> expected_total(first + second, guess) == expected_total(
            second,
            guess,
        ),
        turn_is_new(second, guess.turn) ==> expected_total(first + second, guess)
            == expected_total(first, guess),
{
    let confirms = confirms_letter_of(guess);
    Seq::filter_distributes_over_add(first, second, confirms);
    if turn_is_new(first, guess.turn) {
        assert(first.all(|entry: Guess| !confirms(entry)));
        first.lemma_all_neg_filter_empty(confirms);
    }
    if turn_is_new(second, guess.turn) {
        assert(second.all(|entry: Guess| !confirms(entry)));
        second.lemma_all_neg_filter_empty(confirms);
    }
}

/// The filter never rejects the answer: a word that agrees with a history
/// still agrees with it after one more turn in which the puzzle, with that
/// word as the answer, has given its feedback on any guess.
pub proof fn lemma_answer_survives_truthful_turn(
    answer: Seq<char>,
    guesses: Seq<Guess>,
    guess: Seq<char>,
    turn: usize,
)
    requires
        answer.len() == WORD_LENGTH,
        guess.len() == WORD_LENGTH,
        turn_is_new(guesses, turn),
        word_admitted(answer, guesses),
    ensures
        word_admitted(answer, guesses + truthful_feedback(turn, answer, guess)),
{
    let added = truthful_feedback(turn, answer, guess);
    let all = guesses + added;
    lemma_admitted_by_own_feedback(turn, answer, guess);
    assert forall|i: int| 0 <= i < all.len() implies entry_admits(answer, all, #[trigger] all[i]) by {
        lemma_expected_total_of_joined(guesses, added, all[i]);
        if i < guesses.len() {
            assert(all[i] == guesses[i]);
            assert(entry_admits(answer, guesses, guesses[i]));
            assert(turn_is_new(added, all[i].turn)) by {
                assert forall|j: int| 0 <= j < added.len() implies (#[trigger] added[j]).turn
                    != all[i].turn by {
                    assert(added[j] == feedback_entry(
                        turn,
                        guess,
                        answer_colors(answer, guess),
                        j,
                    ));
                }
            }
        } else {
            let j = i - guesses.len();
            assert(all[i] == added[j]);
            assert(added[j] == feedback_entry(turn, guess, answer_colors(answer, guess), j));
            assert(entry_admits(answer, added, added[j]));
        }
    }
}

} // verus!
