//! How the feedback patterns divide the pool.
//!
//! Whatever the guess, every word of the pool agrees with at least one of
//! the feedback patterns, so the shares of the patterns cover the pool.
//! Guessing a word whose letters are all different divides the pool cleanly:
//! every word agrees with exactly one pattern, and the shares add up to the
//! whole pool. With a repeated letter in the guess a word may agree with
//! several patterns.

use crate::entropy::{entropy_terms, repeated_letters, share_of_pool, Share};
use crate::feedback::{
    answer_color, answer_colors, feedback_entry, feedback_on, misplaced, one_if, placed,
};
use crate::feedback_laws::lemma_admitted_by_own_feedback;
use crate::filters::{
    admitted_by, admitted_words, confirms_letter_of, entry_admits, expected_total, word_admitted,
};
use crate::models::{pool_well_formed, Color, Guess, Word, WORD_LENGTH};
use crate::pattern_laws::{lemma_number_of_pattern, lemma_pattern_of_number};
use crate::patterns::{number_of, pattern, PATTERN_COUNT};
use crate::seq_lemmas::lemma_filter_len_remove;
use vstd::prelude::*;

verus! {

/// In the feedback on a guess without repeated letters, an entry's letter is
/// confirmed once if the entry is not `Grey`, and not at all if it is.
proof fn lemma_expected_total_without_repeats(letters: Seq<char>, colors: Seq<Color>, at: int)
    requires
        letters.len() == colors.len(),
        letters.no_duplicates(),
        0 <= at < colors.len(),
    ensures
        expected_total(feedback_on(letters, colors), feedback_on(letters, colors)[at]) == if colors[at]
            != Color::Grey {
            1nat
        } else {
            0nat
        },
{
    let entries = feedback_on(letters, colors);
    let confirms = confirms_letter_of(entries[at]);
    let others = entries.remove(at);
    assert(others.all(|entry: Guess| !confirms(entry))) by {
        assert forall|j: int| 0 <= j < others.len() implies !confirms(#[trigger] others[j]) by {
            let from = if j < at {
                j
            } else {
                j + 1
            };
            assert(others[j] == entries[from]);
            assert(entries[from].letter == letters[from]);
            assert(entries[at].letter == letters[at]);
        }
    }
    others.lemma_all_neg_filter_empty(confirms);
    lemma_filter_len_remove(entries, confirms, at);
}

/// Of a guess without repeated letters, the first `end` positions place a
/// letter once if they reach the position that holds it and the word holds
/// it there too, and misplace it once if they reach that position and the
/// word holds another letter there.
proof fn lemma_placed_without_repeats(word: Seq<char>, guess: Seq<char>, at: int, end: int)
    requires
        guess.no_duplicates(),
        0 <= at < guess.len(),
        0 <= end <= guess.len(),
    ensures
        placed(word, guess, guess[at], end) == one_if(at < end && word[at] == guess[at]),
        misplaced(word, guess, guess[at], end) == one_if(at < end && word[at] != guess[at]),
    decreases end,
{
    if end > 0 {
        lemma_placed_without_repeats(word, guess, at, end - 1);
    }
}

/// A word agrees with the feedback on a guess without repeated letters
/// exactly if the feedback shows the colors that the puzzle gives the guess
/// when the word is the answer.
pub proof fn lemma_admitted_is_answer_feedback(
    word: Seq<char>,
    guess: Seq<char>,
    colors: Seq<Color>,
)
    requires
        guess.len() == WORD_LENGTH,
        colors.len() == WORD_LENGTH,
        guess.no_duplicates(),
    ensures
        word_admitted(word, feedback_on(guess, colors)) <==> colors == answer_colors(word, guess),
{
    let entries = feedback_on(guess, colors);
    assert forall|i: int| 0 <= i < WORD_LENGTH implies (entry_admits(
        word,
        entries,
        #[trigger] entries[i],
    ) <==> colors[i] == answer_color(word, guess, i)) by {
        lemma_expected_total_without_repeats(guess, colors, i);
        lemma_placed_without_repeats(word, guess, i, WORD_LENGTH as int);
        lemma_placed_without_repeats(word, guess, i, i);
        assert(entries[i] == feedback_entry(0, guess, colors, i));
    }
    if word_admitted(word, entries) {
        assert forall|i: int| 0 <= i < WORD_LENGTH implies colors[i] == answer_colors(
            word,
            guess,
        )[i] by {
            assert(entry_admits(word, entries, entries[i]));
        }
        assert(colors =~= answer_colors(word, guess));
    }
    if colors == answer_colors(word, guess) {
        assert forall|i: int| 0 <= i < entries.len() implies entry_admits(
            word,
            entries,
            #[trigger] entries[i],
        ) by {
            assert(colors[i] == answer_color(word, guess, i));
        }
    }
}

/// The number of the feedback pattern that the puzzle gives a guess when
/// the word is the answer.
pub open spec fn answer_number(word: Seq<char>, guess: Seq<char>) -> int {
    number_of(answer_colors(word, guess))
}

/// Of the feedback patterns on a guess without repeated letters, a word
/// agrees with the one that the puzzle gives when the word is the answer,
/// and with no other.
pub proof fn lemma_agrees_with_one_pattern(word: Seq<char>, guess: Seq<char>, number: int)
    requires
        guess.len() == WORD_LENGTH,
        guess.no_duplicates(),
        0 <= number < PATTERN_COUNT,
    ensures
        0 <= answer_number(word, guess) < PATTERN_COUNT,
        word_admitted(word, feedback_on(guess, pattern(number))) <==> number == answer_number(
            word,
            guess,
        ),
{
    lemma_admitted_is_answer_feedback(word, guess, pattern(number));
    lemma_pattern_of_number(answer_colors(word, guess));
    lemma_number_of_pattern(number);
}

/// The number of words that the shares hold together; a pattern without a
/// share holds none.
pub open spec fn matching_total(shares: Seq<Option<Share>>) -> nat
    decreases shares.len(),
{
    if shares.len() == 0 {
        0
    } else {
        matching_total(shares.drop_last()) + match shares.last() {
            Some(share) => share.matching as nat,
            None => 0nat,
        }
    }
}

/// How many words of the pool agree with the patterns below `patterns`,
/// added up pattern by pattern.
spec fn agreeing_total(guess: Seq<char>, pool: Seq<Word>, patterns: nat) -> nat
    decreases patterns,
{
    if patterns == 0 {
        0
    } else {
        agreeing_total(guess, pool, (patterns - 1) as nat) + admitted_words(
            pool,
            feedback_on(guess, pattern(patterns - 1)),
        ).len()
    }
}

/// With how many of the patterns below `patterns` the word agrees.
spec fn agreements(guess: Seq<char>, word: Word, patterns: nat) -> nat
    decreases patterns,
{
    if patterns == 0 {
        0
    } else {
        agreements(guess, word, (patterns - 1) as nat) + if word_admitted(
            word.word@,
            feedback_on(guess, pattern(patterns - 1)),
        ) {
            1nat
        } else {
            0nat
        }
    }
}

/// The first shares of a word's entropy terms hold as many words as agree
/// with the first patterns.
proof fn lemma_matching_total_of_terms(guess: Seq<char>, pool: Seq<Word>, patterns: nat)
    requires
        patterns <= PATTERN_COUNT,
        pool.len() <= usize::MAX,
    ensures
        matching_total(entropy_terms(guess, pool).shares.take(patterns as int)) == agreeing_total(
            guess,
            pool,
            patterns,
        ),
    decreases patterns,
{
    let shares = entropy_terms(guess, pool).shares;
    if patterns > 0 {
        lemma_matching_total_of_terms(guess, pool, (patterns - 1) as nat);
        let feedback = feedback_on(guess, pattern(patterns - 1));
        assert(shares.take(patterns as int).drop_last() =~= shares.take(patterns - 1));
        assert(shares.take(patterns as int).last() == share_of_pool(pool, feedback));
        pool.lemma_filter_len(admitted_by(feedback));
    }
}

/// One more word in the pool adds to the total, pattern by pattern, the
/// patterns that the word agrees with.
proof fn lemma_agreeing_total_push(guess: Seq<char>, pool: Seq<Word>, patterns: nat)
    requires
        pool.len() > 0,
    ensures
        agreeing_total(guess, pool, patterns) == agreeing_total(guess, pool.drop_last(), patterns)
            + agreements(guess, pool.last(), patterns),
    decreases patterns,
{
    if patterns > 0 {
        lemma_agreeing_total_push(guess, pool, (patterns - 1) as nat);
        reveal(Seq::filter);
    }
}

/// With no word in the pool, no word agrees with any pattern.
proof fn lemma_agreeing_total_of_empty_pool(guess: Seq<char>, pool: Seq<Word>, patterns: nat)
    requires
        pool.len() == 0,
    ensures
        agreeing_total(guess, pool, patterns) == 0,
    decreases patterns,
{
    if patterns > 0 {
        lemma_agreeing_total_of_empty_pool(guess, pool, (patterns - 1) as nat);
        pool.lemma_filter_len(admitted_by(feedback_on(guess, pattern(patterns - 1))));
    }
}

/// Among the patterns below `patterns`, a word agrees with the one that the
/// puzzle gives when the word is the answer, if that one is among them, and
/// with no other.
proof fn lemma_agreements_count(guess: Seq<char>, word: Word, patterns: nat)
    requires
        guess.len() == WORD_LENGTH,
        guess.no_duplicates(),
        patterns <= PATTERN_COUNT,
    ensures
        agreements(guess, word, patterns) == if answer_number(word.word@, guess) < patterns {
            1nat
        } else {
            0nat
        },
    decreases patterns,
{
    if patterns > 0 {
        lemma_agreements_count(guess, word, (patterns - 1) as nat);
        lemma_agrees_with_one_pattern(word.word@, guess, patterns - 1);
    }
}

/// Over all the patterns on a guess without repeated letters, every word of
/// the pool is counted once.
proof fn lemma_agreeing_total_is_pool(guess: Seq<char>, pool: Seq<Word>)
    requires
        guess.len() == WORD_LENGTH,
        guess.no_duplicates(),
    ensures
        agreeing_total(guess, pool, PATTERN_COUNT as nat) == pool.len(),
    decreases pool.len(),
{
    if pool.len() == 0 {
        lemma_agreeing_total_of_empty_pool(guess, pool, PATTERN_COUNT as nat);
    } else {
        lemma_agreeing_total_is_pool(guess, pool.drop_last());
        lemma_agreeing_total_push(guess, pool, PATTERN_COUNT as nat);
        lemma_agreements_count(guess, pool.last(), PATTERN_COUNT as nat);
        lemma_agrees_with_one_pattern(pool.last().word@, guess, 0);
    }
}

/// The feedback patterns on a guess without repeated letters divide the
/// pool: every word of the pool agrees with exactly one pattern, so the
/// shares of the patterns hold, taken together, every word of the pool once.
/// The probabilities that the shares stand for then add up to one.
pub proof fn lemma_patterns_divide_pool(guess: Seq<char>, pool: Seq<Word>)
    requires
        guess.len() == WORD_LENGTH,
        repeated_letters(guess) == 0,
        pool.len() <= usize::MAX,
    ensures
        matching_total(entropy_terms(guess, pool).shares) == pool.len(),
{
    guess.lemma_cardinality_of_set();
    guess.lemma_no_dup_set_cardinality();
    let shares = entropy_terms(guess, pool).shares;
    assert(shares.take(PATTERN_COUNT as int) =~= shares);
    lemma_matching_total_of_terms(guess, pool, PATTERN_COUNT as nat);
    lemma_agreeing_total_is_pool(guess, pool);
}

/// A word that agrees with one of the patterns below `patterns` is counted
/// at least once among them.
proof fn lemma_agreements_at_least_one(
    guess: Seq<char>,
    word: Word,
    number: int,
    patterns: nat,
)
    requires
        0 <= number < patterns,
        word_admitted(word.word@, feedback_on(guess, pattern(number))),
    ensures
        agreements(guess, word, patterns) >= 1,
    decreases patterns,
{
    if number < patterns - 1 {
        lemma_agreements_at_least_one(guess, word, number, (patterns - 1) as nat);
    }
}

/// Over all the patterns, every word of the pool is counted at least once.
proof fn lemma_agreeing_total_covers_pool(guess: Seq<char>, pool: Seq<Word>)
    requires
        guess.len() == WORD_LENGTH,
        pool_well_formed(pool),
    ensures
        agreeing_total(guess, pool, PATTERN_COUNT as nat) >= pool.len(),
    decreases pool.len(),
{
    if pool.len() > 0 {
        let word = pool.last();
        assert(pool_well_formed(pool.drop_last())) by {
            assert forall|i: int| 0 <= i < pool.drop_last().len() implies (
            #[trigger] pool.drop_last()[i]).well_formed() by {
                assert(pool.drop_last()[i] == pool[i]);
            }
        }
        lemma_agreeing_total_covers_pool(guess, pool.drop_last());
        lemma_agreeing_total_push(guess, pool, PATTERN_COUNT as nat);
        let colors = answer_colors(word.word@, guess);
        lemma_admitted_by_own_feedback(0, word.word@, guess);
        lemma_pattern_of_number(colors);
        lemma_agreements_at_least_one(guess, word, number_of(colors), PATTERN_COUNT as nat);
    }
}

/// The feedback patterns cover the pool, whatever the guess: every word of
/// the pool agrees with at least one pattern, the one that the puzzle gives
/// the guess when that word is the answer. So the shares of the patterns
/// hold, taken together, every word of the pool at least once.
pub proof fn lemma_patterns_cover_pool(guess: Seq<char>, pool: Seq<Word>)
    requires
        guess.len() == WORD_LENGTH,
        pool_well_formed(pool),
        pool.len() <= usize::MAX,
    ensures
        matching_total(entropy_terms(guess, pool).shares) >= pool.len(),
{
    let shares = entropy_terms(guess, pool).shares;
    assert(shares.take(PATTERN_COUNT as int) =~= shares);
    lemma_matching_total_of_terms(guess, pool, PATTERN_COUNT as nat);
    lemma_agreeing_total_covers_pool(guess, pool);
}

} // verus!
