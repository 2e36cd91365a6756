//! Laws of the constraint filter.

use crate::filters::{
    admitted_by, admitted_words, confirms_letter_of, entry_admits, expected_total, letter_count,
    word_admitted,
};
use crate::models::{Color, Guess, Word};
use crate::seq_lemmas::{
    lemma_filter_by_equal_predicates, lemma_filter_len_ignores_order, lemma_filter_of_filter,
    lemma_filter_within,
};
use vstd::prelude::*;

verus! {

/// Filtering is idempotent: filtering an already filtered pool again with the
/// same history gives the identical pool.
pub proof fn lemma_filter_idempotent(words: Seq<Word>, guesses: Seq<Guess>)
    ensures
        admitted_words(admitted_words(words, guesses), guesses) == admitted_words(words, guesses),
{
    lemma_filter_of_filter(words, admitted_by(guesses), admitted_by(guesses));
}

/// One more entry raises the expected total of an entry by one where it
/// confirms that entry's letter in that entry's turn, and leaves it as it is
/// elsewhere.
pub proof fn lemma_expected_total_push(guesses: Seq<Guess>, added: Guess, guess: Guess)
    ensures
        expected_total(guesses.push(added), guess) == expected_total(guesses, guess) + if (
        confirms_letter_of(guess))(added) {
            1nat
        } else {
            0nat
        },
{
    reveal(Seq::filter);
    assert(guesses.push(added).drop_last() =~= guesses);
}

/// The added entry confirms a letter of which the history holds, for the
/// same turn, an entry marked `Grey`: the added entry then changes the very
/// count that the `Grey` entry fixes.
pub open spec fn recounts_grey(guesses: Seq<Guess>, added: Guess) -> bool {
    added.color != Color::Grey && exists|i: int|
        0 <= i < guesses.len() && (#[trigger] guesses[i]).color == Color::Grey && guesses[i].turn
            == added.turn && guesses[i].letter == added.letter
}

/// A word that agrees with a history extended by one entry agrees with the
/// history itself, unless the added entry changes a count that a `Grey`
/// entry fixes.
pub proof fn lemma_admitted_before_push(letters: Seq<char>, guesses: Seq<Guess>, added: Guess)
    requires
        !recounts_grey(guesses, added),
        word_admitted(letters, guesses.push(added)),
    ensures
        word_admitted(letters, guesses),
{
    let extended = guesses.push(added);
    assert forall|i: int| 0 <= i < guesses.len() implies entry_admits(
        letters,
        guesses,
        #[trigger] guesses[i],
    ) by {
        assert(extended[i] == guesses[i]);
        assert(entry_admits(letters, extended, extended[i]));
        lemma_expected_total_push(guesses, added, guesses[i]);
    }
}

/// Where the added entry changes a count that a `Grey` entry of the history
/// fixes, no word agrees with both the history and its extension.
pub proof fn lemma_recount_excludes(letters: Seq<char>, guesses: Seq<Guess>, added: Guess)
    requires
        recounts_grey(guesses, added),
        word_admitted(letters, guesses.push(added)),
    ensures
        !word_admitted(letters, guesses),
{
    let extended = guesses.push(added);
    let i = choose|i: int|
        0 <= i < guesses.len() && (#[trigger] guesses[i]).color == Color::Grey && guesses[i].turn
            == added.turn && guesses[i].letter == added.letter;
    assert(extended[i] == guesses[i]);
    assert(entry_admits(letters, extended, extended[i]));
    lemma_expected_total_push(guesses, added, guesses[i]);
    assert(!entry_admits(letters, guesses, guesses[i]));
}

/// Filtering is monotone: with one more entry in the history, the filter
/// keeps only words that it kept before, in the same order.
///
/// This holds of every pool, history and entry but those where the added
/// entry changes a count that a `Grey` entry fixes and some word of the pool
/// agrees with the extended history: of such a word
/// `lemma_recount_excludes` shows that the shorter history rejects it.
pub proof fn lemma_filter_monotone(words: Seq<Word>, guesses: Seq<Guess>, added: Guess)
    requires
        !recounts_grey(guesses, added) || admitted_words(words, guesses.push(added)).len() == 0,
    ensures
        admitted_words(words, guesses.push(added)) == admitted_words(
            admitted_words(words, guesses),
            guesses.push(added),
        ),
        forall|i: int|
            0 <= i < admitted_words(words, guesses.push(added)).len() ==> admitted_words(
                words,
                guesses,
            ).contains(#[trigger] admitted_words(words, guesses.push(added))[i]),
{
    let extended = guesses.push(added);
    let kept = admitted_words(words, guesses);
    if !recounts_grey(guesses, added) {
        assert forall|i: int| 0 <= i < words.len() && admitted_by(extended)(
            #[trigger] words[i],
        ) implies admitted_by(guesses)(words[i]) by {
            lemma_admitted_before_push(words[i].word@, guesses, added);
        }
        lemma_filter_of_filter(words, admitted_by(guesses), admitted_by(extended));
        lemma_filter_within(kept, admitted_by(extended));
    } else {
        lemma_filter_within(words, admitted_by(guesses));
        assert forall|i: int| 0 <= i < kept.len() implies !admitted_by(extended)(
            #[trigger] kept[i],
        ) by {
            if admitted_by(extended)(kept[i]) {
                let j = choose|j: int| 0 <= j < words.len() && words[j] == kept[i];
                words.lemma_filter_contains(admitted_by(extended), j);
            }
        }
        kept.lemma_all_neg_filter_empty(admitted_by(extended));
        assert(admitted_words(kept, extended) =~= admitted_words(words, extended));
    }
}

/// Monotonicity fails wherever `lemma_filter_monotone` does not speak: where
/// the added entry changes a count that a `Grey` entry fixes and the longer
/// history keeps a word at all, the shorter history does not keep that word.
pub proof fn lemma_filter_not_monotone(words: Seq<Word>, guesses: Seq<Guess>, added: Guess)
    requires
        recounts_grey(guesses, added),
        admitted_words(words, guesses.push(added)).len() > 0,
    ensures
        !admitted_words(words, guesses).contains(admitted_words(words, guesses.push(added))[0]),
{
    let word = admitted_words(words, guesses.push(added))[0];
    lemma_filter_within(words, admitted_by(guesses.push(added)));
    lemma_recount_excludes(word.word@, guesses, added);
    if admitted_words(words, guesses).contains(word) {
        let i = choose|i: int|
            0 <= i < admitted_words(words, guesses).len() && admitted_words(words, guesses)[i]
                == word;
        lemma_filter_within(words, admitted_by(guesses));
    }
}

/// An entry marked `Grey` fixes how often its letter occurs: every word that
/// the filter keeps holds the letter exactly as often as the entry's turn
/// confirms it, so words with more occurrences are excluded, and words with
/// fewer.
pub proof fn lemma_grey_fixes_letter_count(
    words: Seq<Word>,
    guesses: Seq<Guess>,
    entry: int,
    kept: int,
)
    requires
        0 <= entry < guesses.len(),
        guesses[entry].color == Color::Grey,
        0 <= kept < admitted_words(words, guesses).len(),
    ensures
        letter_count(admitted_words(words, guesses)[kept].word@, guesses[entry].letter)
            == expected_total(guesses, guesses[entry]),
{
    lemma_filter_within(words, admitted_by(guesses));
    let word = admitted_words(words, guesses)[kept];
    assert(word_admitted(word.word@, guesses));
    assert(entry_admits(word.word@, guesses, guesses[entry]));
}

/// A word agrees with a history whenever it agrees with another that holds
/// the same entries.
proof fn lemma_admitted_by_same_entries(letters: Seq<char>, first: Seq<Guess>, second: Seq<Guess>)
    requires
        first.to_multiset() == second.to_multiset(),
        word_admitted(letters, first),
    ensures
        word_admitted(letters, second),
{
    first.to_multiset_ensures();
    second.to_multiset_ensures();
    assert forall|j: int| 0 <= j < second.len() implies entry_admits(
        letters,
        second,
        #[trigger] second[j],
    ) by {
        assert(second.contains(second[j]));
        assert(second.to_multiset().count(second[j]) > 0);
        assert(first.to_multiset().count(second[j]) > 0);
        assert(first.contains(second[j]));
        let i = choose|i: int| 0 <= i < first.len() && first[i] == second[j];
        assert(entry_admits(letters, first, first[i]));
        lemma_filter_len_ignores_order(first, second, confirms_letter_of(second[j]));
    }
}

/// The order of the entries in a history does not matter: two histories
/// that hold the same entries, each as often as the other, admit the same
/// words.
pub proof fn lemma_filter_ignores_order(words: Seq<Word>, first: Seq<Guess>, second: Seq<Guess>)
    requires
        first.to_multiset() == second.to_multiset(),
    ensures
        admitted_words(words, first) == admitted_words(words, second),
{
    assert forall|i: int| 0 <= i < words.len() implies admitted_by(first)(#[trigger] words[i])
        == admitted_by(second)(words[i]) by {
        if word_admitted(words[i].word@, first) {
            lemma_admitted_by_same_entries(words[i].word@, first, second);
        }
        if word_admitted(words[i].word@, second) {
            lemma_admitted_by_same_entries(words[i].word@, second, first);
        }
    }
    lemma_filter_by_equal_predicates(words, admitted_by(first), admitted_by(second));
}

} // verus!
