use wordle_solver::entropy::{
    calculate_entropy_for_word, calculate_entropy_from_one_guess, calculate_entropy_terms,
    count_repeated_letters, count_words_by_guesses, feedback_for_pattern, EntropyTerms, Share,
};
use wordle_solver::models::{Color, Guess, Word};
use wordle_solver::patterns::{feedback_patterns, PATTERN_COUNT};

fn word(text: &str) -> Word {
    Word::new(text.to_string(), true)
}

fn words(texts: &[&str]) -> Vec<Word> {
    texts.iter().map(|text| word(text)).collect()
}

fn share(matching: usize, total: usize) -> Option<Share> {
    Some(Share { matching, total })
}

fn color_of(digit: usize) -> Color {
    match digit {
        0 => Color::Grey,
        1 => Color::Yellow,
        _ => Color::Green,
    }
}

/// The expected information in bits that the shares stand for.
fn bits_of_information(terms: &EntropyTerms) -> f64 {
    terms
        .shares
        .iter()
        .flatten()
        .map(|share| {
            let probability = share.matching as f64 / share.total as f64;
            probability * (1.0 / probability).log2()
        })
        .sum()
}

#[test]
fn patterns_run_like_an_odometer() {
    let patterns = feedback_patterns();
    assert_eq!(patterns.len(), PATTERN_COUNT);
    assert_eq!(patterns.len(), 243);
    assert_eq!(patterns[0], vec![Color::Grey; 5]);
    assert_eq!(
        patterns[1],
        vec![Color::Grey, Color::Grey, Color::Grey, Color::Grey, Color::Yellow]
    );
    assert_eq!(
        patterns[5],
        vec![Color::Grey, Color::Grey, Color::Grey, Color::Yellow, Color::Green]
    );
    assert_eq!(
        patterns[81],
        vec![Color::Yellow, Color::Grey, Color::Grey, Color::Grey, Color::Grey]
    );
    assert_eq!(patterns[242], vec![Color::Green; 5]);
}

#[test]
fn every_pattern_spells_its_number_in_base_three() {
    let patterns = feedback_patterns();
    for (number, pattern) in patterns.iter().enumerate() {
        let expected = vec![
            color_of(number / 81 % 3),
            color_of(number / 27 % 3),
            color_of(number / 9 % 3),
            color_of(number / 3 % 3),
            color_of(number % 3),
        ];
        assert_eq!(pattern, &expected);
    }
}

#[test]
fn scoring_an_empty_pool_gives_an_empty_list() {
    assert!(calculate_entropy_terms(&[]).is_empty());
}

#[test]
fn against_an_empty_pool_no_pattern_has_a_share() {
    let terms = calculate_entropy_for_word(&word("crane"), &[]);
    assert_eq!(terms.shares, vec![None; 243]);
    assert_eq!(terms.repeated_letters, 0);
    assert_eq!(bits_of_information(&terms), 0.0);
}

#[test]
fn a_lone_word_meets_only_the_all_green_pattern() {
    let pool = words(&["crane"]);
    let terms = calculate_entropy_for_word(&pool[0], &pool);
    assert_eq!(terms.shares.len(), PATTERN_COUNT);
    assert_eq!(terms.repeated_letters, 0);
    for number in 0..PATTERN_COUNT - 1 {
        assert_eq!(terms.shares[number], None);
    }
    assert_eq!(terms.shares[PATTERN_COUNT - 1], share(1, 1));
    assert_eq!(bits_of_information(&terms), 0.0);
}

#[test]
fn two_words_without_a_common_letter_split_the_pool_in_halves() {
    let pool = words(&["aaaaa", "bbbbb"]);
    let terms = calculate_entropy_for_word(&pool[0], &pool);
    let mut expected = vec![None; 243];
    expected[0] = share(1, 2);
    expected[242] = share(1, 2);
    assert_eq!(terms.shares, expected);
    assert_eq!(terms.repeated_letters, 4);
    assert_eq!(bits_of_information(&terms), 1.0);
}

#[test]
fn shares_of_a_guess_with_distinct_letters() {
    let pool = words(&["crane", "crate", "slate", "pious"]);
    let terms = calculate_entropy_for_word(&pool[0], &pool);
    let mut expected = vec![None; 243];
    // crane against crane: all green.
    expected[242] = share(1, 4);
    // crane against crate: c, r, a, e green, n grey.
    expected[2 * 81 + 2 * 27 + 2 * 9 + 2] = share(1, 4);
    // crane against slate: a and e green, the others grey.
    expected[2 * 9 + 2] = share(1, 4);
    // crane against pious: all grey.
    expected[0] = share(1, 4);
    assert_eq!(terms.shares, expected);
    assert_eq!(terms.repeated_letters, 0);
    assert_eq!(bits_of_information(&terms), 2.0);
}

#[test]
fn a_repeated_letter_can_meet_a_word_under_several_patterns() {
    let pool = words(&["melee", "eight"]);
    let terms = calculate_entropy_for_word(&pool[0], &pool);
    let mut expected = vec![None; 243];
    expected[242] = share(1, 2);
    // eight holds one e, at none of the places where melee has one: any one
    // of the three may be the yellow one.
    expected[27] = share(1, 2);
    expected[3] = share(1, 2);
    expected[1] = share(1, 2);
    assert_eq!(terms.shares, expected);
    assert_eq!(terms.repeated_letters, 2);
}

#[test]
fn information_lies_between_zero_and_the_bits_of_the_pool() {
    let pool = words(&["crane", "crate", "slate", "pious", "mound", "light", "fjord"]);
    let upper = (pool.len() as f64).log2();
    for terms in calculate_entropy_terms(&pool) {
        let bits = bits_of_information(&terms);
        assert!(0.0 <= bits && bits <= upper);
        for share in terms.shares.iter().flatten() {
            assert!(0 < share.matching && share.matching <= share.total);
            assert_eq!(share.total, pool.len());
        }
    }
}

#[test]
fn scoring_in_parallel_agrees_with_scoring_word_by_word() {
    let pool = words(&[
        "crane", "crate", "slate", "pious", "mound", "light", "fjord", "melee", "eight", "tenet",
        "tests", "aloof", "xenon", "achoo", "cocoa",
    ]);
    let together = calculate_entropy_terms(&pool);
    let one_by_one: Vec<EntropyTerms> = pool
        .iter()
        .map(|word| calculate_entropy_for_word(word, &pool))
        .collect();
    assert_eq!(together, one_by_one);
    assert_ne!(together[0], together[1]);
}

#[test]
fn scoring_twice_gives_the_same_terms() {
    let pool = words(&["crane", "crate", "slate", "melee", "eight", "tenet", "tests"]);
    assert_eq!(calculate_entropy_terms(&pool), calculate_entropy_terms(&pool));
}

#[test]
fn repeated_letters_are_counted_beyond_the_first_of_each() {
    assert_eq!(count_repeated_letters(&['c', 'r', 'a', 'n', 'e']), 0);
    assert_eq!(count_repeated_letters(&['t', 'e', 'n', 'e', 't']), 2);
    assert_eq!(count_repeated_letters(&['e', 'e', 'r', 'i', 'e']), 2);
    assert_eq!(count_repeated_letters(&['m', 'a', 'm', 'm', 'a']), 3);
    assert_eq!(count_repeated_letters(&['a', 'a', 'a', 'a', 'a']), 4);
    assert_eq!(count_repeated_letters(&[]), 0);
}

#[test]
fn feedback_for_a_pattern_colors_the_letters_in_turn_zero() {
    let colors = [
        Color::Grey,
        Color::Yellow,
        Color::Green,
        Color::Grey,
        Color::Green,
    ];
    let guesses = feedback_for_pattern(&['c', 'r', 'a', 'n', 'e'], &colors);
    let expected = vec![
        Guess {
            turn: 0,
            letter: 'c',
            position: 0,
            color: Color::Grey,
        },
        Guess {
            turn: 0,
            letter: 'r',
            position: 1,
            color: Color::Yellow,
        },
        Guess {
            turn: 0,
            letter: 'a',
            position: 2,
            color: Color::Green,
        },
        Guess {
            turn: 0,
            letter: 'n',
            position: 3,
            color: Color::Grey,
        },
        Guess {
            turn: 0,
            letter: 'e',
            position: 4,
            color: Color::Green,
        },
    ];
    assert_eq!(guesses, expected);
}

#[test]
fn the_share_of_one_feedback() {
    let pool = words(&["aloof", "xenon", "achoo", "cocoa"]);
    let guess = vec![
        Guess {
            turn: 0,
            letter: 'o',
            position: 2,
            color: Color::Yellow,
        },
        Guess {
            turn: 0,
            letter: 'o',
            position: 3,
            color: Color::Green,
        },
    ];
    assert_eq!(count_words_by_guesses(&pool, &guess), 2);
    assert_eq!(
        calculate_entropy_from_one_guess(&pool, guess.clone()),
        share(2, 4)
    );
    assert_eq!(calculate_entropy_from_one_guess(&[], guess), None);
    let nowhere = vec![Guess {
        turn: 0,
        letter: 'q',
        position: 0,
        color: Color::Green,
    }];
    assert_eq!(calculate_entropy_from_one_guess(&pool, nowhere), None);
    assert_eq!(calculate_entropy_from_one_guess(&pool, Vec::new()), share(4, 4));
}

#[test]
fn the_number_of_threads_does_not_change_the_terms() {
    let pool = words(&[
        "crane", "crate", "slate", "pious", "mound", "light", "fjord", "melee", "eight", "tenet",
    ]);
    let single = rayon::ThreadPoolBuilder::new()
        .num_threads(1)
        .build()
        .unwrap()
        .install(|| calculate_entropy_terms(&pool));
    let several = rayon::ThreadPoolBuilder::new()
        .num_threads(4)
        .build()
        .unwrap()
        .install(|| calculate_entropy_terms(&pool));
    assert_eq!(single, several);
    assert_eq!(single.len(), pool.len());
}

#[test]
fn a_guess_without_repeated_letters_divides_the_pool() {
    let pool = words(&[
        "crane", "crate", "slate", "pious", "mound", "light", "fjord", "melee", "eight", "tenet",
    ]);
    for guess in ["crane", "pious", "fjord", "light"] {
        let terms = calculate_entropy_for_word(&word(guess), &pool);
        assert_eq!(terms.repeated_letters, 0);
        let held: usize = terms.shares.iter().flatten().map(|share| share.matching).sum();
        assert_eq!(held, pool.len());
    }
}

#[test]
fn a_guess_with_a_repeated_letter_may_count_a_word_twice() {
    let pool = words(&["melee", "eight"]);
    let terms = calculate_entropy_for_word(&pool[0], &pool);
    let held: usize = terms.shares.iter().flatten().map(|share| share.matching).sum();
    assert_eq!(held, 4);
}

#[test]
fn every_word_is_held_by_the_shares_at_least_once() {
    let pool = words(&[
        "crane", "crate", "slate", "pious", "mound", "light", "fjord", "melee", "eight", "tenet",
        "mamma", "eerie", "geese", "abbey", "kebab",
    ]);
    for terms in calculate_entropy_terms(&pool) {
        let held: usize = terms.shares.iter().flatten().map(|share| share.matching).sum();
        assert!(held >= pool.len());
        if terms.repeated_letters == 0 {
            assert_eq!(held, pool.len());
        }
    }
}
