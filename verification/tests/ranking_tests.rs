use std::cmp::Ordering;
use wordle_solver::entropy::calculate_entropy_for_words;
use wordle_solver::models::Word;
use wordle_solver::ranking::by_descending_entropy;

fn unscored(text: &str) -> Word {
    Word::new(text.to_string(), true)
}

#[test]
fn ranking_is_descending_and_stable() {
    let scored = vec![
        (unscored("aloof"), 3),
        (unscored("xenon"), 7),
        (unscored("achoo"), 3),
        (unscored("cocoa"), -1),
        (unscored("tenet"), 7),
    ];
    let ranked = calculate_entropy_for_words(scored);
    let names: Vec<&str> = ranked.iter().map(|w| w.word.as_str()).collect();
    assert_eq!(names, vec!["xenon", "tenet", "aloof", "achoo", "cocoa"]);
    let codes: Vec<i32> = ranked.iter().map(|w| w.entropy).collect();
    assert_eq!(codes, vec![7, 7, 3, 3, -1]);
}

#[test]
fn ranking_an_empty_pool_gives_an_empty_list() {
    assert_eq!(calculate_entropy_for_words(Vec::new()), Vec::<Word>::new());
}

#[test]
fn ranking_replaces_the_score_and_keeps_the_rest() {
    let scored = vec![
        (
            Word {
                word: "aloof".to_string(),
                entropy: 99,
                is_answer: false,
            },
            i32::MIN,
        ),
        (
            Word {
                word: "xenon".to_string(),
                entropy: -99,
                is_answer: true,
            },
            i32::MAX,
        ),
    ];
    let expected = vec![
        Word {
            word: "xenon".to_string(),
            entropy: i32::MAX,
            is_answer: true,
        },
        Word {
            word: "aloof".to_string(),
            entropy: i32::MIN,
            is_answer: false,
        },
    ];
    assert_eq!(calculate_entropy_for_words(scored), expected);
}

#[test]
fn equal_scores_keep_the_order_of_the_pool() {
    let scored: Vec<(Word, i32)> = ["crane", "crate", "slate", "pious"]
        .iter()
        .map(|text| (unscored(text), 0))
        .collect();
    let ranked = calculate_entropy_for_words(scored);
    let names: Vec<&str> = ranked.iter().map(|w| w.word.as_str()).collect();
    assert_eq!(names, vec!["crane", "crate", "slate", "pious"]);
}

#[test]
fn the_higher_score_comes_first() {
    let low = Word {
        word: "aloof".to_string(),
        entropy: 1,
        is_answer: true,
    };
    let high = Word {
        word: "xenon".to_string(),
        entropy: 2,
        is_answer: true,
    };
    assert_eq!(by_descending_entropy(&high, &low), Ordering::Less);
    assert_eq!(by_descending_entropy(&low, &high), Ordering::Greater);
    assert_eq!(by_descending_entropy(&low, &low), Ordering::Equal);
}
