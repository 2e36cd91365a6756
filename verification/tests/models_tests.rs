use wordle_solver::models::{
    is_history_well_formed, is_pool_well_formed, pool_from_lists, Color, Guess, PossibleWords,
    Word, WORD_LENGTH,
};

fn lines(texts: &[&str]) -> Vec<String> {
    texts.iter().map(|text| text.to_string()).collect()
}

#[test]
fn a_new_word_is_not_scored() {
    let made = Word::new("crane".to_string(), false);
    assert_eq!(
        made,
        Word {
            word: "crane".to_string(),
            entropy: 0,
            is_answer: false
        }
    );
    assert_eq!(made.clone(), made);
}

#[test]
fn letters_are_characters_not_bytes() {
    assert_eq!(
        Word::new("crane".to_string(), true).letters(),
        vec!['c', 'r', 'a', 'n', 'e']
    );
    let accented = Word::new("naïve".to_string(), true);
    assert_eq!(accented.letters(), vec!['n', 'a', 'ï', 'v', 'e']);
    assert!(accented.is_well_formed());
}

#[test]
fn a_word_is_well_formed_with_five_letters() {
    assert_eq!(WORD_LENGTH, 5);
    assert!(Word::new("crane".to_string(), true).is_well_formed());
    assert!(!Word::new("four".to_string(), true).is_well_formed());
    assert!(!Word::new("sixsix".to_string(), true).is_well_formed());
    assert!(!Word::new(String::new(), true).is_well_formed());
}

#[test]
fn a_pool_is_well_formed_when_all_its_words_are() {
    let good = pool_from_lists(&lines(&["crane", "slate"]), &lines(&["aahed"]));
    assert!(is_pool_well_formed(&good));
    let bad = pool_from_lists(&lines(&["crane", "slate"]), &lines(&["aah"]));
    assert!(!is_pool_well_formed(&bad));
    assert!(is_pool_well_formed(&[]));
}

#[test]
fn an_entry_is_well_formed_with_a_position_inside_the_word() {
    let inside = Guess {
        turn: 3,
        letter: 'a',
        position: 4,
        color: Color::Grey,
    };
    let outside = Guess {
        turn: 3,
        letter: 'a',
        position: 5,
        color: Color::Grey,
    };
    assert!(inside.is_well_formed());
    assert!(!outside.is_well_formed());
    assert!(is_history_well_formed(&[inside, inside]));
    assert!(!is_history_well_formed(&[inside, outside]));
    assert!(is_history_well_formed(&[]));
}

#[test]
fn the_pool_holds_the_answers_first_and_tags_each_word() {
    let pool = pool_from_lists(&lines(&["crane", "slate"]), &lines(&["aahed", "zymic"]));
    let expected = vec![
        Word {
            word: "crane".to_string(),
            entropy: 0,
            is_answer: true,
        },
        Word {
            word: "slate".to_string(),
            entropy: 0,
            is_answer: true,
        },
        Word {
            word: "aahed".to_string(),
            entropy: 0,
            is_answer: false,
        },
        Word {
            word: "zymic".to_string(),
            entropy: 0,
            is_answer: false,
        },
    ];
    assert_eq!(pool, expected);
    assert_eq!(pool_from_lists(&[], &[]), Vec::<Word>::new());
}

#[test]
fn possible_words_count_their_list() {
    let list = pool_from_lists(&lines(&["crane", "slate"]), &[]);
    let made = PossibleWords::new(list.clone(), 2315);
    assert_eq!(made.word_list, list);
    assert_eq!(made.number_of_words, 2);
    assert_eq!(made.total_number_of_words, 2315);
    let none = PossibleWords::new(Vec::new(), 2315);
    assert_eq!(none.number_of_words, 0);
}
