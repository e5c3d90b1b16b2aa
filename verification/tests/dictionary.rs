use scrabble_engine::{
    build_letter_place_map, build_letters_word_map, line_is_legal, LetterPlace,
};

fn words(list: &[&str]) -> Vec<String> {
    list.iter().map(|w| w.to_string()).collect()
}

fn letters(text: &str) -> Vec<char> {
    text.chars().collect()
}

#[test]
fn anagrams_share_a_bucket_in_the_order_of_the_list() {
    let index = build_letters_word_map(&words(&["OWL", "HELLO", "LOW", "HI"]));
    assert_eq!(index.lookup_exact("LOW"), Some(&words(&["OWL", "LOW"])));
    assert_eq!(index.lookup_exact("EHLLO"), Some(&words(&["HELLO"])));
    assert_eq!(index.lookup_exact("HI"), Some(&words(&["HI"])));
}

#[test]
fn a_key_that_no_word_has_is_not_found() {
    let index = build_letters_word_map(&words(&["OWL", "HELLO"]));
    assert_eq!(index.lookup_exact("OWL"), None);
    assert_eq!(index.lookup_exact("HELLO"), None);
    assert_eq!(index.lookup_exact(""), None);
    assert_eq!(index.lookup_exact("LO"), None);
}

#[test]
fn a_word_that_comes_twice_stands_twice_in_its_bucket() {
    let index = build_letters_word_map(&words(&["TAB", "BAT", "TAB"]));
    assert_eq!(index.lookup_exact("ABT"), Some(&words(&["TAB", "BAT", "TAB"])));
}

#[test]
fn keys_keep_the_case_of_the_letters() {
    let index = build_letters_word_map(&words(&["Owl", "OWL"]));
    assert_eq!(index.lookup_exact("Olw"), Some(&words(&["Owl"])));
    assert_eq!(index.lookup_exact("LOW"), Some(&words(&["OWL"])));
}

#[test]
fn the_index_of_no_words_holds_nothing() {
    let index = build_letters_word_map(&Vec::new());
    assert_eq!(index.lookup_exact(""), None);
    assert_eq!(index.lookup_exact("A"), None);
    assert!(!index.contains_word(&letters("A")));
}

#[test]
fn the_index_holds_exactly_the_words_of_the_list() {
    let index = build_letters_word_map(&words(&["OWL", "HELLO", "HI"]));
    assert!(index.contains_word(&letters("OWL")));
    assert!(index.contains_word(&letters("HELLO")));
    assert!(index.contains_word(&letters("HI")));
    assert!(!index.contains_word(&letters("LOW")));
    assert!(!index.contains_word(&letters("WOL")));
    assert!(!index.contains_word(&letters("HELL")));
    assert!(!index.contains_word(&letters("IH")));
    assert!(!index.contains_word(&letters("")));
}

#[test]
fn letter_places_list_the_words_with_that_letter_there() {
    let index = build_letter_place_map(&words(&["CAB", "CAT", "AB"]));
    assert_eq!(index.get(&LetterPlace { idx: 0, letter: 'C' }), Some(&words(&["CAB", "CAT"])));
    assert_eq!(index.get(&LetterPlace { idx: 1, letter: 'A' }), Some(&words(&["CAB", "CAT"])));
    assert_eq!(index.get(&LetterPlace { idx: 0, letter: 'A' }), Some(&words(&["AB"])));
    assert_eq!(index.get(&LetterPlace { idx: 1, letter: 'B' }), Some(&words(&["AB"])));
    assert_eq!(index.get(&LetterPlace { idx: 2, letter: 'B' }), Some(&words(&["CAB"])));
    assert_eq!(index.get(&LetterPlace { idx: 2, letter: 'T' }), Some(&words(&["CAT"])));
}

#[test]
fn letter_places_that_no_word_has_are_not_found() {
    let index = build_letter_place_map(&words(&["CAB", "CAT", "AB"]));
    assert_eq!(index.get(&LetterPlace { idx: 3, letter: 'A' }), None);
    assert_eq!(index.get(&LetterPlace { idx: 0, letter: 'B' }), None);
    assert_eq!(index.get(&LetterPlace { idx: 1, letter: 'C' }), None);
    assert_eq!(index.get(&LetterPlace { idx: 0, letter: 'c' }), None);
    assert_eq!(build_letter_place_map(&Vec::new()).get(&LetterPlace { idx: 0, letter: 'A' }), None);
}

#[test]
fn a_word_with_a_letter_twice_stands_once_at_each_place() {
    let index = build_letter_place_map(&words(&["AA", "ABA"]));
    assert_eq!(index.get(&LetterPlace { idx: 0, letter: 'A' }), Some(&words(&["AA", "ABA"])));
    assert_eq!(index.get(&LetterPlace { idx: 1, letter: 'A' }), Some(&words(&["AA"])));
    assert_eq!(index.get(&LetterPlace { idx: 2, letter: 'A' }), Some(&words(&["ABA"])));
    assert_eq!(index.get(&LetterPlace { idx: 1, letter: 'B' }), Some(&words(&["ABA"])));
}

#[test]
fn a_line_is_legal_when_its_runs_are_words() {
    let index = build_letters_word_map(&words(&["HELLO", "OWL"]));
    assert!(line_is_legal(&letters("HELLO.."), &index));
    assert!(line_is_legal(&letters(".OWL"), &index));
    assert!(line_is_legal(&letters("OWL.HELLO"), &index));
    assert!(line_is_legal(&letters("..HELLO.OWL.."), &index));
}

#[test]
fn a_line_with_a_run_that_is_no_word_is_illegal() {
    let index = build_letters_word_map(&words(&["HELLO", "OWL"]));
    assert!(!line_is_legal(&letters("HELLOWL"), &index));
    assert!(!line_is_legal(&letters("HE"), &index));
    assert!(!line_is_legal(&letters("OWL.HELL"), &index));
    assert!(!line_is_legal(&letters("LOW.HELLO"), &index));
    assert!(!line_is_legal(&letters("HELLO.WOL"), &index));
    assert!(!line_is_legal(&letters(".OW.HELLO"), &index));
}

#[test]
fn single_letters_and_empty_lines_are_legal() {
    let index = build_letters_word_map(&words(&["HELLO"]));
    assert!(line_is_legal(&letters(""), &index));
    assert!(line_is_legal(&letters("....."), &index));
    assert!(line_is_legal(&letters("H.E.L"), &index));
    assert!(line_is_legal(&letters("X"), &index));
    assert!(line_is_legal(&letters(".Q."), &index));
}
