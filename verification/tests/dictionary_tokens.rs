use grimoire::dictionary::{is_usable, load_dictionary, tokens_extend, tokens_to_vec};
use grimoire::engine::FuzzState;
use libafl::mutators::Tokens;

fn tok(text: &str) -> Vec<u8> {
    text.as_bytes().to_vec()
}

#[test]
fn file_tokens_come_first_and_duplicates_are_dropped() {
    let from_file = vec![tok("GET"), tok("POST"), tok("GET")];
    let from_target = vec![tok("HTTP"), tok("POST")];
    let dictionary = load_dictionary(None, &from_file, &from_target).unwrap();
    assert_eq!(tokens_to_vec(&dictionary), vec![tok("GET"), tok("POST"), tok("HTTP")]);
}

#[test]
fn no_tokens_is_no_dictionary() {
    assert!(load_dictionary(None, &Vec::new(), &Vec::new()).is_none());
}

#[test]
fn existing_dictionary_is_kept() {
    let first = load_dictionary(None, &vec![tok("a")], &Vec::new());
    let second = load_dictionary(first, &vec![tok("b")], &vec![tok("c")]).unwrap();
    assert_eq!(tokens_to_vec(&second), vec![tok("a")]);
}

#[test]
fn extending_is_a_union_in_order() {
    let mut dictionary = load_dictionary(None, &vec![tok("x"), tok("y")], &Vec::new()).unwrap();
    tokens_extend(&mut dictionary, &vec![tok("y"), tok("z"), tok("x"), tok("w")]);
    assert_eq!(tokens_to_vec(&dictionary), vec![tok("x"), tok("y"), tok("z"), tok("w")]);
    tokens_extend(&mut dictionary, &Vec::new());
    assert_eq!(tokens_to_vec(&dictionary).len(), 4);
}

#[test]
fn empty_tokens_are_passed_over() {
    let dictionary = load_dictionary(None, &vec![tok(""), tok("a"), tok("")], &vec![tok("")]).unwrap();
    assert_eq!(tokens_to_vec(&dictionary), vec![tok("a")]);
    assert!(is_usable(&dictionary));
    assert!(load_dictionary(None, &vec![tok("")], &Vec::new()).is_none());
}

#[test]
fn dictionary_with_an_empty_token_is_refused() {
    let mut flawed = Tokens::new();
    flawed.add_token(&tok("ok"));
    flawed.add_token(&Vec::new());
    assert!(!is_usable(&flawed));
    let mut state = FuzzState::new(1, 4, 100, 0);
    assert!(state.install_dictionary(load_dictionary(None, &vec![tok("first")], &Vec::new())));
    assert!(!state.install_dictionary(Some(flawed)));
    assert_eq!(tokens_to_vec(state.dictionary.as_ref().unwrap()), vec![tok("first")]);
    assert!(state.install_dictionary(None));
    assert!(state.dictionary.is_none());
    assert!(is_usable(&Tokens::new()));
}
