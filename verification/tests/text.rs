use std::collections::BTreeSet;
use wordle_solver::arg::{Args, LangType};
use wordle_solver::letters::{ascending_codes, holds, put, sorted_difference};
use wordle_solver::pattern::{elsewhere_texts, positional_text, word_wide_text};
use wordle_solver::solver::State;
use wordle_solver::text::{push_all, push_decimal};

fn text(chars: Vec<char>) -> String {
    chars.into_iter().collect()
}

fn set_of(letters: &str) -> BTreeSet<u32> {
    letters.chars().map(|c| c as u32).collect()
}

#[test]
fn numbers_are_written_in_decimal() {
    for n in [0usize, 7, 9, 10, 11, 99, 100, 101, 5040, 65535, 4294967295] {
        let mut out = vec!['#'];
        push_decimal(&mut out, n);
        assert_eq!(text(out), format!("#{}", n));
    }
    let mut out = Vec::new();
    push_decimal(&mut out, usize::MAX);
    assert_eq!(text(out), usize::MAX.to_string());
}

#[test]
fn push_all_appends_in_order() {
    let mut out = vec!['a', 'b'];
    push_all(&mut out, &vec!['c', 'd', 'e']);
    assert_eq!(out, vec!['a', 'b', 'c', 'd', 'e']);
    push_all(&mut out, &Vec::new());
    assert_eq!(out, vec!['a', 'b', 'c', 'd', 'e']);
}

#[test]
fn a_set_is_put_to_and_asked() {
    let mut set = BTreeSet::new();
    assert!(!holds(&set, 7));
    put(&mut set, 7);
    put(&mut set, 3);
    put(&mut set, 7);
    assert!(holds(&set, 7));
    assert!(holds(&set, 3));
    assert!(!holds(&set, 5));
    assert_eq!(set.len(), 2);
    assert_eq!(ascending_codes(&set), vec![3, 7]);
    assert_eq!(ascending_codes(&BTreeSet::new()), Vec::<u32>::new());
}

#[test]
fn sorted_difference_lists_what_is_only_in_the_first() {
    assert_eq!(sorted_difference(&set_of("zebra"), &set_of("bar")), vec!['e', 'z']);
    assert_eq!(sorted_difference(&set_of("abc"), &set_of("")), vec!['a', 'b', 'c']);
    assert_eq!(sorted_difference(&set_of("abc"), &set_of("cba")), Vec::<char>::new());
    assert_eq!(sorted_difference(&set_of(""), &set_of("abc")), Vec::<char>::new());
    assert_eq!(sorted_difference(&set_of("\u{e9}a\u{1F600}"), &set_of("")), vec!['a', '\u{e9}', '\u{1F600}']);
}

#[test]
fn word_wide_text_has_a_class_only_with_dead_letters() {
    assert_eq!(text(word_wide_text(&Vec::new(), 5)), "^.{5}$");
    assert_eq!(text(word_wide_text(&vec!['a', 'c', 'e'], 5)), "^[^ace]{5}$");
    assert_eq!(text(word_wide_text(&vec!['q'], 11)), "^[^q]{11}$");
}

#[test]
fn positional_text_has_a_cell_for_each_state() {
    let states = vec![
        State::Unknown,
        State::Excluded(vec!['r', 's']),
        State::Ensured('t'),
        State::Excluded(vec!['e']),
    ];
    assert_eq!(text(positional_text(&states)), ".[^rs]t[^e]");
    assert_eq!(text(positional_text(&Vec::new())), "");
}

#[test]
fn elsewhere_texts_join_the_letters_of_each_excluding_state() {
    let states = vec![
        State::Excluded(vec!['r', 's', 't']),
        State::Unknown,
        State::Ensured('t'),
        State::Excluded(vec!['e']),
        State::Excluded(Vec::new()),
    ];
    assert_eq!(
        elsewhere_texts(&states),
        vec!["r|s|t".to_string(), "e".to_string(), String::new()]
    );
    assert_eq!(elsewhere_texts(&vec![State::Unknown]), Vec::<String>::new());
}

#[test]
fn session_parameters_hold_language_and_length() {
    let args = Args { language: LangType::British, word_len: 5 };
    assert_eq!(args.language, LangType::British);
    assert_ne!(args.language, LangType::American);
    assert_eq!(args.word_len, 5);
}
