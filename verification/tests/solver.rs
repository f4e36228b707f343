use wordle_solver::error::SolverError;
use wordle_solver::parse::{parse_line, Color};
use wordle_solver::solver::{has_letter, FitCells, GenRegexSet, Solver, State};

fn code(letter: char) -> u32 {
    letter as u32
}

fn codes(letters: &str) -> Vec<u32> {
    letters.chars().map(code).collect()
}

fn crate_row() -> Vec<(Color, char)> {
    vec![
        (Color::Black, 'c'),
        (Color::Yellow, 'r'),
        (Color::Black, 'a'),
        (Color::Green, 't'),
        (Color::Black, 'e'),
    ]
}

#[test]
fn new_solver_knows_nothing() {
    let solver = Solver::new(5);
    assert_eq!(solver.states.len(), 5);
    assert!(solver.states.iter().all(|s| matches!(s, State::Unknown)));
    assert!(solver.exluded_alphas.is_empty());
    assert!(solver.still_possible_alphas.is_empty());
}

#[test]
fn new_solver_of_length_zero() {
    let solver = Solver::new(0);
    assert!(solver.states.is_empty());
    assert_eq!(solver.patterns(), vec!["^.{0}$".to_string(), String::new()]);
}

#[test]
fn default_state_is_unknown() {
    assert!(matches!(State::default(), State::Unknown));
}

#[test]
fn crate_row_updates_positions_and_sets() {
    let mut solver = Solver::new(5);
    assert!(solver.fit_cells(crate_row()).is_ok());
    assert!(matches!(solver.states[0], State::Unknown));
    assert!(matches!(&solver.states[1], State::Excluded(here) if here == &vec!['r']));
    assert!(matches!(solver.states[2], State::Unknown));
    assert!(matches!(solver.states[3], State::Ensured('t')));
    assert!(matches!(solver.states[4], State::Unknown));
    let excluded: Vec<u32> = solver.exluded_alphas.iter().copied().collect();
    assert_eq!(excluded, codes("ace"));
    let possible: Vec<u32> = solver.still_possible_alphas.iter().copied().collect();
    assert_eq!(possible, codes("rt"));
}

#[test]
fn crate_row_compiles_to_three_patterns() {
    let mut solver = Solver::new(5);
    solver.fit_cells(crate_row()).unwrap();
    assert_eq!(
        solver.patterns(),
        vec!["^[^ace]{5}$".to_string(), "r".to_string(), ".[^r].t.".to_string()]
    );
    let set = solver.gen_regex_set().unwrap();
    assert_eq!(set.len(), 3);
    assert_eq!(set.patterns(), solver.patterns().as_slice());
}

#[test]
fn parsed_row_is_applied_like_a_written_one() {
    let mut parsed = Solver::new(5);
    parsed.fit_cells(parse_line("crate 01020").unwrap()).unwrap();
    let mut written = Solver::new(5);
    written.fit_cells(crate_row()).unwrap();
    assert_eq!(parsed.patterns(), written.patterns());
}

#[test]
fn first_green_letter_is_kept() {
    let mut solver = Solver::new(3);
    let first = vec![(Color::Green, 'a'), (Color::Black, 'x'), (Color::Black, 'y')];
    let second = vec![(Color::Green, 'b'), (Color::Yellow, 'c'), (Color::Black, 'z')];
    solver.fit_cells(first).unwrap();
    solver.fit_cells(second).unwrap();
    assert!(matches!(solver.states[0], State::Ensured('a')));
    assert!(solver.still_possible_alphas.contains(&code('a')));
    assert!(solver.still_possible_alphas.contains(&code('b')));
    assert_eq!(solver.patterns().last().unwrap(), "a[^c].");
}

#[test]
fn green_replaces_excluded_letters() {
    let mut solver = Solver::new(2);
    solver.fit_cells(vec![(Color::Yellow, 'a'), (Color::Black, 'x')]).unwrap();
    solver.fit_cells(vec![(Color::Green, 'b'), (Color::Black, 'x')]).unwrap();
    assert!(matches!(solver.states[0], State::Ensured('b')));
}

#[test]
fn yellow_at_an_ensured_position_changes_nothing() {
    let mut solver = Solver::new(2);
    solver.fit_cells(vec![(Color::Green, 'a'), (Color::Black, 'x')]).unwrap();
    solver.fit_cells(vec![(Color::Yellow, 'q'), (Color::Black, 'x')]).unwrap();
    assert!(matches!(solver.states[0], State::Ensured('a')));
    assert!(!solver.still_possible_alphas.contains(&code('q')));
}

#[test]
fn yellow_letters_collect_in_order() {
    let mut solver = Solver::new(2);
    solver.fit_cells(vec![(Color::Yellow, 's'), (Color::Black, 'x')]).unwrap();
    solver.fit_cells(vec![(Color::Yellow, 'r'), (Color::Black, 'x')]).unwrap();
    assert!(matches!(&solver.states[0], State::Excluded(here) if here == &vec!['s', 'r']));
    assert_eq!(
        solver.patterns(),
        vec!["^[^x]{2}$".to_string(), "s|r".to_string(), "[^sr].".to_string()]
    );
}

#[test]
fn a_yellow_letter_is_excluded_once() {
    let mut solver = Solver::new(1);
    solver.fit_cells(vec![(Color::Yellow, 'r')]).unwrap();
    solver.fit_cells(vec![(Color::Yellow, 'r')]).unwrap();
    assert!(matches!(&solver.states[0], State::Excluded(here) if here == &vec!['r']));
    assert_eq!(
        solver.patterns(),
        vec!["^.{1}$".to_string(), "r".to_string(), "[^r]".to_string()]
    );
    assert!(solver.still_possible_alphas.contains(&code('r')));
}

#[test]
fn the_same_row_twice_is_the_same_as_once() {
    let mut once = Solver::new(5);
    once.fit_cells(crate_row()).unwrap();
    let mut twice = Solver::new(5);
    twice.fit_cells(crate_row()).unwrap();
    twice.fit_cells(crate_row()).unwrap();
    assert_eq!(format!("{:?}", twice.states), format!("{:?}", once.states));
    assert_eq!(twice.exluded_alphas, once.exluded_alphas);
    assert_eq!(twice.still_possible_alphas, once.still_possible_alphas);
    assert_eq!(twice.patterns(), once.patterns());
}

#[test]
fn a_repeated_yellow_letter_keeps_its_first_place() {
    let mut solver = Solver::new(2);
    for letter in ['s', 'r', 's', 't', 'r'] {
        solver.fit_cells(vec![(Color::Yellow, letter), (Color::Black, 'x')]).unwrap();
    }
    assert!(matches!(&solver.states[0], State::Excluded(here) if here == &vec!['s', 'r', 't']));
    assert_eq!(solver.patterns()[1], "s|r|t");
    assert_eq!(solver.patterns()[2], "[^srt].");
}

#[test]
fn has_letter_finds_a_letter_of_the_list() {
    assert!(has_letter(&vec!['a', 'b', 'c'], 'a'));
    assert!(has_letter(&vec!['a', 'b', 'c'], 'c'));
    assert!(!has_letter(&vec!['a', 'b', 'c'], 'd'));
    assert!(!has_letter(&Vec::new(), 'a'));
}

#[test]
fn black_after_green_does_not_kill_the_letter() {
    let mut solver = Solver::new(3);
    let row = vec![(Color::Green, 'e'), (Color::Black, 'e'), (Color::Black, 'k')];
    solver.fit_cells(row).unwrap();
    assert!(solver.exluded_alphas.contains(&code('e')));
    assert!(solver.still_possible_alphas.contains(&code('e')));
    assert_eq!(solver.patterns()[0], "^[^k]{3}$");
    let set = solver.gen_regex_set().unwrap();
    assert!(wordle_solver::matcher::survives(&set, "eel"));
    assert!(!wordle_solver::matcher::survives(&set, "elk"));
}

#[test]
fn pattern_count_is_two_and_one_per_excluding_position() {
    let mut solver = Solver::new(4);
    assert_eq!(solver.patterns().len(), 2);
    let row = vec![
        (Color::Yellow, 'a'),
        (Color::Green, 'b'),
        (Color::Yellow, 'c'),
        (Color::Black, 'd'),
    ];
    solver.fit_cells(row).unwrap();
    assert_eq!(solver.patterns().len(), 4);
    assert_eq!(solver.gen_regex_set().unwrap().len(), 4);
}

#[test]
fn wrong_length_row_is_refused_and_changes_nothing() {
    let mut solver = Solver::new(5);
    solver.fit_cells(crate_row()).unwrap();
    let before = solver.clone();
    let short = vec![(Color::Green, 'z'), (Color::Black, 'q')];
    assert!(matches!(solver.fit_cells(short), Err(SolverError::CellLengthMismatch)));
    let long = vec![(Color::Green, 'z'); 6];
    assert!(matches!(solver.fit_cells(long), Err(SolverError::CellLengthMismatch)));
    assert!(matches!(solver.fit_cells(Vec::new()), Err(SolverError::CellLengthMismatch)));
    assert_eq!(solver.exluded_alphas, before.exluded_alphas);
    assert_eq!(solver.still_possible_alphas, before.still_possible_alphas);
    assert_eq!(solver.patterns(), before.patterns());
    assert_eq!(format!("{:?}", solver.states), format!("{:?}", before.states));
}

#[test]
fn word_length_is_written_in_decimal() {
    assert_eq!(Solver::new(12).patterns()[0], "^.{12}$");
    assert_eq!(Solver::new(7).patterns()[0], "^.{7}$");
    assert_eq!(Solver::new(100).patterns()[0], "^.{100}$");
    assert_eq!(Solver::new(3).patterns()[1], "...");
}

#[test]
fn dead_letters_come_in_increasing_order() {
    let mut solver = Solver::new(3);
    let row = vec![(Color::Black, 'z'), (Color::Black, 'b'), (Color::Black, 'm')];
    solver.fit_cells(row).unwrap();
    assert_eq!(solver.patterns()[0], "^[^bmz]{3}$");
}

#[test]
fn a_code_that_is_no_letter_is_left_out() {
    let mut solver = Solver::new(1);
    solver.exluded_alphas.insert(0xD800);
    solver.exluded_alphas.insert(code('q'));
    solver.exluded_alphas.insert(0x11_0000);
    assert_eq!(solver.patterns()[0], "^[^q]{1}$");
}

#[test]
fn a_pattern_that_is_no_regex_is_reported() {
    let mut solver = Solver::new(1);
    solver.fit_cells(vec![(Color::Green, '(')]).unwrap();
    assert!(matches!(solver.gen_regex_set(), Err(SolverError::RegexError(_))));
    let mut empty_class = Solver::new(1);
    empty_class.states[0] = State::Excluded(Vec::new());
    assert!(matches!(empty_class.gen_regex_set(), Err(SolverError::RegexError(_))));
}

#[test]
fn state_methods_follow_the_rules() {
    let mut state = State::Unknown;
    assert!(!state.is_ensured());
    state.exclude('a');
    state.exclude('b');
    state.exclude('a');
    assert!(matches!(&state, State::Excluded(here) if here == &vec!['a', 'b']));
    state.ensure('c');
    assert!(state.is_ensured());
    state.ensure('d');
    state.exclude('e');
    assert!(matches!(state, State::Ensured('c')));
}
