//! What the feedback seen so far says about the hidden word.

use crate::error::SolverError;
use crate::letters::{lemma_sorted_is, lemma_sorted_lists, letters, put, sorted, sorted_difference};
use crate::matcher::{compile, compiles, fits_one_set, set_patterns, MAX_PATTERNS};
use crate::parse::Color;
use crate::pattern::{
    elsewhere_texts, excluding, law_open_patterns, lemma_pattern_count, open_patterns, pattern_set,
    positional_text, texts, unknowns, word_wide, word_wide_text,
};
use crate::text::string_from_chars;
use regex::RegexSet;
use std::collections::BTreeSet;
use vstd::prelude::*;

verus! {

/// What is known of one position of the word.
#[derive(Clone, Debug)]
pub enum State {
    /// The position holds this letter.
    Ensured(char),
    /// The position holds none of these letters, each of which is elsewhere
    /// in the word. The letters stand in the order in which they were
    /// learned, each once.
    Excluded(Vec<char>),
    /// Nothing is known of the position.
    Unknown,
}

/// The mathematical value of a [`State`].
pub enum Knowledge {
    Ensured(char),
    Excluded(Seq<char>),
    Unknown,
}

impl View for State {
    type V = Knowledge;

    open spec fn view(&self) -> Knowledge {
        match self {
            State::Ensured(letter) => Knowledge::Ensured(*letter),
            State::Excluded(here) => Knowledge::Excluded(here@),
            State::Unknown => Knowledge::Unknown,
        }
    }
}

impl State {
    /// Whether the position's letter is known.
    pub fn is_ensured(&self) -> (yes: bool)
        ensures
            yes == (self@ is Ensured),
    {
        match self {
            State::Ensured(_) => true,
            _ => false,
        }
    }

    /// Notes that the position holds `letter`, unless its letter is known
    /// already.
    pub fn ensure(&mut self, letter: char)
        ensures
            final(self)@ == learn(old(self)@, Color::Green, letter),
    {
        match self {
            State::Ensured(_) => {},
            _ => {
                *self = State::Ensured(letter);
            },
        }
    }

    /// Notes that `letter` is not at this position, unless the position's
    /// letter is known already. A letter that the position excludes already
    /// is not noted again.
    pub fn exclude(&mut self, letter: char)
        ensures
            final(self)@ == learn(old(self)@, Color::Yellow, letter),
    {
        match self {
            State::Ensured(_) => {},
            State::Excluded(here) => {
                if !has_letter(here, letter) {
                    here.push(letter);
                }
            },
            State::Unknown => {
                let mut here: Vec<char> = Vec::new();
                here.push(letter);
                *self = State::Excluded(here);
            },
        }
    }
}

/// Whether `letter` is among `letters`.
pub fn has_letter(letters: &Vec<char>, letter: char) -> (found: bool)
    ensures
        found == letters@.contains(letter),
{
    let mut i: usize = 0;
    while i < letters.len()
        invariant
            i <= letters.len(),
            forall|k: int| 0 <= k < i ==> letters@[k] != letter,
        decreases letters.len() - i,
    {
        if letters[i] == letter {
            return true;
        }
        i += 1;
    }
    false
}

impl Default for State {
    fn default() -> (state: State)
        ensures
            state@ == Knowledge::Unknown,
    {
        State::Unknown
    }
}

/// What a position knows after one more cell of feedback. Black says nothing
/// of the position. A position that is ensured stays as it is. The letters
/// that a position excludes are a set: a letter that is among them already
/// is not added again.
pub open spec fn learn(known: Knowledge, color: Color, letter: char) -> Knowledge {
    match known {
        Knowledge::Ensured(_) => known,
        Knowledge::Excluded(here) => match color {
            Color::Black => known,
            Color::Green => Knowledge::Ensured(letter),
            Color::Yellow => if here.contains(letter) {
                known
            } else {
                Knowledge::Excluded(here.push(letter))
            },
        },
        Knowledge::Unknown => match color {
            Color::Black => known,
            Color::Green => Knowledge::Ensured(letter),
            Color::Yellow => Knowledge::Excluded(seq![letter]),
        },
    }
}

/// A position holds no letter twice among those it excludes.
pub open spec fn each_once(known: Knowledge) -> bool {
    known matches Knowledge::Excluded(here) ==> here.no_duplicates()
}

/// No position holds a letter twice among those it excludes.
pub open spec fn all_once(positions: Seq<Knowledge>) -> bool {
    forall|i: int| 0 <= i < positions.len() ==> each_once(#[trigger] positions[i])
}

/// A cell of feedback leaves a position without a letter held twice.
pub proof fn lemma_learn_once(known: Knowledge, color: Color, letter: char)
    requires
        each_once(known),
    ensures
        each_once(learn(known, color, letter)),
{
}

/// What the positions know after a row of feedback, one cell for each.
pub open spec fn applied(positions: Seq<Knowledge>, cells: Seq<(Color, char)>) -> Seq<Knowledge> {
    Seq::new(positions.len(), |i: int| learn(positions[i], cells[i].0, cells[i].1))
}

/// Whether a cell shows its letter to be in the word: it is green, or it is
/// yellow at a position that is not ensured.
pub open spec fn shows_present(known: Knowledge, color: Color) -> bool {
    color is Green || (color is Yellow && !(known is Ensured))
}

/// The code points of the letters of those cells that `pick` holds of, a
/// cell being given by its place in the row and its colour.
pub open spec fn picked_codes(cells: Seq<(Color, char)>, pick: spec_fn(int, Color) -> bool) -> Set<
    u32,
> {
    Set::new(
        |code: u32|
            exists|i: int|
                0 <= i < cells.len() && pick(i, (#[trigger] cells[i]).0) && cells[i].1 as u32
                    == code,
    )
}

/// Holds of the black cells.
pub open spec fn is_black() -> spec_fn(int, Color) -> bool {
    |i: int, color: Color| color is Black
}

/// Holds of the cells that show their letter to be in the word, given what
/// each position knew before the row.
pub open spec fn is_present(positions: Seq<Knowledge>) -> spec_fn(int, Color) -> bool {
    |i: int, color: Color| shows_present(positions[i], color)
}

/// The code points of the letters that a row marks black.
pub open spec fn black_codes(cells: Seq<(Color, char)>) -> Set<u32> {
    picked_codes(cells, is_black())
}

/// The code points of the letters that a row shows to be in the word, given
/// what each position knew before the row.
pub open spec fn present_codes(positions: Seq<Knowledge>, cells: Seq<(Color, char)>) -> Set<u32> {
    picked_codes(cells, is_present(positions))
}

/// One more cell of a row adds its letter to the picked ones where `pick`
/// holds of it, and nothing else.
pub proof fn lemma_picked_grows(
    cells: Seq<(Color, char)>,
    pick: spec_fn(int, Color) -> bool,
    n: int,
)
    requires
        0 <= n < cells.len(),
    ensures
        picked_codes(cells.take(n + 1), pick) == (if pick(n, cells[n].0) {
            picked_codes(cells.take(n), pick).insert(cells[n].1 as u32)
        } else {
            picked_codes(cells.take(n), pick)
        }),
{
    let seen = cells.take(n);
    let now = cells.take(n + 1);
    let grown = if pick(n, cells[n].0) {
        picked_codes(seen, pick).insert(cells[n].1 as u32)
    } else {
        picked_codes(seen, pick)
    };
    assert(now[n] == cells[n]);
    assert forall|code: u32| picked_codes(now, pick).contains(code) <==> grown.contains(code) by {
        if picked_codes(seen, pick).contains(code) {
            let w = choose|w: int|
                0 <= w < seen.len() && pick(w, (#[trigger] seen[w]).0) && seen[w].1 as u32 == code;
            assert(now[w] == seen[w]);
        }
        if picked_codes(now, pick).contains(code) {
            let w = choose|w: int|
                0 <= w < now.len() && pick(w, (#[trigger] now[w]).0) && now[w].1 as u32 == code;
            if w < seen.len() {
                assert(seen[w] == now[w]);
            }
        }
    }
    assert(picked_codes(now, pick) =~= grown);
}

/// The value of each state, in order.
pub open spec fn views(states: Seq<State>) -> Seq<Knowledge> {
    Seq::new(states.len(), |i: int| states[i]@)
}

/// Everything learned about a word of a fixed length.
///
/// The two letter sets hold code points: `c as u32` for a letter `c`.
#[derive(Debug, Clone)]
pub struct Solver {
    /// One state for each position of the word.
    pub states: Vec<State>,
    /// The letters that some row marked black.
    pub exluded_alphas: BTreeSet<u32>,
    /// The letters that some row showed to be in the word.
    pub still_possible_alphas: BTreeSet<u32>,
}

impl Solver {
    /// The length of the word.
    pub open spec fn word_len(&self) -> nat {
        self.states@.len()
    }

    /// What is known of each position.
    pub open spec fn positions(&self) -> Seq<Knowledge> {
        views(self.states@)
    }

    /// The letters seen black at least once.
    pub open spec fn excluded(&self) -> Set<char> {
        letters(self.exluded_alphas@)
    }

    /// The letters seen yellow or green at least once.
    pub open spec fn possible(&self) -> Set<char> {
        letters(self.still_possible_alphas@)
    }

    /// The letters known to be nowhere in the word: seen black, and never
    /// yellow or green.
    pub open spec fn dead(&self) -> Set<char> {
        self.excluded().difference(self.possible())
    }

    /// This solver is what `before` becomes by a row of feedback that has
    /// one cell for each position.
    pub open spec fn follows(&self, before: Solver, cells: Seq<(Color, char)>) -> bool {
        &&& self.positions() == applied(before.positions(), cells)
        &&& self.exluded_alphas@ == before.exluded_alphas@.union(black_codes(cells))
        &&& self.still_possible_alphas@ == before.still_possible_alphas@.union(
            present_codes(before.positions(), cells),
        )
    }

    /// The number of patterns that stand for what is known.
    pub open spec fn pattern_total(&self) -> nat {
        2 + excluding(self.positions())
    }

    /// The text of each pattern that stands for what is known, in order.
    pub open spec fn pattern_texts(&self) -> Seq<Seq<char>> {
        pattern_set(sorted(self.dead()), self.positions())
    }

    /// A position that a row marked green keeps the letter it then has,
    /// whatever a later row says of it: `self` became `middle` by the row
    /// `first`, which marks position `i` green, and `middle` became `after`
    /// by the row `second`.
    pub proof fn law_ensured_is_kept(
        self,
        first: Seq<(Color, char)>,
        middle: Solver,
        second: Seq<(Color, char)>,
        after: Solver,
        i: int,
    )
        requires
            first.len() == self.word_len(),
            second.len() == self.word_len(),
            middle.follows(self, first),
            after.follows(middle, second),
            0 <= i < self.word_len(),
            first[i].0 is Green,
        ensures
            middle.positions()[i] is Ensured,
            !(self.positions()[i] is Ensured) ==> middle.positions()[i] == Knowledge::Ensured(
                first[i].1,
            ),
            after.positions()[i] == middle.positions()[i],
    {
    }

    /// The letters that a position excludes stay a set: where no position
    /// held a letter twice before a row, none does after it.
    pub proof fn law_letters_stay_single(self, cells: Seq<(Color, char)>, after: Solver)
        requires
            cells.len() == self.word_len(),
            after.follows(self, cells),
            all_once(self.positions()),
        ensures
            all_once(after.positions()),
    {
        assert forall|i: int| 0 <= i < after.positions().len() implies each_once(
            #[trigger] after.positions()[i],
        ) by {
            lemma_learn_once(self.positions()[i], cells[i].0, cells[i].1);
        }
    }

    /// A letter that was seen in the word is not dead, though a row may
    /// have marked it black: the word-wide pattern does not forbid it.
    pub proof fn law_possible_letter_is_not_dead(self, letter: char)
        requires
            self.possible().contains(letter),
        ensures
            !self.dead().contains(letter),
            !sorted(self.dead()).contains(letter),
            self.pattern_texts()[0] == word_wide(sorted(self.dead()), self.word_len()),
    {
        lemma_sorted_lists(self.dead());
        lemma_pattern_count(sorted(self.dead()), self.positions());
    }

    /// There are two patterns and one more for each position that excludes
    /// letters.
    pub proof fn law_pattern_count(self)
        ensures
            self.pattern_texts().len() == self.pattern_total(),
            self.pattern_total() == 2 + excluding(self.positions()),
    {
        lemma_pattern_count(sorted(self.dead()), self.positions());
    }

    /// Writes the patterns that stand for what is known.
    pub fn patterns(&self) -> (out: Vec<String>)
        ensures
            texts(out@) == self.pattern_texts(),
            out@.len() == self.pattern_total(),
    {
        proof {
            self.law_pattern_count();
        }
        let dead = sorted_difference(&self.exluded_alphas, &self.still_possible_alphas);
        let wide = word_wide_text(&dead, self.states.len());
        let spots = positional_text(&self.states);
        let mut out: Vec<String> = Vec::new();
        out.push(string_from_chars(&wide));
        let mut between = elsewhere_texts(&self.states);
        let ghost middle = texts(between@);
        out.append(&mut between);
        out.push(string_from_chars(&spots));
        assert(texts(out@) =~= seq![wide@] + middle + seq![spots@]);
        out
    }

    /// A solver that knows nothing yet about a word of `word_len` letters.
    pub fn new(word_len: usize) -> (solver: Self)
        ensures
            solver.word_len() == word_len,
            solver.positions() == unknowns(word_len as nat),
            solver.exluded_alphas@ == Set::<u32>::empty(),
            solver.still_possible_alphas@ == Set::<u32>::empty(),
            solver.pattern_texts() == open_patterns(word_len as nat),
            all_once(solver.positions()),
    {
        let mut states: Vec<State> = Vec::new();
        let mut i: usize = 0;
        while i < word_len
            invariant
                i <= word_len,
                states@.len() == i,
                forall|k: int| 0 <= k < i ==> states@[k]@ == Knowledge::Unknown,
            decreases word_len - i,
        {
            states.push(State::Unknown);
            i += 1;
        }
        let solver = Solver {
            states,
            exluded_alphas: BTreeSet::new(),
            still_possible_alphas: BTreeSet::new(),
        };
        proof {
            assert(solver.positions() == unknowns(word_len as nat));
            assert(solver.dead() == Set::<char>::empty());
            lemma_sorted_is(Seq::empty(), Set::empty());
            law_open_patterns(word_len as nat);
        }
        solver
    }
}

/// Takes in the feedback of one guess.
pub trait FitCells {
    fn fit_cells(&mut self, cells: Vec<(Color, char)>) -> Result<(), SolverError>;
}

impl FitCells for Solver {
    /// Applies a row of feedback, one cell for each position. A row of
    /// another length is refused and changes nothing.
    fn fit_cells(&mut self, cells: Vec<(Color, char)>) -> (r: Result<(), SolverError>)
        ensures
            cells@.len() != old(self).word_len() ==> {
                &&& r matches Err(e)
                &&& e is CellLengthMismatch
                &&& *final(self) == *old(self)
            },
            cells@.len() == old(self).word_len() ==> {
                &&& r is Ok
                &&& final(self).follows(*old(self), cells@)
            },
            all_once(old(self).positions()) ==> all_once(final(self).positions()),
    {
        if cells.len() != self.states.len() {
            return Err(SolverError::CellLengthMismatch);
        }
        let ghost before = old(self).positions();
        let mut i: usize = 0;
        while i < cells.len()
            invariant
                i <= cells.len(),
                cells@.len() == self.states@.len(),
                before == old(self).positions(),
                before.len() == cells@.len(),
                forall|k: int| 0 <= k < i ==> self.states@[k]@ == learn(before[k], cells@[k].0, cells@[k].1),
                forall|k: int| i <= k < cells@.len() ==> self.states@[k]@ == before[k],
                self.exluded_alphas@ == old(self).exluded_alphas@.union(
                    black_codes(cells@.take(i as int)),
                ),
                self.still_possible_alphas@ == old(self).still_possible_alphas@.union(
                    present_codes(before, cells@.take(i as int)),
                ),
            decreases cells.len() - i,
        {
            let color = cells[i].0;
            let alpha = cells[i].1;
            match color {
                Color::Black => {
                    put(&mut self.exluded_alphas, alpha as u32);
                },
                Color::Green => {
                    self.states[i].ensure(alpha);
                    put(&mut self.still_possible_alphas, alpha as u32);
                },
                Color::Yellow => {
                    if !self.states[i].is_ensured() {
                        self.states[i].exclude(alpha);
                        put(&mut self.still_possible_alphas, alpha as u32);
                    }
                },
            }
            i += 1;
            proof {
                lemma_picked_grows(cells@, is_black(), i - 1);
                lemma_picked_grows(cells@, is_present(before), i - 1);
            }
        }
        proof {
            assert(cells@.take(cells@.len() as int) =~= cells@);
            assert(self.positions() =~= applied(before, cells@));
            if all_once(before) {
                old(self).law_letters_stay_single(cells@, *self);
            }
        }
        Ok(())
    }
}

/// Compiles what a solver knows into a set of regular expressions.
pub trait GenRegexSet {
    fn gen_regex_set(&self) -> Result<RegexSet, SolverError>;
}

/// Turns the outcome of compiling into the solver's own: a set is handed
/// on, an error of the `regex` crate is wrapped.
pub fn compiled(r: Result<RegexSet, regex::Error>) -> (out: Result<RegexSet, SolverError>)
    ensures
        match r {
            Ok(set) => out == Ok::<RegexSet, SolverError>(set),
            Err(e) => out == Err::<RegexSet, SolverError>(SolverError::RegexError(e)),
        },
{
    match r {
        Ok(set) => Ok(set),
        Err(e) => Err(SolverError::from(e)),
    }
}

impl GenRegexSet for Solver {
    /// Compiles the patterns of [`Solver::patterns`]. More patterns than
    /// one set can hold are refused. Otherwise it succeeds exactly when the
    /// `regex` crate accepts the patterns, and the set then holds them in
    /// their order.
    fn gen_regex_set(&self) -> (r: Result<RegexSet, SolverError>)
        ensures
            self.pattern_total() > MAX_PATTERNS ==> {
                &&& r matches Err(e)
                &&& e is TooManyPatterns
            },
            self.pattern_total() <= MAX_PATTERNS ==> {
                &&& r is Ok <==> compiles(self.pattern_texts())
                &&& r matches Ok(set) ==> set_patterns(set) == self.pattern_texts()
                &&& r matches Err(e) ==> e is RegexError
            },
    {
        let patterns = self.patterns();
        if !fits_one_set(patterns.len()) {
            return Err(SolverError::TooManyPatterns);
        }
        compiled(compile(&patterns))
    }
}

} // verus!
