//! One step of a session: a line comes in, and the solver says what to do
//! with it.

use crate::error::SolverError;
use crate::matcher::{compiles, set_patterns, MAX_PATTERNS};
use crate::parse::{parse_line, parsed, Color, ParseError};
use crate::solver::{FitCells, GenRegexSet, Solver};
use regex::RegexSet;
use vstd::prelude::*;
use vstd::string::StringSliceAdditionalSpecFns;

verus! {

/// What came of one line.
#[derive(Debug)]
pub enum Reply {
    /// The line was empty and is passed over.
    Skipped,
    /// The line is no row of feedback. The solver is as it was.
    Unreadable(ParseError),
    /// The row has the wrong length, and the solver is as it was; or the row
    /// was applied, and the patterns are too many for one set or did not
    /// compile.
    Failed(SolverError),
    /// The row was applied. The set tells which words are still possible.
    Narrowed(RegexSet),
}

impl Solver {
    /// Takes in one line, already trimmed. An empty line is passed over. A
    /// line that reads as a row of the word's length is applied, and what
    /// is then known is compiled. Any other line changes nothing.
    pub fn feed(&mut self, line: &str) -> (reply: Reply)
        ensures
            match reply {
                Reply::Skipped => line@.len() == 0 && *final(self) == *old(self),
                Reply::Unreadable(e) => {
                    &&& line@.len() > 0
                    &&& parsed(line.spec_bytes()) == Err::<Seq<(Color, char)>, ParseError>(e)
                    &&& *final(self) == *old(self)
                },
                Reply::Failed(e) => {
                    &&& line@.len() > 0
                    &&& parsed(line.spec_bytes()) matches Ok(cells)
                    &&& if cells.len() == old(self).word_len() {
                        &&& final(self).follows(*old(self), cells)
                        &&& if final(self).pattern_total() > MAX_PATTERNS {
                            e is TooManyPatterns
                        } else {
                            e is RegexError && !compiles(final(self).pattern_texts())
                        }
                    } else {
                        &&& e is CellLengthMismatch
                        &&& *final(self) == *old(self)
                    }
                },
                Reply::Narrowed(set) => {
                    &&& line@.len() > 0
                    &&& parsed(line.spec_bytes()) matches Ok(cells)
                    &&& cells.len() == old(self).word_len()
                    &&& final(self).follows(*old(self), cells)
                    &&& final(self).pattern_total() <= MAX_PATTERNS
                    &&& compiles(final(self).pattern_texts())
                    &&& set_patterns(set) == final(self).pattern_texts()
                },
            },
    {
        if line.is_empty() {
            return Reply::Skipped;
        }
        let cells = match parse_line(line) {
            Err(e) => {
                return Reply::Unreadable(e);
            },
            Ok(cells) => cells,
        };
        match self.fit_cells(cells) {
            Err(e) => {
                return Reply::Failed(e);
            },
            Ok(()) => {},
        }
        match self.gen_regex_set() {
            Err(e) => Reply::Failed(e),
            Ok(set) => Reply::Narrowed(set),
        }
    }
}

} // verus!
