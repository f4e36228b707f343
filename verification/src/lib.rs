//! A Wordle helper: it accumulates the colour feedback of each guess and
//! compiles what is known so far into regular expressions that filter a
//! dictionary down to the words still possible.

pub mod arg;
pub mod error;
pub mod letters;
pub mod matcher;
pub mod parse;
pub mod pattern;
pub mod session;
pub mod solver;
pub mod text;
