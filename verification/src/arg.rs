//! What a session is started with.

use vstd::prelude::*;

verus! {

/// The variant of English whose dictionary is used.
#[derive(Debug, Clone, Copy, PartialEq, Eq)]
pub enum LangType {
    American,
    British,
}

/// The parameters of a session.
#[derive(Debug)]
pub struct Args {
    /// English variant to use.
    pub language: LangType,
    /// Word length.
    pub word_len: u8,
}

} // verus!
