//! The books directory: comic archives and image directories that readers put there
//! themselves, addressed by keys relative to it and by `local:` addresses.

use vstd::prelude::*;

pub mod book_laws;
pub mod keys;
pub mod pages;
pub mod scan;
pub mod series;

verus! {

/// Why a source, or the books directory, gave nothing.
#[derive(Debug, PartialEq, Eq)]
pub enum SourceError {
    /// It could not be reached, or not read.
    Http(String),
    /// What it gave makes no sense.
    Parse(String),
    /// Its own description is wrong.
    Definition(String),
}

/// A refusal of what was given, with this message.
pub open spec fn refusal(e: SourceError, message: Seq<char>) -> bool {
    e matches SourceError::Parse(m) && m@ == message
}

}
