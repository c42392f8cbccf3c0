//! Why a bookmarks source is rejected.

use vstd::prelude::*;

verus! {

#[derive(Debug, PartialEq, Eq)]
pub enum ParseError {
    /// A text of the hierarchical encoding that is no TOML document.
    Syntax,
    /// A malformed entry of the hierarchical encoding: one that is no
    /// table, or a field of the wrong kind or a `url` that is empty. The
    /// keys lead from the root table to the entry, or to the field where
    /// a field is at fault.
    Schema(Vec<String>),
    /// A record line of the flat encoding without `::`, with the number
    /// of the line, counted from 1.
    MissingDelimiter(usize),
    /// A record line of the flat encoding with no URL after `::`, with
    /// the number of the line, counted from 1.
    MissingUrl(usize),
}

} // verus!
