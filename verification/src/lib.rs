//! Keyword search over a filesystem subtree.
//!
//! The library holds the traversal-and-matching engine: a model of a
//! directory subtree (`Directory`, `File`, `FsEntry`), a recursive walk
//! that reports every place a keyword occurs, and a content scanner that
//! locates keyword occurrences inside file contents while tracking
//! zero-based line numbers.  All filesystem access (enumerating entries,
//! reading contents) happens outside the library; the engine works on an
//! already-loaded subtree of plain values.

use vstd::prelude::*;

pub mod matching;
pub mod occurrence;
pub mod scan;
pub mod tree;

verus! {

/// Value parser for the search-root command-line argument.  The parser
/// carries no state of its own; validating a candidate root against the
/// filesystem happens at the program boundary, outside the verified
/// engine.
#[derive(Clone)]
pub struct DirectoryParser {}

impl DirectoryParser {
    pub fn new() -> Self {
        Self {}
    }
}

} // verus!
