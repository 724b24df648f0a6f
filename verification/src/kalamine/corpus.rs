//! The corpus: how often each character, pair and triple of characters
//! occurs in a body of text.

use vstd::prelude::*;

verus! {

/// A named corpus with its three tables of weights.
///
/// A weight is a whole number of a unit that the caller chooses; the
/// tables need not sum to anything in particular. They are lists, read in
/// order.
#[derive(Debug, Clone, PartialEq)]
pub struct Corpus {
    pub path: String,
    pub symbols: Vec<(char, u64)>,
    pub digrams: Vec<([char; 2], u64)>,
    pub trigrams: Vec<([char; 3], u64)>,
}

} // verus!
