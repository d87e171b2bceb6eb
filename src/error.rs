use vstd::prelude::*;

verus! {

/// The errors of slug generation.
#[derive(Debug, Clone, Copy, PartialEq, Eq, Structural)]
pub enum GeneralException {
    /// Every combination for the requested length has already been produced,
    /// or more slugs were requested than there are combinations.
    NoMoreUniqueCombinations,
    /// The word length lies outside 1..=5, or a vocabulary is empty.
    InvalidWordLength(i32),
    /// The number of combinations does not fit in a `usize`.
    CountOverflow,
}

} // verus!
