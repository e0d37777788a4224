//! The one source of randomness.
use vstd::prelude::*;

verus! {

/// Draws one 32-bit word with `rand::random`, that is from the generator
/// that `rand` keeps for the calling thread.
///
/// Nothing is claimed of the word: any value may come back, and two calls
/// need not agree.
#[verifier::external_body]
pub(crate) fn random_word() -> (word: u32) {
    rand::random::<u32>()
}

} // verus!
