//! The crate's one tie to the outside random number generator.

use vstd::prelude::*;

verus! {

/// Relies on `rand::random`: one machine word from the thread-local
/// generator.  Every value is a possible outcome, so nothing is
/// promised of the result.
#[verifier::external_body]
pub fn draw_usize() -> usize {
    rand::random::<usize>()
}

} // verus!
