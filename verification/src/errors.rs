//! Errors of the placement engine.
use vstd::prelude::*;

verus! {

/// An error of a single placement.
#[derive(Debug, Copy, Clone, PartialEq, Eq, Structural)]
pub enum SynthError {
    /// A material was placed out of bounds.
    OutOfBounds,
    /// A material was placed on top of another material while that is
    /// disallowed.
    DisallowedOverlap,
    /// A material was placed on an unavailable tile (a hole).
    UnavailableTile,
}

impl SynthError {
    /// A short description of the error.
    pub fn message(self) -> (r: &'static str)
        ensures
            r@.len() > 0,
    {
        let r = match self {
            SynthError::OutOfBounds => "A material was placed out of bounds",
            SynthError::DisallowedOverlap => (
            "A material was placed on top of another material while it is disallowed"),
            SynthError::UnavailableTile => (
            "A material was placed on an unavailable tile (ie. a hole)"),
        };
        proof {
            reveal_strlit("A material was placed out of bounds");
            reveal_strlit("A material was placed on top of another material while it is disallowed");
            reveal_strlit("A material was placed on an unavailable tile (ie. a hole)");
        }
        r
    }
}

} // verus!
