//! The error taxonomy of a conversion pass. Every error is fatal for the
//! pass and carries a position: a 1-based line number for GML input, a
//! 1-based event index for GraphML input.

use vstd::prelude::*;

verus! {

/// Why a conversion pass aborted.
#[derive(Debug, Clone, Copy, PartialEq, Eq, Structural)]
pub enum ConvError {
    /// A line or a token could not be read as expected.
    Parse { pos: usize },
    /// A GraphML start tag outside the closed vocabulary.
    UnsupportedTag { pos: usize },
    /// A `<data>` element referenced a key id that was never declared.
    KeyNotFound { pos: usize },
    /// A value the registry declares numeric did not parse as a number.
    TypeMismatch { pos: usize },
}

impl ConvError {
    /// The position the error points at.
    pub fn position(&self) -> (r: usize)
        ensures
            r == self.spec_position(),
    {
        match *self {
            ConvError::Parse { pos } => pos,
            ConvError::UnsupportedTag { pos } => pos,
            ConvError::KeyNotFound { pos } => pos,
            ConvError::TypeMismatch { pos } => pos,
        }
    }

    pub open spec fn spec_position(self) -> usize {
        match self {
            ConvError::Parse { pos } => pos,
            ConvError::UnsupportedTag { pos } => pos,
            ConvError::KeyNotFound { pos } => pos,
            ConvError::TypeMismatch { pos } => pos,
        }
    }
}

} // verus!
