//! Error taxonomy: a notation that cannot be parsed, a number outside a
//! hard bound, or a vector that does not fit its space.

use vstd::prelude::*;

verus! {

/// Why a color operation was refused.
#[derive(Clone, Copy, Debug, PartialEq, Eq, Structural)]
pub enum ChromaError {
    /// The notation has no recognized prefix and is not a known name.
    UnknownColor,
    /// A numeric component is malformed.
    BadNumber,
    /// A notation or vector carries the wrong number of components.
    WrongArity,
    /// A hue lies outside `[0, 360)`; 360 itself is rejected, not wrapped.
    HueRange,
    /// The requested space is served by the floating-point layer above
    /// this crate, not by these kernels.
    Unsupported,
}

impl ChromaError {
    /// A short human-readable description.
    pub fn describe(&self) -> (r: &'static str)
        ensures
            r@ == self.spec_describe(),
    {
        match self {
            ChromaError::UnknownColor => "unknown color notation or name",
            ChromaError::BadNumber => "malformed numeric component",
            ChromaError::WrongArity => "wrong number of components",
            ChromaError::HueRange => "hue out of range",
            ChromaError::Unsupported => "space not served by this layer",
        }
    }

    pub open spec fn spec_describe(&self) -> Seq<char> {
        match self {
            ChromaError::UnknownColor => "unknown color notation or name"@,
            ChromaError::BadNumber => "malformed numeric component"@,
            ChromaError::WrongArity => "wrong number of components"@,
            ChromaError::HueRange => "hue out of range"@,
            ChromaError::Unsupported => "space not served by this layer"@,
        }
    }
}

} // verus!
