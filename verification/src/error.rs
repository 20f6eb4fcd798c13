//! The errors of the library.

use vstd::prelude::*;

verus! {

/// The ways in which an operation of this library can refuse its input.
#[derive(Clone, Copy, Debug, PartialEq, Eq, Structural)]
pub enum Error {
    /// A probability or a weight breaks the rule stated for it.
    InvalidConfiguration,
    /// A buffer does not have the length its width and height call for, or
    /// one grid does not fit inside another where it has to.
    DimensionMismatch,
    /// Four point correspondences do not determine a projective transform.
    SingularTransform,
    /// A pool of backgrounds holds no usable image.
    EmptyResourcePool,
}

impl Error {
    /// A short description of the error, for messages.
    pub fn message(&self) -> (s: &'static str)
        ensures
            s@ == (match *self {
                Error::InvalidConfiguration => "invalid configuration"@,
                Error::DimensionMismatch => "dimension mismatch"@,
                Error::SingularTransform => "singular transform"@,
                Error::EmptyResourcePool => "empty resource pool"@,
            }),
    {
        match self {
            Error::InvalidConfiguration => "invalid configuration",
            Error::DimensionMismatch => "dimension mismatch",
            Error::SingularTransform => "singular transform",
            Error::EmptyResourcePool => "empty resource pool",
        }
    }
}

} // verus!
