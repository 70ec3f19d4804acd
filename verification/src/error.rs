//! The errors of the library.

use vstd::prelude::*;

verus! {

/// The ways in which a request to the library can fail.
#[derive(Clone, Copy, Debug, PartialEq, Eq, Structural)]
pub enum Error {
    /// A direction name that is none of the six known ones.
    UnknownDirection,
    /// No block of the requested type exists in the region.
    OriginNotFound,
    /// A position outside the box that the operation is defined on.
    OutOfBoundsAccess,
}

} // verus!
