//! The ways in which an insertion into the tree is refused.

use vstd::prelude::*;

verus! {

/// Why an insertion was refused. A refused insertion changes nothing.
#[derive(Copy, Clone, Debug, PartialEq, Eq, Structural)]
pub enum InsertError {
    /// The bounding box reaches outside the region that the tree covers.
    OutOfBounds,
    /// More points than a leaf holds would stay together in one quadrant of
    /// a region that cannot be halved. Points that lie inside the region of
    /// their tree stay together like that if and only if more of them than
    /// a leaf holds lie on one and the same point of the grid.
    CoincidentPoints,
}

} // verus!
