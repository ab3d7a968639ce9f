//! Failures of a generation run. Every failure aborts the affected run;
//! nothing is retried internally.

use vstd::prelude::*;

verus! {

/// Why a generation run was aborted.
#[derive(Clone, Copy, PartialEq, Eq, Structural, Debug)]
pub enum GenError {
    /// The requested map index does not select a catalog entry.
    MapIndexOutOfRange,
    /// The carved layout violates the autocrop precondition: no walkable
    /// tile, or walkable tiles inside the border margin.
    CropPreconditionViolated,
    /// The contour tracer found no walkable tile on the grid's midline.
    ContourSeedNotFound,
    /// A boundary walk was about to leave the addressable grid.
    ContourTouchesFrame,
    /// A boundary walk failed to return to its starting position.
    TraceRunaway,
}

} // verus!
