//! The error taxonomy shared by every fallible operation of the crate.

use vstd::prelude::*;

verus! {

/// Why a point-cloud operation was refused.
///
/// Every operation either succeeds and returns a fully valid cloud, or fails
/// with one of these kinds and leaves its receiver unchanged.
#[derive(Debug, Clone, Copy, PartialEq, Eq, Structural)]
pub enum PointCloudError {
    /// Malformed input geometry: an empty coordinate set, or a coordinate row
    /// that is not an (x, y, z) triple.
    ShapeError,
    /// A buffer's length disagrees with the cloud's point count.
    DimensionMismatch { expected: usize, actual: usize },
    /// An attribute with the same name is already attached.
    DuplicateName,
    /// No attribute with the requested name is attached.
    NotFound,
    /// A transform matrix has the wrong shape or a ragged row, or the
    /// homogeneous divide hit a zero `w` component.
    MatrixError,
    /// A parameter is outside its admissible range, e.g. a voxel size that is
    /// not strictly positive.
    InvalidParameter,
    /// A selection strategy was handed an empty candidate list. The
    /// downsampler never does so; the guard is defensive.
    EmptyCellError,
}

} // verus!
