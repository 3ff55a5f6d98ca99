//! Shape validation for every buffer that can be attached to a cloud.
//!
//! All checks are pure length bookkeeping; they are shared by the
//! constructors, the attribute setters and the two algorithmic operations.

use vstd::prelude::*;

use crate::buffers::spec_rows;
use crate::error::PointCloudError;

verus! {

/// A coordinate buffer is admissible when it is non-empty and every row is an
/// (x, y, z) triple.
pub open spec fn spec_xyz_ok(s: Seq<Seq<u32>>) -> bool {
    &&& s.len() > 0
    &&& forall|i: int| 0 <= i < s.len() ==> (#[trigger] s[i]).len() == 3
}

/// A matrix is admissible for a coordinate transform when it has no ragged
/// rows and is square of side 3 or 4.
pub open spec fn spec_matrix_ok(m: Seq<Seq<u32>>) -> bool {
    &&& m.len() > 0
    &&& forall|i: int| 0 <= i < m.len() ==> (#[trigger] m[i]).len() == m[0].len()
    &&& (m.len() == 3 && m[0].len() == 3) || (m.len() == 4 && m[0].len() == 4)
}

/// Checks that a coordinate buffer is a non-empty sequence of triples.
pub fn validate_xyz_shape(xyz: &Vec<Vec<u32>>) -> (r: Result<(), PointCloudError>)
    ensures
        r is Ok <==> spec_xyz_ok(spec_rows(*xyz)),
        r is Err ==> r->Err_0 == PointCloudError::ShapeError,
{
    if xyz.len() == 0 {
        return Err(PointCloudError::ShapeError);
    }
    let mut i: usize = 0;
    while i < xyz.len()
        invariant
            i <= xyz.len(),
            forall|j: int| 0 <= j < i ==> (#[trigger] spec_rows(*xyz)[j]).len() == 3,
        decreases xyz.len() - i,
    {
        if xyz[i].len() != 3 {
            proof {
                assert(spec_rows(*xyz)[i as int].len() != 3);
            }
            return Err(PointCloudError::ShapeError);
        }
        proof {
            assert(spec_rows(*xyz)[i as int].len() == 3);
        }
        i += 1;
    }
    Ok(())
}

/// Checks that one colour channel has exactly one sample per point.
pub fn validate_rgb_channel_shape(channel: &Vec<u8>, point_count: usize) -> (r: Result<
    (),
    PointCloudError,
>)
    ensures
        r is Ok <==> channel@.len() == point_count,
        r is Err ==> r->Err_0 == (PointCloudError::DimensionMismatch {
            expected: point_count,
            actual: channel@.len() as usize,
        }),
{
    if channel.len() != point_count {
        return Err(
            PointCloudError::DimensionMismatch { expected: point_count, actual: channel.len() },
        );
    }
    Ok(())
}

/// Checks that an intensity buffer has exactly one sample per point.
pub fn validate_intensity_shape(intensity: &Vec<u32>, point_count: usize) -> (r: Result<
    (),
    PointCloudError,
>)
    ensures
        r is Ok <==> intensity@.len() == point_count,
        r is Err ==> r->Err_0 == (PointCloudError::DimensionMismatch {
            expected: point_count,
            actual: intensity@.len() as usize,
        }),
{
    if intensity.len() != point_count {
        return Err(
            PointCloudError::DimensionMismatch { expected: point_count, actual: intensity.len() },
        );
    }
    Ok(())
}

/// Checks that a custom attribute buffer has exactly one sample per point.
pub fn validate_attribute_shape(attribute: &Vec<u32>, point_count: usize) -> (r: Result<
    (),
    PointCloudError,
>)
    ensures
        r is Ok <==> attribute@.len() == point_count,
        r is Err ==> r->Err_0 == (PointCloudError::DimensionMismatch {
            expected: point_count,
            actual: attribute@.len() as usize,
        }),
{
    if attribute.len() != point_count {
        return Err(
            PointCloudError::DimensionMismatch { expected: point_count, actual: attribute.len() },
        );
    }
    Ok(())
}

/// Checks that a matrix is square of side 3 or 4 with no ragged rows, and
/// returns its (rows, columns) pair.
pub fn validate_matrix_shape(matrix: &Vec<Vec<u32>>) -> (r: Result<
    (usize, usize),
    PointCloudError,
>)
    ensures
        r is Ok <==> spec_matrix_ok(spec_rows(*matrix)),
        r is Ok ==> r->Ok_0.0 == spec_rows(*matrix).len() && r->Ok_0.1
            == spec_rows(*matrix)[0].len(),
        r is Err ==> r->Err_0 == PointCloudError::MatrixError,
{
    if matrix.len() == 0 {
        return Err(PointCloudError::MatrixError);
    }
    let rows = matrix.len();
    let cols = matrix[0].len();
    let mut i: usize = 0;
    while i < rows
        invariant
            rows == spec_rows(*matrix).len(),
            cols == spec_rows(*matrix)[0].len(),
            i <= rows,
            forall|j: int| 0 <= j < i ==> (#[trigger] spec_rows(*matrix)[j]).len() == cols,
        decreases rows - i,
    {
        if matrix[i].len() != cols {
            proof {
                assert(spec_rows(*matrix)[i as int].len() != cols);
            }
            return Err(PointCloudError::MatrixError);
        }
        proof {
            assert(spec_rows(*matrix)[i as int].len() == cols);
        }
        i += 1;
    }
    if (rows == 3 && cols == 3) || (rows == 4 && cols == 4) {
        Ok((rows, cols))
    } else {
        Err(PointCloudError::MatrixError)
    }
}

} // verus!
