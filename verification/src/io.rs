//! The file-format capability: one trait covering LAS/LAZ, Parquet and CSV
//! reading, writing and deletion.
//!
//! File handling cannot live in this crate, so no type here implements the
//! trait; the adapters around the crate implement it for their own cloud
//! representation and convert at the boundary.

use vstd::prelude::*;

use crate::error::PointCloudError;

verus! {

/// Uniform multi-format persistence for a cloud representation.
pub trait IOConvert: Sized {
    /// Reads a cloud from a LAS or LAZ file.
    fn from_las_laz(path: &str) -> Result<Self, PointCloudError>;

    /// Reads a cloud from a Parquet file.
    fn from_parquet(path: &str) -> Result<Self, PointCloudError>;

    /// Reads a cloud from a CSV file with the given delimiter.
    fn from_csv(path: &str, delimiter: u8) -> Result<Self, PointCloudError>;

    /// Writes the cloud to a LAS file, compressed to LAZ on request.
    fn to_las(&self, path: &str, compress: bool) -> Result<(), PointCloudError>;

    /// Writes the cloud to a Parquet file.
    fn to_parquet(&self, path: &str) -> Result<(), PointCloudError>;

    /// Writes the cloud to a CSV file with the given delimiter.
    fn to_csv(&self, path: &str, delimiter: u8) -> Result<(), PointCloudError>;

    /// Deletes the file at the given path.
    fn delete_file(path: &str) -> Result<(), PointCloudError>;
}

} // verus!
