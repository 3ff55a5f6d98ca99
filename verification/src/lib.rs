//! An in-memory point-cloud data model with voxel-grid downsampling and
//! matrix coordinate transforms.
//!
//! Coordinates, intensities and custom attributes are single-precision
//! samples; this crate stores each such sample as its 32-bit IEEE-754 bit
//! pattern (`u32`), so that every structural rule — length synchronisation,
//! atomic colour channels, unique attribute names, cell grouping, gathering —
//! is verified, while the numeric kernels themselves run on a tensor backend
//! behind a small set of trusted wrappers.

pub mod backend;
pub mod bits;
pub mod buffers;
pub mod cloud;
pub mod error;
pub mod io;
pub mod shape;
pub mod table;
pub mod transform;
pub mod voxel;
