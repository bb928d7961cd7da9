//! Fills missing-data holes in a regularly gridded raster surface.
//!
//! The surface's known-value boundary is located against each hole, and each
//! missing cell is estimated from nearby boundary samples by inverse-square-
//! distance weighting. Cell values are carried as raw 64-bit patterns with a
//! sentinel marking holes; distances between grid coordinates are carried as
//! exact integer squared distances, so the whole pipeline up to the final
//! weighted reduction is stated and proved over plain integers.

pub mod boundary;
pub mod grid;
pub mod interp;
pub mod search;
