//! Core logic of a band-parallel Mandelbrot renderer: parsing coordinate
//! pairs from the command line, dividing the output raster into horizontal
//! row bands (one per worker), addressing pixels in the flat output buffer,
//! and turning escape-time results into grayscale intensities.
//!
//! The floating-point evaluation of the quadratic recurrence itself lives
//! outside this crate; everything here is integer and string logic with
//! machine-checked contracts.

pub mod bands;
pub mod parse;
pub mod raster;
