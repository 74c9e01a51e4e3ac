//! Verified core for EGS phase-space files: a fixed-format binary file made
//! of one header record followed by `total_particles` fixed-length particle
//! records, all little-endian.
//!
//! The library works on in-memory byte buffers. It parses, validates,
//! serializes and merges headers, applies a 2-D affine transform to the
//! position and direction fields of every particle record (streamed in
//! chunks that need not align with record boundaries), and combines several
//! compatible files into one. File I/O, command-line handling and the
//! construction of concrete transform matrices from angles or vectors stay
//! outside the library.

pub mod combine;
pub mod engine;
pub mod fp;
pub mod header;
pub mod le;
pub mod transform;
