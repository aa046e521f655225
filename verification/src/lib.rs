//! An approximate-nearest-neighbor index built on locality-sensitive hashing.
//!
//! Vectors are sequences of 32-bit IEEE-754 floats, carried as their bit
//! patterns (`u32`) so that every rule of the index is stated and proved over
//! plain integers. Hashing decodes each component into a bounded fixed-point
//! integer and projects it against seeded random directions.

pub mod err;
pub mod fixed;
pub mod hash;
pub mod laws;
pub mod lsh;
pub mod rng;
pub mod table;
