//! The error kinds surfaced by the index.

use vstd::prelude::*;

verus! {

/// Failure conditions of index construction and of the per-vector operations.
///
/// `BucketNotFound` is an expected outcome of a bucket lookup and is absorbed
/// inside the query path; it never crosses the index boundary.
#[derive(Clone, Copy, Debug, PartialEq, Eq, Structural)]
pub enum LshError {
    /// Bad construction arguments: zero dimension, a non-positive bucket
    /// width, or malformed asymmetric-transform bounds.
    InvalidParameter,
    /// A vector presented to store/query/delete whose length differs from the
    /// configured dimensionality.
    DimensionMismatch,
    /// No bucket exists for a signature in a table; expected and non-fatal.
    BucketNotFound,
    /// A storage operation failed unexpectedly.
    BackendFault,
    /// An operation was attempted before a hash family was selected.
    Unbound,
}

} // verus!
