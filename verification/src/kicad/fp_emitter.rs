//! Errors of the footprint emitter.

use vstd::prelude::*;

verus! {

/// Errors that can occur when emitting a footprint.
#[derive(Clone, Debug, PartialEq, Eq)]
pub enum EmitError {
    /// Failed to decode embedded 3D model data.
    Base64Decode(String),
    /// Failed to write a 3D model file to disk.
    ModelWrite { path: String, source: String },
}

} // verus!
