//! The `Offset` trait: the contract for path offsetting backends.

use vstd::prelude::*;

use crate::error::PathError;
use crate::path::Path;

pub mod engine;
pub mod flo;

verus! {

/// A type that can offset a path.
///
/// A backend is constructed from a source path and a distance; the one
/// operation computes the offset path or reports why it could not.
pub trait Offset {
    /// Offsets the path this backend was constructed from.
    fn offset_path(&self) -> Result<Path, PathError>;
}

} // verus!
