//! What the filesystems report to the layer above them.
use vstd::prelude::*;

verus! {

/// An error of a filesystem operation.
#[derive(Debug)]
pub enum Error {
    /// A parameter is out of range.
    InvalidParameter,
    /// The volume does not hold what the filesystem's own records say.
    InconsistentFilesystem,
    /// Anything else, with a message.
    Unknown(&'static str),
}

} // verus!
