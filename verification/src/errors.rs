//! The failure classes the library reports: a missing path or
//! identifier, an operating-system I/O failure, a failure of the
//! on-disk stores, and an empty or inaccessible clipboard. Each
//! carries a descriptive message for the caller.

use vstd::prelude::*;
use vstd::string::StringExecFns;

verus! {

/// One failure, classified, with its human-readable description.
pub enum NodianError {
    /// A path or identifier that does not exist.
    NotFound(String),
    /// A read, write or other operating-system failure.
    IoFailure(String),
    /// A failure of an on-disk store.
    PersistenceFailure(String),
    /// An empty, non-textual or inaccessible clipboard.
    ClipboardUnavailable(String),
}

impl NodianError {
    /// The description carried by this error, whatever its class.
    pub open spec fn message_spec(&self) -> Seq<char> {
        match self {
            NodianError::NotFound(m) => m@,
            NodianError::IoFailure(m) => m@,
            NodianError::PersistenceFailure(m) => m@,
            NodianError::ClipboardUnavailable(m) => m@,
        }
    }

    /// The description carried by this error.
    pub fn message(&self) -> (r: &String)
        ensures
            r@ == self.message_spec(),
    {
        match self {
            NodianError::NotFound(m) => m,
            NodianError::IoFailure(m) => m,
            NodianError::PersistenceFailure(m) => m,
            NodianError::ClipboardUnavailable(m) => m,
        }
    }
}

/// The error reported when a file tree is requested for a path that
/// does not exist.
pub fn missing_path_error(path: &str) -> (r: NodianError)
    ensures
        r matches NodianError::NotFound(m) && m@ == "Path does not exist: "@ + path@,
{
    NodianError::NotFound("Path does not exist: ".to_owned().concat(path))
}

} // verus!
