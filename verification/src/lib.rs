//! Backend logic of a small note-taking application: a root storage
//! folder under the user's home directory, file trees listed as nested
//! nodes, a calendar of dated events, and a bounded history of
//! clipboard snapshots.
//!
//! Everything here is pure: the filesystem, the system clipboard and
//! the on-disk stores are driven by a thin unverified shell that hands
//! plain values in and out of these functions.

pub mod errors;
pub mod events;
pub mod history;
pub mod paths;
pub mod tree;
pub mod walk;
