//! Verified core of a single-session remote file transfer library: path
//! handling, directory listings, the session registry and the step machines
//! that drive recursive download, upload and delete.

pub mod path;
pub mod error;
pub mod entry;
pub mod registry;
pub mod job;
pub mod ordering;
