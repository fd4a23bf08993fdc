//! A directory-tree scanner: it flattens a directory subtree into one
//! ordered sequence of visited entries, honouring a maximum recursion
//! depth and an optional filter that drops hidden entries.
//!
//! The scanner works on a snapshot of the subtree ([`snapshot::DirListing`])
//! that the caller obtains from the filesystem; every decision the scan
//! makes — classification, the hidden filter, the depth cutoff, the order
//! of the output — is made here and verified.

pub mod item;
pub mod laws;
pub mod path;
pub mod snapshot;
pub mod tree;
