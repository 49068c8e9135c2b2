//! Synchronization core of a notes directory viewer: a filter that decides
//! which paths take part in the file tree, a deterministic tree builder over
//! directory snapshots, a path fingerprint for stable node identifiers, and
//! the state machine of the filesystem watch session.

pub mod filter;
pub mod fingerprint;
pub mod node;
pub mod errors;
pub mod order;
pub mod tree;
pub mod watch;
