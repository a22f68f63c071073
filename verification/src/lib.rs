//! A file-backed store for session records.
//!
//! The store keeps one file per session under a configured directory,
//! at `dir/` + `prefix` + identifier + `extension`.  The on-disk format,
//! the path derivation and the effect of each operation on the directory
//! are specified and verified here; the actual filesystem calls are left
//! to the embedding application.

pub mod codec;
pub mod disk;
pub mod record;
pub mod store;

pub use record::Record;
pub use store::FileStore;
