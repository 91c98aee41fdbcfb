//! Race-resistant recursive removal of a directory tree.
//!
//! The heart of this crate is a verified model of the fd-relative deletion
//! engine: the filesystem is modelled as a tree of plain values
//! ([`tree::FsNode`]), and the open/classify/recurse/delete algorithm is
//! implemented and proved against that model. The per-platform decision
//! logic that the real engine needs — errno classification, symlink
//! detection, the scheduling policy — consists of pure functions that are
//! verified here and shared with the unverified I/O shell that drives the
//! actual syscalls.

pub mod engine;
pub mod error;
pub mod laws;
pub mod mode;
pub mod ops;
pub mod platform;
pub mod trace;
pub mod tree;

pub use engine::EngineError;
pub use engine::bytes_equal;
pub use engine::is_pseudo_name;
pub use engine::remove_dir_contents_recursive;
pub use error::ErrorKind;
pub use error::RemovalError;
pub use mode::ParallelMode;
pub use mode::default_parallel_mode;
pub use ops::ensure_empty_dir;
pub use ops::remove_dir_all;
pub use ops::remove_dir_contents;
pub use platform::EntryDisposition;
pub use platform::UnixFlavor;
pub use platform::classify_open_outcome;
pub use platform::is_symlink_error;
pub use platform::kind_of_errno;
pub use platform::should_recurse_windows;
pub use trace::PathTrace;
pub use tree::FsEntry;
pub use tree::FsNode;
pub use tree::ModelFs;
