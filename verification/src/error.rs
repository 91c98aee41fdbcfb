use vstd::prelude::*;

verus! {

/// The error taxonomy of the removal operations.
///
/// `SymlinkRejected` is deliberately absent: a rejected symlink is either
/// treated as a plain leaf (inside the tree) or surfaced as
/// [`ErrorKind::NotADirectory`] (at the root open), never as a kind of its
/// own.
#[derive(Clone, Copy, Debug, PartialEq, Eq, Structural)]
pub enum ErrorKind {
    /// The target path or entry vanished before or during the operation.
    NotFound,
    /// A path expected to be a directory resolves to a file, or to a
    /// directory symlink at a point where following symlinks is
    /// disallowed.
    NotADirectory,
    /// Creation failed because the target already exists.
    AlreadyExists,
    /// The operating system rejected an open or a delete.
    PermissionDenied,
    /// Any other OS error, passed through with its original code
    /// preserved for caller inspection.
    Os(i32),
}

/// A failure surfaced by one of the public operations: the kind of the
/// underlying OS rejection, plus the path at which it happened, rendered
/// only at report time.
#[derive(Clone, Debug)]
pub struct RemovalError {
    /// What went wrong.
    pub kind: ErrorKind,
    /// The rendered path of the exact failing node, root first.
    pub path: Vec<u8>,
}

} // verus!
