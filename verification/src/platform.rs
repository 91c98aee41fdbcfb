use vstd::prelude::*;
use crate::error::ErrorKind;

verus! {

/// The Unix platform families between which errno interpretation
/// differs. POSIX specifies `ELOOP` for a no-follow open of a symlink,
/// but not every kernel follows POSIX on this: FreeBSD may report
/// `EMLINK`, NetBSD `EFTYPE`.
#[derive(Clone, Copy, Debug, PartialEq, Eq, Structural)]
pub enum UnixFlavor {
    /// Linux and other POSIX-conforming kernels: `ELOOP` is 40.
    Linux,
    /// macOS: BSD errno numbering, `ELOOP` alone.
    MacOs,
    /// FreeBSD: `EMLINK` is a documented alternate for `ELOOP`.
    FreeBsd,
    /// NetBSD: `EFTYPE` is a documented alternate for `ELOOP`.
    NetBsd,
}

/// `ELOOP` on Linux.
pub const ELOOP_LINUX: i32 = 40;

/// `ELOOP` on the BSD family (macOS, FreeBSD, NetBSD).
pub const ELOOP_BSD: i32 = 62;

/// `EMLINK` on FreeBSD.
pub const EMLINK_FREEBSD: i32 = 31;

/// `EFTYPE` on NetBSD.
pub const EFTYPE_NETBSD: i32 = 79;

/// `EISDIR`, shared by every flavor here.
pub const EISDIR: i32 = 21;

/// `EACCES`, shared by every flavor here.
pub const EACCES: i32 = 13;

/// `EPERM`, shared by every flavor here.
pub const EPERM: i32 = 1;

/// `ENOENT`, shared by every flavor here.
pub const ENOENT: i32 = 2;

/// `ENOTDIR`, shared by every flavor here.
pub const ENOTDIR: i32 = 20;

/// `EEXIST`, shared by every flavor here.
pub const EEXIST: i32 = 17;

/// The errno with which a no-follow open reports a symlink on a kernel
/// that conforms to POSIX: the flavor's own `ELOOP` value.
pub open spec fn symlink_errno(flavor: UnixFlavor) -> i32 {
    match flavor {
        UnixFlavor::Linux => ELOOP_LINUX,
        _ => ELOOP_BSD,
    }
}

/// Whether `errno`, raised by an open with symlink-following disabled,
/// means "the target was a symlink" on the given flavor.
pub open spec fn is_symlink_errno(flavor: UnixFlavor, errno: i32) -> bool {
    match flavor {
        UnixFlavor::Linux => errno == ELOOP_LINUX,
        UnixFlavor::MacOs => errno == ELOOP_BSD,
        UnixFlavor::FreeBsd => errno == ELOOP_BSD || errno == EMLINK_FREEBSD,
        UnixFlavor::NetBsd => errno == ELOOP_BSD || errno == EFTYPE_NETBSD,
    }
}

/// Platform predicate behind which every symlink decision hides: did this
/// raw error from a no-follow open mean "the target was a symlink"?
pub fn is_symlink_error(flavor: UnixFlavor, errno: i32) -> (r: bool)
    ensures
        r == is_symlink_errno(flavor, errno),
{
    match flavor {
        UnixFlavor::Linux => errno == ELOOP_LINUX,
        UnixFlavor::MacOs => errno == ELOOP_BSD,
        UnixFlavor::FreeBsd => errno == ELOOP_BSD || errno == EMLINK_FREEBSD,
        UnixFlavor::NetBsd => errno == ELOOP_BSD || errno == EFTYPE_NETBSD,
    }
}

/// What the engine decides to do with one directory entry after probing
/// it with a name-relative, no-follow, read-write open.
#[derive(Clone, Copy, Debug, PartialEq, Eq, Structural)]
pub enum EntryDisposition {
    /// The probe said "is a directory": reopen the name as a directory
    /// and recurse into it.
    OpenAsDirectory,
    /// The entry is a non-directory leaf (a plain file, or a symlink,
    /// which is never followed): unlink it by name.
    UnlinkLeaf,
    /// Any other failure is fatal for this call; the errno is carried
    /// through unchanged.
    Abort(i32),
}

/// The classification rule of the engine, on the outcome of the probing
/// open: `None` is success (a plain, writable file).
pub open spec fn classify_open_spec(flavor: UnixFlavor, open_errno: Option<i32>) -> EntryDisposition {
    match open_errno {
        Option::None => EntryDisposition::UnlinkLeaf,
        Option::Some(e) => if e == EISDIR {
            EntryDisposition::OpenAsDirectory
        } else if is_symlink_errno(flavor, e) {
            EntryDisposition::UnlinkLeaf
        } else {
            EntryDisposition::Abort(e)
        },
    }
}

/// Classify one entry from the outcome of its probing open: exactly one
/// of recurse, unlink, or abort. `open_errno` is `None` when the open
/// succeeded.
pub fn classify_open_outcome(flavor: UnixFlavor, open_errno: Option<i32>) -> (d: EntryDisposition)
    ensures
        d == classify_open_spec(flavor, open_errno),
{
    match open_errno {
        Option::None => EntryDisposition::UnlinkLeaf,
        Option::Some(e) => {
            if e == EISDIR {
                EntryDisposition::OpenAsDirectory
            } else if is_symlink_error(flavor, e) {
                EntryDisposition::UnlinkLeaf
            } else {
                EntryDisposition::Abort(e)
            }
        },
    }
}

/// The Windows side of the same decision, made from the metadata of an
/// already-open child handle: recurse only into a real directory, never
/// through a reparse point (the Windows analogue of a symlink).
pub fn should_recurse_windows(is_dir: bool, is_reparse_point: bool) -> (r: bool)
    ensures
        r == (is_dir && !is_reparse_point),
{
    is_dir && !is_reparse_point
}

/// How a raw errno surfaces in the public error taxonomy.
pub open spec fn kind_of_errno_spec(errno: i32) -> ErrorKind {
    if errno == ENOENT {
        ErrorKind::NotFound
    } else if errno == ENOTDIR {
        ErrorKind::NotADirectory
    } else if errno == EEXIST {
        ErrorKind::AlreadyExists
    } else if errno == EACCES || errno == EPERM {
        ErrorKind::PermissionDenied
    } else {
        ErrorKind::Os(errno)
    }
}

/// Translate a raw errno into the public error taxonomy; anything
/// unrecognized keeps its original code.
pub fn kind_of_errno(errno: i32) -> (k: ErrorKind)
    ensures
        k == kind_of_errno_spec(errno),
{
    if errno == ENOENT {
        ErrorKind::NotFound
    } else if errno == ENOTDIR {
        ErrorKind::NotADirectory
    } else if errno == EEXIST {
        ErrorKind::AlreadyExists
    } else if errno == EACCES || errno == EPERM {
        ErrorKind::PermissionDenied
    } else {
        ErrorKind::Os(errno)
    }
}

} // verus!
