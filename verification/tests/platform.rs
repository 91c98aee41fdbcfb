use remove_dir_all::platform::{
    EACCES, EEXIST, EFTYPE_NETBSD, EISDIR, ELOOP_BSD, ELOOP_LINUX, EMLINK_FREEBSD, ENOENT,
    ENOTDIR, EPERM,
};
use remove_dir_all::{
    classify_open_outcome, default_parallel_mode, is_symlink_error, kind_of_errno,
    should_recurse_windows, EntryDisposition, ErrorKind, ParallelMode, UnixFlavor,
};

#[test]
fn errno_constants_match_the_host_libc() {
    // This crate is built and checked on Linux; the Linux-family values
    // must agree with the libc the real engine links against.
    assert_eq!(ELOOP_LINUX, libc::ELOOP);
    assert_eq!(EISDIR, libc::EISDIR);
    assert_eq!(EACCES, libc::EACCES);
    assert_eq!(EPERM, libc::EPERM);
    assert_eq!(ENOENT, libc::ENOENT);
    assert_eq!(ENOTDIR, libc::ENOTDIR);
    assert_eq!(EEXIST, libc::EEXIST);
}

#[test]
fn symlink_errno_per_flavor() {
    assert!(is_symlink_error(UnixFlavor::Linux, ELOOP_LINUX));
    assert!(!is_symlink_error(UnixFlavor::Linux, ELOOP_BSD));
    assert!(!is_symlink_error(UnixFlavor::Linux, EMLINK_FREEBSD));

    assert!(is_symlink_error(UnixFlavor::MacOs, ELOOP_BSD));
    assert!(!is_symlink_error(UnixFlavor::MacOs, ELOOP_LINUX));
    assert!(!is_symlink_error(UnixFlavor::MacOs, EMLINK_FREEBSD));

    assert!(is_symlink_error(UnixFlavor::FreeBsd, ELOOP_BSD));
    assert!(is_symlink_error(UnixFlavor::FreeBsd, EMLINK_FREEBSD));
    assert!(!is_symlink_error(UnixFlavor::FreeBsd, EFTYPE_NETBSD));

    assert!(is_symlink_error(UnixFlavor::NetBsd, ELOOP_BSD));
    assert!(is_symlink_error(UnixFlavor::NetBsd, EFTYPE_NETBSD));
    assert!(!is_symlink_error(UnixFlavor::NetBsd, EMLINK_FREEBSD));
}

#[test]
fn classification_covers_the_three_outcomes() {
    // A successful read-write open is a plain file: a leaf.
    assert_eq!(
        classify_open_outcome(UnixFlavor::Linux, None),
        EntryDisposition::UnlinkLeaf
    );
    // "Is a directory": reopen as a directory and recurse.
    assert_eq!(
        classify_open_outcome(UnixFlavor::Linux, Some(EISDIR)),
        EntryDisposition::OpenAsDirectory
    );
    // The flavor's symlink errno: a leaf, never followed.
    assert_eq!(
        classify_open_outcome(UnixFlavor::Linux, Some(ELOOP_LINUX)),
        EntryDisposition::UnlinkLeaf
    );
    assert_eq!(
        classify_open_outcome(UnixFlavor::NetBsd, Some(EFTYPE_NETBSD)),
        EntryDisposition::UnlinkLeaf
    );
    // The same number on the wrong platform is fatal.
    assert_eq!(
        classify_open_outcome(UnixFlavor::MacOs, Some(ELOOP_LINUX)),
        EntryDisposition::Abort(ELOOP_LINUX)
    );
    assert_eq!(
        classify_open_outcome(UnixFlavor::Linux, Some(EMLINK_FREEBSD)),
        EntryDisposition::Abort(EMLINK_FREEBSD)
    );
    // Anything else aborts with its code preserved.
    assert_eq!(
        classify_open_outcome(UnixFlavor::Linux, Some(EACCES)),
        EntryDisposition::Abort(EACCES)
    );
}

#[test]
fn errno_to_error_kind() {
    assert_eq!(kind_of_errno(ENOENT), ErrorKind::NotFound);
    assert_eq!(kind_of_errno(ENOTDIR), ErrorKind::NotADirectory);
    assert_eq!(kind_of_errno(EEXIST), ErrorKind::AlreadyExists);
    assert_eq!(kind_of_errno(EACCES), ErrorKind::PermissionDenied);
    assert_eq!(kind_of_errno(EPERM), ErrorKind::PermissionDenied);
    assert_eq!(kind_of_errno(95), ErrorKind::Os(95));
}

#[test]
fn default_mode_prefers_parallel_except_macos() {
    assert_eq!(default_parallel_mode(true, false), ParallelMode::Parallel);
    assert_eq!(default_parallel_mode(true, true), ParallelMode::Serial);
    assert_eq!(default_parallel_mode(false, false), ParallelMode::Serial);
    assert_eq!(default_parallel_mode(false, true), ParallelMode::Serial);
}

#[test]
fn windows_recursion_shuns_reparse_points() {
    assert!(should_recurse_windows(true, false));
    assert!(!should_recurse_windows(true, true));
    assert!(!should_recurse_windows(false, false));
    assert!(!should_recurse_windows(false, true));
}
