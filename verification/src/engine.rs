use vstd::prelude::*;
use crate::error::ErrorKind;
use crate::mode::ParallelMode;
use crate::platform::{
    UnixFlavor, EntryDisposition, classify_open_outcome, kind_of_errno, symlink_errno, EACCES,
    EISDIR, ELOOP_BSD, ELOOP_LINUX,
};
use crate::tree::{
    FsEntry, FsNode, Tree, TreeEntry, dot, dotdot, entries_size, entries_view, entry_size,
    entry_view, lemma_entries_size_index, lemma_entries_view, node_view, valid_name, wf_entries,
    wf_tree,
};

verus! {

/// A failure raised somewhere inside a directory level: the kind of the
/// OS rejection and the trail of components from that level down to the
/// exact failing node. The trail stays a bare chain of components — it
/// is rendered into one path string only when a report is finally made.
pub struct EngineError {
    /// What went wrong.
    pub kind: ErrorKind,
    /// Components from the level that reported the failure down to the
    /// failing node, outermost first.
    pub trail: Vec<Vec<u8>>,
}

/// The abstraction of a trail.
pub open spec fn trail_view(trail: Seq<Vec<u8>>) -> Seq<Seq<u8>> {
    trail.map_values(|c: Vec<u8>| c@)
}

/// The abstraction of an optional engine failure.
pub open spec fn failure_view(f: Option<EngineError>) -> Option<(ErrorKind, Seq<Seq<u8>>)> {
    match f {
        Option::None => Option::None,
        Option::Some(e) => Option::Some((e.kind, trail_view(e.trail@))),
    }
}

/// What serially removing the contents of a directory with entries `es`
/// leaves behind, and the first failure met, if any.
///
/// Entries are taken in enumeration order. A removable entry disappears;
/// a locked file stops the sweep with `PermissionDenied`, everything
/// from it on surviving; a subdirectory is swept recursively, and a
/// failure inside it keeps the partially-emptied subdirectory in place
/// (siblings already processed remain deleted — no rollback) with the
/// failing node's trail extended by the subdirectory's name.
pub open spec fn remove_entries_spec(es: Seq<TreeEntry>) -> (Seq<TreeEntry>, Option<(ErrorKind, Seq<Seq<u8>>)>)
    decreases es,
{
    if es.len() == 0 {
        (Seq::<TreeEntry>::empty(), Option::<(ErrorKind, Seq<Seq<u8>>)>::None)
    } else {
        let e = es[0];
        let rest = es.drop_first();
        match e.tree {
            Tree::File { locked } => {
                if locked {
                    (es, Option::Some((ErrorKind::PermissionDenied, seq![e.name])))
                } else {
                    remove_entries_spec(rest)
                }
            },
            Tree::Symlink => remove_entries_spec(rest),
            Tree::Dir { entries: sub } => {
                let sub_outcome = remove_entries_spec(sub);
                match sub_outcome.1 {
                    Option::Some(f) => (
                        seq![TreeEntry { name: e.name, tree: Tree::Dir { entries: sub_outcome.0 } }]
                            + rest,
                        Option::Some((f.0, seq![e.name] + f.1)),
                    ),
                    Option::None => remove_entries_spec(rest),
                }
            },
        }
    }
}

/// Whether this raw name is one of the two pseudo-entries (`.` or `..`)
/// that every directory enumeration yields and the engine must skip.
pub fn is_pseudo_name(name: &Vec<u8>) -> (r: bool)
    ensures
        r == (name@ == dot() || name@ == dotdot()),
{
    if name.len() == 1 && name[0] == 46u8 {
        proof {
            assert(name@ =~= dot());
        }
        true
    } else if name.len() == 2 && name[0] == 46u8 && name[1] == 46u8 {
        proof {
            assert(name@ =~= dotdot());
        }
        true
    } else {
        false
    }
}

/// Byte-for-byte comparison of two raw names.
pub fn bytes_equal(a: &Vec<u8>, b: &Vec<u8>) -> (r: bool)
    ensures
        r == (a@ == b@),
{
    if a.len() != b.len() {
        return false;
    }
    let mut i: usize = 0;
    while i < a.len()
        invariant
            i <= a@.len(),
            a@.len() == b@.len(),
            forall|m: int| 0 <= m < i ==> a@[m] == b@[m],
        decreases a@.len() - i,
    {
        if a[i] != b[i] {
            return false;
        }
        i += 1;
    }
    proof {
        assert(a@ =~= b@);
    }
    true
}

/// Copy a raw name.
pub fn clone_name(name: &Vec<u8>) -> (r: Vec<u8>)
    ensures
        r@ == name@,
{
    let r = name.clone();
    proof {
        assert(name@ =~= r@);
    }
    r
}

/// Model of reading a directory handle's entries: the kernel yields the
/// self and parent pseudo-entries first, then every real entry's name in
/// enumeration order. This is the only use of the level's enumeration
/// handle; all acting is done name-relative to a duplicate.
pub fn read_dir_names(entries: &Vec<FsEntry>) -> (names: Vec<Vec<u8>>)
    ensures
        names@.len() == entries@.len() + 2,
        names@[0]@ == dot(),
        names@[1]@ == dotdot(),
        forall|m: int| 2 <= m < names@.len() ==> (#[trigger] names@[m])@ == entries@[m - 2].name@,
{
    let mut names: Vec<Vec<u8>> = Vec::new();
    let mut d: Vec<u8> = Vec::new();
    d.push(46u8);
    let mut dd: Vec<u8> = Vec::new();
    dd.push(46u8);
    dd.push(46u8);
    proof {
        assert(d@ =~= dot());
        assert(dd@ =~= dotdot());
    }
    names.push(d);
    names.push(dd);
    let mut i: usize = 0;
    while i < entries.len()
        invariant
            i <= entries@.len(),
            names@.len() == i + 2,
            names@[0]@ == dot(),
            names@[1]@ == dotdot(),
            forall|m: int| 2 <= m < names@.len() ==> (#[trigger] names@[m])@ == entries@[m - 2].name@,
        decreases entries@.len() - i,
    {
        let n = clone_name(&entries[i].name);
        names.push(n);
        i += 1;
    }
    names
}

/// Model of a name-relative open against the operations handle: the
/// first (and, for a well-formed directory, only) entry carrying the
/// name, or nothing when the name has vanished.
pub fn find_entry(entries: &Vec<FsEntry>, name: &Vec<u8>) -> (r: Option<usize>)
    ensures
        match r {
            Option::Some(j) => {
                &&& j < entries@.len()
                &&& entries@[j as int].name@ == name@
                &&& forall|m: int| 0 <= m < j ==> (#[trigger] entries@[m]).name@ != name@
            },
            Option::None => forall|m: int|
                0 <= m < entries@.len() ==> (#[trigger] entries@[m]).name@ != name@,
        },
{
    let mut i: usize = 0;
    while i < entries.len()
        invariant
            i <= entries@.len(),
            forall|m: int| 0 <= m < i ==> (#[trigger] entries@[m]).name@ != name@,
        decreases entries@.len() - i,
    {
        if bytes_equal(&entries[i].name, name) {
            return Some(i);
        }
        i += 1;
    }
    None
}

/// What the probing open of one entry reports: the model of a
/// name-relative open with symlink-following disabled and read-write
/// intent. `None` is success; otherwise the errno the kernel would
/// raise on the given flavor.
pub open spec fn probe_spec(t: Tree, flavor: UnixFlavor) -> Option<i32> {
    match t {
        Tree::File { locked } => if locked {
            Option::Some(EACCES)
        } else {
            Option::None
        },
        Tree::Symlink => Option::Some(symlink_errno(flavor)),
        Tree::Dir { .. } => Option::Some(EISDIR),
    }
}

/// Model of the probing open itself.
pub fn probe_open(node: &FsNode, flavor: UnixFlavor) -> (r: Option<i32>)
    ensures
        r == probe_spec(node_view(*node), flavor),
{
    match node {
        FsNode::File { locked } => if *locked {
            Some(EACCES)
        } else {
            None
        },
        FsNode::Symlink => match flavor {
            UnixFlavor::Linux => Some(ELOOP_LINUX),
            _ => Some(ELOOP_BSD),
        },
        FsNode::Dir { .. } => Some(EISDIR),
    }
}

/// The core workhorse: remove everything inside one directory level,
/// given its entries by value (the model of holding that directory's
/// operations handle).
///
/// One level enumerates its names once (the enumeration handle), skips
/// the two pseudo-entries, and then classifies and acts on each name
/// relative to the operations handle: probe-open it; on "is a
/// directory", reopen it as a directory, recurse, and remove the emptied
/// directory; on a symlink classification or a successful open, unlink
/// the leaf; on anything else, stop and report, leaving later siblings
/// in place. The scheduling mode and the platform flavor are propagated
/// unchanged and — as the contract shows by never mentioning them — the
/// outcome depends on neither.
pub fn remove_dir_contents_recursive(dir: Vec<FsEntry>, mode: ParallelMode, flavor: UnixFlavor) -> (res: (
    Vec<FsEntry>,
    Option<EngineError>,
))
    requires
        wf_entries(entries_view(dir@)),
    ensures
        entries_view(res.0@) == remove_entries_spec(entries_view(dir@)).0,
        failure_view(res.1) == remove_entries_spec(entries_view(dir@)).1,
    decreases entries_size(dir@),
{
    let ghost orig_raw: Seq<FsEntry> = dir@;
    let names = read_dir_names(&dir);
    let mut remaining = dir;
    let mut i: usize = 0;
    proof {
        assert(orig_raw.skip(0) =~= orig_raw);
    }
    while i < names.len()
        invariant
            i <= names@.len(),
            names@.len() == orig_raw.len() + 2,
            names@[0]@ == dot(),
            names@[1]@ == dotdot(),
            forall|m: int| 2 <= m < names@.len() ==> (#[trigger] names@[m])@ == orig_raw[m - 2].name@,
            orig_raw == dir@,
            remaining@ == orig_raw.skip(if i <= 2 { 0int } else { i as int - 2 }),
            wf_entries(entries_view(remaining@)),
            remove_entries_spec(entries_view(remaining@)) == remove_entries_spec(entries_view(orig_raw)),
        decreases names@.len() - i,
    {
        let ghost k: int = if i <= 2 { 0int } else { i as int - 2 };
        let ghost rv: Seq<TreeEntry> = entries_view(remaining@);
        proof {
            lemma_entries_view(remaining@);
        }
        let name = &names[i];
        if is_pseudo_name(name) {
            // Real entries never carry a pseudo name, so this can only
            // be the kernel's own `.` or `..` at the head of the
            // enumeration.
            proof {
                if i >= 2 {
                    assert(rv[0] == entry_view(remaining@[0]));
                    assert(remaining@[0] == orig_raw[i - 2]);
                    assert(valid_name(rv[0].name));
                    assert(false);
                }
            }
        } else {
            proof {
                if i < 2 {
                    assert(name@ == dot() || name@ == dotdot());
                    assert(false);
                }
                assert(remaining@[0] == orig_raw[k]);
                assert(remaining@.len() > 0);
                assert(rv[0] == entry_view(remaining@[0]));
            }
            match find_entry(&remaining, name) {
                None => {
                    // A name yielded by enumeration that can no longer
                    // be opened is reported as NotFound, never silently
                    // swallowed. With no concurrent actor in the model,
                    // this cannot happen.
                    proof {
                        assert(remaining@[0].name@ == name@);
                        assert(false);
                    }
                    let mut trail: Vec<Vec<u8>> = Vec::new();
                    trail.push(clone_name(name));
                    return (remaining, Some(EngineError { kind: ErrorKind::NotFound, trail }));
                },
                Some(j) => {
                    proof {
                        assert(remaining@[0].name@ == name@);
                        assert(j == 0);
                    }
                    let disp = classify_open_outcome(flavor, probe_open(&remaining[j].node, flavor));
                    match disp {
                        EntryDisposition::Abort(errno) => {
                            // Any probe failure that is neither "is a
                            // directory" nor "was a symlink" is fatal
                            // for this whole call.
                            let kind = kind_of_errno(errno);
                            let mut trail: Vec<Vec<u8>> = Vec::new();
                            trail.push(clone_name(name));
                            proof {
                                assert(rv[0].tree matches Tree::File { locked: true });
                                assert(errno == EACCES);
                                assert(kind == ErrorKind::PermissionDenied);
                                assert(trail_view(trail@) =~= seq![rv[0].name]);
                                assert(remove_entries_spec(rv) == (
                                    rv,
                                    Option::<(ErrorKind, Seq<Seq<u8>>)>::Some(
                                        (ErrorKind::PermissionDenied, seq![rv[0].name]),
                                    ),
                                ));
                            }
                            return (remaining, Some(EngineError { kind, trail }));
                        },
                        EntryDisposition::OpenAsDirectory => {
                            // Reopen the same name as a directory and
                            // recurse into it with a freshly duplicated
                            // handle; afterwards remove the emptied
                            // directory itself, name-relative.
                            let entry = remaining.remove(j);
                            let FsEntry { name: ename, node: enode } = entry;
                            let sub: Vec<FsEntry> = match enode {
                                FsNode::Dir { entries } => entries,
                                _ => {
                                    proof {
                                        assert(rv[0].tree matches Tree::Dir { .. });
                                        assert(false);
                                    }
                                    Vec::new()
                                },
                            };
                            proof {
                                assert(rv[0].tree == Tree::Dir { entries: entries_view(sub@) });
                                assert(wf_tree(rv[0].tree));
                                assert(orig_raw[k].node == FsNode::Dir { entries: sub });
                                lemma_entries_size_index(orig_raw, k);
                                assert(entry_size(orig_raw[k]) == 2 + entries_size(sub@));
                                assert(entries_size(sub@) < entries_size(dir@));
                            }
                            let (sub_rem, sub_fail) = remove_dir_contents_recursive(sub, mode, flavor);
                            match sub_fail {
                                Some(fail) => {
                                    let mut fail = fail;
                                    let ghost old_trail: Seq<Vec<u8>> = fail.trail@;
                                    fail.trail.insert(0, clone_name(&ename));
                                    remaining.insert(j, FsEntry { name: ename, node: FsNode::Dir { entries: sub_rem } });
                                    proof {
                                        assert(trail_view(fail.trail@) =~= seq![rv[0].name] + trail_view(old_trail));
                                        let new_head = remaining@[0];
                                        assert(remaining@ =~= seq![new_head] + orig_raw.skip(k).drop_first());
                                        lemma_entries_view(remaining@);
                                        lemma_entries_view(orig_raw.skip(k).drop_first());
                                        assert(entries_view(remaining@) =~= seq![entry_view(new_head)]
                                            + entries_view(orig_raw.skip(k).drop_first()));
                                        assert(entries_view(orig_raw.skip(k).drop_first()) =~= rv.drop_first());
                                        assert(entry_view(new_head) == (TreeEntry {
                                            name: rv[0].name,
                                            tree: Tree::Dir { entries: entries_view(sub_rem@) },
                                        }));
                                        assert(entries_view(remaining@) == remove_entries_spec(rv).0);
                                        assert(failure_view(Some(fail)) == remove_entries_spec(rv).1);
                                    }
                                    return (remaining, Some(fail));
                                },
                                None => {
                                    // The subdirectory is empty now; its
                                    // own removal (the model rmdir)
                                    // cannot fail without interference.
                                    proof {
                                        assert(remove_entries_spec(entries_view(sub@)).1 is None);
                                        assert(remove_entries_spec(rv) == remove_entries_spec(rv.drop_first()));
                                    }
                                },
                            }
                        },
                        EntryDisposition::UnlinkLeaf => {
                            // A plain file or a symlink: unlink the name
                            // itself; a symlink is never followed.
                            let _ = remaining.remove(j);
                            proof {
                                assert(rv[0].tree matches Tree::File { locked: false }
                                    || rv[0].tree matches Tree::Symlink);
                                assert(remove_entries_spec(rv) == remove_entries_spec(rv.drop_first()));
                            }
                        },
                    }
                    proof {
                        assert(remaining@ =~= orig_raw.skip(k + 1));
                        lemma_entries_view(orig_raw.skip(k));
                        lemma_entries_view(orig_raw.skip(k + 1));
                        assert(orig_raw.skip(k).drop_first() =~= orig_raw.skip(k + 1));
                        assert(entries_view(orig_raw.skip(k)).drop_first() =~= entries_view(orig_raw.skip(k + 1)));
                        assert(entries_view(remaining@) == rv.drop_first());
                        assert(wf_entries(rv.drop_first()));
                    }
                },
            }
        }
        i += 1;
    }
    proof {
        assert(remaining@ =~= Seq::<FsEntry>::empty());
        assert(entries_view(remaining@) =~= Seq::<TreeEntry>::empty());
    }
    (remaining, None)
}

} // verus!
