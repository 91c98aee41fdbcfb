use vstd::prelude::*;
use crate::engine::{
    EngineError, failure_view, find_entry, remove_dir_contents_recursive, remove_entries_spec,
    clone_name, trail_view,
};
use crate::error::{ErrorKind, RemovalError};
use crate::mode::ParallelMode;
use crate::platform::UnixFlavor;
use crate::trace::{PathTrace, rendered};
use crate::tree::{
    FsEntry, FsNode, ModelFs, Tree, TreeEntry, entries_view, entry_view, find_index,
    lemma_entries_view, lemma_entries_view_push, lemma_entries_view_update,
    lemma_find_index_absent, lemma_find_index_from_raw, lemma_wf_entries_index, node_view,
    valid_name, wf_tree,
};

verus! {

/// The abstraction of an exec path: its components.
pub open spec fn path_view(path: Seq<Vec<u8>>) -> Seq<Seq<u8>> {
    path.map_values(|c: Vec<u8>| c@)
}

/// A path every component of which is a real entry name: nonempty,
/// neither pseudo-entry, no separator inside. The model resolves a path
/// component by component against directory entries, so the pseudo
/// components a kernel would collapse are left out.
pub open spec fn valid_path(path: Seq<Seq<u8>>) -> bool {
    forall|m: int| 0 <= m < path.len() ==> valid_name(#[trigger] path[m])
}

/// What removing the contents (never the node itself) of the directory
/// at `path` does to a tree, and the failure met, if any: the failure's
/// trail runs from the target downward, empty when the target itself
/// could not be opened as a directory.
pub open spec fn contents_outcome(t: Tree, path: Seq<Seq<u8>>) -> (Tree, Option<(ErrorKind, Seq<Seq<u8>>)>)
    decreases path.len(),
{
    if path.len() == 0 {
        match t {
            Tree::Dir { entries } => {
                let o = remove_entries_spec(entries);
                (Tree::Dir { entries: o.0 }, o.1)
            },
            _ => (t, Option::Some((ErrorKind::NotADirectory, Seq::<Seq<u8>>::empty()))),
        }
    } else {
        match t {
            Tree::Dir { entries } => {
                let i = find_index(entries, path[0]);
                if i < 0 {
                    (t, Option::Some((ErrorKind::NotFound, Seq::<Seq<u8>>::empty())))
                } else {
                    let o = contents_outcome(entries[i].tree, path.drop_first());
                    (
                        Tree::Dir {
                            entries: entries.update(i, TreeEntry { name: entries[i].name, tree: o.0 }),
                        },
                        o.1,
                    )
                }
            },
            _ => (t, Option::Some((ErrorKind::NotADirectory, Seq::<Seq<u8>>::empty()))),
        }
    }
}

/// What removing the whole directory at `path`, itself included, does
/// to a tree. The root open rejects a symlink, so a symlink target
/// fails with `NotADirectory` and nothing behind it is touched; on a
/// failure inside, the partially-emptied target stays in place.
pub open spec fn remove_all_outcome(t: Tree, path: Seq<Seq<u8>>) -> (Tree, Option<(ErrorKind, Seq<Seq<u8>>)>)
    recommends
        path.len() >= 1,
    decreases path.len(),
{
    if path.len() == 0 {
        (t, Option::Some((ErrorKind::NotFound, Seq::<Seq<u8>>::empty())))
    } else {
        match t {
            Tree::Dir { entries } => {
                let i = find_index(entries, path[0]);
            if i < 0 {
                (t, Option::Some((ErrorKind::NotFound, Seq::<Seq<u8>>::empty())))
            } else if path.len() == 1 {
                match entries[i].tree {
                    Tree::Dir { entries: sub } => {
                        let o = remove_entries_spec(sub);
                        match o.1 {
                            Option::Some(f) => (
                                Tree::Dir {
                                    entries: entries.update(
                                        i,
                                        TreeEntry { name: entries[i].name, tree: Tree::Dir { entries: o.0 } },
                                    ),
                                },
                                Option::Some(f),
                            ),
                            Option::None => (Tree::Dir { entries: entries.remove(i) }, Option::None),
                        }
                    },
                    _ => (t, Option::Some((ErrorKind::NotADirectory, Seq::<Seq<u8>>::empty()))),
                }
            } else {
                let o = remove_all_outcome(entries[i].tree, path.drop_first());
                (
                    Tree::Dir {
                        entries: entries.update(i, TreeEntry { name: entries[i].name, tree: o.0 }),
                    },
                    o.1,
                )
            }
            },
            _ => (t, Option::Some((ErrorKind::NotADirectory, Seq::<Seq<u8>>::empty()))),
        }
    }
}

/// What attempting to create a new directory at `path` does: the whole
/// tree is unchanged on any failure. Creating over an existing entry of
/// any kind is `AlreadyExists`; a missing parent is `NotFound`; a
/// non-directory met on the way is `NotADirectory`.
pub open spec fn create_dir_outcome(t: Tree, path: Seq<Seq<u8>>) -> (Tree, Option<ErrorKind>)
    decreases path.len(),
{
    if path.len() == 0 {
        (t, Option::Some(ErrorKind::AlreadyExists))
    } else {
        match t {
            Tree::Dir { entries } => {
                let i = find_index(entries, path[0]);
                if path.len() == 1 {
                    if i >= 0 {
                        (t, Option::Some(ErrorKind::AlreadyExists))
                    } else {
                        (
                            Tree::Dir {
                                entries: entries.push(
                                    TreeEntry { name: path[0], tree: Tree::Dir { entries: Seq::empty() } },
                                ),
                            },
                            Option::None,
                        )
                    }
                } else if i < 0 {
                    (t, Option::Some(ErrorKind::NotFound))
                } else {
                    let o = create_dir_outcome(entries[i].tree, path.drop_first());
                    match o.1 {
                        Option::Some(k) => (t, Option::Some(k)),
                        Option::None => (
                            Tree::Dir {
                                entries: entries.update(i, TreeEntry { name: entries[i].name, tree: o.0 }),
                            },
                            Option::None,
                        ),
                    }
                }
            },
            _ => (t, Option::Some(ErrorKind::NotADirectory)),
        }
    }
}

/// What making `path` an empty directory does: create it, and when it
/// already exists — the one recovered failure — empty it instead. Any
/// other creation failure propagates unchanged.
pub open spec fn ensure_empty_outcome(t: Tree, path: Seq<Seq<u8>>) -> (Tree, Option<(ErrorKind, Seq<Seq<u8>>)>) {
    let c = create_dir_outcome(t, path);
    match c.1 {
        Option::None => (c.0, Option::None),
        Option::Some(ErrorKind::AlreadyExists) => contents_outcome(t, path),
        Option::Some(k) => (t, Option::Some((k, Seq::<Seq<u8>>::empty()))),
    }
}

/// Remove the contents of the directory reached through
/// `path[depth ..]` from `node`.
fn remove_contents_at(node: FsNode, path: &Vec<Vec<u8>>, depth: usize, mode: ParallelMode, flavor: UnixFlavor) -> (res: (
    FsNode,
    Option<EngineError>,
))
    requires
        wf_tree(node_view(node)),
        depth <= path@.len(),
    ensures
        node_view(res.0) == contents_outcome(node_view(node), path_view(path@).skip(depth as int)).0,
        failure_view(res.1) == contents_outcome(node_view(node), path_view(path@).skip(depth as int)).1,
    decreases path@.len() - depth,
{
    let ghost pv = path_view(path@).skip(depth as int);
    if depth == path.len() {
        proof {
            assert(pv =~= Seq::<Seq<u8>>::empty());
        }
        match node {
            FsNode::Dir { entries } => {
                let (rem, fail) = remove_dir_contents_recursive(entries, mode, flavor);
                (FsNode::Dir { entries: rem }, fail)
            },
            other => (other, Some(EngineError { kind: ErrorKind::NotADirectory, trail: Vec::new() })),
        }
    } else {
        proof {
            assert(pv.len() > 0);
            assert(pv[0] == path@[depth as int]@);
        }
        match node {
            FsNode::Dir { entries } => {
                let mut entries = entries;
                let ghost raw = entries@;
                match find_entry(&entries, &path[depth]) {
                    None => {
                        proof {
                            lemma_find_index_absent(raw, pv[0]);
                        }
                        (FsNode::Dir { entries }, Some(EngineError { kind: ErrorKind::NotFound, trail: Vec::new() }))
                    },
                    Some(j) => {
                        proof {
                            lemma_find_index_from_raw(raw, pv[0], j as int);
                            lemma_entries_view(raw);
                            lemma_wf_entries_index(entries_view(raw), j as int);
                            assert(entry_view(raw[j as int]).tree == entries_view(raw)[j as int].tree);
                        }
                        let e = entries.remove(j);
                        let FsEntry { name: ename, node: enode } = e;
                        let (new_sub, fail) = remove_contents_at(enode, path, depth + 1, mode, flavor);
                        entries.insert(j, FsEntry { name: ename, node: new_sub });
                        proof {
                            assert(pv.drop_first() =~= path_view(path@).skip(depth as int + 1));
                            assert(entries@ =~= raw.update(j as int, entries@[j as int]));
                            lemma_entries_view_update(raw, j as int, entries@[j as int]);
                            assert(entry_view(entries@[j as int]) == (TreeEntry {
                                name: entries_view(raw)[j as int].name,
                                tree: node_view(new_sub),
                            }));
                        }
                        (FsNode::Dir { entries }, fail)
                    },
                }
            },
            other => (other, Some(EngineError { kind: ErrorKind::NotADirectory, trail: Vec::new() })),
        }
    }
}

/// Remove the directory reached through `path[depth ..]` from `node`,
/// contents first, the directory itself last.
fn remove_all_at(node: FsNode, path: &Vec<Vec<u8>>, depth: usize, mode: ParallelMode, flavor: UnixFlavor) -> (res: (
    FsNode,
    Option<EngineError>,
))
    requires
        wf_tree(node_view(node)),
        depth < path@.len(),
    ensures
        node_view(res.0) == remove_all_outcome(node_view(node), path_view(path@).skip(depth as int)).0,
        failure_view(res.1) == remove_all_outcome(node_view(node), path_view(path@).skip(depth as int)).1,
    decreases path@.len() - depth,
{
    let plen: usize = path.len();
    let ghost pv = path_view(path@).skip(depth as int);
    proof {
        assert(pv.len() > 0);
        assert(pv[0] == path@[depth as int]@);
    }
    match node {
        FsNode::Dir { entries } => {
            let mut entries = entries;
            let ghost raw = entries@;
            match find_entry(&entries, &path[depth]) {
                None => {
                    proof {
                        lemma_find_index_absent(raw, pv[0]);
                    }
                    (FsNode::Dir { entries }, Some(EngineError { kind: ErrorKind::NotFound, trail: Vec::new() }))
                },
                Some(j) => {
                    proof {
                        lemma_find_index_from_raw(raw, pv[0], j as int);
                        lemma_entries_view(raw);
                        lemma_wf_entries_index(entries_view(raw), j as int);
                        assert(entry_view(raw[j as int]).tree == entries_view(raw)[j as int].tree);
                    }
                    if depth + 1 == plen {
                        // The target itself: open it strictly as a
                        // directory (a symlink is rejected here and
                        // nothing behind it is touched), empty it, then
                        // remove the now-empty directory by its name.
                        let e = entries.remove(j);
                        let FsEntry { name: ename, node: enode } = e;
                        match enode {
                            FsNode::Dir { entries: sub } => {
                                let (rem, fail) = remove_dir_contents_recursive(sub, mode, flavor);
                                match fail {
                                    Some(f) => {
                                        entries.insert(j, FsEntry { name: ename, node: FsNode::Dir { entries: rem } });
                                        proof {
                                            assert(pv.len() == 1);
                                            assert(entries@ =~= raw.update(j as int, entries@[j as int]));
                                            lemma_entries_view_update(raw, j as int, entries@[j as int]);
                                            assert(entry_view(entries@[j as int]) == (TreeEntry {
                                                name: entries_view(raw)[j as int].name,
                                                tree: Tree::Dir { entries: entries_view(rem@) },
                                            }));
                                        }
                                        (FsNode::Dir { entries }, Some(f))
                                    },
                                    None => {
                                        proof {
                                            assert(pv.len() == 1);
                                            lemma_entries_view(entries@);
                                            lemma_entries_view(raw);
                                            assert(entries@ =~= raw.remove(j as int));
                                            assert(entries_view(entries@) =~= entries_view(raw).remove(j as int));
                                        }
                                        (FsNode::Dir { entries }, None)
                                    },
                                }
                            },
                            other => {
                                entries.insert(j, FsEntry { name: ename, node: other });
                                proof {
                                    assert(pv.len() == 1);
                                    assert(entries@ =~= raw);
                                    assert(!(entries_view(raw)[j as int].tree matches Tree::Dir { .. }));
                                }
                                (FsNode::Dir { entries }, Some(EngineError { kind: ErrorKind::NotADirectory, trail: Vec::new() }))
                            },
                        }
                    } else {
                        let e = entries.remove(j);
                        let FsEntry { name: ename, node: enode } = e;
                        let (new_sub, fail) = remove_all_at(enode, path, depth + 1, mode, flavor);
                        entries.insert(j, FsEntry { name: ename, node: new_sub });
                        proof {
                            assert(pv.drop_first() =~= path_view(path@).skip(depth as int + 1));
                            assert(entries@ =~= raw.update(j as int, entries@[j as int]));
                            lemma_entries_view_update(raw, j as int, entries@[j as int]);
                            assert(entry_view(entries@[j as int]) == (TreeEntry {
                                name: entries_view(raw)[j as int].name,
                                tree: node_view(new_sub),
                            }));
                        }
                        (FsNode::Dir { entries }, fail)
                    }
                },
            }
        },
        other => (other, Some(EngineError { kind: ErrorKind::NotADirectory, trail: Vec::new() })),
    }
}

/// Attempt to create a new directory at `path[depth ..]` under `node`;
/// on any failure the tree comes back unchanged.
fn create_dir_at(node: FsNode, path: &Vec<Vec<u8>>, depth: usize) -> (res: (FsNode, Option<ErrorKind>))
    requires
        depth <= path@.len(),
    ensures
        node_view(res.0) == create_dir_outcome(node_view(node), path_view(path@).skip(depth as int)).0,
        res.1 == create_dir_outcome(node_view(node), path_view(path@).skip(depth as int)).1,
    decreases path@.len() - depth,
{
    let ghost pv = path_view(path@).skip(depth as int);
    if depth == path.len() {
        proof {
            assert(pv =~= Seq::<Seq<u8>>::empty());
        }
        (node, Some(ErrorKind::AlreadyExists))
    } else {
        proof {
            assert(pv.len() > 0);
            assert(pv[0] == path@[depth as int]@);
        }
        match node {
            FsNode::Dir { entries } => {
                let mut entries = entries;
                let ghost raw = entries@;
                let found = find_entry(&entries, &path[depth]);
                proof {
                    match found {
                        Option::Some(j) => lemma_find_index_from_raw(raw, pv[0], j as int),
                        Option::None => lemma_find_index_absent(raw, pv[0]),
                    }
                }
                if depth + 1 == path.len() {
                    proof {
                        assert(pv.len() == 1);
                    }
                    match found {
                        Some(_) => (FsNode::Dir { entries }, Some(ErrorKind::AlreadyExists)),
                        None => {
                            let fresh = FsEntry { name: clone_name(&path[depth]), node: FsNode::Dir { entries: Vec::new() } };
                            proof {
                                lemma_entries_view_push(raw, fresh);
                                assert(entry_view(fresh) == (TreeEntry {
                                    name: pv[0],
                                    tree: Tree::Dir { entries: Seq::<TreeEntry>::empty() },
                                }));
                            }
                            entries.push(fresh);
                            (FsNode::Dir { entries }, None)
                        },
                    }
                } else {
                    match found {
                        None => (FsNode::Dir { entries }, Some(ErrorKind::NotFound)),
                        Some(j) => {
                            proof {
                                lemma_entries_view(raw);
                                assert(entry_view(raw[j as int]).tree == entries_view(raw)[j as int].tree);
                            }
                            let e = entries.remove(j);
                            let FsEntry { name: ename, node: enode } = e;
                            let (new_sub, cfail) = create_dir_at(enode, path, depth + 1);
                            entries.insert(j, FsEntry { name: ename, node: new_sub });
                            proof {
                                assert(pv.drop_first() =~= path_view(path@).skip(depth as int + 1));
                                assert(entries@ =~= raw.update(j as int, entries@[j as int]));
                                lemma_entries_view_update(raw, j as int, entries@[j as int]);
                                assert(entry_view(entries@[j as int]) == (TreeEntry {
                                    name: entries_view(raw)[j as int].name,
                                    tree: node_view(new_sub),
                                }));
                                if cfail is Some {
                                    assert(entries_view(entries@) =~= entries_view(raw));
                                }
                            }
                            (FsNode::Dir { entries }, cfail)
                        },
                    }
                }
            },
            other => (other, Some(ErrorKind::NotADirectory)),
        }
    }
}

/// Turn an engine failure into the reported error: the failing node's
/// path — the operation's path plus the failure's trail — is rendered
/// here, at report time, and nowhere earlier.
fn build_error(path: &Vec<Vec<u8>>, fail: EngineError) -> (e: RemovalError)
    ensures
        e.kind == fail.kind,
        e.path@ == rendered(path_view(path@) + trail_view(fail.trail@)),
{
    let ghost full = path_view(path@) + trail_view(fail.trail@);
    let mut t = PathTrace::Root;
    let mut i: usize = 0;
    while i < path.len()
        invariant
            i <= path@.len(),
            full == path_view(path@) + trail_view(fail.trail@),
            t.components() == full.take(i as int),
        decreases path@.len() - i,
    {
        proof {
            assert(full[i as int] == path@[i as int]@);
            assert(full.take(i as int).push(full[i as int]) =~= full.take(i as int + 1));
        }
        t = t.child(clone_name(&path[i]));
        i += 1;
    }
    let mut k: usize = 0;
    while k < fail.trail.len()
        invariant
            k <= fail.trail@.len(),
            full == path_view(path@) + trail_view(fail.trail@),
            t.components() == full.take(path@.len() + k as int),
        decreases fail.trail@.len() - k,
    {
        proof {
            assert(full[path@.len() + k as int] == fail.trail@[k as int]@);
            assert(full.take(path@.len() + k as int).push(full[path@.len() + k as int]) =~= full.take(
                path@.len() + k as int + 1,
            ));
        }
        t = t.child(clone_name(&fail.trail[k]));
        k += 1;
    }
    proof {
        assert(full.take(full.len() as int) =~= full);
    }
    let rendered_path = t.render();
    RemovalError { kind: fail.kind, path: rendered_path }
}

/// Delete the contents of the directory at `path`, but never the
/// directory itself: afterwards the directory is present and empty.
/// Fails with `NotADirectory` when `path` names a file or a symlink,
/// with `NotFound` when it does not exist, and with the first failure
/// met inside otherwise, siblings already processed staying deleted.
pub fn remove_dir_contents(fs: &mut ModelFs, path: &Vec<Vec<u8>>, mode: ParallelMode, flavor: UnixFlavor) -> (r: Result<(), RemovalError>)
    requires
        wf_tree(node_view(old(fs).root)),
        valid_path(path_view(path@)),
    ensures
        node_view(final(fs).root) == contents_outcome(node_view(old(fs).root), path_view(path@)).0,
        r is Err <==> contents_outcome(node_view(old(fs).root), path_view(path@)).1 is Some,
        r matches Err(e) ==> contents_outcome(node_view(old(fs).root), path_view(path@)).1 matches Some(f)
            && e.kind == f.0 && e.path@ == rendered(path_view(path@) + f.1),
{
    let mut root = FsNode::Dir { entries: Vec::new() };
    core::mem::swap(&mut root, &mut fs.root);
    proof {
        assert(path_view(path@).skip(0) =~= path_view(path@));
    }
    let (new_root, fail) = remove_contents_at(root, path, 0, mode, flavor);
    fs.root = new_root;
    match fail {
        None => Ok(()),
        Some(f) => Err(build_error(path, f)),
    }
}

/// Delete the directory at `path` and everything under it. The root
/// open is the one place a string path is resolved, and it rejects a
/// symlink: a symlink to a directory fails with `NotADirectory` and the
/// directory it points to is left untouched. The path must name an
/// entry, so it has at least one component: the filesystem root itself
/// has no parent entry to be removed from.
pub fn remove_dir_all(fs: &mut ModelFs, path: &Vec<Vec<u8>>, mode: ParallelMode, flavor: UnixFlavor) -> (r: Result<(), RemovalError>)
    requires
        wf_tree(node_view(old(fs).root)),
        valid_path(path_view(path@)),
        path@.len() >= 1,
    ensures
        node_view(final(fs).root) == remove_all_outcome(node_view(old(fs).root), path_view(path@)).0,
        r is Err <==> remove_all_outcome(node_view(old(fs).root), path_view(path@)).1 is Some,
        r matches Err(e) ==> remove_all_outcome(node_view(old(fs).root), path_view(path@)).1 matches Some(f)
            && e.kind == f.0 && e.path@ == rendered(path_view(path@) + f.1),
{
    let mut root = FsNode::Dir { entries: Vec::new() };
    core::mem::swap(&mut root, &mut fs.root);
    proof {
        assert(path_view(path@).skip(0) =~= path_view(path@));
    }
    let (new_root, fail) = remove_all_at(root, path, 0, mode, flavor);
    fs.root = new_root;
    match fail {
        None => Ok(()),
        Some(f) => Err(build_error(path, f)),
    }
}

/// Make `path` an empty directory: create it if it does not exist, and
/// empty it if it does — "already exists" is the normal case recovered
/// from, which makes the operation idempotent. Any other creation
/// failure propagates unchanged.
pub fn ensure_empty_dir(fs: &mut ModelFs, path: &Vec<Vec<u8>>, mode: ParallelMode, flavor: UnixFlavor) -> (r: Result<(), RemovalError>)
    requires
        wf_tree(node_view(old(fs).root)),
        valid_path(path_view(path@)),
    ensures
        node_view(final(fs).root) == ensure_empty_outcome(node_view(old(fs).root), path_view(path@)).0,
        r is Err <==> ensure_empty_outcome(node_view(old(fs).root), path_view(path@)).1 is Some,
        r matches Err(e) ==> ensure_empty_outcome(node_view(old(fs).root), path_view(path@)).1 matches Some(f)
            && e.kind == f.0 && e.path@ == rendered(path_view(path@) + f.1),
{
    let mut root = FsNode::Dir { entries: Vec::new() };
    core::mem::swap(&mut root, &mut fs.root);
    proof {
        assert(path_view(path@).skip(0) =~= path_view(path@));
    }
    let (new_root, cfail) = create_dir_at(root, path, 0);
    fs.root = new_root;
    match cfail {
        None => Ok(()),
        Some(kind) => {
            if kind == ErrorKind::AlreadyExists {
                remove_dir_contents(fs, path, mode, flavor)
            } else {
                let fail = EngineError { kind, trail: Vec::new() };
                proof {
                    assert(trail_view(fail.trail@) =~= Seq::<Seq<u8>>::empty());
                    assert(path_view(path@) + trail_view(fail.trail@) =~= path_view(path@));
                }
                Err(build_error(path, fail))
            }
        },
    }
}

} // verus!
