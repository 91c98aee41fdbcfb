use vstd::prelude::*;
use vstd::seq_lib::group_to_multiset_ensures;
use crate::engine::remove_entries_spec;
use crate::error::ErrorKind;
use crate::ops::{
    contents_outcome, create_dir_outcome, ensure_empty_outcome, remove_all_outcome, valid_path,
};
use crate::tree::{
    Tree, TreeEntry, find_index, lemma_find_index, lemma_removable_entries_from_forall,
    lemma_removable_entries_index, lemma_wf_entries_index, lookup, open_dir_result, removable,
    removable_entries, tree_entries_size, tree_entry_size, tree_size, valid_name, wf_entries,
    wf_tree,
};

verus! {

/// Names elsewhere in a well-formed directory differ pairwise.
pub proof fn lemma_wf_entries_distinct(es: Seq<TreeEntry>, a: int, b: int)
    requires
        wf_entries(es),
        0 <= a < b < es.len(),
    ensures
        es[a].name != es[b].name,
    decreases es.len(),
{
    if a > 0 {
        lemma_wf_entries_distinct(es.drop_first(), a - 1, b - 1);
        assert(es.drop_first()[a - 1] == es[a]);
        assert(es.drop_first()[b - 1] == es[b]);
    }
}

/// Replacing one entry by another of the same name keeps a directory
/// well-formed.
pub proof fn lemma_wf_entries_update(es: Seq<TreeEntry>, i: int, e2: TreeEntry)
    requires
        wf_entries(es),
        0 <= i < es.len(),
        e2.name == es[i].name,
        wf_tree(e2.tree),
    ensures
        wf_entries(es.update(i, e2)),
    decreases es.len(),
{
    let es2 = es.update(i, e2);
    assert(forall|j: int| 0 <= j < es.len() ==> (#[trigger] es2[j]).name == es[j].name);
    if i == 0 {
        assert(es2.drop_first() =~= es.drop_first());
    } else {
        assert(es2[0] == es[0]);
        assert(es2.drop_first() =~= es.drop_first().update(i - 1, e2));
        lemma_wf_entries_update(es.drop_first(), i - 1, e2);
        assert(es.drop_first()[i - 1] == es[i]);
    }
}

/// Removing one entry keeps a directory well-formed.
pub proof fn lemma_wf_entries_remove(es: Seq<TreeEntry>, i: int)
    requires
        wf_entries(es),
        0 <= i < es.len(),
    ensures
        wf_entries(es.remove(i)),
    decreases es.len(),
{
    let es2 = es.remove(i);
    if i == 0 {
        assert(es2 =~= es.drop_first());
    } else {
        assert(es2[0] == es[0]);
        assert(forall|j: int| 1 <= j < es2.len() ==> #[trigger] es2[j] == es[if j < i { j } else { j + 1 }]);
        lemma_wf_entries_remove(es.drop_first(), i - 1);
        assert(es2.drop_first() =~= es.drop_first().remove(i - 1));
    }
}

/// Appending an entry under a fresh, valid name keeps a directory
/// well-formed.
pub proof fn lemma_wf_entries_push(es: Seq<TreeEntry>, e2: TreeEntry)
    requires
        wf_entries(es),
        valid_name(e2.name),
        wf_tree(e2.tree),
        forall|j: int| 0 <= j < es.len() ==> (#[trigger] es[j]).name != e2.name,
    ensures
        wf_entries(es.push(e2)),
    decreases es.len(),
{
    let es2 = es.push(e2);
    if es.len() == 0 {
        assert(es2.drop_first() =~= Seq::<TreeEntry>::empty());
        assert(wf_entries(Seq::<TreeEntry>::empty()));
    } else {
        assert(es2[0] == es[0]);
        assert(forall|j: int| 0 <= j < es.drop_first().len() ==> #[trigger] es.drop_first()[j] == es[j + 1]);
        lemma_wf_entries_push(es.drop_first(), e2);
        assert(es2.drop_first() =~= es.drop_first().push(e2));
        assert(forall|j: int| 1 <= j < es2.len() ==> (#[trigger] es2[j]).name != es2[0].name);
    }
}

/// Replacing one entry by another of the same name does not change
/// where any name is found.
pub proof fn lemma_find_index_update(es: Seq<TreeEntry>, i: int, e2: TreeEntry, name: Seq<u8>)
    requires
        0 <= i < es.len(),
        e2.name == es[i].name,
    ensures
        find_index(es.update(i, e2), name) == find_index(es, name),
    decreases es.len(),
{
    let es2 = es.update(i, e2);
    assert(es2.len() == es.len());
    if i == 0 {
        assert(es2[0].name == es[0].name);
        assert(es2.drop_first() =~= es.drop_first());
    } else {
        assert(es2[0] == es[0]);
        assert(es2.drop_first() =~= es.drop_first().update(i - 1, e2));
        assert(es.drop_first()[i - 1] == es[i]);
        lemma_find_index_update(es.drop_first(), i - 1, e2, name);
    }
}

/// Law behind completeness: sweeping one directory level succeeds
/// exactly when its contents are removable, and success leaves nothing
/// behind.
pub proof fn lemma_remove_entries_complete(es: Seq<TreeEntry>)
    ensures
        remove_entries_spec(es).1 is None <==> removable_entries(es),
        removable_entries(es) ==> remove_entries_spec(es).0 == Seq::<TreeEntry>::empty(),
    decreases tree_entries_size(es),
{
    if es.len() == 0 {
        assert(removable_entries(es));
    } else {
        let rest = es.drop_first();
        assert(tree_entries_size(es) == tree_entry_size(es[0]) + tree_entries_size(rest));
        assert(tree_entry_size(es[0]) == 1 + tree_size(es[0].tree));
        assert(removable_entries(es) == (removable(es[0].tree) && removable_entries(rest)));
        match es[0].tree {
            Tree::File { locked } => {
                assert(removable(es[0].tree) == !locked);
                if !locked {
                    lemma_remove_entries_complete(rest);
                }
            },
            Tree::Symlink => {
                assert(removable(es[0].tree));
                lemma_remove_entries_complete(rest);
            },
            Tree::Dir { entries: sub } => {
                assert(tree_size(es[0].tree) == 1 + tree_entries_size(sub));
                assert(removable(es[0].tree) == removable_entries(sub));
                lemma_remove_entries_complete(sub);
                if remove_entries_spec(sub).1 is None {
                    lemma_remove_entries_complete(rest);
                }
            },
        }
    }
}

/// The sweep preserves well-formedness, whatever it leaves behind.
pub proof fn lemma_remove_entries_wf(es: Seq<TreeEntry>)
    requires
        wf_entries(es),
    ensures
        wf_entries(remove_entries_spec(es).0),
    decreases tree_entries_size(es),
{
    if es.len() == 0 {
        assert(wf_entries(Seq::<TreeEntry>::empty()));
    } else {
        let rest = es.drop_first();
        assert(tree_entries_size(es) == tree_entry_size(es[0]) + tree_entries_size(rest));
        assert(tree_entry_size(es[0]) == 1 + tree_size(es[0].tree));
        assert(wf_tree(es[0].tree));
        assert(wf_entries(rest));
        match es[0].tree {
            Tree::File { locked } => {
                if !locked {
                    lemma_remove_entries_wf(rest);
                }
            },
            Tree::Symlink => {
                lemma_remove_entries_wf(rest);
            },
            Tree::Dir { entries: sub } => {
                assert(tree_size(es[0].tree) == 1 + tree_entries_size(sub));
                assert(wf_entries(sub) == wf_tree(es[0].tree));
                lemma_remove_entries_wf(sub);
                match remove_entries_spec(sub).1 {
                    Option::None => {
                        lemma_remove_entries_wf(rest);
                    },
                    Option::Some(_) => {
                        let e2 = TreeEntry { name: es[0].name, tree: Tree::Dir { entries: remove_entries_spec(sub).0 } };
                        assert(wf_tree(e2.tree) == wf_entries(remove_entries_spec(sub).0));
                        lemma_wf_entries_update(es, 0, e2);
                        assert(es.update(0, e2) =~= seq![e2] + rest);
                    },
                }
            },
        }
    }
}

/// Law: for a fixed, removable directory level, the serial sweep and
/// any schedule a work-stealing pool may choose — entries processed in
/// any order, modelled as any reordering of the same entries — leave
/// the same final state: nothing, with no failure. Internal order may
/// differ; the final filesystem state may not.
pub proof fn lemma_serial_parallel_equivalence(es: Seq<TreeEntry>, scheduled: Seq<TreeEntry>)
    requires
        removable_entries(es),
        scheduled.to_multiset() == es.to_multiset(),
    ensures
        remove_entries_spec(scheduled) == remove_entries_spec(es),
        remove_entries_spec(es).0 == Seq::<TreeEntry>::empty(),
        remove_entries_spec(es).1 is None,
{
    broadcast use group_to_multiset_ensures;

    assert forall|k: int| 0 <= k < scheduled.len() implies removable((#[trigger] scheduled[k]).tree) by {
        assert(scheduled.contains(scheduled[k]));
        assert(es.to_multiset().count(scheduled[k]) > 0);
        assert(es.contains(scheduled[k]));
        let i = choose|i: int| 0 <= i < es.len() && es[i] == scheduled[k];
        lemma_removable_entries_index(es, i);
    }
    lemma_removable_entries_from_forall(scheduled);
    lemma_remove_entries_complete(es);
    lemma_remove_entries_complete(scheduled);
    assert(remove_entries_spec(scheduled).0 =~= remove_entries_spec(es).0);
}

/// A resolution that fails on a prefix fails the same way on any
/// extension; one that succeeds continues from where it stopped.
pub proof fn lemma_lookup_append(t: Tree, p: Seq<Seq<u8>>, q: Seq<Seq<u8>>)
    ensures
        lookup(t, p + q) == (match lookup(t, p) {
            Result::Ok(s) => lookup(s, q),
            Result::Err(k) => Result::<Tree, ErrorKind>::Err(k),
        }),
    decreases p.len(),
{
    if p.len() == 0 {
        assert(p + q =~= q);
    } else {
        assert((p + q).len() > 0);
        assert((p + q)[0] == p[0]);
        match t {
            Tree::Dir { entries } => {
                let i = find_index(entries, p[0]);
                if i >= 0 {
                    lemma_find_index(entries, p[0]);
                    assert((p + q).drop_first() =~= p.drop_first() + q);
                    lemma_lookup_append(entries[i].tree, p.drop_first(), q);
                }
            },
            _ => {},
        }
    }
}

/// Contents removal keeps the tree well-formed, and on success leaves
/// the target present, a directory, and empty.
pub proof fn lemma_contents_outcome_lookup(t: Tree, path: Seq<Seq<u8>>)
    requires
        wf_tree(t),
    ensures
        wf_tree(contents_outcome(t, path).0),
        contents_outcome(t, path).1 is None ==> lookup(contents_outcome(t, path).0, path)
            == Result::<Tree, ErrorKind>::Ok(Tree::Dir { entries: Seq::<TreeEntry>::empty() }),
    decreases path.len(),
{
    if path.len() == 0 {
        match t {
            Tree::Dir { entries } => {
                assert(wf_entries(entries) == wf_tree(t));
                lemma_remove_entries_wf(entries);
                lemma_remove_entries_complete(entries);
                let o = contents_outcome(t, path);
                assert(wf_tree(o.0) == wf_entries(remove_entries_spec(entries).0));
            },
            _ => {},
        }
    } else {
        match t {
            Tree::Dir { entries } => {
                assert(wf_entries(entries) == wf_tree(t));
                let i = find_index(entries, path[0]);
                if i >= 0 {
                    lemma_find_index(entries, path[0]);
                    lemma_wf_entries_index(entries, i);
                    lemma_contents_outcome_lookup(entries[i].tree, path.drop_first());
                    let o_sub = contents_outcome(entries[i].tree, path.drop_first());
                    let e2 = TreeEntry { name: entries[i].name, tree: o_sub.0 };
                    lemma_wf_entries_update(entries, i, e2);
                    let o = contents_outcome(t, path);
                    assert(o.0 == Tree::Dir { entries: entries.update(i, e2) });
                    assert(wf_tree(o.0) == wf_entries(entries.update(i, e2)));
                    if o.1 is None {
                        lemma_find_index_update(entries, i, e2, path[0]);
                        assert(entries.update(i, e2)[i] == e2);
                    }
                }
            },
            _ => {},
        }
    }
}

/// Law: contents-only removal. After `remove_dir_contents` succeeds the
/// target still exists, is an empty directory, and no former child path
/// exists.
pub proof fn lemma_contents_only_removal(t: Tree, path: Seq<Seq<u8>>)
    requires
        wf_tree(t),
        contents_outcome(t, path).1 is None,
    ensures
        lookup(contents_outcome(t, path).0, path) == Result::<Tree, ErrorKind>::Ok(
            Tree::Dir { entries: Seq::<TreeEntry>::empty() },
        ),
        forall|q: Seq<Seq<u8>>| q.len() > 0 ==> lookup(contents_outcome(t, path).0, #[trigger] (path + q))
            == Result::<Tree, ErrorKind>::Err(ErrorKind::NotFound),
{
    lemma_contents_outcome_lookup(t, path);
    let t2 = contents_outcome(t, path).0;
    let empty_dir = Tree::Dir { entries: Seq::<TreeEntry>::empty() };
    assert forall|q: Seq<Seq<u8>>| q.len() > 0 implies lookup(t2, #[trigger] (path + q))
        == Result::<Tree, ErrorKind>::Err(ErrorKind::NotFound) by {
        lemma_lookup_append(t2, path, q);
        assert(find_index(Seq::<TreeEntry>::empty(), q[0]) == -1);
        assert(lookup(empty_dir, q) == Result::<Tree, ErrorKind>::Err(ErrorKind::NotFound));
    }
}

/// When removing a whole tree is owed success: exactly when its root
/// path opens as a real directory — no symlink, no plain file — whose
/// entire contents are removable.
pub open spec fn removal_succeeds(t: Tree, path: Seq<Seq<u8>>) -> bool {
    match open_dir_result(t, path) {
        Result::Ok(sub) => removable_entries(sub),
        Result::Err(_) => false,
    }
}

/// Contents removal succeeds exactly when success is owed: when the
/// path opens as a real directory whose contents are all removable.
pub proof fn lemma_contents_success_iff(t: Tree, path: Seq<Seq<u8>>)
    requires
        wf_tree(t),
    ensures
        contents_outcome(t, path).1 is None <==> removal_succeeds(t, path),
    decreases path.len(),
{
    if path.len() == 0 {
        assert(lookup(t, path) == Result::<Tree, ErrorKind>::Ok(t));
        match t {
            Tree::Dir { entries } => {
                lemma_remove_entries_complete(entries);
            },
            _ => {},
        }
    } else {
        match t {
            Tree::Dir { entries } => {
                let i = find_index(entries, path[0]);
                if i >= 0 {
                    lemma_find_index(entries, path[0]);
                    assert(wf_entries(entries) == wf_tree(t));
                    lemma_wf_entries_index(entries, i);
                    lemma_contents_success_iff(entries[i].tree, path.drop_first());
                }
            },
            _ => {},
        }
    }
}

/// Whole-tree removal keeps the tree well-formed, succeeds exactly when
/// success is owed, and on success the target is gone.
pub proof fn lemma_remove_all_outcome_lookup(t: Tree, path: Seq<Seq<u8>>)
    requires
        wf_tree(t),
        path.len() >= 1,
    ensures
        wf_tree(remove_all_outcome(t, path).0),
        remove_all_outcome(t, path).1 is None <==> removal_succeeds(t, path),
        remove_all_outcome(t, path).1 is None ==> lookup(remove_all_outcome(t, path).0, path)
            == Result::<Tree, ErrorKind>::Err(ErrorKind::NotFound),
    decreases path.len(),
{
    match t {
        Tree::Dir { entries } => {
            assert(wf_entries(entries) == wf_tree(t));
            let i = find_index(entries, path[0]);
            if i >= 0 {
                lemma_find_index(entries, path[0]);
                lemma_wf_entries_index(entries, i);
                if path.len() == 1 {
                    assert(lookup(entries[i].tree, path.drop_first()) == Result::<Tree, ErrorKind>::Ok(
                        entries[i].tree,
                    ));
                    match entries[i].tree {
                        Tree::Dir { entries: sub } => {
                            assert(wf_entries(sub) == wf_tree(entries[i].tree));
                            lemma_remove_entries_complete(sub);
                            lemma_remove_entries_wf(sub);
                            match remove_entries_spec(sub).1 {
                                Option::Some(_) => {
                                    let e2 = TreeEntry {
                                        name: entries[i].name,
                                        tree: Tree::Dir { entries: remove_entries_spec(sub).0 },
                                    };
                                    assert(wf_tree(e2.tree) == wf_entries(remove_entries_spec(sub).0));
                                    lemma_wf_entries_update(entries, i, e2);
                                },
                                Option::None => {
                                    lemma_wf_entries_remove(entries, i);
                                    let es2 = entries.remove(i);
                                    lemma_find_index(es2, path[0]);
                                    let i2 = find_index(es2, path[0]);
                                    if i2 >= 0 {
                                        assert(es2[i2] == entries[if i2 < i {
                                            i2
                                        } else {
                                            i2 + 1
                                        }]);
                                        if i2 < i {
                                            lemma_wf_entries_distinct(entries, i2, i);
                                        } else {
                                            lemma_wf_entries_distinct(entries, i, i2 + 1);
                                        }
                                        assert(false);
                                    }
                                },
                            }
                        },
                        _ => {},
                    }
                } else {
                    lemma_remove_all_outcome_lookup(entries[i].tree, path.drop_first());
                    let o_sub = remove_all_outcome(entries[i].tree, path.drop_first());
                    let e2 = TreeEntry { name: entries[i].name, tree: o_sub.0 };
                    lemma_wf_entries_update(entries, i, e2);
                    let o = remove_all_outcome(t, path);
                    assert(o.0 == Tree::Dir { entries: entries.update(i, e2) });
                    assert(wf_tree(o.0) == wf_entries(entries.update(i, e2)));
                    if o.1 is None {
                        lemma_find_index_update(entries, i, e2, path[0]);
                        assert(entries.update(i, e2)[i] == e2);
                    }
                }
            }
        },
        _ => {},
    }
}

/// Law: completeness. After `remove_dir_all` succeeds, the target and
/// every path under it no longer exist.
pub proof fn lemma_remove_all_complete(t: Tree, path: Seq<Seq<u8>>)
    requires
        wf_tree(t),
        path.len() >= 1,
        remove_all_outcome(t, path).1 is None,
    ensures
        forall|q: Seq<Seq<u8>>| lookup(remove_all_outcome(t, path).0, #[trigger] (path + q))
            == Result::<Tree, ErrorKind>::Err(ErrorKind::NotFound),
        lookup(remove_all_outcome(t, path).0, path) == Result::<Tree, ErrorKind>::Err(
            ErrorKind::NotFound,
        ),
{
    lemma_remove_all_outcome_lookup(t, path);
    let t2 = remove_all_outcome(t, path).0;
    assert forall|q: Seq<Seq<u8>>| lookup(t2, #[trigger] (path + q)) == Result::<Tree, ErrorKind>::Err(
        ErrorKind::NotFound,
    ) by {
        lemma_lookup_append(t2, path, q);
    }
}

/// Whether a path resolves, but to something other than a directory: a
/// plain file, or a symlink, which the no-follow root open refuses.
pub open spec fn resolves_to_non_directory(t: Tree, path: Seq<Seq<u8>>) -> bool {
    match lookup(t, path) {
        Result::Ok(s) => !(s matches Tree::Dir { .. }),
        Result::Err(_) => false,
    }
}

/// Law: root-symlink and non-directory rejection. When the path names a
/// symlink — to a directory or not — or a plain file, both removal
/// operations fail with `NotADirectory` and the whole tree, in
/// particular whatever a symlink points to, is left exactly as it was.
pub proof fn lemma_non_directory_rejected(t: Tree, path: Seq<Seq<u8>>)
    requires
        path.len() >= 1,
        resolves_to_non_directory(t, path),
    ensures
        remove_all_outcome(t, path) == (t, Option::Some((ErrorKind::NotADirectory, Seq::<Seq<u8>>::empty()))),
        contents_outcome(t, path) == (t, Option::Some((ErrorKind::NotADirectory, Seq::<Seq<u8>>::empty()))),
    decreases path.len(),
{
    match t {
        Tree::Dir { entries } => {
            let i = find_index(entries, path[0]);
            assert(i >= 0);
            lemma_find_index(entries, path[0]);
            if path.len() == 1 {
                assert(lookup(entries[i].tree, path.drop_first()) == Result::<Tree, ErrorKind>::Ok(
                    entries[i].tree,
                ));
                assert(contents_outcome(entries[i].tree, path.drop_first()) == (
                    entries[i].tree,
                    Option::Some((ErrorKind::NotADirectory, Seq::<Seq<u8>>::empty())),
                ));
                let e2 = TreeEntry { name: entries[i].name, tree: entries[i].tree };
                assert(e2 == entries[i]);
                assert(entries.update(i, e2) =~= entries);
            } else {
                lemma_non_directory_rejected(entries[i].tree, path.drop_first());
                let e2 = TreeEntry { name: entries[i].name, tree: entries[i].tree };
                assert(e2 == entries[i]);
                assert(entries.update(i, e2) =~= entries);
            }
        },
        _ => {},
    }
}

/// Creation keeps the tree well-formed, touches nothing on failure, and
/// on success leaves a new empty directory at the path.
pub proof fn lemma_create_dir_outcome_lookup(t: Tree, path: Seq<Seq<u8>>)
    requires
        wf_tree(t),
        valid_path(path),
    ensures
        wf_tree(create_dir_outcome(t, path).0),
        create_dir_outcome(t, path).1 is Some ==> create_dir_outcome(t, path).0 == t,
        create_dir_outcome(t, path).1 is None ==> lookup(create_dir_outcome(t, path).0, path)
            == Result::<Tree, ErrorKind>::Ok(Tree::Dir { entries: Seq::<TreeEntry>::empty() }),
    decreases path.len(),
{
    if path.len() > 0 {
        match t {
            Tree::Dir { entries } => {
                assert(wf_entries(entries) == wf_tree(t));
                let i = find_index(entries, path[0]);
                lemma_find_index(entries, path[0]);
                assert(valid_name(path[0]));
                if path.len() == 1 {
                    if i < 0 {
                        let e2 = TreeEntry { name: path[0], tree: Tree::Dir { entries: Seq::<TreeEntry>::empty() } };
                        assert(wf_entries(Seq::<TreeEntry>::empty()));
                        assert(wf_tree(e2.tree) == wf_entries(Seq::<TreeEntry>::empty()));
                        lemma_wf_entries_push(entries, e2);
                        let es2 = entries.push(e2);
                        lemma_find_index(es2, path[0]);
                        let i2 = find_index(es2, path[0]);
                        assert(es2[entries.len() as int] == e2);
                        if i2 < 0 {
                            assert(false);
                        }
                        if i2 < entries.len() {
                            assert(es2[i2] == entries[i2]);
                            assert(false);
                        }
                        assert(lookup(e2.tree, path.drop_first()) == Result::<Tree, ErrorKind>::Ok(e2.tree));
                    }
                } else if i >= 0 {
                    lemma_wf_entries_index(entries, i);
                    assert forall|m: int| 0 <= m < path.drop_first().len() implies valid_name(
                        #[trigger] path.drop_first()[m],
                    ) by {
                        assert(path.drop_first()[m] == path[m + 1]);
                    }
                    lemma_create_dir_outcome_lookup(entries[i].tree, path.drop_first());
                    let c_sub = create_dir_outcome(entries[i].tree, path.drop_first());
                    if c_sub.1 is None {
                        let e2 = TreeEntry { name: entries[i].name, tree: c_sub.0 };
                        lemma_wf_entries_update(entries, i, e2);
                        lemma_find_index_update(entries, i, e2, path[0]);
                        assert(entries.update(i, e2)[i] == e2);
                    }
                }
            },
            _ => {},
        }
    }
}

/// Creating over anything that already resolves reports
/// `AlreadyExists` — the failure `ensure_empty_dir` recovers from.
pub proof fn lemma_create_on_existing(t: Tree, path: Seq<Seq<u8>>)
    requires
        lookup(t, path) is Ok,
    ensures
        create_dir_outcome(t, path).1 == Option::Some(ErrorKind::AlreadyExists),
    decreases path.len(),
{
    if path.len() > 0 {
        match t {
            Tree::Dir { entries } => {
                let i = find_index(entries, path[0]);
                assert(i >= 0);
                lemma_find_index(entries, path[0]);
                if path.len() > 1 {
                    lemma_create_on_existing(entries[i].tree, path.drop_first());
                }
            },
            _ => {},
        }
    }
}

/// Emptying a directory that is already empty changes nothing and
/// succeeds.
pub proof fn lemma_contents_on_empty(t: Tree, path: Seq<Seq<u8>>)
    requires
        lookup(t, path) == Result::<Tree, ErrorKind>::Ok(Tree::Dir { entries: Seq::<TreeEntry>::empty() }),
    ensures
        contents_outcome(t, path) == (t, Option::<(ErrorKind, Seq<Seq<u8>>)>::None),
    decreases path.len(),
{
    if path.len() == 0 {
        assert(remove_entries_spec(Seq::<TreeEntry>::empty()) == (
            Seq::<TreeEntry>::empty(),
            Option::<(ErrorKind, Seq<Seq<u8>>)>::None,
        ));
    } else {
        match t {
            Tree::Dir { entries } => {
                let i = find_index(entries, path[0]);
                assert(i >= 0);
                lemma_find_index(entries, path[0]);
                lemma_contents_on_empty(entries[i].tree, path.drop_first());
                let e2 = TreeEntry {
                    name: entries[i].name,
                    tree: contents_outcome(entries[i].tree, path.drop_first()).0,
                };
                assert(e2 == entries[i]);
                assert(entries.update(i, e2) =~= entries);
            },
            _ => {},
        }
    }
}

/// Law: idempotence of `ensure_empty_dir`. Wherever it succeeds, the
/// target is left present, empty, and a directory — and a second call
/// succeeds as well and changes nothing at all.
pub proof fn lemma_ensure_empty_dir_idempotent(t: Tree, path: Seq<Seq<u8>>)
    requires
        wf_tree(t),
        valid_path(path),
        ensure_empty_outcome(t, path).1 is None,
    ensures
        lookup(ensure_empty_outcome(t, path).0, path) == Result::<Tree, ErrorKind>::Ok(
            Tree::Dir { entries: Seq::<TreeEntry>::empty() },
        ),
        ensure_empty_outcome(ensure_empty_outcome(t, path).0, path) == (
            ensure_empty_outcome(t, path).0,
            Option::<(ErrorKind, Seq<Seq<u8>>)>::None,
        ),
{
    let t1 = ensure_empty_outcome(t, path).0;
    lemma_create_dir_outcome_lookup(t, path);
    let c = create_dir_outcome(t, path);
    if c.1 is Some {
        lemma_contents_outcome_lookup(t, path);
        assert(t1 == contents_outcome(t, path).0);
    }
    assert(wf_tree(t1));
    assert(lookup(t1, path) == Result::<Tree, ErrorKind>::Ok(Tree::Dir { entries: Seq::<TreeEntry>::empty() }));
    lemma_create_on_existing(t1, path);
    lemma_contents_on_empty(t1, path);
}

} // verus!
