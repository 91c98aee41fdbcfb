use vstd::prelude::*;
use crate::error::ErrorKind;

verus! {

/// One directory entry of the model filesystem: a raw name (an OS name
/// is bytes, not necessarily valid text) and the node it leads to.
pub struct FsEntry {
    /// The entry's name, one path component.
    pub name: Vec<u8>,
    /// What the name leads to.
    pub node: FsNode,
}

/// The model of a filesystem node, holding as plain values exactly what
/// the removal logic reads through its platform seam: is the node a
/// directory, a symlink, or a plain file, and would the kernel let a
/// read-write open of it succeed.
pub enum FsNode {
    /// A plain file. A `locked` file is one whose read-write open the OS
    /// refuses (`EACCES`): the engine treats that as fatal.
    File {
        /// Whether a read-write open of this file is refused.
        locked: bool,
    },
    /// A symlink. The model gives it no referent: the engine never
    /// follows one, it only unlinks the link itself.
    Symlink,
    /// A directory and its entries, in enumeration order.
    Dir {
        /// The directory's entries.
        entries: Vec<FsEntry>,
    },
}

/// A whole model filesystem: the directory every path is resolved from.
pub struct ModelFs {
    /// The root directory.
    pub root: FsNode,
}

/// The mathematical shadow of [`FsEntry`].
#[verifier::ext_equal]
pub struct TreeEntry {
    /// The entry's name.
    pub name: Seq<u8>,
    /// The subtree it leads to.
    pub tree: Tree,
}

/// The mathematical shadow of [`FsNode`]: every contract speaks of this.
#[verifier::ext_equal]
pub enum Tree {
    /// A plain file.
    File {
        /// Whether a read-write open of this file is refused.
        locked: bool,
    },
    /// A symlink, never followed.
    Symlink,
    /// A directory and its entries, in enumeration order.
    Dir {
        /// The directory's entries.
        entries: Seq<TreeEntry>,
    },
}

/// The abstraction of one exec entry.
pub open spec fn entry_view(e: FsEntry) -> TreeEntry
    decreases e,
{
    TreeEntry { name: e.name@, tree: node_view(e.node) }
}

/// The abstraction of a sequence of exec entries.
pub open spec fn entries_view(es: Seq<FsEntry>) -> Seq<TreeEntry>
    decreases es,
{
    if es.len() == 0 {
        Seq::empty()
    } else {
        seq![entry_view(es[0])] + entries_view(es.drop_first())
    }
}

/// The abstraction of one exec node.
pub open spec fn node_view(n: FsNode) -> Tree
    decreases n,
{
    match n {
        FsNode::File { locked } => Tree::File { locked },
        FsNode::Symlink => Tree::Symlink,
        FsNode::Dir { entries } => Tree::Dir { entries: entries_view(entries@) },
    }
}

/// `entries_view` is the element-wise abstraction.
pub proof fn lemma_entries_view(es: Seq<FsEntry>)
    ensures
        entries_view(es).len() == es.len(),
        forall|i: int| 0 <= i < es.len() ==> entries_view(es)[i] == entry_view(es[i]),
    decreases es.len(),
{
    if es.len() > 0 {
        lemma_entries_view(es.drop_first());
    }
}

/// The size of one exec entry, the measure by which the engine's
/// recursion terminates.
pub open spec fn entry_size(e: FsEntry) -> nat
    decreases e,
{
    1 + node_size(e.node)
}

/// The size of one exec node.
pub open spec fn node_size(n: FsNode) -> nat
    decreases n,
{
    match n {
        FsNode::Dir { entries } => 1 + vec_entries_size(entries),
        _ => 1,
    }
}

/// The size of a directory's entry vector.
pub open spec fn vec_entries_size(entries: Vec<FsEntry>) -> nat
    decreases entries,
{
    entries_size(entries@)
}

/// The total size of a sequence of exec entries.
pub open spec fn entries_size(es: Seq<FsEntry>) -> nat
    decreases es,
{
    if es.len() == 0 {
        0
    } else {
        entry_size(es[0]) + entries_size(es.drop_first())
    }
}

/// No entry outweighs the directory that holds it.
pub proof fn lemma_entries_size_index(es: Seq<FsEntry>, k: int)
    requires
        0 <= k < es.len(),
    ensures
        entry_size(es[k]) <= entries_size(es),
    decreases es.len(),
{
    if k > 0 {
        lemma_entries_size_index(es.drop_first(), k - 1);
        assert(es.drop_first()[k - 1] == es[k]);
    }
}

/// The self pseudo-entry's name.
pub open spec fn dot() -> Seq<u8> {
    seq![46u8]
}

/// The parent pseudo-entry's name.
pub open spec fn dotdot() -> Seq<u8> {
    seq![46u8, 46u8]
}

/// What the OS guarantees of a real directory entry's name: it is
/// nonempty, it is neither pseudo-entry, and it holds no separator.
pub open spec fn valid_name(name: Seq<u8>) -> bool {
    &&& name.len() > 0
    &&& name != dot()
    &&& name != dotdot()
    &&& !name.contains(47u8)
}

/// Well-formedness of a directory's entries: valid, mutually distinct
/// names, and well-formed subtrees.
pub open spec fn wf_entries(es: Seq<TreeEntry>) -> bool
    decreases es,
{
    if es.len() == 0 {
        true
    } else {
        &&& valid_name(es[0].name)
        &&& wf_tree(es[0].tree)
        &&& (forall|j: int| 1 <= j < es.len() ==> (#[trigger] es[j]).name != es[0].name)
        &&& wf_entries(es.drop_first())
    }
}

/// Well-formedness of a tree: every directory in it is well-formed.
pub open spec fn wf_tree(t: Tree) -> bool
    decreases t,
{
    match t {
        Tree::Dir { entries } => wf_entries(entries),
        _ => true,
    }
}

/// Every entry of a well-formed directory has a valid name and a
/// well-formed subtree.
pub proof fn lemma_wf_entries_index(es: Seq<TreeEntry>, k: int)
    requires
        wf_entries(es),
        0 <= k < es.len(),
    ensures
        valid_name(es[k].name),
        wf_tree(es[k].tree),
    decreases es.len(),
{
    if k > 0 {
        lemma_wf_entries_index(es.drop_first(), k - 1);
        assert(es.drop_first()[k - 1] == es[k]);
    }
}

/// Whether the engine can delete this node outright: no file in it is
/// locked against the probing read-write open.
pub open spec fn removable(t: Tree) -> bool
    decreases t,
{
    match t {
        Tree::File { locked } => !locked,
        Tree::Symlink => true,
        Tree::Dir { entries } => removable_entries(entries),
    }
}

/// Whether every entry of a directory is removable.
pub open spec fn removable_entries(es: Seq<TreeEntry>) -> bool
    decreases es,
{
    if es.len() == 0 {
        true
    } else {
        removable(es[0].tree) && removable_entries(es.drop_first())
    }
}

/// The size of one abstract entry, the measure by which proofs about
/// whole trees recurse.
pub open spec fn tree_entry_size(e: TreeEntry) -> nat
    decreases e,
{
    1 + tree_size(e.tree)
}

/// The size of one abstract tree.
pub open spec fn tree_size(t: Tree) -> nat
    decreases t,
{
    match t {
        Tree::Dir { entries } => 1 + tree_entries_size(entries),
        _ => 1,
    }
}

/// The total size of a sequence of abstract entries.
pub open spec fn tree_entries_size(es: Seq<TreeEntry>) -> nat
    decreases es,
{
    if es.len() == 0 {
        0
    } else {
        tree_entry_size(es[0]) + tree_entries_size(es.drop_first())
    }
}

/// No abstract entry outweighs the directory that holds it.
pub proof fn lemma_tree_entries_size_index(es: Seq<TreeEntry>, k: int)
    requires
        0 <= k < es.len(),
    ensures
        tree_entry_size(es[k]) <= tree_entries_size(es),
    decreases es.len(),
{
    if k > 0 {
        lemma_tree_entries_size_index(es.drop_first(), k - 1);
        assert(es.drop_first()[k - 1] == es[k]);
    }
}

/// Every entry of a removable directory is removable.
pub proof fn lemma_removable_entries_index(es: Seq<TreeEntry>, k: int)
    requires
        removable_entries(es),
        0 <= k < es.len(),
    ensures
        removable(es[k].tree),
    decreases es.len(),
{
    if k > 0 {
        lemma_removable_entries_index(es.drop_first(), k - 1);
        assert(es.drop_first()[k - 1] == es[k]);
    }
}

/// A directory all of whose entries are removable is removable.
pub proof fn lemma_removable_entries_from_forall(es: Seq<TreeEntry>)
    requires
        forall|k: int| 0 <= k < es.len() ==> removable((#[trigger] es[k]).tree),
    ensures
        removable_entries(es),
    decreases es.len(),
{
    if es.len() > 0 {
        let rest = es.drop_first();
        assert(forall|k: int| 0 <= k < rest.len() ==> #[trigger] rest[k] == es[k + 1]);
        lemma_removable_entries_from_forall(rest);
    }
}

/// The first index carrying `name`, or -1 when the name is absent.
pub open spec fn find_index(es: Seq<TreeEntry>, name: Seq<u8>) -> int
    decreases es,
{
    if es.len() == 0 {
        -1
    } else if es[0].name == name {
        0
    } else {
        let r = find_index(es.drop_first(), name);
        if r < 0 {
            -1
        } else {
            r + 1
        }
    }
}

/// `find_index` finds exactly the first occurrence.
pub proof fn lemma_find_index(es: Seq<TreeEntry>, name: Seq<u8>)
    ensures
        find_index(es, name) >= 0 ==> {
            &&& find_index(es, name) < es.len()
            &&& es[find_index(es, name)].name == name
            &&& forall|j: int| 0 <= j < find_index(es, name) ==> es[j].name != name
        },
        find_index(es, name) < 0 ==> forall|j: int| 0 <= j < es.len() ==> es[j].name != name,
    decreases es.len(),
{
    if es.len() > 0 && es[0].name != name {
        let rest = es.drop_first();
        lemma_find_index(rest, name);
        assert(forall|j: int| 1 <= j < es.len() ==> rest[j - 1] == #[trigger] es[j]);
    }
}

/// A raw index that is the first carrying `name` is also, through the
/// abstraction, the first found by `find_index`.
pub proof fn lemma_find_index_from_raw(es: Seq<FsEntry>, name: Seq<u8>, j: int)
    requires
        0 <= j < es.len(),
        es[j].name@ == name,
        forall|m: int| 0 <= m < j ==> (#[trigger] es[m]).name@ != name,
    ensures
        find_index(entries_view(es), name) == j,
{
    let ev = entries_view(es);
    lemma_entries_view(es);
    lemma_find_index(ev, name);
    let i = find_index(ev, name);
    if i < 0 {
        assert(ev[j] == entry_view(es[j]));
        assert(false);
    } else if i < j {
        assert(ev[i] == entry_view(es[i]));
        assert(es[i].name@ != name);
        assert(false);
    } else if i > j {
        assert(ev[j] == entry_view(es[j]));
        assert(ev[j].name != name);
        assert(false);
    }
}

/// A name absent from the raw entries is absent from the abstraction.
pub proof fn lemma_find_index_absent(es: Seq<FsEntry>, name: Seq<u8>)
    requires
        forall|m: int| 0 <= m < es.len() ==> (#[trigger] es[m]).name@ != name,
    ensures
        find_index(entries_view(es), name) < 0,
{
    let ev = entries_view(es);
    lemma_entries_view(es);
    lemma_find_index(ev, name);
    let i = find_index(ev, name);
    if i >= 0 {
        assert(ev[i] == entry_view(es[i]));
        assert(false);
    }
}

/// Updating one raw entry updates the abstraction pointwise.
pub proof fn lemma_entries_view_update(es: Seq<FsEntry>, j: int, x: FsEntry)
    requires
        0 <= j < es.len(),
    ensures
        entries_view(es.update(j, x)) == entries_view(es).update(j, entry_view(x)),
{
    lemma_entries_view(es);
    lemma_entries_view(es.update(j, x));
    assert(entries_view(es.update(j, x)) =~= entries_view(es).update(j, entry_view(x)));
}

/// Appending one raw entry appends to the abstraction.
pub proof fn lemma_entries_view_push(es: Seq<FsEntry>, x: FsEntry)
    ensures
        entries_view(es.push(x)) == entries_view(es).push(entry_view(x)),
{
    lemma_entries_view(es);
    lemma_entries_view(es.push(x));
    assert(entries_view(es.push(x)) =~= entries_view(es).push(entry_view(x)));
}

/// Resolution of a path against a tree, component by component: the OS's
/// normal lookup, except that a model symlink has no referent, so
/// resolution never passes through one. An absent component is
/// `NotFound`; a non-directory met before the last component is
/// `NotADirectory`.
pub open spec fn lookup(t: Tree, path: Seq<Seq<u8>>) -> Result<Tree, ErrorKind>
    decreases path.len(),
{
    if path.len() == 0 {
        Result::Ok(t)
    } else {
        match t {
            Tree::Dir { entries } => {
                let i = find_index(entries, path[0]);
                if i < 0 {
                    Result::Err(ErrorKind::NotFound)
                } else {
                    lookup(entries[i].tree, path.drop_first())
                }
            },
            _ => Result::Err(ErrorKind::NotADirectory),
        }
    }
}

/// What opening `path` strictly as a directory yields: the entries on
/// success; `NotADirectory` when the path names a file — or a symlink,
/// which the no-follow root open rejects; otherwise the resolution
/// failure itself.
pub open spec fn open_dir_result(t: Tree, path: Seq<Seq<u8>>) -> Result<Seq<TreeEntry>, ErrorKind> {
    match lookup(t, path) {
        Result::Ok(Tree::Dir { entries }) => Result::Ok(entries),
        Result::Ok(_) => Result::Err(ErrorKind::NotADirectory),
        Result::Err(k) => Result::Err(k),
    }
}

} // verus!
