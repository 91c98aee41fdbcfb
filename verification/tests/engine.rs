use remove_dir_all::{
    bytes_equal, is_pseudo_name, remove_dir_contents_recursive, ErrorKind, FsEntry, FsNode,
    ParallelMode, PathTrace, UnixFlavor,
};

fn name(s: &str) -> Vec<u8> {
    s.as_bytes().to_vec()
}

#[test]
fn pseudo_entries_are_recognized() {
    assert!(is_pseudo_name(&name(".")));
    assert!(is_pseudo_name(&name("..")));
    assert!(!is_pseudo_name(&name("...")));
    assert!(!is_pseudo_name(&name("a")));
    assert!(!is_pseudo_name(&name(".a")));
    assert!(!is_pseudo_name(&name("")));
}

#[test]
fn byte_names_compare_exactly() {
    assert!(bytes_equal(&name("file"), &name("file")));
    assert!(!bytes_equal(&name("file"), &name("file2")));
    assert!(!bytes_equal(&name("file"), &name("File")));
    assert!(bytes_equal(&name(""), &name("")));
}

#[test]
fn one_level_sweep_empties_the_directory() {
    let entries = vec![
        FsEntry { name: name("a"), node: FsNode::File { locked: false } },
        FsEntry { name: name("b"), node: FsNode::Symlink },
        FsEntry {
            name: name("c"),
            node: FsNode::Dir {
                entries: vec![FsEntry { name: name("d"), node: FsNode::File { locked: false } }],
            },
        },
    ];
    let (rest, fail) = remove_dir_contents_recursive(entries, ParallelMode::Serial, UnixFlavor::Linux);
    assert!(fail.is_none());
    assert!(rest.is_empty());
}

#[test]
fn one_level_sweep_stops_at_a_locked_file() {
    let entries = vec![
        FsEntry { name: name("a"), node: FsNode::File { locked: false } },
        FsEntry { name: name("b"), node: FsNode::File { locked: true } },
    ];
    let (rest, fail) = remove_dir_contents_recursive(entries, ParallelMode::Serial, UnixFlavor::Linux);
    let fail = fail.expect("a locked file must stop the sweep");
    assert_eq!(fail.kind, ErrorKind::PermissionDenied);
    assert_eq!(fail.trail, vec![name("b")]);
    assert_eq!(rest.len(), 1);
    assert_eq!(rest[0].name, name("b"));
}

#[test]
fn traces_render_only_when_asked() {
    let root = PathTrace::Root;
    assert_eq!(root.render(), name("."));

    let t = PathTrace::Root.child(name("t")).child(name("sub"));
    assert_eq!(t.render(), name("./t/sub"));
}
