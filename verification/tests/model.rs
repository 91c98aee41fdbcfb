use remove_dir_all::{
    ensure_empty_dir, remove_dir_all, remove_dir_contents, ErrorKind, FsEntry, FsNode, ModelFs,
    ParallelMode, RemovalError, UnixFlavor,
};

fn name(s: &str) -> Vec<u8> {
    s.as_bytes().to_vec()
}

fn path(components: &[&str]) -> Vec<Vec<u8>> {
    components.iter().map(|c| name(c)).collect()
}

fn file() -> FsNode {
    FsNode::File { locked: false }
}

fn locked_file() -> FsNode {
    FsNode::File { locked: true }
}

fn dir(entries: Vec<(&str, FsNode)>) -> FsNode {
    FsNode::Dir {
        entries: entries
            .into_iter()
            .map(|(n, node)| FsEntry { name: name(n), node })
            .collect(),
    }
}

fn fs(entries: Vec<(&str, FsNode)>) -> ModelFs {
    ModelFs { root: dir(entries) }
}

/// Walk the model by component names, as an `open` would.
fn lookup<'a>(node: &'a FsNode, components: &[&str]) -> Option<&'a FsNode> {
    if components.is_empty() {
        return Some(node);
    }
    match node {
        FsNode::Dir { entries } => entries
            .iter()
            .find(|e| e.name == name(components[0]))
            .and_then(|e| lookup(&e.node, &components[1..])),
        _ => None,
    }
}

fn entry_count(node: &FsNode, components: &[&str]) -> usize {
    match lookup(node, components) {
        Some(FsNode::Dir { entries }) => entries.len(),
        _ => panic!("expected a directory at {:?}", components),
    }
}

fn expect_kind(kind: ErrorKind, r: Result<(), RemovalError>) {
    match r {
        Err(e) => assert_eq!(e.kind, kind),
        Ok(()) => panic!("unexpected success, expected {:?}", kind),
    }
}

const SERIAL: ParallelMode = ParallelMode::Serial;
const LINUX: UnixFlavor = UnixFlavor::Linux;

/// Make the shared fixture: a directory `t.mkdir` holding one file.
fn prep() -> ModelFs {
    fs(vec![("t.mkdir", dir(vec![("file", file())]))])
}

#[test]
fn mkdir_rm() {
    let mut f = prep();

    expect_kind(
        ErrorKind::NotADirectory,
        remove_dir_contents(&mut f, &path(&["t.mkdir", "file"]), SERIAL, LINUX),
    );

    remove_dir_contents(&mut f, &path(&["t.mkdir"]), SERIAL, LINUX).unwrap();
    assert!(lookup(&f.root, &["t.mkdir", "file"]).is_none());

    remove_dir_contents(&mut f, &path(&["t.mkdir"]), SERIAL, LINUX).unwrap();
    remove_dir_all(&mut f, &path(&["t.mkdir"]), SERIAL, LINUX).unwrap();
    expect_kind(
        ErrorKind::NotFound,
        remove_dir_contents(&mut f, &path(&["t.mkdir"]), SERIAL, LINUX),
    );
}

#[test]
fn ensure_rm() {
    let mut f = prep();

    expect_kind(
        ErrorKind::NotADirectory,
        ensure_empty_dir(&mut f, &path(&["t.mkdir", "file"]), SERIAL, LINUX),
    );

    ensure_empty_dir(&mut f, &path(&["t.mkdir"]), SERIAL, LINUX).unwrap();
    assert!(lookup(&f.root, &["t.mkdir", "file"]).is_none());
    ensure_empty_dir(&mut f, &path(&["t.mkdir"]), SERIAL, LINUX).unwrap();

    remove_dir_all(&mut f, &path(&["t.mkdir"]), SERIAL, LINUX).unwrap();
    ensure_empty_dir(&mut f, &path(&["t.mkdir"]), SERIAL, LINUX).unwrap();
    match &mut f.root {
        FsNode::Dir { entries } => {
            let e = entries.iter_mut().find(|e| e.name == name("t.mkdir")).unwrap();
            match &mut e.node {
                FsNode::Dir { entries } => entries.push(FsEntry { name: name("file"), node: file() }),
                _ => panic!("t.mkdir should be a directory"),
            }
        },
        _ => panic!("root should be a directory"),
    }
    assert!(lookup(&f.root, &["t.mkdir", "file"]).is_some());
}

#[test]
fn removes_empty() {
    let mut f = fs(vec![("empty", dir(vec![]))]);
    assert!(matches!(lookup(&f.root, &["empty"]), Some(FsNode::Dir { .. })));

    remove_dir_all(&mut f, &path(&["empty"]), SERIAL, LINUX).unwrap();
    assert!(lookup(&f.root, &["empty"]).is_none());
}

#[test]
fn removes_files() {
    let mut files: Vec<(&str, FsNode)> = Vec::new();
    let names = ["empty-0.txt", "empty-1.txt", "empty-2.txt", "empty-3.txt", "empty-4.txt"];
    for n in names {
        files.push((n, file()));
    }
    let mut f = fs(vec![("files", dir(files))]);
    for n in names {
        assert!(matches!(lookup(&f.root, &["files", n]), Some(FsNode::File { .. })));
    }

    remove_dir_all(&mut f, &path(&["files"]), SERIAL, LINUX).unwrap();
    assert!(lookup(&f.root, &["files"]).is_none());
}

#[test]
fn removes_dirs() {
    let names = ["0", "1", "2", "3", "4"];
    let mut subdirs: Vec<(&str, FsNode)> = Vec::new();
    for n in names {
        subdirs.push((n, dir(vec![("subdir", dir(vec![]))])));
    }
    let mut f = fs(vec![("dirs", dir(subdirs))]);
    for n in names {
        assert!(matches!(lookup(&f.root, &["dirs", n, "subdir"]), Some(FsNode::Dir { .. })));
    }

    remove_dir_all(&mut f, &path(&["dirs"]), SERIAL, LINUX).unwrap();
    assert!(lookup(&f.root, &["dirs"]).is_none());
}

#[test]
fn contents_keeps_the_directory() {
    let mut f = fs(vec![("t", dir(vec![("file", file())]))]);

    remove_dir_contents(&mut f, &path(&["t"]), SERIAL, LINUX).unwrap();

    assert!(lookup(&f.root, &["t", "file"]).is_none());
    assert_eq!(entry_count(&f.root, &["t"]), 0);
}

#[test]
fn remove_all_takes_nested_trees() {
    let mut f = fs(vec![("t", dir(vec![("sub", dir(vec![("nested_file", file())]))]))]);

    remove_dir_all(&mut f, &path(&["t"]), SERIAL, LINUX).unwrap();

    assert!(lookup(&f.root, &["t"]).is_none());
    assert_eq!(entry_count(&f.root, &[]), 0);
}

#[test]
fn ensure_creates_then_reempties() {
    let mut f = fs(vec![]);

    ensure_empty_dir(&mut f, &path(&["t"]), SERIAL, LINUX).unwrap();
    assert_eq!(entry_count(&f.root, &["t"]), 0);

    ensure_empty_dir(&mut f, &path(&["t"]), SERIAL, LINUX).unwrap();
    assert_eq!(entry_count(&f.root, &["t"]), 0);

    match &mut f.root {
        FsNode::Dir { entries } => match &mut entries[0].node {
            FsNode::Dir { entries } => entries.push(FsEntry { name: name("stray"), node: file() }),
            _ => panic!("t should be a directory"),
        },
        _ => panic!("root should be a directory"),
    }
    assert_eq!(entry_count(&f.root, &["t"]), 1);

    ensure_empty_dir(&mut f, &path(&["t"]), SERIAL, LINUX).unwrap();
    assert_eq!(entry_count(&f.root, &["t"]), 0);
}

#[test]
fn root_symlink_is_rejected() {
    let mut f = fs(vec![("link", FsNode::Symlink), ("real", dir(vec![("file", file())]))]);

    expect_kind(
        ErrorKind::NotADirectory,
        remove_dir_all(&mut f, &path(&["link"]), SERIAL, LINUX),
    );
    expect_kind(
        ErrorKind::NotADirectory,
        remove_dir_contents(&mut f, &path(&["link"]), SERIAL, LINUX),
    );

    // Nothing was deleted: the link is still there, and so is what a
    // link of the real system might have pointed at.
    assert!(matches!(lookup(&f.root, &["link"]), Some(FsNode::Symlink)));
    assert!(lookup(&f.root, &["real", "file"]).is_some());
}

#[test]
fn symlinks_inside_are_unlinked_not_followed() {
    let mut f = fs(vec![("t", dir(vec![("link", FsNode::Symlink), ("file", file())]))]);

    remove_dir_contents(&mut f, &path(&["t"]), SERIAL, LINUX).unwrap();
    assert_eq!(entry_count(&f.root, &["t"]), 0);
}

#[test]
fn locked_file_reports_permission_denied() {
    let mut f = fs(vec![("t", dir(vec![("stuck", locked_file())]))]);

    match remove_dir_contents(&mut f, &path(&["t"]), SERIAL, LINUX) {
        Err(e) => {
            assert_eq!(e.kind, ErrorKind::PermissionDenied);
            assert_eq!(e.path, name("./t/stuck"));
        },
        Ok(()) => panic!("a locked file must abort the removal"),
    }
    assert!(lookup(&f.root, &["t", "stuck"]).is_some());
}

#[test]
fn first_failure_keeps_later_siblings() {
    let mut f = fs(vec![(
        "t",
        dir(vec![("a", file()), ("b", locked_file()), ("c", file())]),
    )]);

    expect_kind(
        ErrorKind::PermissionDenied,
        remove_dir_contents(&mut f, &path(&["t"]), SERIAL, LINUX),
    );

    // Enumeration order: `a` went first and stays deleted — no
    // rollback; the failing entry and its later sibling survive.
    assert!(lookup(&f.root, &["t", "a"]).is_none());
    assert!(lookup(&f.root, &["t", "b"]).is_some());
    assert!(lookup(&f.root, &["t", "c"]).is_some());
}

#[test]
fn failure_deep_inside_names_the_node() {
    let mut f = fs(vec![("t", dir(vec![("sub", dir(vec![("stuck", locked_file())]))]))]);

    match remove_dir_all(&mut f, &path(&["t"]), SERIAL, LINUX) {
        Err(e) => {
            assert_eq!(e.kind, ErrorKind::PermissionDenied);
            assert_eq!(e.path, name("./t/sub/stuck"));
        },
        Ok(()) => panic!("a locked file must abort the removal"),
    }
    // The root of the removal is still present.
    assert!(lookup(&f.root, &["t", "sub", "stuck"]).is_some());
}

#[test]
fn missing_target_reports_not_found() {
    let mut f = fs(vec![]);

    match remove_dir_contents(&mut f, &path(&["missing"]), SERIAL, LINUX) {
        Err(e) => {
            assert_eq!(e.kind, ErrorKind::NotFound);
            assert_eq!(e.path, name("./missing"));
        },
        Ok(()) => panic!("expected NotFound"),
    }
    expect_kind(
        ErrorKind::NotFound,
        remove_dir_all(&mut f, &path(&["missing"]), SERIAL, LINUX),
    );
}

#[test]
fn ensure_propagates_other_creation_failures() {
    let mut f = fs(vec![("file", file())]);

    expect_kind(
        ErrorKind::NotFound,
        ensure_empty_dir(&mut f, &path(&["missing", "sub"]), SERIAL, LINUX),
    );
    expect_kind(
        ErrorKind::NotADirectory,
        ensure_empty_dir(&mut f, &path(&["file", "sub"]), SERIAL, LINUX),
    );
    assert!(lookup(&f.root, &["file"]).is_some());
}

#[test]
fn nested_paths_resolve_component_wise() {
    let mut f = fs(vec![(
        "a",
        dir(vec![("b", dir(vec![("x", file())])), ("keep", file())]),
    )]);

    remove_dir_all(&mut f, &path(&["a", "b"]), SERIAL, LINUX).unwrap();
    assert!(lookup(&f.root, &["a", "b"]).is_none());
    assert!(lookup(&f.root, &["a", "keep"]).is_some());

    ensure_empty_dir(&mut f, &path(&["a", "b"]), SERIAL, LINUX).unwrap();
    assert_eq!(entry_count(&f.root, &["a", "b"]), 0);
    assert!(lookup(&f.root, &["a", "keep"]).is_some());
}

#[test]
fn serial_and_parallel_agree() {
    let build = || {
        fs(vec![(
            "t",
            dir(vec![
                ("a", file()),
                ("b", dir(vec![("c", file()), ("d", FsNode::Symlink)])),
                ("e", dir(vec![])),
            ]),
        )])
    };

    let flavors = [UnixFlavor::Linux, UnixFlavor::MacOs, UnixFlavor::FreeBsd, UnixFlavor::NetBsd];
    for flavor in flavors {
        let mut serial = build();
        let mut parallel = build();
        remove_dir_all(&mut serial, &path(&["t"]), ParallelMode::Serial, flavor).unwrap();
        remove_dir_all(&mut parallel, &path(&["t"]), ParallelMode::Parallel, flavor).unwrap();
        assert!(lookup(&serial.root, &["t"]).is_none());
        assert!(lookup(&parallel.root, &["t"]).is_none());
        assert_eq!(entry_count(&serial.root, &[]), 0);
        assert_eq!(entry_count(&parallel.root, &[]), 0);
    }
}
