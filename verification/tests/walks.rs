use nuke_modules::Limiter;
use nuke_modules::NodeModules;
use nuke_modules::delete::nuke_node_modules;
use nuke_modules::fs::calc_node_modules_sizes;
use nuke_modules::fs::find_node_modules;
use nuke_modules::fs::size_of;
use nuke_modules::fs::WalkError;
use nuke_modules::sort::sort_by_size;
use nuke_modules::tree::FsEntry;
use nuke_modules::tree::FsNode;

fn file(name: &str, len: u64) -> FsEntry {
    FsEntry { name: name.to_string(), len, meta_ok: true, kind_ok: true, node: FsNode::File }
}

fn unreadable_file(name: &str, len: u64) -> FsEntry {
    FsEntry { name: name.to_string(), len, meta_ok: false, kind_ok: true, node: FsNode::File }
}

fn dir(name: &str, entries: Vec<FsEntry>) -> FsEntry {
    FsEntry {
        name: name.to_string(),
        len: 0,
        meta_ok: true,
        kind_ok: true,
        node: FsNode::Dir { readable: true, entries },
    }
}

fn root_of(entries: Vec<FsEntry>) -> FsNode {
    FsNode::Dir { readable: true, entries }
}

fn path(components: &[&str]) -> Vec<String> {
    components.iter().map(|c| c.to_string()).collect()
}

fn limiter() -> Limiter {
    Limiter::new(8)
}

fn found_paths(records: &[NodeModules]) -> Vec<Vec<String>> {
    records.iter().map(|r| r.path.clone()).collect()
}

#[test]
fn find_two_separate_branches() {
    let root = root_of(vec![
        dir("a", vec![dir("node_modules", vec![file("x.bin", 100)])]),
        dir("b", vec![dir("node_modules", vec![file("y.bin", 5000)])]),
    ]);
    let mut lim = limiter();
    let records = find_node_modules(&path(&[]), &root, &mut lim).unwrap();
    assert_eq!(records.len(), 2);
    assert_eq!(records[0].path, path(&["a", "node_modules"]));
    assert_eq!(records[1].path, path(&["b", "node_modules"]));
    assert!(records[0].size.is_none());
    assert!(records[1].size.is_none());
    assert_eq!(lim.held_count(), 0);
}

#[test]
fn find_does_not_descend_into_match() {
    let nested = dir(
        "node_modules",
        vec![dir("dep", vec![dir("node_modules", vec![file("z.bin", 7)])])],
    );
    let root = root_of(vec![dir("proj", vec![nested])]);
    let mut lim = limiter();
    let records = find_node_modules(&path(&[]), &root, &mut lim).unwrap();
    assert_eq!(records.len(), 1);
    assert_eq!(records[0].path, path(&["proj", "node_modules"]));
}

#[test]
fn find_ignores_symlinks_and_files() {
    let sym = FsEntry {
        name: "node_modules".to_string(),
        len: 0,
        meta_ok: true,
        kind_ok: true,
        node: FsNode::Symlink,
    };
    let plain = file("node_modules", 4);
    let root = root_of(vec![sym, plain]);
    let mut lim = limiter();
    let records = find_node_modules(&path(&[]), &root, &mut lim).unwrap();
    assert_eq!(records.len(), 0);
}

#[test]
fn find_fails_only_on_unreadable_start() {
    let root = FsNode::Dir { readable: false, entries: vec![] };
    let mut lim = limiter();
    let err = find_node_modules(&path(&["top"]), &root, &mut lim).unwrap_err();
    match err {
        WalkError::DirectoryRead { path: p } => assert_eq!(p, path(&["top"])),
        _ => panic!("wrong error kind"),
    }

    let unreadable_branch = FsEntry {
        name: "locked".to_string(),
        len: 0,
        meta_ok: true,
        kind_ok: true,
        node: FsNode::Dir { readable: false, entries: vec![dir("node_modules", vec![])] },
    };
    let root2 = root_of(vec![unreadable_branch, dir("node_modules", vec![])]);
    let records = find_node_modules(&path(&[]), &root2, &mut lim).unwrap();
    assert_eq!(records.len(), 1);
    assert_eq!(records[0].path, path(&["node_modules"]));
}

#[test]
fn find_twice_same_paths() {
    let root = root_of(vec![
        dir("a", vec![dir("node_modules", vec![])]),
        dir("b", vec![file("f", 1), dir("node_modules", vec![file("y", 2)])]),
    ]);
    let mut lim = limiter();
    let first = find_node_modules(&path(&[]), &root, &mut lim).unwrap();
    let second = find_node_modules(&path(&[]), &root, &mut lim).unwrap();
    let mut p1 = found_paths(&first);
    let mut p2 = found_paths(&second);
    p1.sort();
    p2.sort();
    assert_eq!(p1, p2);
}

#[test]
fn size_of_sums_all_files() {
    let root = root_of(vec![
        file("a.txt", 10),
        dir("sub", vec![file("b.txt", 20), dir("deeper", vec![file("c.txt", 30)])]),
    ]);
    let mut lim = limiter();
    let s = size_of(&root, &mut lim);
    assert_eq!(s, 60);
    assert_eq!(lim.held_count(), 0);
}

#[test]
fn size_of_excludes_unreadable_file() {
    let root = root_of(vec![
        file("a.txt", 10),
        dir("sub", vec![unreadable_file("b.txt", 20), file("c.txt", 30)]),
    ]);
    let mut lim = limiter();
    let s = size_of(&root, &mut lim);
    assert_eq!(s, 40);
}

#[test]
fn size_of_skips_symlinked_directories() {
    let sym = FsEntry {
        name: "link".to_string(),
        len: 5,
        meta_ok: true,
        kind_ok: true,
        node: FsNode::Symlink,
    };
    let root = root_of(vec![sym, file("a", 1)]);
    let mut lim = limiter();
    // the link's own metadata length counts; nothing behind it is walked
    assert_eq!(size_of(&root, &mut lim), 6);
}

#[test]
fn size_of_unreadable_root_is_zero() {
    let root = FsNode::Dir { readable: false, entries: vec![file("a", 10)] };
    let mut lim = limiter();
    assert_eq!(size_of(&root, &mut lim), 0);
}

#[test]
fn calc_sizes_writes_each_slot_and_totals() {
    let root = root_of(vec![
        dir("a", vec![dir("node_modules", vec![file("x.bin", 100)])]),
        dir("b", vec![dir("node_modules", vec![file("y.bin", 5000)])]),
    ]);
    let mut lim = limiter();
    let mut records = find_node_modules(&path(&[]), &root, &mut lim).unwrap();
    let total = calc_node_modules_sizes(&mut records, &root, 0, &mut lim);
    assert_eq!(total, 5100);
    assert_eq!(records[0].size, Some(100));
    assert_eq!(records[1].size, Some(5000));
    assert_eq!(records[0].path, path(&["a", "node_modules"]));
}

#[test]
fn calc_sizes_vanished_path_is_zero() {
    let root = root_of(vec![dir("a", vec![])]);
    let mut records = vec![NodeModules::new(path(&["gone", "node_modules"]))];
    let mut lim = limiter();
    let total = calc_node_modules_sizes(&mut records, &root, 0, &mut lim);
    assert_eq!(total, 0);
    assert_eq!(records[0].size, Some(0));
}

#[test]
fn sort_ascending_by_size() {
    let mut records = vec![
        NodeModules { path: path(&["c"]), size: Some(300) },
        NodeModules { path: path(&["a"]), size: Some(5) },
        NodeModules { path: path(&["n"]), size: None },
        NodeModules { path: path(&["b"]), size: Some(40) },
    ];
    sort_by_size(&mut records);
    let sizes: Vec<Option<u64>> = records.iter().map(|r| r.size).collect();
    assert_eq!(sizes, vec![None, Some(5), Some(40), Some(300)]);
    let paths = found_paths(&records);
    assert_eq!(paths, vec![path(&["n"]), path(&["a"]), path(&["b"]), path(&["c"])]);
}

#[test]
fn delete_all_removes_and_sums_then_zero() {
    let mut disk = vec![
        path(&["a"]),
        path(&["a", "node_modules"]),
        path(&["a", "node_modules", "dep"]),
        path(&["b"]),
        path(&["b", "node_modules"]),
    ];
    let records = vec![
        NodeModules { path: path(&["a", "node_modules"]), size: Some(100) },
        NodeModules { path: path(&["b", "node_modules"]), size: Some(5000) },
    ];
    let mut lim = limiter();
    let total = nuke_node_modules(&records, &mut disk, &mut lim);
    assert_eq!(total, 5100);
    assert_eq!(disk, vec![path(&["a"]), path(&["b"])]);
    assert_eq!(lim.held_count(), 0);

    // the same list again: everything is already gone
    let total2 = nuke_node_modules(&records, &mut disk, &mut lim);
    assert_eq!(total2, 0);
    assert_eq!(disk, vec![path(&["a"]), path(&["b"])]);
}

#[test]
fn delete_all_unset_size_counts_zero() {
    let mut disk = vec![path(&["x"])];
    let records = vec![NodeModules { path: path(&["x"]), size: None }];
    let mut lim = limiter();
    let total = nuke_node_modules(&records, &mut disk, &mut lim);
    assert_eq!(total, 0);
    assert!(disk.is_empty());
}

#[test]
fn end_to_end_find_size_sort_delete() {
    let root = root_of(vec![
        dir("a", vec![dir("node_modules", vec![file("x.bin", 100)])]),
        dir("b", vec![dir("node_modules", vec![file("y.bin", 5000)])]),
    ]);
    let mut lim = limiter();
    let mut records = find_node_modules(&path(&[]), &root, &mut lim).unwrap();
    assert_eq!(records.len(), 2);
    let total = calc_node_modules_sizes(&mut records, &root, 0, &mut lim);
    assert_eq!(total, 5100);
    sort_by_size(&mut records);
    assert_eq!(records[0].path, path(&["a", "node_modules"]));
    assert_eq!(records[1].path, path(&["b", "node_modules"]));
    let mut disk = vec![
        path(&["a"]),
        path(&["a", "node_modules"]),
        path(&["b"]),
        path(&["b", "node_modules"]),
    ];
    let deleted = nuke_node_modules(&records, &mut disk, &mut lim);
    assert_eq!(deleted, 5100);
    assert_eq!(disk, vec![path(&["a"]), path(&["b"])]);
}

#[test]
fn calc_sizes_skips_the_start_path_components() {
    let root = root_of(vec![dir("a", vec![dir("node_modules", vec![file("x.bin", 100)])])]);
    let mut lim = limiter();
    let start = path(&["home", "work"]);
    let mut records = find_node_modules(&start, &root, &mut lim).unwrap();
    assert_eq!(records[0].path, path(&["home", "work", "a", "node_modules"]));
    let total = calc_node_modules_sizes(&mut records, &root, start.len(), &mut lim);
    assert_eq!(total, 100);
    assert_eq!(records[0].size, Some(100));
}
