use disk_scan::{
    build_tree_from_registry_with_depth, count_files, FileNode, FileType, ScanSession,
};

fn find_child<'a>(tree: &'a FileNode, name: &str) -> &'a FileNode {
    tree.children
        .iter()
        .find(|c| c.name == name)
        .expect("child not found")
}

#[test]
fn scan_two_files_and_subdirectory() {
    let mut s = ScanSession::new("/root".to_string());
    let root = s.begin_dir("/root".to_string(), "root".to_string(), None, 0);
    s.record_file(
        "/root/a.txt".to_string(),
        "a.txt".to_string(),
        Some(root),
        1000,
        FileType::Document,
        0,
        Some((1, 1)),
    );
    s.record_file(
        "/root/b.txt".to_string(),
        "b.txt".to_string(),
        Some(root),
        500,
        FileType::Document,
        0,
        Some((1, 2)),
    );
    let sub = s.begin_dir("/root/sub".to_string(), "sub".to_string(), Some(root), 0);
    s.record_file(
        "/root/sub/c.bin".to_string(),
        "c.bin".to_string(),
        Some(sub),
        1500,
        FileType::Executable,
        0,
        Some((1, 3)),
    );
    s.finish_dir(sub);
    s.finish_dir(root);

    assert_eq!(s.total_size, 3000);
    assert_eq!(s.files_scanned, 3);

    let tree = build_tree_from_registry_with_depth(&s.registry, "/root", 10).unwrap();
    assert_eq!(tree.size, 3000);
    assert!(tree.is_directory);
    assert_eq!(count_files(&tree), 3);

    let sub_node = find_child(&tree, "sub");
    assert!(sub_node.is_directory);
    assert_eq!(sub_node.size, 1500);
    assert_eq!(sub_node.children.len(), 1);
    assert_eq!(sub_node.children[0].size, 1500);
}

#[test]
fn scan_self_symlink_completes_with_zero_size() {
    let mut s = ScanSession::new("/root".to_string());
    let root = s.begin_dir("/root".to_string(), "root".to_string(), None, 0);
    // The traversal records the symlink as a leaf and never follows
    // its target, so a self-referential link cannot cause a cycle.
    s.record_symlink("/root/loop".to_string(), "loop".to_string(), Some(root), 0);
    s.finish_dir(root);

    assert_eq!(s.total_size, 0);
    assert_eq!(s.files_scanned, 0);

    let tree = build_tree_from_registry_with_depth(&s.registry, "/root", 10).unwrap();
    assert_eq!(tree.size, 0);
    let link = find_child(&tree, "loop");
    assert!(!link.is_directory);
    assert_eq!(link.size, 0);
    assert_eq!(link.children.len(), 0);
}

#[test]
fn hard_links_counted_once_in_totals() {
    let mut s = ScanSession::new("/root".to_string());
    let root = s.begin_dir("/root".to_string(), "root".to_string(), None, 0);
    let (_, counted_first) = s.record_file(
        "/root/orig".to_string(),
        "orig".to_string(),
        Some(root),
        2000,
        FileType::Other,
        0,
        Some((7, 99)),
    );
    let (_, counted_second) = s.record_file(
        "/root/link".to_string(),
        "link".to_string(),
        Some(root),
        2000,
        FileType::Other,
        0,
        Some((7, 99)),
    );
    s.finish_dir(root);

    assert!(counted_first);
    assert!(!counted_second);
    // The aggregate counters charge the inode once ...
    assert_eq!(s.total_size, 2000);
    assert_eq!(s.files_scanned, 1);

    // ... while both paths still appear as their own leaf nodes.
    let tree = build_tree_from_registry_with_depth(&s.registry, "/root", 10).unwrap();
    assert_eq!(tree.children.len(), 2);
    assert_eq!(find_child(&tree, "orig").size, 2000);
    assert_eq!(find_child(&tree, "link").size, 2000);
}

#[test]
fn duplicate_path_is_recorded_once() {
    let mut s = ScanSession::new("/root".to_string());
    let root = s.begin_dir("/root".to_string(), "root".to_string(), None, 0);
    s.record_file(
        "/root/x".to_string(),
        "x".to_string(),
        Some(root),
        10,
        FileType::Other,
        0,
        None,
    );
    s.record_file(
        "/root/x".to_string(),
        "x".to_string(),
        Some(root),
        10,
        FileType::Other,
        0,
        None,
    );
    assert_eq!(s.registry.len(), 2);
    assert_eq!(s.total_size, 10);
    assert_eq!(s.files_scanned, 1);
}

#[test]
fn cancellation_is_sticky_and_keeps_discoveries() {
    let mut s = ScanSession::new("/root".to_string());
    let root = s.begin_dir("/root".to_string(), "root".to_string(), None, 0);
    s.record_file(
        "/root/a".to_string(),
        "a".to_string(),
        Some(root),
        5,
        FileType::Other,
        0,
        None,
    );
    assert!(!s.is_cancelled());
    let before = s.registry.len();
    s.cancel();
    assert!(s.is_cancelled());
    // Cancelling discards nothing: what was discovered stays for
    // best-effort partial reporting.
    assert_eq!(s.registry.len(), before);
    let tree = build_tree_from_registry_with_depth(&s.registry, "/root", 10).unwrap();
    assert_eq!(tree.size, 5);
    let p = s.progress();
    assert_eq!(p.files_scanned, 1);
    assert_eq!(p.total_size, 5);
}

#[test]
fn view_truncated_to_cap_but_size_exact() {
    let mut s = ScanSession::new("/r".to_string());
    let root = s.begin_dir("/r".to_string(), "r".to_string(), None, 0);
    let mut expected_total: u64 = 0;
    for i in 0..105u64 {
        let size = 10 * (i + 1);
        expected_total += size;
        s.record_file(
            format!("/r/f{}", i),
            format!("f{}", i),
            Some(root),
            size,
            FileType::Other,
            0,
            Some((1, i)),
        );
    }
    s.finish_dir(root);

    let tree = build_tree_from_registry_with_depth(&s.registry, "/r", 10).unwrap();
    // The view keeps only the cap's worth of children, largest first ...
    assert_eq!(tree.children.len(), 100);
    for w in tree.children.windows(2) {
        assert!(w[0].size >= w[1].size);
    }
    // ... they are exactly the top 100 by size (1050 down to 60, the
    // omitted five are 10..=50), each a distinct path ...
    assert_eq!(tree.children[0].size, 1050);
    assert_eq!(tree.children[99].size, 60);
    let mut paths: Vec<&str> = tree.children.iter().map(|c| c.path.as_str()).collect();
    paths.sort();
    paths.dedup();
    assert_eq!(paths.len(), 100);
    // ... while the directory's size still reflects all children.
    assert_eq!(tree.size, expected_total);
}

#[test]
fn hard_link_leaves_both_materialize() {
    let mut s = ScanSession::new("/r".to_string());
    let root = s.begin_dir("/r".to_string(), "r".to_string(), None, 0);
    s.record_file(
        "/r/one".to_string(),
        "one".to_string(),
        Some(root),
        2000,
        FileType::Other,
        0,
        Some((3, 3)),
    );
    s.record_file(
        "/r/two".to_string(),
        "two".to_string(),
        Some(root),
        2000,
        FileType::Other,
        0,
        Some((3, 3)),
    );
    s.finish_dir(root);
    let tree = build_tree_from_registry_with_depth(&s.registry, "/r", 5).unwrap();
    // Dedup affects only the aggregate counters; the view keeps one
    // node per path, never merging or repeating.
    let names: Vec<&str> = tree.children.iter().map(|c| c.name.as_str()).collect();
    assert_eq!(tree.children.len(), 2);
    assert!(names.contains(&"one"));
    assert!(names.contains(&"two"));
    assert!(tree.children.iter().all(|c| c.size == 2000));
}

#[test]
fn depth_bounded_view_keeps_true_sizes() {
    let mut s = ScanSession::new("/r".to_string());
    let root = s.begin_dir("/r".to_string(), "r".to_string(), None, 0);
    let sub = s.begin_dir("/r/s".to_string(), "s".to_string(), Some(root), 0);
    let subsub = s.begin_dir("/r/s/t".to_string(), "t".to_string(), Some(sub), 0);
    s.record_file(
        "/r/s/t/f".to_string(),
        "f".to_string(),
        Some(subsub),
        700,
        FileType::Other,
        0,
        None,
    );
    s.finish_dir(subsub);
    s.finish_dir(sub);
    s.finish_dir(root);

    let tree = build_tree_from_registry_with_depth(&s.registry, "/r", 1).unwrap();
    assert_eq!(tree.size, 700);
    assert_eq!(tree.children.len(), 1);
    let s_node = &tree.children[0];
    // Beyond the depth cutoff the directory is a leaf in the view,
    // with its true aggregate size and no children.
    assert!(s_node.is_directory);
    assert_eq!(s_node.children.len(), 0);
    assert_eq!(s_node.size, 700);

    let unknown = build_tree_from_registry_with_depth(&s.registry, "/absent", 1);
    assert!(unknown.is_none());
}

#[test]
fn progress_tracks_current_path() {
    let mut s = ScanSession::new("/r".to_string());
    assert_eq!(s.progress().current_path, "/r");
    let root = s.begin_dir("/r".to_string(), "r".to_string(), None, 0);
    s.record_file(
        "/r/a".to_string(),
        "a".to_string(),
        Some(root),
        1,
        FileType::Other,
        0,
        None,
    );
    assert_eq!(s.progress().current_path, "/r/a");
}
