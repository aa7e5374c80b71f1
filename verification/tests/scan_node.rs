use frostscan::model::file_entry::{FileEntry, FileEntryKind};
use frostscan::model::scan_node::{directory_name, entries_total, ScanNode, ScanNodeKind};

fn entry(name: &str, kind: FileEntryKind, size: u64, pending: bool) -> FileEntry {
    FileEntry {
        path: name.to_string(),
        name: name.to_string(),
        kind,
        size,
        size_pending: pending,
        size_partial: false,
    }
}

#[test]
fn builds_root_from_directory_entries() {
    let root = ScanNode::from_directory_entries(
        "/tmp".to_string(),
        &vec![
            entry("file.txt", FileEntryKind::File, 42, false),
            entry("src", FileEntryKind::Directory, 0, true),
        ],
    );

    assert_eq!(root.kind, ScanNodeKind::Directory);
    assert_eq!(root.children.len(), 2);
    assert_eq!(root.size, 42);
    assert!(root.pending);
}

#[test]
fn updates_child_and_recomputes_size() {
    let mut root = ScanNode::from_directory_entries(
        "/tmp".to_string(),
        &vec![entry("src", FileEntryKind::Directory, 0, true)],
    );

    let mut child = ScanNode::new_directory("src".to_string());
    child.size = 120;

    assert!(root.update_child(&"src".to_string(), child));
    assert_eq!(root.size, 120);
    assert!(!root.pending);
}

#[test]
fn aggregate_partial_count_does_not_double_count_parents() {
    let mut child = ScanNode::new_directory("src".to_string());
    child.partial = true;

    let mut root = ScanNode::new_directory("root".to_string());
    root.children.push(child);
    root.refresh_from_children();

    assert!(root.partial);
    assert_eq!(root.partial_count(), 1);
}

#[test]
fn aggregate_pending_count_does_not_double_count_parents() {
    let mut child = ScanNode::new_directory("src".to_string());
    child.pending = true;

    let mut root = ScanNode::new_directory("root".to_string());
    root.children.push(child);
    root.refresh_from_children();

    assert!(root.pending);
    assert_eq!(root.pending_count(), 1);
}

#[test]
fn symlinks_are_left_out_of_the_tree() {
    let root = ScanNode::from_directory_entries(
        "/data".to_string(),
        &vec![
            entry("link", FileEntryKind::Symlink, 0, false),
            entry("a.bin", FileEntryKind::File, 7, false),
        ],
    );
    assert_eq!(root.children.len(), 1);
    assert_eq!(root.children[0].name, "a.bin");
    assert_eq!(root.size, 7);
    assert!(!root.pending);
}

#[test]
fn directory_names_come_from_the_last_component() {
    assert_eq!(ScanNode::new_directory("/home/user/docs".to_string()).name, "docs");
    assert_eq!(ScanNode::new_directory("/".to_string()).name, "/");
    assert_eq!(directory_name(&"x/y".to_string(), None), "x/y");
    assert_eq!(directory_name(&"x/y".to_string(), Some("y".to_string())), "y");
}

#[test]
fn update_of_unknown_child_changes_nothing() {
    let mut root = ScanNode::from_directory_entries(
        "/tmp".to_string(),
        &vec![entry("a", FileEntryKind::File, 5, false)],
    );
    let other = ScanNode::new_file("b".to_string(), "b".to_string(), 9);
    assert!(!root.update_child(&"b".to_string(), other));
    assert_eq!(root.size, 5);
    assert_eq!(root.children.len(), 1);
}

#[test]
fn failed_child_is_emptied_and_marked_partial() {
    let mut root = ScanNode::from_directory_entries(
        "/tmp".to_string(),
        &vec![
            entry("a", FileEntryKind::Directory, 30, true),
            entry("b", FileEntryKind::File, 5, false),
        ],
    );
    assert_eq!(root.size, 35);
    assert!(root.mark_child_failed(&"a".to_string()));
    assert_eq!(root.size, 5);
    assert!(root.partial);
    assert!(!root.pending);
    assert!(root.children[0].partial);
    assert!(!root.mark_child_failed(&"zzz".to_string()));
}

#[test]
fn file_nodes_are_not_refreshed() {
    let mut file = ScanNode::new_file("f".to_string(), "f".to_string(), 11);
    file.refresh_from_children();
    assert_eq!(file.size, 11);
    assert_eq!(file.pending_count(), 0);
}

#[test]
fn counts_walk_the_whole_tree() {
    let mut leaf1 = ScanNode::new_directory("a/x".to_string());
    leaf1.pending = true;
    let mut leaf2 = ScanNode::new_directory("a/y".to_string());
    leaf2.pending = true;
    leaf2.partial = true;
    let mut mid = ScanNode::new_directory("a".to_string());
    mid.children.push(leaf1);
    mid.children.push(leaf2);
    mid.pending = true;
    let mut root = ScanNode::new_directory("root".to_string());
    root.children.push(mid);
    root.children.push(ScanNode::new_file("f".to_string(), "f".to_string(), 1));
    assert_eq!(root.pending_count(), 2);
    assert_eq!(root.partial_count(), 1);
    let copy = root.duplicate();
    assert_eq!(copy.children.len(), 2);
    assert_eq!(copy.children[0].children[1].path, "a/y");
}

#[test]
fn listing_total_detects_overflow() {
    let entries = vec![
        entry("a", FileEntryKind::File, u64::MAX, false),
        entry("b", FileEntryKind::File, 1, false),
    ];
    assert_eq!(entries_total(&entries), None);
    let entries = vec![
        entry("a", FileEntryKind::File, 4, false),
        entry("l", FileEntryKind::Symlink, 100, false),
        entry("b", FileEntryKind::Directory, 6, true),
    ];
    assert_eq!(entries_total(&entries), Some(10));
}

#[test]
fn root_of_a_listing_is_named_after_its_last_component() {
    let root = ScanNode::from_directory_entries("/srv/data.d/..x".to_string(), &Vec::new());
    assert_eq!(root.name, "..x");
    let root = ScanNode::from_directory_entries("relative".to_string(), &Vec::new());
    assert_eq!(root.name, "relative");
}
