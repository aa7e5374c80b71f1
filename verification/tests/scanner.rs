use frostscan::model::file_entry::FileEntryKind;
use frostscan::model::scan_node::ScanNodeKind;
use frostscan::services::scanner::{
    directory_size_event, link_event, listed_file_entry, merge_issue, scan_plan, DirScan, DirSizeEvent, EntryOutcome, ScanError,
    ScanFailureKind,
};

#[test]
fn first_issue_is_kept() {
    assert_eq!(merge_issue(None, ScanFailureKind::SymlinkSkipped), Some(ScanFailureKind::SymlinkSkipped));
    assert_eq!(
        merge_issue(Some(ScanFailureKind::AccessDenied), ScanFailureKind::ReadDir),
        Some(ScanFailureKind::AccessDenied)
    );
    assert_eq!(
        merge_issue(Some(ScanFailureKind::ReadDir), ScanFailureKind::SymlinkSkipped),
        Some(ScanFailureKind::ReadDir)
    );
    assert_eq!(
        merge_issue(Some(ScanFailureKind::SymlinkSkipped), ScanFailureKind::AccessDenied),
        Some(ScanFailureKind::SymlinkSkipped)
    );
}

#[test]
fn failure_kinds_and_messages() {
    let denied = ScanError::ReadDir { path: "/a".to_string(), access_denied: true, detail: "denied".to_string() };
    assert_eq!(denied.failure_kind(), ScanFailureKind::AccessDenied);
    assert_eq!(denied.message(), "failed to read directory /a: denied");
    let other = ScanError::ReadDir { path: "/b".to_string(), access_denied: false, detail: "gone".to_string() };
    assert_eq!(other.failure_kind(), ScanFailureKind::ReadDir);
    assert_eq!(ScanError::Cancelled.failure_kind(), ScanFailureKind::ReadDir);
    assert_eq!(ScanError::Cancelled.message(), "scan cancelled");
}

#[test]
fn listed_entries_by_kind() {
    let f = listed_file_entry("/r/a".to_string(), "a".to_string(), false, false, 5);
    assert_eq!((f.kind, f.size, f.size_pending), (FileEntryKind::File, 5, false));
    let d = listed_file_entry("/r/d".to_string(), "d".to_string(), false, true, 4096);
    assert_eq!((d.kind, d.size, d.size_pending), (FileEntryKind::Directory, 0, true));
    let l = listed_file_entry("/r/l".to_string(), "l".to_string(), true, true, 12);
    assert_eq!((l.kind, l.size, l.size_pending), (FileEntryKind::Symlink, 0, false));
}

#[test]
fn recursive_size_accumulates_files_and_subdirectories() {
    let mut nested = DirScan::start("/r/docs/nested".to_string());
    nested.record(EntryOutcome::File { path: "/r/docs/nested/deep.dat".to_string(), name: "deep.dat".to_string(), len: 9 });
    let nested = nested.finish();
    assert_eq!(nested.size, 9);
    assert_eq!(nested.tree.name, "nested");

    let mut docs = DirScan::start("/r/docs".to_string());
    docs.record(EntryOutcome::File { path: "/r/docs/guide.md".to_string(), name: "guide.md".to_string(), len: 6 });
    docs.record(EntryOutcome::Directory(nested));
    docs.record(EntryOutcome::Other);
    let summary = docs.finish();
    assert_eq!(summary.size, 15);
    assert!(!summary.partial);
    assert!(summary.issue.is_none());
    assert_eq!(summary.tree.kind, ScanNodeKind::Directory);
    assert_eq!(summary.tree.size, 15);
    let nested_node = summary.tree.children.iter().find(|n| n.name == "nested").unwrap();
    assert_eq!(nested_node.size, 9);
}

#[test]
fn symlinks_and_failures_make_a_scan_partial() {
    let mut scan = DirScan::start("/r".to_string());
    scan.record(EntryOutcome::Symlink);
    scan.record(EntryOutcome::MetadataUnreadable { access_denied: true });
    scan.record(EntryOutcome::FailedDirectory {
        path: "/r/locked".to_string(),
        name: "locked".to_string(),
        kind: ScanFailureKind::AccessDenied,
    });
    let summary = scan.finish();
    assert!(summary.partial);
    assert_eq!(summary.issue, Some(ScanFailureKind::SymlinkSkipped));
    assert_eq!(summary.tree.children.len(), 1);
    assert!(summary.tree.children[0].partial);
    assert_eq!(summary.size, 0);

    let mut scan = DirScan::start("/s".to_string());
    scan.record(EntryOutcome::Unreadable);
    scan.record(EntryOutcome::Symlink);
    assert_eq!(scan.finish().issue, Some(ScanFailureKind::ReadDir));
}

#[test]
fn scan_outcomes_become_events() {
    let mut scan = DirScan::start("/r/docs".to_string());
    scan.record(EntryOutcome::File { path: "/r/docs/a".to_string(), name: "a".to_string(), len: 3 });
    let event = directory_size_event("/r/docs".to_string(), Ok(scan.finish()));
    match event {
        Some(DirSizeEvent::Done(r)) => {
            assert_eq!(r.path, "/r/docs");
            assert_eq!(r.size, 3);
            assert_eq!(r.tree.size, 3);
        },
        other => panic!("unexpected {:?}", other),
    }
    assert!(directory_size_event("/r/x".to_string(), Err(ScanError::Cancelled)).is_none());
    let failed = directory_size_event(
        "/r/y".to_string(),
        Err(ScanError::ReadDir { path: "/r/y".to_string(), access_denied: true, detail: "no".to_string() }),
    );
    match failed {
        Some(DirSizeEvent::Failed(e)) => {
            assert_eq!(e.kind, ScanFailureKind::AccessDenied);
            assert_eq!(e.message, "failed to read directory /r/y: no");
        },
        other => panic!("unexpected {:?}", other),
    }
}

#[test]
fn a_symlinked_entry_is_reported_first_as_skipped() {
    let target = listed_file_entry("/root/target".to_string(), "target".to_string(), false, true, 0);
    let linked = listed_file_entry("/root/linked-dir".to_string(), "linked-dir".to_string(), true, false, 0);
    let file = listed_file_entry("/root/a.txt".to_string(), "a.txt".to_string(), false, false, 7);
    for entries in [vec![target.clone(), linked.clone(), file.clone()], vec![file.clone(), linked.clone(), target.clone()]] {
        let plan = scan_plan(&entries);
        let paths: Vec<&str> = plan.iter().map(|e| e.path.as_str()).collect();
        assert_eq!(paths, vec!["/root/linked-dir", "/root/target"]);
        let Some(DirSizeEvent::Done(result)) = link_event(&plan[0]) else {
            panic!("expected a result for the link");
        };
        assert_eq!(result.path, "/root/linked-dir");
        assert!(result.partial);
        assert_eq!(result.size, 0);
        assert_eq!(result.issue, Some(ScanFailureKind::SymlinkSkipped));
        assert!(link_event(&plan[1]).is_none());
    }
    assert!(link_event(&file).is_none());
}
