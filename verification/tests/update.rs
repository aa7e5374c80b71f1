use frostscan::app::message::Message;
use frostscan::app::notice::{AppNotice, NoticeLevel, NoticeSource};
use frostscan::app::state::{CachedDirectory, FrostScanApp, Tab};
use frostscan::app::update::{Effect, Received, MAX_UPDATES_PER_TICK};
use frostscan::app::state::SortBy;
use frostscan::i18n::TextKey;
use frostscan::model::file_entry::{FileEntry, FileEntryKind};
use frostscan::model::scan_node::ScanNode;
use frostscan::services::disk::SystemDisk;
use frostscan::services::scanner::{DirScan, DirSizeError, DirSizeEvent, DirSizeResult, ScanError, ScanFailureKind};

fn entry(path: &str, kind: FileEntryKind, size: u64) -> FileEntry {
    FileEntry {
        path: path.to_string(),
        name: path.rsplit('/').next().unwrap().to_string(),
        kind,
        size,
        size_pending: kind == FileEntryKind::Directory,
        size_partial: false,
    }
}

#[test]
fn clears_sticky_navigation_notice_after_successful_navigation() {
    let mut app = FrostScanApp::new(Vec::new());
    app.notice = Some(AppNotice {
        level: NoticeLevel::Error,
        text_key: TextKey::OpeningFolderFailed,
        source: NoticeSource::Navigation,
        sticky: true,
    });

    app.clear_navigation_notice();

    assert!(app.notice.is_none());
}

#[test]
fn keeps_scan_notice_when_clearing_navigation_notice() {
    let mut app = FrostScanApp::new(Vec::new());
    app.notice = Some(AppNotice {
        level: NoticeLevel::Warning,
        text_key: TextKey::PartialScanWarning,
        source: NoticeSource::Scan,
        sticky: false,
    });

    app.clear_navigation_notice();

    assert!(app.notice.is_some());
}

#[test]
fn open_directory_from_cache_restores_scan_tree() {
    let mut app = FrostScanApp::new(Vec::new());
    let path = "cached".to_string();
    let tree = ScanNode::new_directory(path.clone());

    app.cache_insert(path.clone(), CachedDirectory { entries: Vec::new(), tree: tree.duplicate() });

    let effect = app.open_directory(path.clone(), Tab::Vue, false);

    assert!(matches!(effect, Effect::CancelScan));
    assert_eq!(app.current_path.as_ref(), Some(&path));
    assert_eq!(app.scan_tree.as_ref().map(|node| &node.path), Some(&path));
    assert_eq!(app.active_tab, Tab::Vue);
}

#[test]
fn failed_open_clears_previous_scan_tree() {
    let mut app = FrostScanApp::new(Vec::new());
    app.scan_tree = Some(ScanNode::new_directory("old".to_string()));

    let path = "Z:\\definitely-missing-frostscan-path".to_string();
    let effect = app.open_directory(path.clone(), Tab::Explorer, true);
    let Effect::ListDirectory { path: listed, tab } = effect else {
        panic!("expected a listing request");
    };
    assert_eq!(listed, path);
    let error = ScanError::ReadDir {
        path: path.clone(),
        access_denied: false,
        detail: "No such file or directory (os error 2)".to_string(),
    };
    let to_scan = app.directory_listed(listed, tab, Err(error));

    assert!(to_scan.is_empty());
    assert!(app.scan_tree.is_none());
    assert!(app.entries.is_empty());
    assert_eq!(app.current_path.as_deref(), Some(path.as_str()));
    assert_eq!(app.notice.map(|n| n.text_key), Some(TextKey::OpeningFolderFailed));
}

#[test]
fn access_denied_listing_raises_sticky_error() {
    let mut app = FrostScanApp::new(Vec::new());
    let error = ScanError::ReadDir { path: "/root".to_string(), access_denied: true, detail: String::new() };
    app.directory_listed("/root".to_string(), Tab::Explorer, Err(error));
    let notice = app.notice.unwrap();
    assert_eq!(notice.text_key, TextKey::OpeningFolderAccessDenied);
    assert_eq!(notice.level, NoticeLevel::Error);
    assert!(notice.sticky);
}

#[test]
fn full_scan_cycle_fills_sizes_and_caches_the_directory() {
    let mut app = FrostScanApp::new(Vec::new());
    let effect = app.update(Message::OpenEntry("/data".to_string()));
    // Not a listed directory: nothing happens.
    assert!(matches!(effect, Effect::Nothing));

    let effect = app.open_directory("/data".to_string(), Tab::Explorer, false);
    let Effect::ListDirectory { path, tab } = effect else { panic!("expected a listing request") };
    let listing = vec![
        entry("/data/docs", FileEntryKind::Directory, 0),
        entry("/data/a.txt", FileEntryKind::File, 4),
        entry("/data/pics", FileEntryKind::Directory, 0),
    ];
    let to_scan = app.directory_listed(path, tab, Ok(listing));
    assert_eq!(to_scan.len(), 2);
    assert!(app.scan_running);
    assert!(app.scan_in_progress());
    assert_eq!(app.scan_progress_total, 2);
    assert_eq!(app.scan_tree.as_ref().unwrap().pending_count(), 2);
    assert!(matches!(app.update(Message::Tick), Effect::DrainScanEvents));

    let mut scan = DirScan::start("/data/docs".to_string());
    scan.record(frostscan::services::scanner::EntryOutcome::File {
        path: "/data/docs/x".to_string(),
        name: "x".to_string(),
        len: 10,
    });
    let done = DirSizeEvent::Done(DirSizeResult {
        path: "/data/docs".to_string(),
        size: 10,
        partial: false,
        issue: None,
        tree: scan.finish().tree,
    });
    assert!(app.scan_event_fits(&done));
    assert!(!app.on_scan_event(done));
    assert_eq!(app.scan_progress_done, 1);
    assert_eq!(app.entries[0].size, 10);
    assert!(!app.entries[0].size_pending);

    let failed = DirSizeEvent::Failed(DirSizeError {
        path: "/data/pics".to_string(),
        kind: ScanFailureKind::AccessDenied,
        message: "denied".to_string(),
    });
    assert!(app.on_scan_event(failed));
    assert!(!app.scan_running);
    assert!(!app.scan_in_progress());
    assert!(app.entries[2].size_partial);
    let tree = app.scan_tree.as_ref().unwrap();
    assert_eq!(tree.size, 14);
    assert!(tree.partial);
    assert!(!tree.pending);
    assert_eq!(app.notice.map(|n| n.text_key), Some(TextKey::PartialScanWarningAccessDenied));
    assert_eq!(app.directory_cache.len(), 1);

    // Opening it again comes from the cache.
    app.update(Message::SwitchTab(Tab::Options));
    let effect = app.open_directory("/data".to_string(), Tab::Vue, false);
    assert!(matches!(effect, Effect::CancelScan));
    assert_eq!(app.scan_tree.as_ref().unwrap().size, 14);
    assert_eq!(app.entries.len(), 3);
    // A refresh lists it again.
    let effect = app.update(Message::Refresh);
    assert!(matches!(effect, Effect::ListDirectory { .. }));
}

#[test]
fn listing_without_directories_finishes_at_once() {
    let mut app = FrostScanApp::new(Vec::new());
    let to_scan = app.directory_listed(
        "/flat".to_string(),
        Tab::Explorer,
        Ok(vec![entry("/flat/a", FileEntryKind::File, 1)]),
    );
    assert!(to_scan.is_empty());
    assert!(!app.scan_running);
    assert_eq!(app.directory_cache.len(), 1);
    assert!(matches!(app.update(Message::Tick), Effect::Nothing));
}

#[test]
fn sort_headers_toggle_direction() {
    let mut app = FrostScanApp::new(Vec::new());
    app.update(Message::SortByName);
    assert_eq!((app.sort_by, app.sort_desc), (SortBy::Name, true));
    app.update(Message::SortBySize);
    assert_eq!((app.sort_by, app.sort_desc), (SortBy::Size, true));
    app.update(Message::SortBySize);
    assert_eq!((app.sort_by, app.sort_desc), (SortBy::Size, false));
    app.update(Message::SortByName);
    assert_eq!((app.sort_by, app.sort_desc), (SortBy::Name, false));
}

#[test]
fn selected_disk_opens_in_the_explorer() {
    let disk = SystemDisk { label: "Root (/)".to_string(), mount_point: "/".to_string() };
    let mut app = FrostScanApp::new(vec![disk.clone()]);
    assert!(matches!(app.update(Message::OpenSelectedDisk), Effect::Nothing));
    app.update(Message::SelectDisk(disk));
    match app.update(Message::OpenSelectedDisk) {
        Effect::ListDirectory { path, tab } => {
            assert_eq!(path, "/");
            assert_eq!(tab, Tab::Explorer);
        },
        other => panic!("unexpected effect {:?}", other),
    }
    assert!(matches!(app.update(Message::GoUp), Effect::Nothing));
}

#[test]
fn go_up_opens_the_parent_in_the_same_tab() {
    let mut app = FrostScanApp::new(Vec::new());
    app.directory_listed("/data/photos".to_string(), Tab::Vue, Ok(Vec::new()));
    match app.update(Message::GoUp) {
        Effect::ListDirectory { path, tab } => {
            assert_eq!(path, "/data");
            assert_eq!(tab, Tab::Vue);
        },
        other => panic!("unexpected effect {:?}", other),
    }
}

#[test]
fn go_up_from_a_top_level_directory_opens_the_root() {
    let mut app = FrostScanApp::new(Vec::new());
    app.directory_listed("/data".to_string(), Tab::Explorer, Ok(Vec::new()));
    match app.update(Message::GoUp) {
        Effect::ListDirectory { path, .. } => assert_eq!(path, "/"),
        other => panic!("unexpected effect {:?}", other),
    }
}

#[test]
fn draining_stops_when_nothing_waits_or_the_share_is_used() {
    let mut app = FrostScanApp::new(Vec::new());
    let listing = vec![
        entry("/d/a", FileEntryKind::Directory, 0),
        entry("/d/b", FileEntryKind::Directory, 0),
        entry("/d/c", FileEntryKind::Directory, 0),
    ];
    app.directory_listed("/d".to_string(), Tab::Explorer, Ok(listing));
    let failed = |p: &str| {
        Received::Event(DirSizeEvent::Failed(DirSizeError {
            path: p.to_string(),
            kind: ScanFailureKind::ReadDir,
            message: String::new(),
        }))
    };
    assert_eq!(app.on_received(failed("/d/a"), 0), Some(1));
    assert_eq!(app.scan_progress_done, 1);
    assert_eq!(app.on_received(Received::Empty, 1), None);
    assert_eq!(app.scan_progress_done, 1);
    assert_eq!(app.on_received(failed("/d/b"), MAX_UPDATES_PER_TICK - 1), None);
    assert!(app.scan_running);
    assert_eq!(app.scan_progress_done, 2);
    assert_eq!(app.on_received(failed("/d/c"), 0), None);
    assert!(!app.scan_running);
    assert_eq!(app.directory_cache.len(), 1);
}

#[test]
fn a_disconnected_scan_finishes_as_it_stands() {
    let mut app = FrostScanApp::new(Vec::new());
    app.directory_listed(
        "/d".to_string(),
        Tab::Explorer,
        Ok(vec![entry("/d/a", FileEntryKind::Directory, 0)]),
    );
    assert!(app.scan_running);
    assert_eq!(app.on_received(Received::Disconnected, 0), None);
    assert!(!app.scan_running);
    assert_eq!(app.scan_progress_total, 0);
    assert_eq!(app.directory_cache.len(), 1);
}

#[test]
fn a_symlink_in_the_listing_raises_a_skipped_warning() {
    let mut app = FrostScanApp::new(Vec::new());
    let listing = vec![
        entry("/r/target", FileEntryKind::Directory, 0),
        entry("/r/linked-dir", FileEntryKind::Symlink, 0),
    ];
    let to_scan = app.directory_listed("/r".to_string(), Tab::Explorer, Ok(listing));
    assert_eq!(to_scan.len(), 2);
    assert_eq!(to_scan[0].path, "/r/linked-dir");
    assert_eq!(app.scan_progress_total, 2);
    let event = frostscan::services::scanner::link_event(&to_scan[0]).unwrap();
    assert!(app.scan_event_fits(&event));
    assert_eq!(app.on_received(Received::Event(event), 0), Some(1));
    assert!(app.entries[1].size_partial);
    assert!(!app.entries[1].size_pending);
    let notice = app.notice.unwrap();
    assert_eq!(notice.text_key, TextKey::PartialScanWarningSymlinkSkipped);
    assert_eq!(notice.level, NoticeLevel::Warning);
    assert_eq!(app.scan_tree.as_ref().unwrap().children.len(), 1);
}

#[test]
fn the_listed_tree_is_the_tree_of_the_listing() {
    let listing = vec![
        entry("/data/docs", FileEntryKind::Directory, 0),
        entry("/data/a.txt", FileEntryKind::File, 4),
        entry("/data/l", FileEntryKind::Symlink, 0),
    ];
    let fresh = ScanNode::from_directory_entries("/data".to_string(), &listing);
    let mut app = FrostScanApp::new(Vec::new());
    app.directory_listed("/data".to_string(), Tab::Explorer, Ok(listing));
    let tree = app.scan_tree.as_ref().unwrap();
    assert_eq!((tree.path.as_str(), tree.name.as_str()), (fresh.path.as_str(), fresh.name.as_str()));
    assert_eq!(tree.name, "data");
    assert_eq!((tree.size, tree.partial, tree.pending), (fresh.size, fresh.partial, fresh.pending));
    assert_eq!(tree.children.len(), 2);
    for (a, b) in tree.children.iter().zip(fresh.children.iter()) {
        assert_eq!((a.path.as_str(), a.size, a.pending), (b.path.as_str(), b.size, b.pending));
    }
}
