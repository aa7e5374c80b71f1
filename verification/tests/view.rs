use frostscan::app::state::FrostScanApp;
use frostscan::app::state::SortBy;
use frostscan::app::view::{sort_entries, sort_group};
use frostscan::model::file_entry::{FileEntry, FileEntryKind};

fn entry(name: &str, kind: FileEntryKind, size: u64) -> FileEntry {
    FileEntry {
        path: name.to_string(),
        name: name.to_string(),
        kind,
        size,
        size_pending: false,
        size_partial: false,
    }
}

fn app_with_entries(entries: Vec<FileEntry>, sort_by: SortBy, sort_desc: bool) -> FrostScanApp {
    let mut app = FrostScanApp::new(Vec::new());
    app.entries = entries;
    app.sort_by = sort_by;
    app.sort_desc = sort_desc;
    app
}

#[test]
fn sorts_by_name_with_directories_first() {
    let app = app_with_entries(
        vec![
            entry("zeta.txt", FileEntryKind::File, 10),
            entry("beta", FileEntryKind::Directory, 0),
            entry("alpha", FileEntryKind::Directory, 0),
            entry("gamma.txt", FileEntryKind::File, 5),
        ],
        SortBy::Name,
        false,
    );

    let names: Vec<_> = app.sorted_entries().into_iter().map(|entry| entry.name).collect();
    assert_eq!(names, vec!["alpha", "beta", "gamma.txt", "zeta.txt"]);
}

#[test]
fn sorts_by_size_desc_with_directories_first() {
    let app = app_with_entries(
        vec![
            entry("small-dir", FileEntryKind::Directory, 10),
            entry("large-file.bin", FileEntryKind::File, 100),
            entry("large-dir", FileEntryKind::Directory, 90),
            entry("small-file.txt", FileEntryKind::File, 5),
        ],
        SortBy::Size,
        true,
    );

    let names: Vec<_> = app.sorted_entries().into_iter().map(|entry| entry.name).collect();
    assert_eq!(names, vec!["large-dir", "small-dir", "large-file.bin", "small-file.txt"]);
}

#[test]
fn sorts_by_name_desc_without_mixing_files_before_directories() {
    let app = app_with_entries(
        vec![
            entry("alpha", FileEntryKind::Directory, 0),
            entry("beta", FileEntryKind::Directory, 0),
            entry("a.txt", FileEntryKind::File, 1),
            entry("z.txt", FileEntryKind::File, 2),
        ],
        SortBy::Name,
        true,
    );

    let names: Vec<_> = app.sorted_entries().into_iter().map(|entry| entry.name).collect();
    assert_eq!(names, vec!["beta", "alpha", "z.txt", "a.txt"]);
}

#[test]
fn sorts_symlinks_after_directories_and_files() {
    let app = app_with_entries(
        vec![
            entry("docs-link", FileEntryKind::Symlink, 0),
            entry("src", FileEntryKind::Directory, 0),
            entry("main.rs", FileEntryKind::File, 20),
        ],
        SortBy::Name,
        false,
    );

    let names: Vec<_> = app.sorted_entries().into_iter().map(|entry| entry.name).collect();
    assert_eq!(names, vec!["src", "main.rs", "docs-link"]);
}

#[test]
fn name_order_ignores_case() {
    let sorted = sort_entries(
        &vec![
            entry("Banana", FileEntryKind::File, 1),
            entry("apple", FileEntryKind::File, 2),
            entry("Cherry", FileEntryKind::File, 3),
        ],
        SortBy::Name,
        false,
    );
    let names: Vec<_> = sorted.into_iter().map(|e| e.name).collect();
    assert_eq!(names, vec!["apple", "Banana", "Cherry"]);
}

#[test]
fn equal_keys_keep_their_order_ascending_and_reverse_descending() {
    let entries = vec![
        entry("first", FileEntryKind::File, 7),
        entry("second", FileEntryKind::File, 7),
        entry("third", FileEntryKind::File, 7),
    ];
    let up: Vec<_> = sort_entries(&entries, SortBy::Size, false).into_iter().map(|e| e.name).collect();
    assert_eq!(up, vec!["first", "second", "third"]);
    let down: Vec<_> = sort_entries(&entries, SortBy::Size, true).into_iter().map(|e| e.name).collect();
    assert_eq!(down, vec!["third", "second", "first"]);
}

#[test]
fn groups_rank_directories_files_links() {
    assert_eq!(sort_group(FileEntryKind::Directory), 0);
    assert_eq!(sort_group(FileEntryKind::File), 1);
    assert_eq!(sort_group(FileEntryKind::Symlink), 2);
}
