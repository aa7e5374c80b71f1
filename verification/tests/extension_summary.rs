use frostscan::model::extension_summary::{aggregate_extensions, summarize_extensions};
use frostscan::model::file_entry::{FileEntry, FileEntryKind};

fn file(path: &str, size: u64) -> FileEntry {
    FileEntry {
        path: path.to_string(),
        name: path.to_string(),
        kind: FileEntryKind::File,
        size,
        size_pending: false,
        size_partial: false,
    }
}

fn dir(path: &str, size: u64) -> FileEntry {
    FileEntry { kind: FileEntryKind::Directory, ..file(path, size) }
}

#[test]
fn aggregates_sizes_and_counts_case_insensitively() {
    let summaries = aggregate_extensions(&vec![file("main.RS", 10), file("lib.rs", 5), file("notes.md", 7)]).unwrap();

    assert_eq!(summaries[0].extension.as_deref(), Some("rs"));
    assert_eq!(summaries[0].total_size, 15);
    assert_eq!(summaries[0].file_count, 2);
    assert_eq!(summaries[1].extension.as_deref(), Some("md"));
}

#[test]
fn groups_files_without_extension() {
    let summaries = aggregate_extensions(&vec![file("license", 3), file("readme", 7)]).unwrap();

    assert_eq!(summaries.len(), 1);
    assert_eq!(summaries[0].extension, None);
    assert_eq!(summaries[0].total_size, 10);
    assert_eq!(summaries[0].file_count, 2);
}

#[test]
fn leaves_out_directories_and_links() {
    let mut link = file("link.rs", 99);
    link.kind = FileEntryKind::Symlink;
    let summaries = aggregate_extensions(&vec![dir("src.rs", 500), link, file("a.txt", 1)]).unwrap();
    assert_eq!(summaries.len(), 1);
    assert_eq!(summaries[0].extension.as_deref(), Some("txt"));
    assert_eq!(summaries[0].total_size, 1);
}

#[test]
fn ties_are_broken_by_count_then_extension() {
    let summaries = aggregate_extensions(&vec![
        file("b.zip", 10),
        file("a.tar", 5),
        file("c.tar", 5),
        file("x", 10),
        file("y.gz", 10),
    ]).unwrap();
    let order: Vec<Option<&str>> = summaries.iter().map(|s| s.extension.as_deref()).collect();
    // Equal totals of 10: two files first, then no extension, then by name.
    assert_eq!(order, vec![Some("tar"), None, Some("gz"), Some("zip")]);
    assert_eq!(summaries[0].file_count, 2);
}

#[test]
fn overview_totals_add_up_to_all_files() {
    let entries = vec![file("a.rs", 3), file("b.RS", 4), file("c.md", 5), file("d", 6), dir("e", 100)];
    let summaries = aggregate_extensions(&entries).unwrap();
    let total: u64 = summaries.iter().map(|s| s.total_size).sum();
    let count: usize = summaries.iter().map(|s| s.file_count).sum();
    assert_eq!(total, 18);
    assert_eq!(count, 4);
}

#[test]
fn summarize_uses_given_extensions() {
    let entries = vec![file("one", 2), file("two", 3)];
    let exts = vec![Some("TXT".to_string()), Some("txt".to_string())];
    let summaries = summarize_extensions(&entries, &exts);
    assert_eq!(summaries.len(), 1);
    assert_eq!(summaries[0].extension.as_deref(), Some("txt"));
    assert_eq!(summaries[0].total_size, 5);
}

#[test]
fn empty_listing_has_no_summary() {
    assert!(aggregate_extensions(&Vec::new()).unwrap().is_empty());
}

#[test]
fn extension_comes_from_the_last_dot_of_the_file_name() {
    let summaries = aggregate_extensions(&vec![
        file("/home/u/.bashrc", 4),
        file("/home/u.d/archive.tar.GZ", 8),
        file("/home/u/notes.", 1),
    ]).unwrap();
    assert_eq!(summaries.len(), 3);
    assert_eq!(summaries[0].extension.as_deref(), Some("gz"));
    assert_eq!(summaries[0].total_size, 8);
    assert_eq!(summaries[1].extension, None);
    assert_eq!(summaries[1].total_size, 4);
    assert_eq!(summaries[2].extension.as_deref(), Some(""));
}

#[test]
fn only_one_extension_overflowing_is_refused() {
    let apart = aggregate_extensions(&vec![file("a.bin", u64::MAX), file("b.txt", 1)]).unwrap();
    assert_eq!(apart.len(), 2);
    assert_eq!(apart[0].total_size, u64::MAX);
    assert_eq!(aggregate_extensions(&vec![file("a.bin", u64::MAX), file("b.BIN", 1)]), None);
}
