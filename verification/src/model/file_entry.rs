//! One entry of a directory listing.

use vstd::prelude::*;

verus! {

/// What a directory entry is, as its metadata reports it (a symbolic link is
/// never followed).
#[derive(Debug, Clone, Copy, PartialEq, Eq, Structural)]
pub enum FileEntryKind {
    File,
    Directory,
    Symlink,
}

/// An entry of the directory being explored.
///
/// `size` is the file's length, or for a directory the total size of its
/// content once computed; `size_pending` is set while that computation runs
/// and `size_partial` when it could not read everything.
#[derive(Debug, Clone)]
pub struct FileEntry {
    pub path: String,
    pub name: String,
    pub kind: FileEntryKind,
    pub size: u64,
    pub size_pending: bool,
    pub size_partial: bool,
}

impl FileEntry {
    /// An identical copy of this entry.
    pub fn duplicate(&self) -> (r: FileEntry)
        ensures
            r == *self,
    {
        FileEntry {
            path: self.path.clone(),
            name: self.name.clone(),
            kind: self.kind,
            size: self.size,
            size_pending: self.size_pending,
            size_partial: self.size_partial,
        }
    }
}

} // verus!

verus! {

/// An identical copy of a list of entries.
pub fn duplicate_entries(entries: &Vec<FileEntry>) -> (r: Vec<FileEntry>)
    ensures
        r@ == entries@,
{
    let mut r: Vec<FileEntry> = Vec::new();
    let mut i: usize = 0;
    while i < entries.len()
        invariant
            i <= entries.len(),
            r@ == entries@.subrange(0, i as int),
        decreases entries.len() - i,
    {
        r.push(entries[i].duplicate());
        i = i + 1;
        assert(r@ =~= entries@.subrange(0, i as int));
    }
    assert(entries@.subrange(0, i as int) =~= entries@);
    r
}

} // verus!
