//! Decisions of the directory scanner: what a listed entry is, which
//! members of a listing are reported on and in what order, how the
//! recursive size of a directory is accumulated, which issue is reported,
//! and what event a finished directory scan or a skipped link produces.

use vstd::prelude::*;
use crate::model::file_entry::{FileEntry, FileEntryKind};
use crate::model::scan_node::{ScanNode, ScanNodeKind, size_sum, is_directory_name_of};
use crate::text::{chars_of, extend_chars, string_from_chars};

verus! {

/// Why a scan could not see everything.
#[derive(Debug, Clone, Copy, PartialEq, Eq, Structural)]
pub enum ScanFailureKind {
    AccessDenied,
    ReadDir,
    SymlinkSkipped,
}

/// A failed scan: a directory that could not be read (with whether the
/// system denied access, and its description of the failure), or a scan
/// that was cancelled.
#[derive(Debug, Clone)]
pub enum ScanError {
    ReadDir { path: String, access_denied: bool, detail: String },
    Cancelled,
}

/// The issue kind that a scan error is reported as.
pub open spec fn failure_kind_of(e: ScanError) -> ScanFailureKind {
    match e {
        ScanError::ReadDir { access_denied, .. } => if access_denied {
            ScanFailureKind::AccessDenied
        } else {
            ScanFailureKind::ReadDir
        },
        ScanError::Cancelled => ScanFailureKind::ReadDir,
    }
}

/// The text of a scan error.
pub open spec fn error_text(e: ScanError) -> Seq<char> {
    match e {
        ScanError::ReadDir { path, detail, .. } => "failed to read directory "@ + path@ + ": "@
            + detail@,
        ScanError::Cancelled => "scan cancelled"@,
    }
}

impl ScanError {
    /// The issue kind of this error: access denied when the system refused
    /// access, otherwise a read failure (a cancelled scan included).
    pub fn failure_kind(&self) -> (k: ScanFailureKind)
        ensures
            k == failure_kind_of(*self),
    {
        match self {
            ScanError::ReadDir { access_denied, .. } => if *access_denied {
                ScanFailureKind::AccessDenied
            } else {
                ScanFailureKind::ReadDir
            },
            ScanError::Cancelled => ScanFailureKind::ReadDir,
        }
    }

    /// The text that describes this error.
    pub fn message(&self) -> (m: String)
        ensures
            m@ == error_text(*self),
    {
        match self {
            ScanError::ReadDir { path, detail, .. } => {
                let prefix = "failed to read directory ";
                let sep = ": ";
                proof {
                    reveal_strlit("failed to read directory ");
                    reveal_strlit(": ");
                }
                let mut cs = chars_of(prefix);
                extend_chars(&mut cs, &chars_of(path.as_str()));
                extend_chars(&mut cs, &chars_of(sep));
                extend_chars(&mut cs, &chars_of(detail.as_str()));
                string_from_chars(&cs)
            },
            ScanError::Cancelled => {
                let text = "scan cancelled";
                String::from_str(text)
            },
        }
    }
}

/// The issue kept when `next` is met with `current` already recorded: the
/// first issue met stays.
pub open spec fn merged_issue(current: Option<ScanFailureKind>, next: ScanFailureKind) -> Option<
    ScanFailureKind,
> {
    match current {
        Some(existing) => Some(existing),
        None => Some(next),
    }
}

/// Once an issue is recorded, later issues do not change it: a scan reports
/// the first issue it met.
pub proof fn lemma_first_issue_stays(first: ScanFailureKind, later: Seq<ScanFailureKind>)
    ensures
        later.fold_left(Some(first), |acc: Option<ScanFailureKind>, k: ScanFailureKind| merged_issue(acc, k))
            == Some(first),
    decreases later.len(),
{
    if later.len() > 0 {
        lemma_first_issue_stays(first, later.drop_last());
    }
}

/// Records the issue `next` after `current`.
pub fn merge_issue(current: Option<ScanFailureKind>, next: ScanFailureKind) -> (r: Option<
    ScanFailureKind,
>)
    ensures
        r == merged_issue(current, next),
{
    match (current, next) {
        (Some(ScanFailureKind::AccessDenied), _) => Some(ScanFailureKind::AccessDenied),
        (Some(ScanFailureKind::ReadDir), ScanFailureKind::SymlinkSkipped) => Some(
            ScanFailureKind::ReadDir,
        ),
        (Some(existing), _) => Some(existing),
        (None, kind) => Some(kind),
    }
}

/// The listing entry for a directory member, from what its own metadata
/// says (links are not followed): a link or directory has size 0 until
/// computed, and only a directory's size is pending.
pub open spec fn listed_entry(
    e: FileEntry,
    path: String,
    name: String,
    is_symlink: bool,
    is_dir: bool,
    len: u64,
) -> bool {
    let kind = if is_symlink {
        FileEntryKind::Symlink
    } else if is_dir {
        FileEntryKind::Directory
    } else {
        FileEntryKind::File
    };
    &&& e.path == path
    &&& e.name == name
    &&& e.kind == kind
    &&& e.size == (if kind == FileEntryKind::File { len } else { 0 })
    &&& e.size_pending == (kind == FileEntryKind::Directory)
    &&& !e.size_partial
}

/// Builds the listing entry of a directory member.
pub fn listed_file_entry(path: String, name: String, is_symlink: bool, is_dir: bool, len: u64) -> (e:
    FileEntry)
    ensures
        listed_entry(e, path, name, is_symlink, is_dir, len),
{
    let kind = if is_symlink {
        FileEntryKind::Symlink
    } else if is_dir {
        FileEntryKind::Directory
    } else {
        FileEntryKind::File
    };
    FileEntry {
        path,
        name,
        kind,
        size: if kind == FileEntryKind::Directory || kind == FileEntryKind::Symlink {
            0
        } else {
            len
        },
        size_pending: kind == FileEntryKind::Directory,
        size_partial: false,
    }
}


/// The recursive size of a directory: the total size of the files below it,
/// whether some of it could not be read and the first issue met, and its
/// tree.
#[derive(Debug)]
pub struct DirSizeSummary {
    pub size: u64,
    pub partial: bool,
    pub issue: Option<ScanFailureKind>,
    pub tree: ScanNode,
}

/// A summary is consistent: its tree is a finished directory whose size is
/// the summary's size and the total of its children, and it is partial
/// exactly when an issue was recorded.
pub open spec fn summary_wf(s: DirSizeSummary) -> bool {
    &&& s.tree.kind == ScanNodeKind::Directory
    &&& s.tree.size == s.size
    &&& s.size == size_sum(s.tree.children@)
    &&& s.tree.partial == s.partial
    &&& !s.tree.pending
    &&& s.partial == (s.issue is Some)
}

/// What the scan of one member of a directory found.
#[derive(Debug)]
pub enum EntryOutcome {
    /// The directory entry itself could not be read.
    Unreadable,
    /// The member's metadata could not be read.
    MetadataUnreadable { access_denied: bool },
    /// The member is a symbolic link, which is not followed.
    Symlink,
    /// The member is a file of `len` bytes.
    File { path: String, name: String, len: u64 },
    /// The member is a directory, scanned to this summary.
    Directory(DirSizeSummary),
    /// The member is a directory whose scan failed with an issue of `kind`.
    FailedDirectory { path: String, name: String, kind: ScanFailureKind },
    /// The member is something else (a device, a socket), which is ignored.
    Other,
}

/// The issue that an outcome reports, if any.
pub open spec fn outcome_issue(o: EntryOutcome) -> Option<ScanFailureKind> {
    match o {
        EntryOutcome::Unreadable => Some(ScanFailureKind::ReadDir),
        EntryOutcome::MetadataUnreadable { access_denied } => Some(
            if access_denied {
                ScanFailureKind::AccessDenied
            } else {
                ScanFailureKind::ReadDir
            },
        ),
        EntryOutcome::Symlink => Some(ScanFailureKind::SymlinkSkipped),
        EntryOutcome::Directory(s) => s.issue,
        EntryOutcome::FailedDirectory { kind, .. } => Some(kind),
        _ => None,
    }
}

/// A scan takes in what its subdirectories' scans found: recording a
/// subdirectory's summary leaves the scan partial exactly when it was
/// partial before or the summary is, and a partial summary leaves the scan
/// with an issue (its own first one, or else the summary's).
pub proof fn lemma_subdirectory_partial_reaches_parent(scan: DirScan, s: DirSizeSummary)
    requires
        scan.wf(),
        summary_wf(s),
    ensures
        (scan.partial || outcome_issue(EntryOutcome::Directory(s)) is Some) == (scan.partial
            || s.partial),
        s.partial ==> (match outcome_issue(EntryOutcome::Directory(s)) {
            Some(k) => merged_issue(scan.issue, k),
            None => scan.issue,
        }) == (match scan.issue {
            Some(first) => Some(first),
            None => s.issue,
        }),
        s.partial ==> (match outcome_issue(EntryOutcome::Directory(s)) {
            Some(k) => merged_issue(scan.issue, k),
            None => scan.issue,
        }) is Some,
{
}

/// The bytes that an outcome adds to the directory's total.
pub open spec fn outcome_size(o: EntryOutcome) -> nat {
    match o {
        EntryOutcome::File { len, .. } => len as nat,
        EntryOutcome::Directory(s) => s.size as nat,
        _ => 0,
    }
}

/// `c` is the tree node that the outcome `o` adds to the directory.
pub open spec fn outcome_child(o: EntryOutcome, c: ScanNode) -> bool {
    match o {
        EntryOutcome::File { path, name, len } => {
            &&& c.path == path
            &&& c.name == name
            &&& c.kind == ScanNodeKind::File
            &&& c.size == len
            &&& !c.partial
            &&& !c.pending
            &&& c.children@.len() == 0
        },
        EntryOutcome::Directory(s) => c == s.tree,
        EntryOutcome::FailedDirectory { path, name, .. } => {
            &&& c.path == path
            &&& c.name == name
            &&& c.kind == ScanNodeKind::Directory
            &&& c.size == 0
            &&& c.partial
            &&& !c.pending
            &&& c.children@.len() == 0
        },
        _ => false,
    }
}

/// The outcome adds a node to the tree.
pub open spec fn outcome_adds_child(o: EntryOutcome) -> bool {
    o is File || o is Directory || o is FailedDirectory
}

/// The scan of one directory, in progress.
#[derive(Debug)]
pub struct DirScan {
    pub total: u64,
    pub partial: bool,
    pub issue: Option<ScanFailureKind>,
    pub node: ScanNode,
}

impl DirScan {
    /// The scan so far is consistent: its total is that of the children met,
    /// and it is partial exactly when an issue was recorded.
    pub open spec fn wf(&self) -> bool {
        &&& self.node.kind == ScanNodeKind::Directory
        &&& self.total == size_sum(self.node.children@)
        &&& self.partial == (self.issue is Some)
    }

    /// Starts the scan of the directory at `path`.
    pub fn start(path: String) -> (scan: DirScan)
        ensures
            scan.wf(),
            scan.total == 0,
            !scan.partial,
            scan.issue is None,
            scan.node.path == path,
            is_directory_name_of(scan.node.name@, path@),
            scan.node.children@.len() == 0,
    {
        DirScan { total: 0, partial: false, issue: None, node: ScanNode::new_directory(path) }
    }

    /// Takes one member of the directory into account.
    pub fn record(&mut self, outcome: EntryOutcome)
        requires
            old(self).wf(),
            old(self).total + outcome_size(outcome) <= u64::MAX,
            outcome matches EntryOutcome::Directory(s) ==> summary_wf(s),
        ensures
            final(self).wf(),
            final(self).total == old(self).total + outcome_size(outcome),
            final(self).partial == (old(self).partial || outcome_issue(outcome) is Some),
            final(self).issue == (match outcome_issue(outcome) {
                Some(k) => merged_issue(old(self).issue, k),
                None => old(self).issue,
            }),
            final(self).node.path == old(self).node.path,
            final(self).node.name == old(self).node.name,
            outcome_adds_child(outcome) ==> {
                &&& final(self).node.children@.len() == old(self).node.children@.len() + 1
                &&& final(self).node.children@.drop_last() == old(self).node.children@
                &&& outcome_child(outcome, final(self).node.children@.last())
            },
            !outcome_adds_child(outcome) ==> final(self).node.children@ == old(
                self,
            ).node.children@,
            outcome matches EntryOutcome::Directory(s) ==> final(self).partial == (old(self).partial
                || s.partial),
            outcome matches EntryOutcome::Directory(s) ==> (s.partial ==> final(self).issue is Some),
    {
        let ghost before = self.node.children@;
        match outcome {
            EntryOutcome::Unreadable => {
                self.partial = true;
                self.issue = merge_issue(self.issue, ScanFailureKind::ReadDir);
            },
            EntryOutcome::MetadataUnreadable { access_denied } => {
                self.partial = true;
                self.issue = merge_issue(
                    self.issue,
                    if access_denied {
                        ScanFailureKind::AccessDenied
                    } else {
                        ScanFailureKind::ReadDir
                    },
                );
            },
            EntryOutcome::Symlink => {
                self.partial = true;
                self.issue = merge_issue(self.issue, ScanFailureKind::SymlinkSkipped);
            },
            EntryOutcome::File { path, name, len } => {
                self.total = self.total + len;
                self.node.children.push(ScanNode::new_file(path, name, len));
                assert(self.node.children@.drop_last() =~= before);
            },
            EntryOutcome::Directory(summary) => {
                self.total = self.total + summary.size;
                self.partial = self.partial || summary.partial;
                match summary.issue {
                    Some(summary_issue) => {
                        self.issue = merge_issue(self.issue, summary_issue);
                    },
                    None => {},
                }
                self.node.children.push(summary.tree);
                assert(self.node.children@.drop_last() =~= before);
            },
            EntryOutcome::FailedDirectory { path, name, kind } => {
                let mut failed_child = ScanNode::new_directory_with_name(path, name);
                failed_child.partial = true;
                self.partial = true;
                self.issue = merge_issue(self.issue, kind);
                self.node.children.push(failed_child);
                assert(self.node.children@.drop_last() =~= before);
            },
            EntryOutcome::Other => {},
        }
    }

    /// Ends the scan: the directory's tree takes the total and the partial
    /// flag, and is no longer pending.
    pub fn finish(self) -> (s: DirSizeSummary)
        requires
            self.wf(),
        ensures
            summary_wf(s),
            s.size == self.total,
            s.partial == self.partial,
            s.issue == self.issue,
            s.tree.path == self.node.path,
            s.tree.name == self.node.name,
            s.tree.children == self.node.children,
    {
        let mut node = self.node;
        node.size = self.total;
        node.partial = self.partial;
        node.pending = false;
        DirSizeSummary { size: self.total, partial: self.partial, issue: self.issue, tree: node }
    }
}

/// The successful size computation of a directory of the listing.
#[derive(Debug, Clone)]
pub struct DirSizeResult {
    pub path: String,
    pub size: u64,
    pub partial: bool,
    pub issue: Option<ScanFailureKind>,
    pub tree: ScanNode,
}

/// The failed size computation of a directory of the listing.
#[derive(Debug, Clone)]
pub struct DirSizeError {
    pub path: String,
    pub kind: ScanFailureKind,
    pub message: String,
}

/// What the background scanner reports for a directory of the listing.
#[derive(Debug, Clone)]
pub enum DirSizeEvent {
    Done(DirSizeResult),
    Failed(DirSizeError),
}

/// The event reported for the directory at `path` once its scan ended with
/// `outcome`: its result, its error, or nothing when the scan was cancelled.
pub fn directory_size_event(path: String, outcome: Result<DirSizeSummary, ScanError>) -> (ev: Option<
    DirSizeEvent,
>)
    ensures
        match outcome {
            Ok(s) => ev matches Some(DirSizeEvent::Done(r)) && r.path == path && r.size == s.size
                && r.partial == s.partial && r.issue == s.issue && r.tree == s.tree,
            Err(ScanError::Cancelled) => ev is None,
            Err(e) => ev matches Some(DirSizeEvent::Failed(f)) && f.path == path && f.kind
                == failure_kind_of(e) && f.message@ == error_text(e),
        },
{
    match outcome {
        Ok(summary) => Some(
            DirSizeEvent::Done(
                DirSizeResult {
                    path,
                    size: summary.size,
                    partial: summary.partial,
                    issue: summary.issue,
                    tree: summary.tree,
                },
            ),
        ),
        Err(ScanError::Cancelled) => None,
        Err(err) => {
            let kind = err.failure_kind();
            let message = err.message();
            Some(DirSizeEvent::Failed(DirSizeError { path, kind, message }))
        },
    }
}

/// The members of `es` of the kind `kind`, in order.
pub open spec fn members_of_kind(es: Seq<FileEntry>, kind: FileEntryKind) -> Seq<FileEntry>
    decreases es.len(),
{
    if es.len() == 0 {
        Seq::empty()
    } else if es.last().kind == kind {
        members_of_kind(es.drop_last(), kind).push(es.last())
    } else {
        members_of_kind(es.drop_last(), kind)
    }
}

/// The members of a listing that the background scan reports on, in the
/// order it reports them: first the symbolic links, which are not followed
/// and are reported at once as skipped, then the directories.
pub open spec fn scan_plan_of(es: Seq<FileEntry>) -> Seq<FileEntry> {
    members_of_kind(es, FileEntryKind::Symlink) + members_of_kind(es, FileEntryKind::Directory)
}

/// Appends to `out` copies of the members of `entries` of the kind `kind`.
fn push_members(entries: &Vec<FileEntry>, kind: FileEntryKind, out: &mut Vec<FileEntry>)
    ensures
        final(out)@ == old(out)@ + members_of_kind(entries@, kind),
{
    let ghost es = entries@;
    let ghost start = out@;
    let mut i: usize = 0;
    assert(es.subrange(0, 0) =~= Seq::<FileEntry>::empty());
    assert(start + members_of_kind(es.subrange(0, 0), kind) =~= start);
    while i < entries.len()
        invariant
            es == entries@,
            i <= entries.len(),
            out@ == start + members_of_kind(es.subrange(0, i as int), kind),
        decreases entries.len() - i,
    {
        assert(es.subrange(0, i + 1).drop_last() =~= es.subrange(0, i as int));
        if entries[i].kind == kind {
            out.push(entries[i].duplicate());
            assert(out@ =~= start + members_of_kind(es.subrange(0, i + 1), kind));
        }
        i = i + 1;
    }
    assert(es.subrange(0, i as int) =~= es);
}

/// The members of a listing that the background scan reports on, in the
/// order of `scan_plan_of`.
pub fn scan_plan(entries: &Vec<FileEntry>) -> (plan: Vec<FileEntry>)
    ensures
        plan@ == scan_plan_of(entries@),
{
    let mut plan: Vec<FileEntry> = Vec::new();
    push_members(entries, FileEntryKind::Symlink, &mut plan);
    push_members(entries, FileEntryKind::Directory, &mut plan);
    assert(plan@ =~= scan_plan_of(entries@));
    plan
}

/// The report on a member of the listing that is a symbolic link: it is not
/// followed, so its result is empty and partial, with the issue
/// `SymlinkSkipped`. Other members get no report here.
pub fn link_event(entry: &FileEntry) -> (ev: Option<DirSizeEvent>)
    ensures
        entry.kind == FileEntryKind::Symlink <==> ev is Some,
        ev matches Some(e) ==> (e matches DirSizeEvent::Done(r) && r.path == entry.path && r.size
            == 0 && r.partial && r.issue == Some(ScanFailureKind::SymlinkSkipped) && r.tree.path
            == entry.path && r.tree.name == entry.name && r.tree.kind == ScanNodeKind::File
            && r.tree.size == 0 && r.tree.partial && !r.tree.pending && r.tree.children@.len() == 0),
{
    if entry.kind != FileEntryKind::Symlink {
        return None;
    }
    let tree = ScanNode {
        path: entry.path.clone(),
        name: entry.name.clone(),
        kind: ScanNodeKind::File,
        size: 0,
        partial: true,
        pending: false,
        children: Vec::new(),
    };
    Some(
        DirSizeEvent::Done(
            DirSizeResult {
                path: entry.path.clone(),
                size: 0,
                partial: true,
                issue: Some(ScanFailureKind::SymlinkSkipped),
                tree,
            },
        ),
    )
}

} // verus!
