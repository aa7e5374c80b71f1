//! How the application reacts: opening directories (from the cache or by
//! listing them), following the background scan, and the user's requests.
//!
//! The outside work (listing a directory, running the scan, reading its
//! events) is done by the caller, which performs the returned `Effect` and
//! hands the outcome back.

use vstd::prelude::*;
use crate::app::message::Message;
use crate::app::notice::{AppNotice, NoticeLevel, NoticeSource, open_error_text, scan_issue_text};
use crate::app::state::{
    CachedDirectory, FrostScanApp, SortBy, Tab, tree_fits, cleared_notice, pushed_notice, cache_slot,
    cache_has, lemma_same_tree_fits,
};
use crate::model::file_entry::{FileEntry, FileEntryKind, duplicate_entries};
use crate::model::scan_node::{
    lemma_same_tree_transitive,
    ScanNode, ScanNodeKind, size_sum, same_tree, refreshed, nodes_of_entries, entries_size,
    child_update_fits, child_failure_fits, child_updated, child_failed, is_first_with_path,
    lemma_size_sum_update, is_directory_name_of,
};
use crate::services::scanner::{DirSizeEvent, ScanError, ScanFailureKind, scan_plan, scan_plan_of};
use crate::paths;
use crate::paths::{has_final_component, parent_is_text, parent_text};

verus! {

/// At most this many scan events are taken in per tick.
pub const MAX_UPDATES_PER_TICK: usize = 20;

/// The outside work the caller must do after a state change.
#[derive(Debug)]
pub enum Effect {
    /// No outside work.
    Nothing,
    /// Stop the running background scan, if any, and forget its events.
    CancelScan,
    /// Stop the running background scan, if any, list the directory at
    /// `path`, and hand the listing to `directory_listed`.
    ListDirectory { path: String, tab: Tab },
    /// Read what the background scan has sent, handing each reading to
    /// `on_received` until it answers `None`.
    DrainScanEvents,
}

/// What reading the background scan's channel gave.
#[derive(Debug)]
pub enum Received {
    /// An event of the scan.
    Event(DirSizeEvent),
    /// Nothing is waiting now.
    Empty,
    /// The scan has ended and sends nothing more.
    Disconnected,
}

/// The state with no scan running and its progress reset.
pub open spec fn stopped(s: FrostScanApp) -> FrostScanApp {
    FrostScanApp { scan_running: false, scan_progress_done: 0, scan_progress_total: 0, ..s }
}

/// The notice for a directory that could not be opened.
pub open spec fn open_error_notice(e: ScanError) -> AppNotice {
    AppNotice {
        level: NoticeLevel::Error,
        text_key: open_error_text(e),
        source: NoticeSource::Navigation,
        sticky: true,
    }
}

/// The notice for a scan that met an issue.
pub open spec fn scan_issue_notice(kind: ScanFailureKind) -> AppNotice {
    AppNotice {
        level: NoticeLevel::Warning,
        text_key: scan_issue_text(kind),
        source: NoticeSource::Scan,
        sticky: false,
    }
}

/// `new` caches `entries` and a copy of `tree` at `path`, and keeps what
/// `old` cached at every other path.
pub open spec fn cache_stored(
    old: Seq<(String, CachedDirectory)>,
    new: Seq<(String, CachedDirectory)>,
    path: Seq<char>,
    entries: Seq<FileEntry>,
    tree: ScanNode,
) -> bool {
    &&& exists|k: int|
        cache_slot(new, path, k) && new[k].1.entries@ == entries && same_tree(new[k].1.tree, tree)
    &&& forall|p: Seq<char>| p != path ==> cache_has(new, p) == cache_has(old, p)
    &&& forall|p: Seq<char>, j: int, k: int|
        p != path && cache_slot(old, p, j) && cache_slot(new, p, k) ==> new[k] == old[j]
}

/// `new` is `old` once its scan has finished: no scan runs, and the current
/// directory, if it has a tree, is cached.
pub open spec fn finished_scan(old: FrostScanApp, new: FrostScanApp) -> bool {
    &&& new == FrostScanApp { directory_cache: new.directory_cache, ..stopped(old) }
    &&& old.current_path matches Some(p) ==> (old.scan_tree matches Some(t) ==> cache_stored(
        old.directory_cache@,
        new.directory_cache@,
        p@,
        old.entries@,
        t,
    ))
    &&& !(old.current_path is Some && old.scan_tree is Some) ==> new.directory_cache
        == old.directory_cache
}

/// `new` and `effect` are what opening the directory at `path` in `tab`
/// gives from `old`: a cached directory is restored at once (unless a
/// refresh is forced); otherwise the running scan stops and the directory
/// is to be listed.
pub open spec fn opened_directory(
    old: FrostScanApp,
    new: FrostScanApp,
    path: String,
    tab: Tab,
    force_refresh: bool,
    effect: Effect,
) -> bool {
    if !force_refresh && cache_has(old.directory_cache@, path@) {
        &&& effect is CancelScan
        &&& exists|k: int|
            cache_slot(old.directory_cache@, path@, k) && new.entries@ == old.directory_cache@[k].1.entries@
                && (new.scan_tree matches Some(t) && same_tree(t, old.directory_cache@[k].1.tree))
        &&& new == FrostScanApp {
            entries: new.entries,
            scan_tree: new.scan_tree,
            current_path: Some(path),
            active_tab: tab,
            notice: cleared_notice(old.notice),
            ..stopped(old)
        }
    } else {
        &&& effect == Effect::ListDirectory { path, tab }
        &&& new == stopped(old)
    }
}

/// Entry `k` is the first of `es` with the path `path`.
pub open spec fn is_first_entry(es: Seq<FileEntry>, path: Seq<char>, k: int) -> bool {
    &&& 0 <= k < es.len()
    &&& es[k].path@ == path
    &&& forall|j: int| 0 <= j < k ==> (#[trigger] es[j]).path@ != path
}

/// Some entry of `es` has the path `path`.
pub open spec fn has_entry(es: Seq<FileEntry>, path: Seq<char>) -> bool {
    exists|k: int| 0 <= k < es.len() && (#[trigger] es[k]).path@ == path
}

/// `e` with its computed size.
pub open spec fn sized(e: FileEntry, size: u64, partial: bool) -> FileEntry {
    FileEntry { size, size_pending: false, size_partial: partial, ..e }
}

/// `new` is `old` with the first entry of path `path` given its computed
/// size, or `old` itself when there is none.
pub open spec fn entries_sized(
    old: Seq<FileEntry>,
    new: Seq<FileEntry>,
    path: Seq<char>,
    size: u64,
    partial: bool,
) -> bool {
    &&& has_entry(old, path) ==> exists|k: int|
        is_first_entry(old, path, k) && new == old.update(k, sized(old[k], size, partial))
    &&& !has_entry(old, path) ==> new == old
}

/// The event can be applied without the tree's total overflowing.
pub open spec fn event_fits(s: FrostScanApp, event: DirSizeEvent) -> bool {
    match event {
        DirSizeEvent::Done(r) => match s.scan_tree {
            Some(t) => child_update_fits(t, r.path@, r.tree),
            None => true,
        },
        DirSizeEvent::Failed(_) => true,
    }
}

/// `new` is `old` after the scan event `event`, before any finishing: the
/// entry and the tree take the directory's size (or its failure), a partial
/// scan raises a warning, and one more directory is done.
pub open spec fn applied_event(old: FrostScanApp, new: FrostScanApp, event: DirSizeEvent) -> bool {
    &&& new == FrostScanApp {
        entries: new.entries,
        scan_tree: new.scan_tree,
        notice: new.notice,
        scan_progress_done: (old.scan_progress_done + 1) as usize,
        ..old
    }
    &&& match event {
        DirSizeEvent::Done(r) => {
            &&& entries_sized(old.entries@, new.entries@, r.path@, r.size, r.partial)
            &&& match old.scan_tree {
                Some(t) => new.scan_tree matches Some(t2) && child_updated(t, t2, r.path@, r.tree),
                None => new.scan_tree is None,
            }
            &&& new.notice == if r.partial {
                pushed_notice(
                    old.notice,
                    scan_issue_notice(
                        match r.issue {
                            Some(k) => k,
                            None => ScanFailureKind::ReadDir,
                        },
                    ),
                )
            } else {
                old.notice
            }
        },
        DirSizeEvent::Failed(f) => {
            &&& entries_sized(old.entries@, new.entries@, f.path@, 0, true)
            &&& match old.scan_tree {
                Some(t) => new.scan_tree matches Some(t2) && child_failed(t, t2, f.path@),
                None => new.scan_tree is None,
            }
            &&& new.notice == pushed_notice(old.notice, scan_issue_notice(f.kind))
        },
    }
}

/// `p` is a leading part of `q`, and shorter.
pub open spec fn is_strict_prefix(p: Seq<char>, q: Seq<char>) -> bool {
    p.len() < q.len() && p == q.subrange(0, p.len() as int)
}

/// The entry is a directory of the listing.
pub open spec fn lists_directory(es: Seq<FileEntry>, path: Seq<char>) -> bool {
    exists|k: int|
        0 <= k < es.len() && (#[trigger] es[k]).path@ == path && es[k].kind
            == FileEntryKind::Directory
}

/// A directory whose scan has finished is restored from the cache when it
/// is opened again without a refresh: the same listing and the same tree.
pub proof fn lemma_finished_directory_reopens_from_cache(
    s0: FrostScanApp,
    s1: FrostScanApp,
    s2: FrostScanApp,
    path: String,
    tab: Tab,
    effect: Effect,
)
    requires
        s0.wf_data(),
        s0.current_path == Some(path),
        s0.scan_tree is Some,
        finished_scan(s0, s1),
        s1.wf(),
        opened_directory(s1, s2, path, tab, false, effect),
    ensures
        effect is CancelScan,
        s2.entries@ == s0.entries@,
        s2.scan_tree matches Some(t) && same_tree(t, s0.scan_tree->0),
        s2.current_path == Some(path),
        s2.active_tab == tab,
{
    let t0 = s0.scan_tree->0;
    let k = choose|k: int|
        cache_slot(s1.directory_cache@, path@, k) && s1.directory_cache@[k].1.entries@ == s0.entries@
            && same_tree(s1.directory_cache@[k].1.tree, t0);
    assert(cache_has(s1.directory_cache@, path@));
    let j = choose|j: int|
        cache_slot(s1.directory_cache@, path@, j) && s2.entries@ == s1.directory_cache@[j].1.entries@
            && (s2.scan_tree matches Some(t) && same_tree(t, s1.directory_cache@[j].1.tree));
    assert(j == k) by {
        if j != k {
            if j < k {
                assert(s1.directory_cache@[j].0@ != s1.directory_cache@[k].0@);
            } else {
                assert(s1.directory_cache@[k].0@ != s1.directory_cache@[j].0@);
            }
        }
    }
    lemma_same_tree_transitive(s2.scan_tree->0, s1.directory_cache@[k].1.tree, t0);
}

proof fn lemma_updated_fits(t: ScanNode, t2: ScanNode, path: Seq<char>, child: ScanNode)
    requires
        tree_fits(t),
        child_update_fits(t, path, child),
        child_updated(t, t2, path, child),
    ensures
        tree_fits(t2),
{
    if crate::model::scan_node::has_path(t.children@, path) {
        let k = choose|k: int|
            is_first_with_path(t.children@, path, k) && t2.children@ == t.children@.update(k, child)
                && t2 == refreshed(crate::model::scan_node::with_children(t, t2.children));
        assert(size_sum(t.children@.update(k, child)) <= u64::MAX);
    }
}

proof fn lemma_failed_fits(t: ScanNode, t2: ScanNode, path: Seq<char>)
    requires
        tree_fits(t),
        child_failed(t, t2, path),
    ensures
        tree_fits(t2),
{
    if crate::model::scan_node::has_path(t.children@, path) {
        let k = choose|k: int|
            is_first_with_path(t.children@, path, k) && t2.children@.len() == t.children@.len() && (
            forall|j: int|
                0 <= j < t.children@.len() && j != k ==> t2.children@[j] == t.children@[j])
                && crate::model::scan_node::is_failed_version(t2.children@[k], t.children@[k]) && t2
                == refreshed(crate::model::scan_node::with_children(t, t2.children));
        assert(t2.children@ =~= t.children@.update(k, t2.children@[k]));
        lemma_size_sum_update(t.children@, k, t2.children@[k]);
    }
}

impl FrostScanApp {
    fn cancel_directory_scan(&mut self)
        ensures
            *final(self) == stopped(*old(self)),
    {
        self.scan_running = false;
        self.scan_progress_done = 0;
        self.scan_progress_total = 0;
    }

    fn store_current_directory_in_cache(&mut self)
        requires
            old(self).wf_data(),
        ensures
            final(self).wf_data(),
            *final(self) == (FrostScanApp { directory_cache: final(self).directory_cache, ..*old(self) }),
            old(self).current_path matches Some(p) ==> (old(self).scan_tree matches Some(t)
                ==> cache_stored(
                old(self).directory_cache@,
                final(self).directory_cache@,
                p@,
                old(self).entries@,
                t,
            )),
            !(old(self).current_path is Some && old(self).scan_tree is Some)
                ==> final(self).directory_cache == old(self).directory_cache,
    {
        match (&self.current_path, &self.scan_tree) {
            (Some(path), Some(tree)) => {
                let path = path.clone();
                let tree = tree.duplicate();
                proof {
                    lemma_same_tree_fits(tree, self.scan_tree->0);
                }
                let entries = duplicate_entries(&self.entries);
                self.cache_insert(path, CachedDirectory { entries, tree });
            },
            _ => {},
        }
    }

    /// Ends the running scan: no scan runs any more, and the current
    /// directory is cached.
    pub fn finish_directory_scan(&mut self)
        requires
            old(self).wf_data(),
        ensures
            final(self).wf(),
            finished_scan(*old(self), *final(self)),
    {
        self.scan_running = false;
        self.scan_progress_done = 0;
        self.scan_progress_total = 0;
        self.store_current_directory_in_cache();
    }

    /// Opens the directory at `path` in `destination_tab`: from the cache
    /// when it holds it (unless `force_refresh`), else by asking for a
    /// listing. Any running scan stops.
    pub fn open_directory(&mut self, path: String, destination_tab: Tab, force_refresh: bool) -> (effect:
        Effect)
        requires
            old(self).wf(),
        ensures
            final(self).wf(),
            opened_directory(*old(self), *final(self), path, destination_tab, force_refresh, effect),
    {
        if !force_refresh {
            match self.cache_lookup(&path) {
                Some(k) => {
                    let ghost before = *self;
                    let entries = duplicate_entries(&self.directory_cache[k].1.entries);
                    let tree = self.directory_cache[k].1.tree.duplicate();
                    proof {
                        lemma_same_tree_fits(tree, self.directory_cache@[k as int].1.tree);
                    }
                    self.cancel_directory_scan();
                    self.clear_navigation_notice();
                    self.entries = entries;
                    self.scan_tree = Some(tree);
                    self.current_path = Some(path);
                    self.active_tab = destination_tab;
                    assert(cache_slot(before.directory_cache@, path@, k as int));
                    return Effect::CancelScan;
                },
                None => {},
            }
        }
        self.cancel_directory_scan();
        Effect::ListDirectory { path, tab: destination_tab }
    }

    /// Takes in the listing of the directory at `path`, asked for by
    /// `open_directory`, and answers the members that the background scan
    /// must report on: its symbolic links, then its directories. A failed
    /// listing empties the view and raises an error notice; a successful one
    /// shows the listing, and when it has no such member the scan is already
    /// finished.
    pub fn directory_listed(
        &mut self,
        path: String,
        destination_tab: Tab,
        listing: Result<Vec<FileEntry>, ScanError>,
    ) -> (to_scan: Vec<FileEntry>)
        requires
            old(self).wf(),
            !old(self).scan_running,
            listing matches Ok(es) ==> entries_size(es@) <= u64::MAX,
        ensures
            final(self).wf(),
            match listing {
                Err(e) => {
                    &&& to_scan@.len() == 0
                    &&& final(self).entries@.len() == 0
                    &&& *final(self) == (FrostScanApp {
                        entries: final(self).entries,
                        scan_tree: None,
                        current_path: Some(path),
                        notice: pushed_notice(old(self).notice, open_error_notice(e)),
                        active_tab: destination_tab,
                        ..*old(self)
                    })
                },
                Ok(es) => {
                    let listed = FrostScanApp {
                        entries: es,
                        scan_tree: final(self).scan_tree,
                        current_path: Some(path),
                        notice: cleared_notice(old(self).notice),
                        active_tab: destination_tab,
                        scan_running: scan_plan_of(es@).len() > 0,
                        scan_progress_done: 0,
                        scan_progress_total: scan_plan_of(es@).len() as usize,
                        ..*old(self)
                    };
                    &&& to_scan@ == scan_plan_of(es@)
                    &&& final(self).scan_tree matches Some(t) && t.path == path
                        && is_directory_name_of(t.name@, path@) && t.kind == ScanNodeKind::Directory && nodes_of_entries(t.children@, es@) && t
                        == refreshed(t)
                    &&& scan_plan_of(es@).len() > 0 ==> *final(self) == listed
                    &&& scan_plan_of(es@).len() == 0 ==> finished_scan(listed, *final(self))
                },
            },
    {
        let entries = match listing {
            Ok(entries) => {
                self.clear_navigation_notice();
                entries
            },
            Err(err) => {
                self.entries.clear();
                self.scan_tree = None;
                self.current_path = Some(path);
                self.push_notice(AppNotice::from_open_directory_error(&err));
                self.active_tab = destination_tab;
                return Vec::new();
            },
        };
        let to_scan = scan_plan(&entries);
        let to_scan_total = to_scan.len();
        let tree = ScanNode::from_directory_entries(path.clone(), &entries);
        proof {
            crate::model::scan_node::lemma_nodes_size(tree.children@, entries@);
        }
        self.entries = entries;
        self.current_path = Some(path);
        self.scan_tree = Some(tree);
        self.scan_running = to_scan_total > 0;
        self.scan_progress_done = 0;
        self.scan_progress_total = to_scan_total;
        self.active_tab = destination_tab;
        if to_scan_total == 0 {
            self.finish_directory_scan();
        }
        to_scan
    }

    /// Whether the scan event can be applied without the tree's total
    /// overflowing a `u64`.
    pub fn scan_event_fits(&self, event: &DirSizeEvent) -> (r: bool)
        ensures
            r == event_fits(*self, *event),
    {
        match (event, &self.scan_tree) {
            (DirSizeEvent::Done(result), Some(tree)) => {
                let mut k: usize = 0;
                while k < tree.children.len() && tree.children[k].path != result.path
                    invariant
                        self.scan_tree == Some(*tree),
                        *event == DirSizeEvent::Done(*result),
                        k <= tree.children.len(),
                        forall|j: int| 0 <= j < k ==> (#[trigger] tree.children@[j]).path@ != result.path@,
                    decreases tree.children.len() - k,
                {
                    k = k + 1;
                }
                if tree.kind == ScanNodeKind::File {
                    return true;
                }
                if k == tree.children.len() {
                    assert forall|q: int| !is_first_with_path(tree.children@, result.path@, q) by {
                        if 0 <= q < tree.children@.len() {
                            assert(tree.children@[q].path@ != result.path@);
                        }
                    }
                    return true;
                }
                assert(is_first_with_path(tree.children@, result.path@, k as int));
                let ghost updated = tree.children@.update(k as int, result.tree);
                let mut total: u64 = 0;
                let mut i: usize = 0;
                assert(updated.subrange(0, 0) =~= Seq::<ScanNode>::empty());
                while i < tree.children.len()
                    invariant
                        tree.kind == ScanNodeKind::Directory,
                        self.scan_tree == Some(*tree),
                        *event == DirSizeEvent::Done(*result),
                        i <= tree.children.len(),
                        k < tree.children.len(),
                        is_first_with_path(tree.children@, result.path@, k as int),
                        updated == tree.children@.update(k as int, result.tree),
                        total == size_sum(updated.subrange(0, i as int)),
                    decreases tree.children.len() - i,
                {
                    assert(updated.subrange(0, i + 1).drop_last() =~= updated.subrange(0, i as int));
                    let size = if i == k {
                        result.tree.size
                    } else {
                        tree.children[i].size
                    };
                    if size > u64::MAX - total {
                        proof {
                            crate::model::scan_node::lemma_size_prefix(updated, i + 1);
                        }
                        assert(size_sum(tree.children@.update(k as int, result.tree)) > u64::MAX);
                        assert(tree.kind == ScanNodeKind::Directory);
                        assert(!child_update_fits(*tree, result.path@, result.tree));
                        assert forall|q: int| is_first_with_path(tree.children@, result.path@, q) implies size_sum(
                            #[trigger] tree.children@.update(q, result.tree),
                        ) > u64::MAX by {
                            if q < k {
                                assert(tree.children@[q].path@ == result.path@);
                            } else if q > k {
                                assert(tree.children@[k as int].path@ != result.path@);
                            }
                        }
                        return false;
                    }
                    total = total + size;
                    i = i + 1;
                }
                assert(updated.subrange(0, i as int) =~= updated);
                assert forall|q: int| is_first_with_path(tree.children@, result.path@, q) implies size_sum(
                    #[trigger] tree.children@.update(q, result.tree),
                ) <= u64::MAX by {
                    if q < k {
                        assert(tree.children@[q].path@ == result.path@);
                    } else if q > k {
                        assert(tree.children@[k as int].path@ != result.path@);
                    }
                }
                true
            },
            _ => true,
        }
    }

    fn mark_entry(&mut self, path: &String, size: u64, partial: bool)
        ensures
            entries_sized(old(self).entries@, final(self).entries@, path@, size, partial),
            *final(self) == (FrostScanApp { entries: final(self).entries, ..*old(self) }),
    {
        let mut k: usize = 0;
        while k < self.entries.len() && self.entries[k].path != *path
            invariant
                k <= self.entries.len(),
                forall|j: int| 0 <= j < k ==> (#[trigger] self.entries@[j]).path@ != path@,
            decreases self.entries.len() - k,
        {
            k = k + 1;
        }
        if k < self.entries.len() {
            let e = &self.entries[k];
            let updated = FileEntry {
                path: e.path.clone(),
                name: e.name.clone(),
                kind: e.kind,
                size,
                size_pending: false,
                size_partial: partial,
            };
            let ghost before = self.entries@;
            self.entries.set(k, updated);
            assert(is_first_entry(before, path@, k as int));
        }
    }

    /// Applies what the background scan reported for one directory, and
    /// answers whether the scan is now finished (every directory done).
    pub fn on_scan_event(&mut self, event: DirSizeEvent) -> (finished: bool)
        requires
            old(self).wf(),
            old(self).scan_running,
            event_fits(*old(self), event),
        ensures
            final(self).wf(),
            finished == (old(self).scan_progress_done + 1 >= old(self).scan_progress_total),
            exists|mid: FrostScanApp|
                applied_event(*old(self), mid, event) && (if finished {
                    finished_scan(mid, *final(self))
                } else {
                    *final(self) == mid
                }),
    {
        let ghost before = *self;
        match event {
            DirSizeEvent::Done(result) => {
                self.mark_entry(&result.path, result.size, result.partial);
                let tree = self.scan_tree.take();
                match tree {
                    Some(mut t) => {
                        let ghost t0 = t;
                        t.update_child(&result.path, result.tree);
                        proof {
                            lemma_updated_fits(t0, t, result.path@, result.tree);
                        }
                        self.scan_tree = Some(t);
                    },
                    None => {},
                }
                self.scan_progress_done = self.scan_progress_done + 1;
                if result.partial {
                    let kind = match result.issue {
                        Some(k) => k,
                        None => ScanFailureKind::ReadDir,
                    };
                    self.push_notice(AppNotice::from_scan_failure(kind));
                }
            },
            DirSizeEvent::Failed(err) => {
                self.mark_entry(&err.path, 0, true);
                let tree = self.scan_tree.take();
                match tree {
                    Some(mut t) => {
                        proof {
                            assert forall|k: int, c: ScanNode|
                                is_first_with_path(t.children@, err.path@, k) && c.size == 0 implies (t.kind
                                    == ScanNodeKind::Directory ==> size_sum(
                                    #[trigger] t.children@.update(k, c),
                                ) <= u64::MAX) by {
                                lemma_size_sum_update(t.children@, k, c);
                            }
                        }
                        let ghost t0 = t;
                        t.mark_child_failed(&err.path);
                        proof {
                            lemma_failed_fits(t0, t, err.path@);
                        }
                        self.scan_tree = Some(t);
                    },
                    None => {},
                }
                self.scan_progress_done = self.scan_progress_done + 1;
                self.push_notice(AppNotice::from_scan_failure(err.kind));
            },
        }
        let ghost mid = *self;
        assert(applied_event(before, mid, event));
        if self.scan_progress_done >= self.scan_progress_total && self.scan_progress_total > 0 {
            self.finish_directory_scan();
            return true;
        }
        false
    }

    /// Whether the listing holds a directory at `path`.
    fn lists_directory_at(&self, path: &String) -> (r: bool)
        ensures
            r == lists_directory(self.entries@, path@),
    {
        let mut k: usize = 0;
        while k < self.entries.len()
            invariant
                k <= self.entries.len(),
                forall|j: int|
                    0 <= j < k ==> !((#[trigger] self.entries@[j]).path@ == path@ && self.entries@[j].kind
                        == FileEntryKind::Directory),
            decreases self.entries.len() - k,
        {
            if self.entries[k].path == *path && self.entries[k].kind == FileEntryKind::Directory {
                return true;
            }
            k = k + 1;
        }
        false
    }

    /// Handles a request, and answers the outside work it needs.
    pub fn update(&mut self, msg: Message) -> (effect: Effect)
        requires
            old(self).wf(),
        ensures
            final(self).wf(),
            match msg {
                Message::SwitchTab(tab) => effect is Nothing && *final(self) == (FrostScanApp {
                    active_tab: tab,
                    ..*old(self)
                }),
                Message::SelectDisk(disk) => effect is Nothing && *final(self) == (FrostScanApp {
                    selected_disk: Some(disk),
                    ..*old(self)
                }),
                Message::OpenSelectedDisk => match old(self).selected_disk {
                    Some(disk) => opened_directory(
                        *old(self),
                        *final(self),
                        disk.mount_point,
                        Tab::Explorer,
                        false,
                        effect,
                    ),
                    None => effect is Nothing && *final(self) == *old(self),
                },
                Message::OpenEntry(path) => if lists_directory(old(self).entries@, path@) {
                    opened_directory(*old(self), *final(self), path, Tab::Explorer, false, effect)
                } else {
                    effect is Nothing && *final(self) == *old(self)
                },
                Message::OpenEntryInTab(path, tab) => if lists_directory(old(self).entries@, path@) {
                    opened_directory(*old(self), *final(self), path, tab, false, effect)
                } else {
                    effect is Nothing && *final(self) == *old(self)
                },
                Message::GoUp => match old(self).current_path {
                    Some(current) => {
                        &&& (effect is Nothing && *final(self) == *old(self)) || exists|parent: String|
                            is_strict_prefix(parent@, current@) && opened_directory(
                                *old(self),
                                *final(self),
                                parent,
                                old(self).active_tab,
                                false,
                                effect,
                            )
                        &&& has_final_component(current@) ==> !(effect is Nothing)
                        &&& parent_is_text(current@) ==> exists|parent: String|
                            parent@ == parent_text(current@) && opened_directory(
                                *old(self),
                                *final(self),
                                parent,
                                old(self).active_tab,
                                false,
                                effect,
                            )
                    },
                    None => effect is Nothing && *final(self) == *old(self),
                },
                Message::Refresh => match old(self).current_path {
                    Some(current) => opened_directory(
                        *old(self),
                        *final(self),
                        current,
                        old(self).active_tab,
                        true,
                        effect,
                    ),
                    None => effect is Nothing && *final(self) == *old(self),
                },
                Message::SortByName => effect is Nothing && *final(self) == (if old(self).sort_by
                    == SortBy::Name {
                    FrostScanApp { sort_desc: !old(self).sort_desc, ..*old(self) }
                } else {
                    FrostScanApp { sort_by: SortBy::Name, sort_desc: false, ..*old(self) }
                }),
                Message::SortBySize => effect is Nothing && *final(self) == (if old(self).sort_by
                    == SortBy::Size {
                    FrostScanApp { sort_desc: !old(self).sort_desc, ..*old(self) }
                } else {
                    FrostScanApp { sort_by: SortBy::Size, sort_desc: true, ..*old(self) }
                }),
                Message::Tick => *final(self) == *old(self) && (if old(self).scan_running {
                    effect is DrainScanEvents
                } else {
                    effect is Nothing
                }),
                Message::SetLocale(locale) => effect is Nothing && *final(self) == (FrostScanApp {
                    locale,
                    ..*old(self)
                }),
            },
    {
        match msg {
            Message::SwitchTab(tab) => {
                self.active_tab = tab;
                Effect::Nothing
            },
            Message::SelectDisk(disk) => {
                self.selected_disk = Some(disk);
                Effect::Nothing
            },
            Message::OpenSelectedDisk => {
                match &self.selected_disk {
                    Some(disk) => {
                        let mount = disk.mount_point.clone();
                        self.open_directory(mount, Tab::Explorer, false)
                    },
                    None => Effect::Nothing,
                }
            },
            Message::OpenEntry(path) => {
                if self.lists_directory_at(&path) {
                    self.open_directory(path, Tab::Explorer, false)
                } else {
                    Effect::Nothing
                }
            },
            Message::OpenEntryInTab(path, tab) => {
                if self.lists_directory_at(&path) {
                    self.open_directory(path, tab, false)
                } else {
                    Effect::Nothing
                }
            },
            Message::GoUp => {
                match &self.current_path {
                    Some(current) => {
                        match paths::parent(current.as_str()) {
                            Some(parent) => {
                                let tab = self.active_tab;
                                self.open_directory(parent, tab, false)
                            },
                            None => Effect::Nothing,
                        }
                    },
                    None => Effect::Nothing,
                }
            },
            Message::Refresh => {
                match &self.current_path {
                    Some(current) => {
                        let current = current.clone();
                        let tab = self.active_tab;
                        self.open_directory(current, tab, true)
                    },
                    None => Effect::Nothing,
                }
            },
            Message::SortByName => {
                if self.sort_by == SortBy::Name {
                    self.sort_desc = !self.sort_desc;
                } else {
                    self.sort_by = SortBy::Name;
                    self.sort_desc = false;
                }
                Effect::Nothing
            },
            Message::SortBySize => {
                if self.sort_by == SortBy::Size {
                    self.sort_desc = !self.sort_desc;
                } else {
                    self.sort_by = SortBy::Size;
                    self.sort_desc = true;
                }
                Effect::Nothing
            },
            Message::Tick => {
                if self.scan_running {
                    Effect::DrainScanEvents
                } else {
                    Effect::Nothing
                }
            },
            Message::SetLocale(locale) => {
                self.locale = locale;
                Effect::Nothing
            },
        }
    }

    /// The background scan ended without reporting every directory: it is
    /// finished as it stands.
    pub fn on_scan_disconnected(&mut self)
        requires
            old(self).wf(),
        ensures
            final(self).wf(),
            finished_scan(*old(self), *final(self)),
    {
        self.finish_directory_scan();
    }

    /// One step of taking in the background scan's events during a tick,
    /// `processed` events having been taken in before it. Answers how many
    /// have been taken in when the caller should read the next one, or
    /// `None` when the tick is over: nothing was waiting, the scan ended or
    /// finished, or the tick's share of events is used up.
    pub fn on_received(&mut self, received: Received, processed: usize) -> (next: Option<usize>)
        requires
            old(self).wf(),
            processed < MAX_UPDATES_PER_TICK,
            received matches Received::Event(e) ==> old(self).scan_running && event_fits(*old(self), e),
        ensures
            final(self).wf(),
            next matches Some(n) ==> n == processed + 1 && final(self).scan_running,
            match received {
                Received::Empty => next is None && *final(self) == *old(self),
                Received::Disconnected => next is None && finished_scan(*old(self), *final(self)),
                Received::Event(e) => {
                    let finished = old(self).scan_progress_done + 1 >= old(self).scan_progress_total;
                    &&& exists|mid: FrostScanApp|
                        applied_event(*old(self), mid, e) && (if finished {
                            finished_scan(mid, *final(self))
                        } else {
                            *final(self) == mid
                        })
                    &&& next == if finished || processed + 1 >= MAX_UPDATES_PER_TICK {
                        None
                    } else {
                        Some((processed + 1) as usize)
                    }
                },
            },
    {
        match received {
            Received::Empty => None,
            Received::Disconnected => {
                self.on_scan_disconnected();
                None
            },
            Received::Event(event) => {
                let finished = self.on_scan_event(event);
                if finished || processed + 1 >= MAX_UPDATES_PER_TICK {
                    None
                } else {
                    Some(processed + 1)
                }
            },
        }
    }
}

} // verus!
