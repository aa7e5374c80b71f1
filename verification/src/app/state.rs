//! The application state and its invariant.

use vstd::prelude::*;
use crate::app::notice::{AppNotice, NoticeSource, replaces};
use crate::app::view::{sort_entries, is_table_order};
use crate::i18n::Locale;
use crate::model::file_entry::FileEntry;
use crate::model::scan_node::{ScanNode, ScanNodeKind, size_sum, same_tree, lemma_size_sum_same_sizes};
use crate::services::disk::SystemDisk;

verus! {

/// The pages of the application.
#[derive(Debug, Clone, Copy, PartialEq, Eq, Structural)]
pub enum Tab {
    Accueil,
    Explorer,
    Vue,
    Options,
    Aide,
}

/// The column the explorer's table is sorted by.
#[derive(Debug, Clone, Copy, PartialEq, Eq, Structural)]
pub enum SortBy {
    Name,
    Size,
}

/// A directory seen before: its listing and its scanned tree.
#[derive(Debug, Clone)]
pub struct CachedDirectory {
    pub entries: Vec<FileEntry>,
    pub tree: ScanNode,
}

/// The state of the application. `scan_running` tells whether a background
/// scan of the current directory's subdirectories is under way; the
/// presentation layer holds its channel and cancellation flag.
#[derive(Debug)]
pub struct FrostScanApp {
    pub locale: Locale,
    pub active_tab: Tab,
    pub disks: Vec<SystemDisk>,
    pub selected_disk: Option<SystemDisk>,
    pub current_path: Option<String>,
    pub entries: Vec<FileEntry>,
    pub scan_tree: Option<ScanNode>,
    pub directory_cache: Vec<(String, CachedDirectory)>,
    pub notice: Option<AppNotice>,
    pub sort_by: SortBy,
    pub sort_desc: bool,
    pub scan_running: bool,
    pub scan_progress_done: usize,
    pub scan_progress_total: usize,
}

/// A scan tree is a directory whose children's sizes add up within a `u64`.
pub open spec fn tree_fits(t: ScanNode) -> bool {
    t.kind == ScanNodeKind::Directory && size_sum(t.children@) <= u64::MAX
}

/// The notice left when a navigation succeeds: a navigation notice goes.
pub open spec fn cleared_notice(n: Option<AppNotice>) -> Option<AppNotice> {
    match n {
        Some(c) => if c.source == NoticeSource::Navigation {
            None
        } else {
            n
        },
        None => None,
    }
}

/// The notice shown once `new` is raised while `cur` is shown.
pub open spec fn pushed_notice(cur: Option<AppNotice>, new: AppNotice) -> Option<AppNotice> {
    match cur {
        Some(c) => if replaces(new, c) {
            Some(new)
        } else {
            cur
        },
        None => Some(new),
    }
}

/// Slot `k` of the cache holds the directory at `path`.
pub open spec fn cache_slot(cache: Seq<(String, CachedDirectory)>, path: Seq<char>, k: int) -> bool {
    0 <= k < cache.len() && cache[k].0@ == path
}

/// The cache holds the directory at `path`.
pub open spec fn cache_has(cache: Seq<(String, CachedDirectory)>, path: Seq<char>) -> bool {
    exists|k: int| cache_slot(cache, path, k)
}

/// The copy of `t` is a scan tree when `t` is one.
pub proof fn lemma_same_tree_fits(a: ScanNode, b: ScanNode)
    requires
        same_tree(a, b),
        tree_fits(b),
    ensures
        tree_fits(a),
{
    assert forall|i: int| 0 <= i < a.children@.len() implies (#[trigger] a.children@[i]).size
        == b.children@[i].size by {
        assert(same_tree(a.children@[i], b.children@[i]));
    }
    lemma_size_sum_same_sizes(a.children@, b.children@);
}

impl FrostScanApp {
    /// In a consistent state a scan is in progress exactly when one runs.
    pub proof fn lemma_progress_shows_running_scan(&self)
        requires
            self.wf(),
        ensures
            (self.scan_progress_total > 0 && self.scan_progress_done < self.scan_progress_total)
                == self.scan_running,
    {
    }

    /// The invariant of the state: one cache slot per path, scan trees that
    /// can be refreshed, and progress counters that are reset whenever no
    /// scan runs and show unfinished work while one does.
    pub open spec fn wf(&self) -> bool {
        &&& self.wf_data()
        &&& self.scan_running ==> self.scan_progress_done < self.scan_progress_total
        &&& !self.scan_running ==> self.scan_progress_done == 0 && self.scan_progress_total == 0
    }

    /// The part of the invariant on the data: one cache slot per path and
    /// scan trees that can be refreshed.
    pub open spec fn wf_data(&self) -> bool {
        &&& forall|a: int, b: int|
            0 <= a < b < self.directory_cache@.len() ==> (#[trigger] self.directory_cache@[a]).0@
                != (#[trigger] self.directory_cache@[b]).0@
        &&& forall|a: int|
            0 <= a < self.directory_cache@.len() ==> tree_fits(
                (#[trigger] self.directory_cache@[a]).1.tree,
            )
        &&& self.scan_tree matches Some(t) ==> tree_fits(t)
    }

    /// The state at start-up, offering the given disks.
    pub fn new(disks: Vec<SystemDisk>) -> (app: FrostScanApp)
        ensures
            app.wf(),
            app.locale == Locale::En,
            app.active_tab == Tab::Accueil,
            app.disks == disks,
            app.selected_disk is None,
            app.current_path is None,
            app.entries@.len() == 0,
            app.scan_tree is None,
            app.directory_cache@.len() == 0,
            app.notice is None,
            app.sort_by == SortBy::Name,
            !app.sort_desc,
            !app.scan_running,
    {
        FrostScanApp {
            locale: Locale::default(),
            active_tab: Tab::Accueil,
            disks,
            selected_disk: None,
            current_path: None,
            entries: Vec::new(),
            scan_tree: None,
            directory_cache: Vec::new(),
            notice: None,
            sort_by: SortBy::Name,
            sort_desc: false,
            scan_running: false,
            scan_progress_done: 0,
            scan_progress_total: 0,
        }
    }

    /// Whether a scan is under way with work left.
    pub fn scan_in_progress(&self) -> (r: bool)
        ensures
            r == (self.scan_progress_total > 0 && self.scan_progress_done < self.scan_progress_total),
    {
        self.scan_progress_total > 0 && self.scan_progress_done < self.scan_progress_total
    }

    /// Drops the navigation notice, if that is what is shown.
    pub fn clear_navigation_notice(&mut self)
        ensures
            final(self).notice == cleared_notice(old(self).notice),
            *final(self) == (FrostScanApp { notice: final(self).notice, ..*old(self) }),
    {
        match self.notice {
            Some(notice) => {
                if notice.source == NoticeSource::Navigation {
                    self.notice = None;
                }
            },
            None => {},
        }
    }

    /// Raises `notice`, which is shown unless the current one outranks it.
    pub fn push_notice(&mut self, notice: AppNotice)
        ensures
            final(self).notice == pushed_notice(old(self).notice, notice),
            *final(self) == (FrostScanApp { notice: final(self).notice, ..*old(self) }),
    {
        let should_replace = match self.notice {
            Some(current) => notice.should_replace(current),
            None => true,
        };
        if should_replace {
            self.notice = Some(notice);
        }
    }

    /// The position of the cache slot of `path`, if there is one.
    pub fn cache_lookup(&self, path: &String) -> (r: Option<usize>)
        ensures
            r matches Some(k) ==> cache_slot(self.directory_cache@, path@, k as int),
            r is None ==> !cache_has(self.directory_cache@, path@),
    {
        let mut k: usize = 0;
        while k < self.directory_cache.len()
            invariant
                k <= self.directory_cache.len(),
                forall|j: int| 0 <= j < k ==> !cache_slot(self.directory_cache@, path@, j),
            decreases self.directory_cache.len() - k,
        {
            if self.directory_cache[k].0 == *path {
                return Some(k);
            }
            k = k + 1;
        }
        None
    }

    /// Stores `dir` as the cached directory at `path`, replacing what was
    /// cached there; other paths keep what they had.
    pub fn cache_insert(&mut self, path: String, dir: CachedDirectory)
        requires
            old(self).wf_data(),
            tree_fits(dir.tree),
        ensures
            final(self).wf_data(),
            exists|k: int|
                cache_slot(final(self).directory_cache@, path@, k) && final(self).directory_cache@[k]
                    == (path, dir),
            forall|p: Seq<char>|
                p != path@ ==> (cache_has(final(self).directory_cache@, p) == cache_has(
                    old(self).directory_cache@,
                    p,
                )),
            forall|p: Seq<char>, j: int, k: int|
                p != path@ && cache_slot(old(self).directory_cache@, p, j) && cache_slot(
                    final(self).directory_cache@,
                    p,
                    k,
                ) ==> final(self).directory_cache@[k] == old(self).directory_cache@[j],
            *final(self) == (FrostScanApp { directory_cache: final(self).directory_cache, ..*old(self) }),
    {
        let ghost before = self.directory_cache@;
        let found = self.cache_lookup(&path);
        match found {
            Some(k) => {
                self.directory_cache.set(k, (path, dir));
                proof {
                    assert forall|p: Seq<char>, j: int, q: int|
                        p != path@ && cache_slot(before, p, j) && cache_slot(self.directory_cache@, p, q)
                            implies self.directory_cache@[q] == before[j] by {
                        assert(q != k);
                        if j != q {
                            if j < q {
                                assert(before[j].0@ != before[q].0@);
                            } else {
                                assert(before[q].0@ != before[j].0@);
                            }
                        }
                    }
                    assert forall|p: Seq<char>| p != path@ implies (cache_has(self.directory_cache@, p)
                        == cache_has(before, p)) by {
                        if cache_has(before, p) {
                            let j = choose|j: int| cache_slot(before, p, j);
                            assert(cache_slot(self.directory_cache@, p, j));
                        }
                        if cache_has(self.directory_cache@, p) {
                            let j = choose|j: int| cache_slot(self.directory_cache@, p, j);
                            assert(cache_slot(before, p, j));
                        }
                    }
                    assert(cache_slot(self.directory_cache@, path@, k as int));
                }
            },
            None => {
                self.directory_cache.push((path, dir));
                proof {
                    let last = before.len() as int;
                    assert forall|p: Seq<char>, j: int, q: int|
                        p != path@ && cache_slot(before, p, j) && cache_slot(self.directory_cache@, p, q)
                            implies self.directory_cache@[q] == before[j] by {
                        assert(q != last);
                        if j != q {
                            if j < q {
                                assert(before[j].0@ != before[q].0@);
                            } else {
                                assert(before[q].0@ != before[j].0@);
                            }
                        }
                    }
                    assert forall|p: Seq<char>| p != path@ implies (cache_has(self.directory_cache@, p)
                        == cache_has(before, p)) by {
                        if cache_has(before, p) {
                            let j = choose|j: int| cache_slot(before, p, j);
                            assert(cache_slot(self.directory_cache@, p, j));
                        }
                        if cache_has(self.directory_cache@, p) {
                            let j = choose|j: int| cache_slot(self.directory_cache@, p, j);
                            assert(j != last);
                            assert(cache_slot(before, p, j));
                        }
                    }
                    assert forall|a: int, b: int|
                        0 <= a < b < self.directory_cache@.len() implies (#[trigger] self.directory_cache@[a]).0@
                            != (#[trigger] self.directory_cache@[b]).0@ by {
                        if b == last {
                            assert(!cache_slot(before, path@, a));
                        }
                    }
                    assert(cache_slot(self.directory_cache@, path@, last));
                }
            },
        }
    }

    /// The entries in the order of the table's current sort.
    pub fn sorted_entries(&self) -> (r: Vec<FileEntry>)
        ensures
            is_table_order(self.entries@, self.sort_by, self.sort_desc, r@),
    {
        sort_entries(&self.entries, self.sort_by, self.sort_desc)
    }
}

} // verus!
