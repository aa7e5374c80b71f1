//! Storage used per file extension in a directory listing.

use vstd::prelude::*;
use crate::model::file_entry::{FileEntry, FileEntryKind};
use crate::ordering::{SortKey, key_views, stable_order, text_lt, key_lt};
use crate::text::{chars_of, to_lowercase, lowercase_of, lemma_seq_lt_irreflexive};
use crate::paths;
use crate::paths::{ends_in_name, dot_extension, last_segment};

verus! {

/// The files of one extension (compared without regard to case; `None` for
/// files without an extension): their total size and how many there are.
#[derive(Debug, Clone, PartialEq, Eq)]
pub struct ExtensionSummary {
    pub extension: Option<String>,
    pub total_size: u64,
    pub file_count: usize,
}

/// The characters of an optional string.
pub open spec fn opt_view(o: Option<String>) -> Option<Seq<char>> {
    match o {
        Some(s) => Some(s@),
        None => None,
    }
}

/// The grouping key of a file whose path has the extension `ext`: the
/// extension lower-cased.
pub open spec fn ext_key(ext: Option<String>) -> Option<Seq<char>> {
    match ext {
        Some(e) => Some(lowercase_of(e@)),
        None => None,
    }
}

/// Entry `i` is a file whose extension has the key `key`.
pub open spec fn in_group(
    entries: Seq<FileEntry>,
    exts: Seq<Option<String>>,
    key: Option<Seq<char>>,
    i: int,
) -> bool {
    entries[i].kind == FileEntryKind::File && ext_key(exts[i]) == key
}

/// Total size of the first `n` entries that are files of the group `key`.
pub open spec fn group_total(
    entries: Seq<FileEntry>,
    exts: Seq<Option<String>>,
    key: Option<Seq<char>>,
    n: int,
) -> nat
    decreases n,
{
    if n <= 0 {
        0
    } else {
        group_total(entries, exts, key, n - 1) + if in_group(entries, exts, key, n - 1) {
            entries[n - 1].size as nat
        } else {
            0
        }
    }
}

/// Number of the first `n` entries that are files of the group `key`.
pub open spec fn group_count(
    entries: Seq<FileEntry>,
    exts: Seq<Option<String>>,
    key: Option<Seq<char>>,
    n: int,
) -> nat
    decreases n,
{
    if n <= 0 {
        0
    } else {
        group_count(entries, exts, key, n - 1) + if in_group(entries, exts, key, n - 1) {
            1nat
        } else {
            0nat
        }
    }
}

/// `x` is listed before `y`: larger total first, then more files, then the
/// extension in ascending order (no extension first).
pub open spec fn summary_before(x: ExtensionSummary, y: ExtensionSummary) -> bool {
    x.total_size > y.total_size || (x.total_size == y.total_size && (x.file_count
        > y.file_count || (x.file_count == y.file_count && text_lt(
        opt_view(x.extension),
        opt_view(y.extension),
    ))))
}

/// `res` is the extension overview of `entries`, whose paths have the
/// extensions `exts`: one summary per group of files, each with the group's
/// total size and file count, in the order of `summary_before`.
pub open spec fn is_extension_overview(
    entries: Seq<FileEntry>,
    exts: Seq<Option<String>>,
    res: Seq<ExtensionSummary>,
) -> bool {
    let n = entries.len() as int;
    &&& forall|j: int|
        0 <= j < res.len() ==> {
            &&& (#[trigger] res[j]).total_size == group_total(
                entries,
                exts,
                opt_view(res[j].extension),
                n,
            )
            &&& res[j].file_count == group_count(entries, exts, opt_view(res[j].extension), n)
            &&& res[j].file_count > 0
        }
    &&& forall|i: int|
        0 <= i < n && #[trigger] entries[i].kind == FileEntryKind::File ==> exists|j: int|
            0 <= j < res.len() && opt_view(#[trigger] res[j].extension) == ext_key(exts[i])
    &&& forall|a: int, b: int| 0 <= a < b < res.len() ==> summary_before(res[a], res[b])
}

/// No group's total size exceeds `u64::MAX`.
pub open spec fn group_totals_fit(entries: Seq<FileEntry>, exts: Seq<Option<String>>) -> bool {
    forall|key: Option<Seq<char>>| group_total(entries, exts, key, entries.len() as int) <= u64::MAX
}

proof fn lemma_group_prefix(
    entries: Seq<FileEntry>,
    exts: Seq<Option<String>>,
    key: Option<Seq<char>>,
    i: int,
    n: int,
)
    requires
        0 <= i <= n,
    ensures
        group_total(entries, exts, key, i) <= group_total(entries, exts, key, n),
        group_count(entries, exts, key, i) <= i,
    decreases n,
{
    if i < n {
        lemma_group_prefix(entries, exts, key, i, n - 1);
    } else if i > 0 {
        lemma_group_prefix(entries, exts, key, i - 1, i - 1);
    }
}

proof fn lemma_group_empty(
    entries: Seq<FileEntry>,
    exts: Seq<Option<String>>,
    key: Option<Seq<char>>,
    n: int,
)
    requires
        forall|k: int| 0 <= k < n ==> !in_group(entries, exts, key, k),
    ensures
        group_total(entries, exts, key, n) == 0,
        group_count(entries, exts, key, n) == 0,
    decreases n,
{
    if n > 0 {
        lemma_group_empty(entries, exts, key, n - 1);
    }
}

/// Total size of the files among the first `n` entries.
pub open spec fn files_total(entries: Seq<FileEntry>, n: int) -> nat
    decreases n,
{
    if n <= 0 {
        0
    } else {
        files_total(entries, n - 1) + if entries[n - 1].kind == FileEntryKind::File {
            entries[n - 1].size as nat
        } else {
            0
        }
    }
}

proof fn lemma_group_within_files(
    entries: Seq<FileEntry>,
    exts: Seq<Option<String>>,
    key: Option<Seq<char>>,
    n: int,
)
    ensures
        group_total(entries, exts, key, n) <= files_total(entries, n),
    decreases n,
{
    if n > 0 {
        lemma_group_within_files(entries, exts, key, n - 1);
    }
}

/// A copy of an optional string.
fn copy_opt(o: &Option<String>) -> (r: Option<String>)
    ensures
        r == *o,
{
    match o {
        Some(s) => Some(s.clone()),
        None => None,
    }
}

/// Whether two optional strings are equal.
fn opt_eq(a: &Option<String>, b: &Option<String>) -> (r: bool)
    ensures
        r == (opt_view(*a) == opt_view(*b)),
{
    match (a, b) {
        (Some(x), Some(y)) => *x == *y,
        (None, None) => true,
        _ => false,
    }
}

/// Groups the files of `entries` by extension, given the extension `exts[i]`
/// of each entry's path: case is ignored, directories and links are left
/// out, and the groups come largest first.
pub fn summarize_extensions(entries: &Vec<FileEntry>, exts: &Vec<Option<String>>) -> (res: Vec<
    ExtensionSummary,
>)
    requires
        exts.len() == entries.len(),
        group_totals_fit(entries@, exts@),
    ensures
        is_extension_overview(entries@, exts@, res@),
{
    let ghost es = entries@;
    let ghost xs = exts@;
    let mut groups: Vec<ExtensionSummary> = Vec::new();
    let mut i: usize = 0;
    while i < entries.len()
        invariant
            es == entries@,
            xs == exts@,
            exts.len() == entries.len(),
            group_totals_fit(es, xs),
            i <= entries.len(),
            forall|j: int|
                0 <= j < groups.len() ==> {
                    &&& (#[trigger] groups@[j]).total_size == group_total(
                        es,
                        xs,
                        opt_view(groups@[j].extension),
                        i as int,
                    )
                    &&& groups@[j].file_count == group_count(
                        es,
                        xs,
                        opt_view(groups@[j].extension),
                        i as int,
                    )
                    &&& groups@[j].file_count > 0
                },
            forall|a: int, b: int|
                0 <= a < b < groups.len() ==> opt_view(#[trigger] groups@[a].extension) != opt_view(
                    #[trigger] groups@[b].extension,
                ),
            forall|k: int|
                0 <= k < i && #[trigger] es[k].kind == FileEntryKind::File ==> exists|j: int|
                    0 <= j < groups.len() && opt_view(#[trigger] groups@[j].extension) == ext_key(
                        xs[k],
                    ),
        decreases entries.len() - i,
    {
        if entries[i].kind == FileEntryKind::File {
            let key: Option<String> = match &exts[i] {
                Some(e) => Some(to_lowercase(e.as_str())),
                None => None,
            };
            assert(opt_view(key) == ext_key(xs[i as int]));
            let mut j: usize = 0;
            while j < groups.len() && !opt_eq(&groups[j].extension, &key)
                invariant
                    j <= groups.len(),
                    forall|q: int| 0 <= q < j ==> opt_view(#[trigger] groups@[q].extension) != opt_view(key),
                decreases groups.len() - j,
            {
                j = j + 1;
            }
            proof {
                lemma_group_prefix(es, xs, opt_view(key), i + 1, es.len() as int);
            }
            let ghost old_groups = groups@;
            if j < groups.len() {
                assert(in_group(es, xs, opt_view(groups@[j as int].extension), i as int));
                let updated = ExtensionSummary {
                    extension: copy_opt(&groups[j].extension),
                    total_size: groups[j].total_size + entries[i].size,
                    file_count: groups[j].file_count + 1,
                };
                groups.set(j, updated);
                assert forall|q: int| 0 <= q < groups.len() implies {
                    &&& (#[trigger] groups@[q]).total_size == group_total(
                        es,
                        xs,
                        opt_view(groups@[q].extension),
                        i + 1,
                    )
                    &&& groups@[q].file_count == group_count(es, xs, opt_view(groups@[q].extension), i + 1)
                    &&& groups@[q].file_count > 0
                } by {
                    if q != j {
                        assert(!in_group(es, xs, opt_view(old_groups[q].extension), i as int));
                    }
                }
                assert forall|k: int|
                    0 <= k < i + 1 && #[trigger] es[k].kind == FileEntryKind::File implies exists|w: int|
                        0 <= w < groups.len() && opt_view(#[trigger] groups@[w].extension) == ext_key(
                            xs[k],
                        ) by {
                    if k < i {
                        let w = choose|w: int|
                            0 <= w < old_groups.len() && opt_view(#[trigger] old_groups[w].extension)
                                == ext_key(xs[k]);
                        assert(opt_view(groups@[w].extension) == ext_key(xs[k]));
                    } else {
                        assert(opt_view(groups@[j as int].extension) == ext_key(xs[k]));
                    }
                }
            } else {
                proof {
                    assert forall|k: int| 0 <= k < i implies !in_group(es, xs, opt_view(key), k) by {
                        if in_group(es, xs, opt_view(key), k) {
                            assert(es[k].kind == FileEntryKind::File);
                            let w = choose|w: int|
                                0 <= w < old_groups.len() && opt_view(#[trigger] old_groups[w].extension)
                                    == ext_key(xs[k]);
                            assert(opt_view(old_groups[w].extension) != opt_view(key));
                        }
                    }
                    lemma_group_empty(es, xs, opt_view(key), i as int);
                }
                groups.push(ExtensionSummary { extension: key, total_size: entries[i].size, file_count: 1 });
                assert forall|q: int| 0 <= q < groups.len() implies {
                    &&& (#[trigger] groups@[q]).total_size == group_total(
                        es,
                        xs,
                        opt_view(groups@[q].extension),
                        i + 1,
                    )
                    &&& groups@[q].file_count == group_count(es, xs, opt_view(groups@[q].extension), i + 1)
                    &&& groups@[q].file_count > 0
                } by {
                    if q < old_groups.len() {
                        assert(!in_group(es, xs, opt_view(old_groups[q].extension), i as int));
                    }
                }
                assert forall|k: int|
                    0 <= k < i + 1 && #[trigger] es[k].kind == FileEntryKind::File implies exists|w: int|
                        0 <= w < groups.len() && opt_view(#[trigger] groups@[w].extension) == ext_key(
                            xs[k],
                        ) by {
                    if k < i {
                        let w = choose|w: int|
                            0 <= w < old_groups.len() && opt_view(#[trigger] old_groups[w].extension)
                                == ext_key(xs[k]);
                        assert(opt_view(groups@[w].extension) == ext_key(xs[k]));
                    } else {
                        assert(opt_view(groups@[j as int].extension) == ext_key(xs[k]));
                    }
                }
            }
        } else {
            assert forall|q: int| 0 <= q < groups.len() implies {
                &&& (#[trigger] groups@[q]).total_size == group_total(
                    es,
                    xs,
                    opt_view(groups@[q].extension),
                    i + 1,
                )
                &&& groups@[q].file_count == group_count(es, xs, opt_view(groups@[q].extension), i + 1)
                &&& groups@[q].file_count > 0
            } by {
                assert(!in_group(es, xs, opt_view(groups@[q].extension), i as int));
            }
        }
        i = i + 1;
    }
    let mut keys: Vec<SortKey> = Vec::new();
    let mut g: usize = 0;
    while g < groups.len()
        invariant
            g <= groups.len(),
            keys.len() == g,
            forall|q: int|
                0 <= q < g ==> (#[trigger] keys@[q])@ == (
                    (u64::MAX - groups@[q].total_size) as u64,
                    (u64::MAX - groups@[q].file_count) as u64,
                    opt_view(groups@[q].extension),
                ),
        decreases groups.len() - g,
    {
        let text = match &groups[g].extension {
            Some(e) => Some(chars_of(e.as_str())),
            None => None,
        };
        keys.push(SortKey {
            first: u64::MAX - groups[g].total_size,
            second: u64::MAX - groups[g].file_count as u64,
            text,
        });
        g = g + 1;
    }
    let order = stable_order(&keys);
    let ghost ks = key_views(keys@);
    let mut res: Vec<ExtensionSummary> = Vec::new();
    let mut p: usize = 0;
    while p < order.len()
        invariant
            p <= order.len(),
            order.len() == groups.len(),
            res.len() == p,
            forall|a: int| 0 <= a < order.len() ==> #[trigger] order@[a] < groups.len(),
            forall|q: int| 0 <= q < p ==> #[trigger] res@[q] == groups@[order@[q] as int],
        decreases order.len() - p,
    {
        let s = &groups[order[p]];
        res.push(ExtensionSummary {
            extension: copy_opt(&s.extension),
            total_size: s.total_size,
            file_count: s.file_count,
        });
        p = p + 1;
    }
    proof {
        assert forall|a: int, b: int| 0 <= a < b < res.len() implies summary_before(
            res@[a],
            res@[b],
        ) by {
            let oa = order@[a] as int;
            let ob = order@[b] as int;
            assert(crate::ordering::precedes(ks, oa, ob));
            assert(ks[oa] == keys@[oa]@);
            assert(ks[ob] == keys@[ob]@);
            if ks[oa] == ks[ob] {
                assert(opt_view(groups@[oa].extension) == opt_view(groups@[ob].extension));
            }
            assert(key_lt(ks[oa], ks[ob]));
        }
        assert forall|k: int|
            0 <= k < es.len() && #[trigger] es[k].kind == FileEntryKind::File implies exists|j: int|
                0 <= j < res.len() && opt_view(#[trigger] res@[j].extension) == ext_key(xs[k]) by {
            let w = choose|w: int|
                0 <= w < groups.len() && opt_view(#[trigger] groups@[w].extension) == ext_key(xs[k]);
            assert(order@.contains(w as usize));
            let p = choose|p: int| 0 <= p < order.len() && order@[p] == w as usize;
            assert(opt_view(res@[p].extension) == ext_key(xs[k]));
        }
    }
    res
}

/// `ext` is the extension of the file at `path`: for a plain path that ends
/// in a name, what follows the name's last dot unless that dot comes first;
/// elsewhere the platform's path syntax decides.
pub open spec fn extension_of_path(ext: Option<String>, path: Seq<char>) -> bool {
    ends_in_name(path) ==> opt_view(ext) == dot_extension(last_segment(path))
}

/// Whether no group's total size exceeds `u64::MAX`, the extension of each
/// entry's path being `exts[i]`.
pub fn extension_groups_fit(entries: &Vec<FileEntry>, exts: &Vec<Option<String>>) -> (r: bool)
    requires
        exts.len() == entries.len(),
    ensures
        r == group_totals_fit(entries@, exts@),
{
    let ghost es = entries@;
    let ghost xs = exts@;
    let n = entries.len();
    let mut keys: Vec<Option<String>> = Vec::new();
    let mut i: usize = 0;
    while i < n
        invariant
            n == entries.len(),
            exts.len() == n,
            i <= n,
            keys.len() == i,
            forall|k: int| 0 <= k < i ==> opt_view(#[trigger] keys@[k]) == ext_key(exts@[k]),
        decreases n - i,
    {
        let key = match &exts[i] {
            Some(e) => Some(to_lowercase(e.as_str())),
            None => None,
        };
        keys.push(key);
        i = i + 1;
    }
    let mut i: usize = 0;
    while i < n
        invariant
            es == entries@,
            xs == exts@,
            n == entries.len(),
            exts.len() == n,
            keys.len() == n,
            i <= n,
            forall|k: int| 0 <= k < n ==> opt_view(#[trigger] keys@[k]) == ext_key(exts@[k]),
            forall|k: int|
                0 <= k < i && #[trigger] es[k].kind == FileEntryKind::File ==> group_total(
                    es,
                    xs,
                    ext_key(xs[k]),
                    n as int,
                ) <= u64::MAX,
        decreases n - i,
    {
        if entries[i].kind == FileEntryKind::File {
            let ghost key = ext_key(xs[i as int]);
            let mut total: u64 = 0;
            let mut j: usize = 0;
            while j < n
                invariant
                    es == entries@,
                    xs == exts@,
                    n == entries.len(),
                    exts.len() == n,
                    keys.len() == n,
                    i < n,
                    j <= n,
                    key == ext_key(xs[i as int]),
                    forall|k: int| 0 <= k < n ==> opt_view(#[trigger] keys@[k]) == ext_key(exts@[k]),
                    total == group_total(es, xs, key, j as int),
                decreases n - j,
            {
                if entries[j].kind == FileEntryKind::File && opt_eq(&keys[i], &keys[j]) {
                    if entries[j].size > u64::MAX - total {
                        proof {
                            lemma_group_prefix(es, xs, key, j + 1, n as int);
                        }
                        return false;
                    }
                    total = total + entries[j].size;
                }
                j = j + 1;
            }
        }
        i = i + 1;
    }
    assert forall|key: Option<Seq<char>>| group_total(es, xs, key, n as int) <= u64::MAX by {
        if !(exists|k: int| 0 <= k < n && #[trigger] in_group(es, xs, key, k)) {
            lemma_group_empty(es, xs, key, n as int);
        }
    }
    true
}

/// The storage used per extension by the files of `entries`, largest first;
/// `None` when some extension's total size exceeds `u64::MAX`.
pub fn aggregate_extensions(entries: &Vec<FileEntry>) -> (res: Option<Vec<ExtensionSummary>>)
    ensures
        exists|exts: Seq<Option<String>>|
            {
                &&& exts.len() == entries.len()
                &&& forall|k: int|
                    0 <= k < exts.len() ==> extension_of_path(#[trigger] exts[k], entries@[k].path@)
                &&& (res is Some <==> group_totals_fit(entries@, exts))
                &&& res matches Some(r) ==> is_extension_overview(entries@, exts, r@)
            },
        files_total(entries@, entries.len() as int) <= u64::MAX ==> res is Some,
{
    let mut exts: Vec<Option<String>> = Vec::new();
    let mut i: usize = 0;
    while i < entries.len()
        invariant
            i <= entries.len(),
            exts.len() == i,
            forall|k: int| 0 <= k < i ==> extension_of_path(#[trigger] exts@[k], entries@[k].path@),
        decreases entries.len() - i,
    {
        exts.push(paths::extension(entries[i].path.as_str()));
        i = i + 1;
    }
    proof {
        if files_total(entries@, entries.len() as int) <= u64::MAX {
            assert forall|key: Option<Seq<char>>|
                group_total(entries@, exts@, key, entries.len() as int) <= u64::MAX by {
                lemma_group_within_files(entries@, exts@, key, entries.len() as int);
            }
        }
    }
    if extension_groups_fit(entries, &exts) {
        Some(summarize_extensions(entries, &exts))
    } else {
        None
    }
}

/// Number of files among the first `n` entries.
pub open spec fn files_count(entries: Seq<FileEntry>, n: int) -> nat
    decreases n,
{
    if n <= 0 {
        0
    } else {
        files_count(entries, n - 1) + if entries[n - 1].kind == FileEntryKind::File {
            1nat
        } else {
            0nat
        }
    }
}

/// The total size of a list of summaries.
pub open spec fn summaries_total(res: Seq<ExtensionSummary>) -> nat
    decreases res.len(),
{
    if res.len() == 0 {
        0
    } else {
        summaries_total(res.drop_last()) + res.last().total_size as nat
    }
}

/// The number of files of a list of summaries.
pub open spec fn summaries_count(res: Seq<ExtensionSummary>) -> nat
    decreases res.len(),
{
    if res.len() == 0 {
        0
    } else {
        summaries_count(res.drop_last()) + res.last().file_count as nat
    }
}

/// The group keys of a list of summaries.
pub open spec fn summary_keys(res: Seq<ExtensionSummary>) -> Seq<Option<Seq<char>>> {
    res.map_values(|s: ExtensionSummary| opt_view(s.extension))
}

/// Total size over the groups `keys` among the first `n` entries.
pub open spec fn keys_total(
    entries: Seq<FileEntry>,
    exts: Seq<Option<String>>,
    keys: Seq<Option<Seq<char>>>,
    n: int,
) -> nat
    decreases keys.len(),
{
    if keys.len() == 0 {
        0
    } else {
        keys_total(entries, exts, keys.drop_last(), n) + group_total(entries, exts, keys.last(), n)
    }
}

/// Number of files over the groups `keys` among the first `n` entries.
pub open spec fn keys_count(
    entries: Seq<FileEntry>,
    exts: Seq<Option<String>>,
    keys: Seq<Option<Seq<char>>>,
    n: int,
) -> nat
    decreases keys.len(),
{
    if keys.len() == 0 {
        0
    } else {
        keys_count(entries, exts, keys.drop_last(), n) + group_count(entries, exts, keys.last(), n)
    }
}

/// How many of the groups `keys` entry `i` belongs to.
pub open spec fn keys_hits(
    entries: Seq<FileEntry>,
    exts: Seq<Option<String>>,
    keys: Seq<Option<Seq<char>>>,
    i: int,
) -> nat
    decreases keys.len(),
{
    if keys.len() == 0 {
        0
    } else {
        keys_hits(entries, exts, keys.drop_last(), i) + if in_group(entries, exts, keys.last(), i) {
            1nat
        } else {
            0nat
        }
    }
}

proof fn lemma_keys_step(
    entries: Seq<FileEntry>,
    exts: Seq<Option<String>>,
    keys: Seq<Option<Seq<char>>>,
    n: int,
)
    requires
        n > 0,
    ensures
        keys_total(entries, exts, keys, n) == keys_total(entries, exts, keys, n - 1) + keys_hits(
            entries,
            exts,
            keys,
            n - 1,
        ) * entries[n - 1].size,
        keys_count(entries, exts, keys, n) == keys_count(entries, exts, keys, n - 1) + keys_hits(
            entries,
            exts,
            keys,
            n - 1,
        ),
    decreases keys.len(),
{
    let sz = entries[n - 1].size as int;
    if keys.len() > 0 {
        lemma_keys_step(entries, exts, keys.drop_last(), n);
        let h = keys_hits(entries, exts, keys.drop_last(), n - 1);
        assert((h + 1) * sz == h * sz + sz) by (nonlinear_arith);
    } else {
        assert(0 * sz == 0) by (nonlinear_arith);
    }
}

proof fn lemma_keys_hits_absent(
    entries: Seq<FileEntry>,
    exts: Seq<Option<String>>,
    keys: Seq<Option<Seq<char>>>,
    i: int,
)
    requires
        !keys.contains(ext_key(exts[i])) || entries[i].kind != FileEntryKind::File,
    ensures
        keys_hits(entries, exts, keys, i) == 0,
    decreases keys.len(),
{
    if keys.len() > 0 {
        if keys.drop_last().contains(ext_key(exts[i])) {
            let w = choose|w: int| 0 <= w < keys.drop_last().len() && keys.drop_last()[w] == ext_key(exts[i]);
            assert(keys[w] == ext_key(exts[i]));
        }
        lemma_keys_hits_absent(entries, exts, keys.drop_last(), i);
    }
}

proof fn lemma_keys_hits_once(
    entries: Seq<FileEntry>,
    exts: Seq<Option<String>>,
    keys: Seq<Option<Seq<char>>>,
    i: int,
)
    requires
        keys.no_duplicates(),
        keys.contains(ext_key(exts[i])),
        entries[i].kind == FileEntryKind::File,
    ensures
        keys_hits(entries, exts, keys, i) == 1,
    decreases keys.len(),
{
    let rest = keys.drop_last();
    assert(rest.no_duplicates()) by {
        assert forall|a: int, b: int| 0 <= a < rest.len() && 0 <= b < rest.len() && a != b implies rest[a]
            != rest[b] by {
            assert(keys[a] == rest[a] && keys[b] == rest[b]);
        }
    }
    if keys.last() == ext_key(exts[i]) {
        if rest.contains(ext_key(exts[i])) {
            let w = choose|w: int| 0 <= w < rest.len() && rest[w] == ext_key(exts[i]);
            assert(keys[w] == keys[keys.len() - 1]);
        }
        lemma_keys_hits_absent(entries, exts, rest, i);
    } else {
        let w = choose|w: int| 0 <= w < keys.len() && keys[w] == ext_key(exts[i]);
        assert(rest[w] == ext_key(exts[i]));
        lemma_keys_hits_once(entries, exts, rest, i);
    }
}

proof fn lemma_keys_cover(
    entries: Seq<FileEntry>,
    exts: Seq<Option<String>>,
    keys: Seq<Option<Seq<char>>>,
    n: int,
)
    requires
        0 <= n <= entries.len(),
        keys.no_duplicates(),
        forall|i: int|
            0 <= i < n && entries[i].kind == FileEntryKind::File ==> keys.contains(ext_key(exts[i])),
    ensures
        keys_total(entries, exts, keys, n) == files_total(entries, n),
        keys_count(entries, exts, keys, n) == files_count(entries, n),
    decreases n,
{
    if n == 0 {
        lemma_keys_empty(entries, exts, keys);
    } else {
        lemma_keys_cover(entries, exts, keys, n - 1);
        lemma_keys_step(entries, exts, keys, n);
        if entries[n - 1].kind == FileEntryKind::File {
            lemma_keys_hits_once(entries, exts, keys, n - 1);
        } else {
            lemma_keys_hits_absent(entries, exts, keys, n - 1);
        }
    }
}

proof fn lemma_keys_empty(
    entries: Seq<FileEntry>,
    exts: Seq<Option<String>>,
    keys: Seq<Option<Seq<char>>>,
)
    ensures
        keys_total(entries, exts, keys, 0) == 0,
        keys_count(entries, exts, keys, 0) == 0,
    decreases keys.len(),
{
    if keys.len() > 0 {
        lemma_keys_empty(entries, exts, keys.drop_last());
    }
}

proof fn lemma_summaries_as_keys(
    entries: Seq<FileEntry>,
    exts: Seq<Option<String>>,
    res: Seq<ExtensionSummary>,
)
    requires
        forall|j: int|
            0 <= j < res.len() ==> (#[trigger] res[j]).total_size == group_total(
                entries,
                exts,
                opt_view(res[j].extension),
                entries.len() as int,
            ) && res[j].file_count == group_count(
                entries,
                exts,
                opt_view(res[j].extension),
                entries.len() as int,
            ),
    ensures
        summaries_total(res) == keys_total(entries, exts, summary_keys(res), entries.len() as int),
        summaries_count(res) == keys_count(entries, exts, summary_keys(res), entries.len() as int),
    decreases res.len(),
{
    if res.len() > 0 {
        let rest = res.drop_last();
        assert forall|j: int| 0 <= j < rest.len() implies (#[trigger] rest[j]).total_size == group_total(
            entries,
            exts,
            opt_view(rest[j].extension),
            entries.len() as int,
        ) && rest[j].file_count == group_count(
            entries,
            exts,
            opt_view(rest[j].extension),
            entries.len() as int,
        ) by {
            assert(rest[j] == res[j]);
        }
        lemma_summaries_as_keys(entries, exts, rest);
        assert(summary_keys(res).drop_last() =~= summary_keys(rest));
        assert(res[res.len() - 1] == res.last());
    }
}

/// The extension overview accounts for every file exactly once: its totals
/// add up to the size of all files (so its percentages add up to the
/// whole), and its counts to the number of files.
pub proof fn lemma_overview_accounts_for_all_files(
    entries: Seq<FileEntry>,
    exts: Seq<Option<String>>,
    res: Seq<ExtensionSummary>,
)
    requires
        exts.len() == entries.len(),
        is_extension_overview(entries, exts, res),
    ensures
        summaries_total(res) == files_total(entries, entries.len() as int),
        summaries_count(res) == files_count(entries, entries.len() as int),
{
    let keys = summary_keys(res);
    assert(keys.no_duplicates()) by {
        assert forall|a: int, b: int| 0 <= a < keys.len() && 0 <= b < keys.len() && a != b implies keys[a]
            != keys[b] by {
            let (x, y) = if a < b {
                (a, b)
            } else {
                (b, a)
            };
            assert(summary_before(res[x], res[y]));
            if keys[x] == keys[y] {
                assert(res[x].total_size == res[y].total_size);
                assert(res[x].file_count == res[y].file_count);
                if let Some(t) = opt_view(res[x].extension) {
                    lemma_seq_lt_irreflexive(t);
                }
            }
        }
    }
    assert forall|i: int|
        0 <= i < entries.len() && entries[i].kind == FileEntryKind::File implies keys.contains(
        ext_key(exts[i]),
    ) by {
        let j = choose|j: int| 0 <= j < res.len() && opt_view(#[trigger] res[j].extension) == ext_key(exts[i]);
        assert(keys[j] == ext_key(exts[i]));
    }
    lemma_keys_cover(entries, exts, keys, entries.len() as int);
    lemma_summaries_as_keys(entries, exts, res);
}

} // verus!
