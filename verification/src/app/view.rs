//! Ordering of the explorer's table.

use vstd::prelude::*;
use crate::app::state::SortBy;
use crate::model::file_entry::{FileEntry, FileEntryKind};
use crate::ordering::{SortKey, KeyView, key_views, stable_order, is_stable_order, precedes, key_lt};
use crate::text::{chars_of, to_lowercase, lowercase_of, seq_lt, lemma_seq_lt_irreflexive, lemma_seq_lt_transitive};

verus! {

/// The block an entry is listed in: directories, then files, then links.
pub open spec fn group_of(kind: FileEntryKind) -> u8 {
    match kind {
        FileEntryKind::Directory => 0,
        FileEntryKind::File => 1,
        FileEntryKind::Symlink => 2,
    }
}

/// The block of an entry kind.
pub fn sort_group(kind: FileEntryKind) -> (g: u8)
    ensures
        g == group_of(kind),
{
    match kind {
        FileEntryKind::Directory => 0,
        FileEntryKind::File => 1,
        FileEntryKind::Symlink => 2,
    }
}

/// The sort key of an entry: its block, then its lower-cased name or its
/// size.
pub open spec fn entry_key(e: FileEntry, sort_by: SortBy) -> KeyView {
    match sort_by {
        SortBy::Name => (group_of(e.kind) as u64, 0u64, Some(lowercase_of(e.name@))),
        SortBy::Size => (group_of(e.kind) as u64, e.size, None),
    }
}

/// The sort keys of a listing.
pub open spec fn entry_keys(entries: Seq<FileEntry>, sort_by: SortBy) -> Seq<KeyView> {
    entries.map_values(|e: FileEntry| entry_key(e, sort_by))
}

/// Entry `i` is listed before entry `j`. Ascending: by block, then name or
/// size, then position in the input. Descending: still by block, then name or
/// size descending, later entries first among equals.
pub open spec fn listed_before(
    entries: Seq<FileEntry>,
    sort_by: SortBy,
    desc: bool,
    i: int,
    j: int,
) -> bool {
    let keys = entry_keys(entries, sort_by);
    if !desc {
        precedes(keys, i, j)
    } else {
        group_of(entries[i].kind) < group_of(entries[j].kind) || (group_of(entries[i].kind)
            == group_of(entries[j].kind) && (key_lt(keys[j], keys[i]) || (keys[i] == keys[j] && j
            < i)))
    }
}

/// `res` lists the entries of `entries` in table order.
pub open spec fn is_table_order(
    entries: Seq<FileEntry>,
    sort_by: SortBy,
    desc: bool,
    res: Seq<FileEntry>,
) -> bool {
    exists|order: Seq<usize>|
        {
            &&& order.len() == entries.len()
            &&& res.len() == entries.len()
            &&& forall|a: int| 0 <= a < order.len() ==> #[trigger] order[a] < entries.len()
            &&& forall|i: usize| i < entries.len() ==> #[trigger] order.contains(i)
            &&& forall|a: int, b: int|
                0 <= a < b < order.len() ==> listed_before(
                    entries,
                    sort_by,
                    desc,
                    #[trigger] order[a] as int,
                    #[trigger] order[b] as int,
                )
            &&& forall|k: int| 0 <= k < res.len() ==> #[trigger] res[k] == entries[order[k] as int]
        }
}

/// The entries picked in the given order.
fn pick_entries(entries: &Vec<FileEntry>, order: &Vec<usize>) -> (r: Vec<FileEntry>)
    requires
        forall|a: int| 0 <= a < order.len() ==> #[trigger] order@[a] < entries.len(),
    ensures
        r.len() == order.len(),
        forall|k: int| 0 <= k < r.len() ==> #[trigger] r@[k] == entries@[order@[k] as int],
{
    let mut r: Vec<FileEntry> = Vec::new();
    let mut k: usize = 0;
    while k < order.len()
        invariant
            k <= order.len(),
            forall|a: int| 0 <= a < order.len() ==> #[trigger] order@[a] < entries.len(),
            r.len() == k,
            forall|q: int| 0 <= q < k ==> #[trigger] r@[q] == entries@[order@[q] as int],
        decreases order.len() - k,
    {
        r.push(entries[order[k]].duplicate());
        k = k + 1;
    }
    r
}

/// Lists `entries` in table order: directories first, then files, then
/// links, each block by name or size, ascending or descending.
pub fn sort_entries(entries: &Vec<FileEntry>, sort_by: SortBy, desc: bool) -> (res: Vec<FileEntry>)
    ensures
        is_table_order(entries@, sort_by, desc, res@),
{
    let ghost es = entries@;
    let mut keys: Vec<SortKey> = Vec::new();
    let mut i: usize = 0;
    while i < entries.len()
        invariant
            es == entries@,
            i <= entries.len(),
            keys.len() == i,
            forall|q: int| 0 <= q < i ==> (#[trigger] keys@[q])@ == entry_key(es[q], sort_by),
        decreases entries.len() - i,
    {
        let e = &entries[i];
        let group = sort_group(e.kind) as u64;
        let key = match sort_by {
            SortBy::Name => {
                let lower = to_lowercase(e.name.as_str());
                SortKey { first: group, second: 0, text: Some(chars_of(lower.as_str())) }
            },
            SortBy::Size => SortKey { first: group, second: e.size, text: None },
        };
        keys.push(key);
        i = i + 1;
    }
    let ghost ks = entry_keys(es, sort_by);
    assert(key_views(keys@) =~= ks) by {
        assert forall|q: int| 0 <= q < keys.len() implies #[trigger] key_views(keys@)[q] == ks[q] by {
            assert(keys@[q]@ == entry_key(es[q], sort_by));
        }
    }
    let order = stable_order(&keys);
    if !desc {
        let res = pick_entries(entries, &order);
        assert forall|a: int, b: int| 0 <= a < b < order.len() implies listed_before(
            es,
            sort_by,
            desc,
            #[trigger] order@[a] as int,
            #[trigger] order@[b] as int,
        ) by {
            assert(precedes(ks, order@[a] as int, order@[b] as int));
        }
        return res;
    }
    // Descending: reverse the ascending order, then bring the blocks back
    // into place, keeping the reversed order inside each block.
    let n = order.len();
    let mut rev: Vec<usize> = Vec::new();
    let mut group_keys: Vec<SortKey> = Vec::new();
    let mut k: usize = 0;
    while k < n
        invariant
            es == entries@,
            n == order.len(),
            n == entries.len(),
            k <= n,
            rev.len() == k,
            group_keys.len() == k,
            forall|a: int| 0 <= a < n ==> #[trigger] order@[a] < entries.len(),
            forall|q: int|
                0 <= q < k ==> {
                    &&& #[trigger] rev@[q] == order@[n - 1 - q]
                    &&& group_keys@[q]@ == (group_of(es[rev@[q] as int].kind) as u64, 0u64, None::<Seq<char>>)
                },
        decreases n - k,
    {
        let idx = order[n - 1 - k];
        rev.push(idx);
        group_keys.push(SortKey { first: sort_group(entries[idx].kind) as u64, second: 0, text: None });
        k = k + 1;
    }
    let order2 = stable_order(&group_keys);
    let mut final_order: Vec<usize> = Vec::new();
    let mut m: usize = 0;
    while m < n
        invariant
            n == rev.len(),
            n == order2.len(),
            m <= n,
            final_order.len() == m,
            forall|a: int| 0 <= a < n ==> #[trigger] order2@[a] < n,
            forall|q: int| 0 <= q < m ==> #[trigger] final_order@[q] == rev@[order2@[q] as int],
        decreases n - m,
    {
        final_order.push(rev[order2[m]]);
        m = m + 1;
    }
    let ghost gks = key_views(group_keys@);
    proof {
        assert forall|q: int| 0 <= q < n implies #[trigger] gks[q] == (group_of(
            es[rev@[q] as int].kind,
        ) as u64, 0u64, None::<Seq<char>>) by {
            assert(rev@[q] == order@[n - 1 - q]);
        }
        assert forall|a: int| 0 <= a < n implies #[trigger] final_order@[a] < entries.len() by {
            assert(rev@[order2@[a] as int] == order@[n - 1 - order2@[a]]);
        }
        assert forall|a: int, b: int| 0 <= a < b < n implies listed_before(
            es,
            sort_by,
            desc,
            #[trigger] final_order@[a] as int,
            #[trigger] final_order@[b] as int,
        ) by {
            let ka = order2@[a] as int;
            let kb = order2@[b] as int;
            assert(precedes(gks, ka, kb));
            assert(rev@[ka] == order@[n - 1 - ka]);
            assert(rev@[kb] == order@[n - 1 - kb]);
            assert(gks[ka] == (group_of(es[rev@[ka] as int].kind) as u64, 0u64, None::<Seq<char>>));
            assert(gks[kb] == (group_of(es[rev@[kb] as int].kind) as u64, 0u64, None::<Seq<char>>));
            if group_of(es[rev@[ka] as int].kind) == group_of(es[rev@[kb] as int].kind) {
                assert(ka < kb);
                assert(precedes(ks, order@[n - 1 - kb] as int, order@[n - 1 - ka] as int));
            }
        }
        assert forall|j: usize| j < entries.len() implies #[trigger] final_order@.contains(j) by {
            assert(order@.contains(j));
            let p = choose|p: int| 0 <= p < n && order@[p] == j;
            let q = n - 1 - p;
            assert(rev@[q] == j);
            assert(order2@.contains(q as usize));
            let w = choose|w: int| 0 <= w < n && order2@[w] == q as usize;
            assert(final_order@[w] == j);
        }
    }
    pick_entries(entries, &final_order)
}

/// Whatever the column and direction, directories come first, then files,
/// then links.
pub proof fn lemma_table_groups_blocks(
    entries: Seq<FileEntry>,
    sort_by: SortBy,
    desc: bool,
    res: Seq<FileEntry>,
    a: int,
    b: int,
)
    requires
        is_table_order(entries, sort_by, desc, res),
        0 <= a < b < res.len(),
    ensures
        group_of(res[a].kind) <= group_of(res[b].kind),
{
    let order = choose|order: Seq<usize>|
        {
            &&& order.len() == entries.len()
            &&& res.len() == entries.len()
            &&& forall|x: int| 0 <= x < order.len() ==> #[trigger] order[x] < entries.len()
            &&& forall|i: usize| i < entries.len() ==> #[trigger] order.contains(i)
            &&& forall|x: int, y: int|
                0 <= x < y < order.len() ==> listed_before(
                    entries,
                    sort_by,
                    desc,
                    #[trigger] order[x] as int,
                    #[trigger] order[y] as int,
                )
            &&& forall|k: int| 0 <= k < res.len() ==> #[trigger] res[k] == entries[order[k] as int]
        };
    assert(listed_before(entries, sort_by, desc, order[a] as int, order[b] as int));
    assert(res[a] == entries[order[a] as int]);
    assert(res[b] == entries[order[b] as int]);
    if !desc {
        let keys = entry_keys(entries, sort_by);
        assert(keys[order[a] as int] == entry_key(entries[order[a] as int], sort_by));
        assert(keys[order[b] as int] == entry_key(entries[order[b] as int], sort_by));
    }
}

/// Inside one block the table is ordered by the chosen column: by size,
/// ascending lists smaller entries first and descending larger ones first;
/// by name, the lower-cased names never go down (ascending) or up
/// (descending).
pub proof fn lemma_table_orders_each_block(
    entries: Seq<FileEntry>,
    sort_by: SortBy,
    desc: bool,
    res: Seq<FileEntry>,
    a: int,
    b: int,
)
    requires
        is_table_order(entries, sort_by, desc, res),
        0 <= a < b < res.len(),
        res[a].kind == res[b].kind,
    ensures
        sort_by == SortBy::Size && !desc ==> res[a].size <= res[b].size,
        sort_by == SortBy::Size && desc ==> res[a].size >= res[b].size,
        sort_by == SortBy::Name && !desc ==> !seq_lt(lowercase_of(res[b].name@), lowercase_of(res[a].name@)),
        sort_by == SortBy::Name && desc ==> !seq_lt(lowercase_of(res[a].name@), lowercase_of(res[b].name@)),
{
    let order = choose|order: Seq<usize>|
        {
            &&& order.len() == entries.len()
            &&& res.len() == entries.len()
            &&& forall|x: int| 0 <= x < order.len() ==> #[trigger] order[x] < entries.len()
            &&& forall|i: usize| i < entries.len() ==> #[trigger] order.contains(i)
            &&& forall|x: int, y: int|
                0 <= x < y < order.len() ==> listed_before(
                    entries,
                    sort_by,
                    desc,
                    #[trigger] order[x] as int,
                    #[trigger] order[y] as int,
                )
            &&& forall|k: int| 0 <= k < res.len() ==> #[trigger] res[k] == entries[order[k] as int]
        };
    let i = order[a] as int;
    let j = order[b] as int;
    assert(listed_before(entries, sort_by, desc, i, j));
    assert(res[a] == entries[i]);
    assert(res[b] == entries[j]);
    let keys = entry_keys(entries, sort_by);
    assert(keys[i] == entry_key(entries[i], sort_by));
    assert(keys[j] == entry_key(entries[j], sort_by));
    let x = lowercase_of(res[a].name@);
    let y = lowercase_of(res[b].name@);
    lemma_seq_lt_irreflexive(x);
    lemma_seq_lt_irreflexive(y);
    if seq_lt(x, y) && seq_lt(y, x) {
        lemma_seq_lt_transitive(x, y, x);
    }
}

} // verus!
