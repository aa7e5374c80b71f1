//! Treemap planning: which children of a directory get a tile of their own,
//! in which order, and what the remaining ones add up to. The geometry of
//! the tiles is laid out by the presentation layer.

use vstd::prelude::*;
use crate::model::scan_node::{ScanNode, ScanNodeKind, size_sum};
use crate::ordering::{SortKey, KeyView, key_views, stable_order, is_stable_order, precedes, lemma_key_lt_irreflexive};
use crate::text::{chars_of, to_lowercase, lowercase_of, decimal, decimal_chars, extend_chars, string_from_chars};
use crate::ui::format::{format_size, size_text};

verus! {

/// At most this many children of a directory get a tile of their own.
pub const MAX_CHILDREN_PER_LEVEL: usize = 10;

/// What a tile stands for.
#[derive(Debug, Clone, Copy, PartialEq, Eq, Structural)]
pub enum TreemapTileKind {
    Directory,
    File,
    Mixed,
}

/// The localized texts that tiles use.
#[derive(Debug, Clone)]
pub struct TreemapStrings {
    pub others_label: String,
    pub folder_label: String,
    pub file_label: String,
    pub group_label: String,
    pub level_label: String,
    pub partial_label: String,
    pub pending_label: String,
}

/// One tile of the treemap, at nesting depth `depth`; `path` is set for a
/// directory, which can be opened.
#[derive(Debug, Clone)]
pub struct TreemapTile {
    pub label: String,
    pub path: Option<String>,
    pub size: u64,
    pub kind: TreemapTileKind,
    pub partial: bool,
    pub pending: bool,
    pub depth: usize,
}

/// What a tile shows: a node of the tree, or the children that did not get
/// a tile of their own, grouped.
#[derive(Debug, Clone, Copy)]
pub enum DisplayNode<'a> {
    Node(&'a ScanNode),
    Others { label: &'a str, size: u64, partial: bool },
}

impl<'a> DisplayNode<'a> {
    /// The tile's label: the node's name, or the group label.
    pub fn label(self) -> (r: String)
        ensures
            match self {
                DisplayNode::Node(n) => r == n.name,
                DisplayNode::Others { label, .. } => r@ == label@,
            },
    {
        match self {
            DisplayNode::Node(node) => node.name.clone(),
            DisplayNode::Others { label, .. } => String::from_str(label),
        }
    }

    /// The path to open: only a directory node has one.
    pub fn path(self) -> (r: Option<String>)
        ensures
            match self {
                DisplayNode::Node(n) => r == (if n.kind == ScanNodeKind::Directory {
                    Some(n.path)
                } else {
                    None
                }),
                DisplayNode::Others { .. } => r is None,
            },
    {
        match self {
            DisplayNode::Node(node) => if node.kind == ScanNodeKind::Directory {
                Some(node.path.clone())
            } else {
                None
            },
            _ => None,
        }
    }

    /// The size the tile stands for.
    pub fn size(self) -> (r: u64)
        ensures
            match self {
                DisplayNode::Node(n) => r == n.size,
                DisplayNode::Others { size, .. } => r == size,
            },
    {
        match self {
            DisplayNode::Node(node) => node.size,
            DisplayNode::Others { size, .. } => size,
        }
    }

    /// The kind of the tile: a group is mixed.
    pub fn kind(self) -> (r: TreemapTileKind)
        ensures
            match self {
                DisplayNode::Node(n) => r == tile_kind_of(n.kind),
                DisplayNode::Others { .. } => r == TreemapTileKind::Mixed,
            },
            self matches DisplayNode::Node(n) ==> (r == TreemapTileKind::File <==> n.kind
                == ScanNodeKind::File) && (r == TreemapTileKind::Directory <==> n.kind
                == ScanNodeKind::Directory),
    {
        match self {
            DisplayNode::Node(node) => match node.kind {
                ScanNodeKind::Directory => TreemapTileKind::Directory,
                ScanNodeKind::File => TreemapTileKind::File,
            },
            DisplayNode::Others { .. } => TreemapTileKind::Mixed,
        }
    }

    /// Whether the tile stands for something only partly scanned.
    pub fn partial(self) -> (r: bool)
        ensures
            match self {
                DisplayNode::Node(n) => r == n.partial,
                DisplayNode::Others { partial, .. } => r == partial,
            },
    {
        match self {
            DisplayNode::Node(node) => node.partial,
            DisplayNode::Others { partial, .. } => partial,
        }
    }

    /// Whether the tile stands for something still being scanned; a group
    /// never is.
    pub fn pending(self) -> (r: bool)
        ensures
            match self {
                DisplayNode::Node(n) => r == n.pending,
                DisplayNode::Others { .. } => !r,
            },
    {
        match self {
            DisplayNode::Node(node) => node.pending,
            DisplayNode::Others { .. } => false,
        }
    }
}

/// The tile kind of a node kind.
pub open spec fn tile_kind_of(k: ScanNodeKind) -> TreemapTileKind {
    match k {
        ScanNodeKind::Directory => TreemapTileKind::Directory,
        ScanNodeKind::File => TreemapTileKind::File,
    }
}

/// A node's tile kind tells files from directories, and is never the kind
/// of a group.
pub proof fn lemma_tile_kind_tells_files_from_directories(k: ScanNodeKind)
    ensures
        tile_kind_of(k) == TreemapTileKind::File <==> k == ScanNodeKind::File,
        tile_kind_of(k) == TreemapTileKind::Directory <==> k == ScanNodeKind::Directory,
        tile_kind_of(k) != TreemapTileKind::Mixed,
{
}

/// `t` is the tile of the node `c` at depth `depth`.
pub open spec fn is_node_tile(t: TreemapTile, c: ScanNode, depth: usize) -> bool {
    &&& t.label == c.name
    &&& t.path == (if c.kind == ScanNodeKind::Directory { Some(c.path) } else { None })
    &&& t.size == c.size
    &&& t.kind == tile_kind_of(c.kind)
    &&& t.partial == c.partial
    &&& t.pending == c.pending
    &&& t.depth == depth
}

/// The positions of the children that have a size, in order.
pub open spec fn visible_positions(ch: Seq<ScanNode>) -> Seq<usize>
    decreases ch.len(),
{
    if ch.len() == 0 {
        Seq::empty()
    } else if ch.last().size > 0 {
        visible_positions(ch.drop_last()).push((ch.len() - 1) as usize)
    } else {
        visible_positions(ch.drop_last())
    }
}

/// The sort key of a child: larger first, then by lower-cased name.
pub open spec fn tile_key(c: ScanNode) -> KeyView {
    ((u64::MAX - c.size) as u64, 0, Some(lowercase_of(c.name@)))
}

/// The sort keys of the children that have a size.
pub open spec fn level_keys(ch: Seq<ScanNode>) -> Seq<KeyView> {
    visible_positions(ch).map_values(|p: usize| tile_key(ch[p as int]))
}

/// How many children get a tile of their own among `n` with a size.
pub open spec fn shown_count(n: int) -> int {
    if n > MAX_CHILDREN_PER_LEVEL {
        MAX_CHILDREN_PER_LEVEL as int
    } else {
        n
    }
}

/// Child `i` gets a tile of its own when the children are ranked by `order`.
pub open spec fn is_shown(ch: Seq<ScanNode>, order: Seq<usize>, i: int) -> bool {
    let vis = visible_positions(ch);
    exists|k: int| 0 <= k < shown_count(vis.len() as int) && vis[order[k] as int] == i
}

/// Child `i` has a size but no tile of its own.
pub open spec fn is_hidden(ch: Seq<ScanNode>, order: Seq<usize>, i: int) -> bool {
    ch[i].size > 0 && !is_shown(ch, order, i)
}

/// Total size of the hidden children among the first `n`.
pub open spec fn hidden_size(ch: Seq<ScanNode>, order: Seq<usize>, n: int) -> nat
    decreases n,
{
    if n <= 0 {
        0
    } else {
        hidden_size(ch, order, n - 1) + if is_hidden(ch, order, n - 1) {
            ch[n - 1].size as nat
        } else {
            0
        }
    }
}

/// The tiles of one level of the treemap, with what the geometry needs.
#[derive(Debug)]
pub struct LevelPlan {
    /// The tiles, largest first, then the group of the others if any.
    pub tiles: Vec<TreemapTile>,
    /// For each tile, the position of its child, or `None` for the group.
    pub node_index: Vec<Option<usize>>,
    /// The total size of the children.
    pub total_size: u64,
    /// How many children with a size did not get a tile of their own.
    pub hidden_count: usize,
}

/// `plan` is the level of the children `ch` at depth `depth`, ranked by
/// `order`: the children with a size, largest first (equal sizes by
/// lower-cased name, then in their given order), the first ten with a
/// tile each, and the others, if any, in one mixed tile labelled
/// `others_label` that adds up their sizes and is partial when one of them
/// is.
pub open spec fn is_level_plan(
    ch: Seq<ScanNode>,
    depth: usize,
    others_label: Seq<char>,
    order: Seq<usize>,
    plan: LevelPlan,
) -> bool {
    let vis = visible_positions(ch);
    let n = vis.len() as int;
    let shown = shown_count(n);
    &&& plan.total_size == size_sum(ch)
    &&& plan.hidden_count == n - shown
    &&& plan.tiles.len() == plan.node_index.len()
    &&& plan.tiles.len() == shown + (if n > shown { 1int } else { 0int })
    &&& forall|k: int|
        0 <= k < shown ==> {
            &&& is_node_tile(#[trigger] plan.tiles@[k], ch[vis[order[k] as int] as int], depth)
            &&& plan.node_index@[k] == Some(vis[order[k] as int])
        }
    &&& n > shown ==> {
        let t = plan.tiles@[shown];
        &&& t.label@ == others_label
        &&& t.path is None
        &&& t.size == hidden_size(ch, order, ch.len() as int)
        &&& t.kind == TreemapTileKind::Mixed
        &&& t.partial == (exists|i: int|
            0 <= i < ch.len() && is_hidden(ch, order, i) && (#[trigger] ch[i]).partial)
        &&& !t.pending
        &&& t.depth == depth
        &&& plan.node_index@[shown] is None
    }
}

proof fn lemma_visible_positions(ch: Seq<ScanNode>)
    requires
        ch.len() <= usize::MAX,
    ensures
        forall|k: int|
            0 <= k < visible_positions(ch).len() ==> #[trigger] visible_positions(ch)[k] < ch.len()
                && ch[visible_positions(ch)[k] as int].size > 0,
    decreases ch.len(),
{
    if ch.len() > 0 {
        let rest = ch.drop_last();
        lemma_visible_positions(rest);
        assert forall|k: int| 0 <= k < visible_positions(ch).len() implies #[trigger] visible_positions(
            ch,
        )[k] < ch.len() && ch[visible_positions(ch)[k] as int].size > 0 by {
            if k < visible_positions(rest).len() {
                assert(visible_positions(ch)[k] == visible_positions(rest)[k]);
                assert(rest[visible_positions(rest)[k] as int] == ch[visible_positions(rest)[k] as int]);
            }
        }
    }
}

proof fn lemma_hidden_prefix(ch: Seq<ScanNode>, order: Seq<usize>, i: int, n: int)
    requires
        0 <= i <= n,
    ensures
        hidden_size(ch, order, i) <= hidden_size(ch, order, n),
    decreases n,
{
    if i < n {
        lemma_hidden_prefix(ch, order, i, n - 1);
    }
}

proof fn lemma_hidden_within(ch: Seq<ScanNode>, order: Seq<usize>, n: int)
    requires
        0 <= n <= ch.len(),
    ensures
        hidden_size(ch, order, n) <= size_sum(ch.subrange(0, n)),
    decreases n,
{
    if n > 0 {
        lemma_hidden_within(ch, order, n - 1);
        assert(ch.subrange(0, n).drop_last() == ch.subrange(0, n - 1));
    }
}

/// The positions of the children given a tile of their own, in tile order.
pub open spec fn shown_children(ch: Seq<ScanNode>, order: Seq<usize>) -> Seq<int> {
    let vis = visible_positions(ch);
    Seq::new(shown_count(vis.len() as int) as nat, |k: int| vis[order[k] as int] as int)
}

/// The total size of a sequence of tiles.
pub open spec fn tiles_total(tiles: Seq<TreemapTile>) -> nat
    decreases tiles.len(),
{
    if tiles.len() == 0 {
        0
    } else {
        tiles_total(tiles.drop_last()) + tiles.last().size as nat
    }
}

/// The total size of the children at the positions `idx`.
pub open spec fn picked_size(ch: Seq<ScanNode>, idx: Seq<int>) -> nat
    decreases idx.len(),
{
    if idx.len() == 0 {
        0
    } else {
        picked_size(ch, idx.drop_last()) + ch[idx.last()].size as nat
    }
}

/// The total size of the first `n` children whose position is in `idx`.
pub open spec fn marked_size(ch: Seq<ScanNode>, idx: Seq<int>, n: int) -> nat
    decreases n,
{
    if n <= 0 {
        0
    } else {
        marked_size(ch, idx, n - 1) + if idx.contains(n - 1) {
            ch[n - 1].size as nat
        } else {
            0
        }
    }
}

proof fn lemma_marked_push(ch: Seq<ScanNode>, idx: Seq<int>, x: int, n: int)
    requires
        !idx.contains(x),
    ensures
        marked_size(ch, idx.push(x), n) == marked_size(ch, idx, n) + if 0 <= x < n {
            ch[x].size as nat
        } else {
            0
        },
    decreases n,
{
    if n > 0 {
        lemma_marked_push(ch, idx, x, n - 1);
        if idx.push(x).contains(n - 1) && n - 1 != x {
            let w = choose|w: int| 0 <= w < idx.push(x).len() && idx.push(x)[w] == n - 1;
            assert(idx[w] == n - 1);
        }
        if idx.contains(n - 1) {
            let w = choose|w: int| 0 <= w < idx.len() && idx[w] == n - 1;
            assert(idx.push(x)[w] == n - 1);
        }
        if n - 1 == x {
            assert(idx.push(x)[idx.len() as int] == x);
        }
    }
}

proof fn lemma_picked_is_marked(ch: Seq<ScanNode>, idx: Seq<int>)
    requires
        idx.no_duplicates(),
        forall|k: int| 0 <= k < idx.len() ==> 0 <= #[trigger] idx[k] < ch.len(),
    ensures
        picked_size(ch, idx) == marked_size(ch, idx, ch.len() as int),
    decreases idx.len(),
{
    if idx.len() == 0 {
        lemma_marked_nothing(ch, idx, ch.len() as int);
    } else {
        let rest = idx.drop_last();
        let x = idx.last();
        assert(rest.push(x) =~= idx);
        assert(!rest.contains(x)) by {
            if rest.contains(x) {
                let w = choose|w: int| 0 <= w < rest.len() && rest[w] == x;
                assert(idx[w] == idx[idx.len() - 1]);
            }
        }
        assert forall|a: int, b: int| 0 <= a < rest.len() && 0 <= b < rest.len() && a != b implies rest[a]
            != rest[b] by {
            assert(idx[a] == rest[a] && idx[b] == rest[b]);
        }
        assert forall|k: int| 0 <= k < rest.len() implies 0 <= #[trigger] rest[k] < ch.len() by {
            assert(idx[k] == rest[k]);
        }
        lemma_picked_is_marked(ch, rest);
        lemma_marked_push(ch, rest, x, ch.len() as int);
        assert(0 <= idx[idx.len() - 1] < ch.len());
    }
}

proof fn lemma_marked_nothing(ch: Seq<ScanNode>, idx: Seq<int>, n: int)
    requires
        idx.len() == 0,
    ensures
        marked_size(ch, idx, n) == 0,
    decreases n,
{
    if n > 0 {
        lemma_marked_nothing(ch, idx, n - 1);
    }
}

proof fn lemma_split_sizes(ch: Seq<ScanNode>, order: Seq<usize>, idx: Seq<int>, n: int)
    requires
        0 <= n <= ch.len(),
        forall|i: int| 0 <= i < ch.len() ==> (#[trigger] is_shown(ch, order, i) <==> idx.contains(i)),
    ensures
        size_sum(ch.subrange(0, n)) == marked_size(ch, idx, n) + hidden_size(ch, order, n),
    decreases n,
{
    if n > 0 {
        lemma_split_sizes(ch, order, idx, n - 1);
        assert(ch.subrange(0, n).drop_last() == ch.subrange(0, n - 1));
        assert(is_shown(ch, order, n - 1) <==> idx.contains(n - 1));
    }
}

proof fn lemma_visible_order(ch: Seq<ScanNode>)
    requires
        ch.len() <= usize::MAX,
    ensures
        forall|a: int, b: int|
            0 <= a < b < visible_positions(ch).len() ==> #[trigger] visible_positions(ch)[a]
                < #[trigger] visible_positions(ch)[b],
        forall|i: int|
            0 <= i < ch.len() && (#[trigger] ch[i]).size > 0 ==> visible_positions(ch).contains(
                i as usize,
            ),
    decreases ch.len(),
{
    if ch.len() > 0 {
        let rest = ch.drop_last();
        lemma_visible_order(rest);
        lemma_visible_positions(rest);
        let vr = visible_positions(rest);
        let v = visible_positions(ch);
        assert forall|a: int, b: int| 0 <= a < b < v.len() implies #[trigger] v[a] < #[trigger] v[b] by {
            if b < vr.len() {
                assert(v[a] == vr[a] && v[b] == vr[b]);
            } else {
                assert(v[a] == vr[a]);
            }
        }
        assert forall|i: int| 0 <= i < ch.len() && (#[trigger] ch[i]).size > 0 implies v.contains(
            i as usize,
        ) by {
            if i < ch.len() - 1 {
                assert(rest[i] == ch[i]);
                assert(vr.contains(i as usize));
                let w = choose|w: int| 0 <= w < vr.len() && vr[w] == i as usize;
                assert(v[w] == i as usize);
            } else {
                assert(v[vr.len() as int] == i as usize);
            }
        }
    }
}

proof fn lemma_tiles_prefix(ch: Seq<ScanNode>, tiles: Seq<TreemapTile>, idx: Seq<int>, m: int)
    requires
        0 <= m <= idx.len(),
        idx.len() <= tiles.len(),
        forall|k: int| 0 <= k < idx.len() ==> (#[trigger] tiles[k]).size == ch[idx[k]].size,
    ensures
        tiles_total(tiles.take(m)) == picked_size(ch, idx.take(m)),
    decreases m,
{
    if m > 0 {
        lemma_tiles_prefix(ch, tiles, idx, m - 1);
        assert(tiles.take(m).drop_last() =~= tiles.take(m - 1));
        assert(idx.take(m).drop_last() =~= idx.take(m - 1));
    }
}

/// Each tile of a level shows what it stands for: the tile of a file is a
/// file tile, the tile of a directory a directory tile, and only the group
/// of the others is mixed.
pub proof fn lemma_tile_kinds_follow_nodes(
    ch: Seq<ScanNode>,
    depth: usize,
    others_label: Seq<char>,
    order: Seq<usize>,
    plan: LevelPlan,
)
    requires
        ch.len() <= usize::MAX,
        is_stable_order(level_keys(ch), order),
        is_level_plan(ch, depth, others_label, order, plan),
    ensures
        forall|k: int|
            0 <= k < plan.tiles.len() ==> match #[trigger] plan.node_index@[k] {
                Some(i) => {
                    &&& i < ch.len()
                    &&& (plan.tiles@[k].kind == TreemapTileKind::File <==> ch[i as int].kind
                        == ScanNodeKind::File)
                    &&& (plan.tiles@[k].kind == TreemapTileKind::Directory <==> ch[i as int].kind
                        == ScanNodeKind::Directory)
                    &&& plan.tiles@[k].kind != TreemapTileKind::Mixed
                },
                None => plan.tiles@[k].kind == TreemapTileKind::Mixed,
            },
{
    let vis = visible_positions(ch);
    let n = vis.len() as int;
    let shown = shown_count(n);
    lemma_visible_positions(ch);
    lemma_visible_order(ch);
    assert(level_keys(ch).len() == n);
    assert forall|k: int| 0 <= k < plan.tiles.len() implies match #[trigger] plan.node_index@[k] {
        Some(i) => {
            &&& i < ch.len()
            &&& (plan.tiles@[k].kind == TreemapTileKind::File <==> ch[i as int].kind
                == ScanNodeKind::File)
            &&& (plan.tiles@[k].kind == TreemapTileKind::Directory <==> ch[i as int].kind
                == ScanNodeKind::Directory)
            &&& plan.tiles@[k].kind != TreemapTileKind::Mixed
        },
        None => plan.tiles@[k].kind == TreemapTileKind::Mixed,
    } by {
        if k < shown {
            assert(order[k] < n);
            assert(is_node_tile(plan.tiles@[k], ch[vis[order[k] as int] as int], depth));
        }
    }
}

/// The tiles of a level account for all of its children: their sizes add
/// up to the children's total, nothing counted twice or left out.
pub proof fn lemma_level_accounts_for_children(
    ch: Seq<ScanNode>,
    depth: usize,
    others_label: Seq<char>,
    order: Seq<usize>,
    plan: LevelPlan,
)
    requires
        ch.len() <= usize::MAX,
        is_stable_order(level_keys(ch), order),
        is_level_plan(ch, depth, others_label, order, plan),
    ensures
        tiles_total(plan.tiles@) == plan.total_size,
{
    let vis = visible_positions(ch);
    let n = vis.len() as int;
    let shown = shown_count(n);
    let idx = shown_children(ch, order);
    lemma_visible_positions(ch);
    lemma_visible_order(ch);
    assert(level_keys(ch).len() == n);
    // The shown positions are distinct children.
    assert forall|k: int| 0 <= k < idx.len() implies 0 <= #[trigger] idx[k] < ch.len() by {
        assert(order[k] < n);
    }
    assert(idx.no_duplicates()) by {
        assert forall|a: int, b: int| 0 <= a < idx.len() && 0 <= b < idx.len() && a != b implies idx[a]
            != idx[b] by {
            let (x, y) = if a < b {
                (a, b)
            } else {
                (b, a)
            };
            assert(precedes(level_keys(ch), order[x] as int, order[y] as int));
            if order[x] == order[y] {
                lemma_key_lt_irreflexive(level_keys(ch)[order[x] as int]);
            }
            if order[x] < order[y] {
                assert(vis[order[x] as int] < vis[order[y] as int]);
            } else {
                assert(vis[order[y] as int] < vis[order[x] as int]);
            }
        }
    }
    assert forall|i: int| 0 <= i < ch.len() implies (#[trigger] is_shown(ch, order, i) <==> idx.contains(i)) by {
        if is_shown(ch, order, i) {
            let k = choose|k: int| 0 <= k < shown && vis[order[k] as int] == i;
            assert(idx[k] == i);
        }
        if idx.contains(i) {
            let k = choose|k: int| 0 <= k < idx.len() && idx[k] == i;
            assert(vis[order[k] as int] == i);
        }
    }
    lemma_picked_is_marked(ch, idx);
    lemma_split_sizes(ch, order, idx, ch.len() as int);
    assert(ch.subrange(0, ch.len() as int) =~= ch);
    assert forall|k: int| 0 <= k < idx.len() implies (#[trigger] plan.tiles@[k]).size == ch[idx[k]].size by {
        assert(is_node_tile(plan.tiles@[k], ch[vis[order[k] as int] as int], depth));
    }
    lemma_tiles_prefix(ch, plan.tiles@, idx, shown);
    assert(idx.take(shown) =~= idx);
    if n > shown {
        assert(plan.tiles@.take(shown) =~= plan.tiles@.drop_last());
    } else {
        assert(plan.tiles@.take(shown) =~= plan.tiles@);
        // Every child with a size has a tile, so nothing is hidden.
        assert forall|i: int| 0 <= i < ch.len() implies !is_hidden(ch, order, i) by {
            if ch[i].size > 0 {
                assert(vis.contains(i as usize));
                let p = choose|p: int| 0 <= p < n && vis[p] == i as usize;
                assert(order.contains(p as usize));
                let k = choose|k: int| 0 <= k < order.len() && order[k] == p as usize;
                assert(vis[order[k] as int] == i);
            }
        }
        lemma_nothing_hidden(ch, order, ch.len() as int);
    }
}

proof fn lemma_nothing_hidden(ch: Seq<ScanNode>, order: Seq<usize>, n: int)
    requires
        n <= ch.len(),
        forall|i: int| 0 <= i < ch.len() ==> !is_hidden(ch, order, i),
    ensures
        hidden_size(ch, order, n) == 0,
    decreases n,
{
    if n > 0 {
        lemma_nothing_hidden(ch, order, n - 1);
    }
}

/// Plans one level of the treemap from the children of a directory.
#[verifier::spinoff_prover]
#[verifier::rlimit(30)]
pub fn plan_level(children: &Vec<ScanNode>, depth: usize, strings: &TreemapStrings) -> (plan:
    LevelPlan)
    requires
        size_sum(children@) <= u64::MAX,
    ensures
        exists|order: Seq<usize>|
            is_stable_order(level_keys(children@), order) && is_level_plan(
                children@,
                depth,
                strings.others_label@,
                order,
                plan,
            ),
{
    let ghost ch = children@;
    // The children with a size, and their sort keys.
    let mut vis: Vec<usize> = Vec::new();
    let mut keys: Vec<SortKey> = Vec::new();
    let mut total: u64 = 0;
    let mut i: usize = 0;
    assert(ch.subrange(0, 0) =~= Seq::<ScanNode>::empty());
    while i < children.len()
        invariant
            ch == children@,
            size_sum(ch) <= u64::MAX,
            i <= children.len(),
            vis@ == visible_positions(ch.subrange(0, i as int)),
            key_views(keys@) == visible_positions(ch.subrange(0, i as int)).map_values(
                |p: usize| tile_key(ch[p as int]),
            ),
            total == size_sum(ch.subrange(0, i as int)),
        decreases children.len() - i,
    {
        let ghost prefix = ch.subrange(0, i as int);
        let ghost next = ch.subrange(0, i + 1);
        assert(next.drop_last() =~= prefix);
        proof {
            crate::model::scan_node::lemma_size_prefix(ch, i + 1);
        }
        let c = &children[i];
        total = total + c.size;
        let ghost old_keys = keys@;
        if c.size > 0 {
            assert(visible_positions(next) == visible_positions(prefix).push(i));
            vis.push(i);
            let lower = to_lowercase(c.name.as_str());
            keys.push(SortKey { first: u64::MAX - c.size, second: 0, text: Some(chars_of(lower.as_str())) });
            assert(keys@[keys.len() - 1]@ == tile_key(ch[i as int]));
            assert forall|j: int| 0 <= j < old_keys.len() implies #[trigger] keys@[j] == old_keys[j] by {}
            assert(key_views(old_keys).len() == old_keys.len());
            assert(old_keys.len() == visible_positions(prefix).len());
            assert(visible_positions(next).len() == keys.len());
            assert(key_views(keys@).len() == keys.len());
            assert forall|j: int| 0 <= j < keys.len() implies #[trigger] key_views(keys@)[j] == visible_positions(next).map_values(
                |p: usize| tile_key(ch[p as int]),
            )[j] by {
                if j < old_keys.len() {
                    assert(key_views(old_keys)[j] == visible_positions(prefix).map_values(
                        |p: usize| tile_key(ch[p as int]),
                    )[j]);
                }
            }
            assert(key_views(keys@) =~= visible_positions(next).map_values(
                |p: usize| tile_key(ch[p as int]),
            ));
        }
        i = i + 1;
    }
    assert(ch.subrange(0, i as int) =~= ch);
    let ghost vs = visible_positions(ch);
    proof {
        lemma_visible_positions(ch);
    }
    assert(key_views(keys@) == level_keys(ch));
    let order = stable_order(&keys);
    let n = vis.len();
    let shown = if n > MAX_CHILDREN_PER_LEVEL {
        MAX_CHILDREN_PER_LEVEL
    } else {
        n
    };
    let mut tiles: Vec<TreemapTile> = Vec::new();
    let mut node_index: Vec<Option<usize>> = Vec::new();
    if n == 0 {
        return LevelPlan { tiles, node_index, total_size: total, hidden_count: 0 };
    }
    // The tiles of the largest children, and which children they stand for.
    let mut shown_flags: Vec<bool> = Vec::new();
    let mut f: usize = 0;
    while f < children.len()
        invariant
            f <= children.len(),
            shown_flags.len() == f,
            forall|q: int| 0 <= q < f ==> !shown_flags@[q],
        decreases children.len() - f,
    {
        shown_flags.push(false);
        f = f + 1;
    }
    let mut k: usize = 0;
    while k < shown
        invariant
            ch == children@,
            vis@ == vs,
            vs == visible_positions(ch),
            n == vs.len(),
            shown == shown_count(n as int),
            order.len() == n,
            is_stable_order(level_keys(ch), order@),
            forall|q: int| 0 <= q < vs.len() ==> #[trigger] vs[q] < ch.len() && ch[vs[q] as int].size > 0,
            k <= shown,
            shown_flags.len() == children.len(),
            tiles.len() == k,
            node_index.len() == k,
            forall|q: int|
                0 <= q < k ==> {
                    &&& is_node_tile(#[trigger] tiles@[q], ch[vs[order@[q] as int] as int], depth)
                    &&& node_index@[q] == Some(vs[order@[q] as int])
                },
            forall|c: int|
                0 <= c < ch.len() ==> (#[trigger] shown_flags@[c] <==> exists|q: int|
                    0 <= q < k && vs[order@[q] as int] == c),
        decreases shown - k,
    {
        let c = vis[order[k]];
        let node = DisplayNode::Node(&children[c]);
        tiles.push(
            TreemapTile {
                label: node.label(),
                path: node.path(),
                size: node.size(),
                kind: node.kind(),
                partial: node.partial(),
                pending: node.pending(),
                depth,
            },
        );
        node_index.push(Some(c));
        let ghost old_flags = shown_flags@;
        shown_flags.set(c, true);
        assert forall|d: int| 0 <= d < ch.len() implies (#[trigger] shown_flags@[d] <==> exists|q: int|
            0 <= q < k + 1 && vs[order@[q] as int] == d) by {
            if d == c {
                assert(vs[order@[k as int] as int] == d);
            } else {
                assert(shown_flags@[d] == old_flags[d]);
            }
        }
        k = k + 1;
    }
    if n > MAX_CHILDREN_PER_LEVEL {
        // The remaining children, grouped.
        let mut hidden_total: u64 = 0;
        let mut hidden_partial = false;
        let mut h: usize = 0;
        assert forall|c: int| 0 <= c < ch.len() implies (#[trigger] shown_flags@[c] <==> is_shown(
            ch,
            order@,
            c,
        )) by {}
        while h < children.len()
            invariant
                ch == children@,
                vs == visible_positions(ch),
                n == vs.len(),
                shown == shown_count(n as int),
                tiles.len() == shown,
                node_index.len() == shown,
                forall|q: int|
                    0 <= q < shown ==> {
                        &&& is_node_tile(#[trigger] tiles@[q], ch[vs[order@[q] as int] as int], depth)
                        &&& node_index@[q] == Some(vs[order@[q] as int])
                    },
                size_sum(ch) <= u64::MAX,
                h <= children.len(),
                shown_flags.len() == children.len(),
                forall|c: int|
                    0 <= c < ch.len() ==> (#[trigger] shown_flags@[c] <==> is_shown(ch, order@, c)),
                hidden_total == hidden_size(ch, order@, h as int),
                hidden_partial == (exists|q: int|
                    0 <= q < h && is_hidden(ch, order@, q) && (#[trigger] ch[q]).partial),
            decreases children.len() - h,
        {
            proof {
                lemma_hidden_within(ch, order@, h + 1);
                crate::model::scan_node::lemma_size_prefix(ch, h + 1);
            }
            let c = &children[h];
            if c.size > 0 && !shown_flags[h] {
                hidden_total = hidden_total + c.size;
                if c.partial {
                    hidden_partial = true;
                }
            }
            assert(hidden_partial == (exists|q: int|
                0 <= q < h + 1 && is_hidden(ch, order@, q) && (#[trigger] ch[q]).partial)) by {
                if is_hidden(ch, order@, h as int) && ch[h as int].partial {
                    assert(ch[h as int].partial);
                }
            }
            h = h + 1;
        }
        let ghost shown_tiles = tiles@;
        let ghost shown_index = node_index@;
        let others = DisplayNode::Others {
            label: strings.others_label.as_str(),
            size: hidden_total,
            partial: hidden_partial,
        };
        tiles.push(
            TreemapTile {
                label: others.label(),
                path: others.path(),
                size: others.size(),
                kind: others.kind(),
                partial: others.partial(),
                pending: others.pending(),
                depth,
            },
        );
        node_index.push(None);
        assert forall|k: int| 0 <= k < shown implies #[trigger] tiles@[k] == shown_tiles[k] && node_index@[k]
            == shown_index[k] by {}
        let plan = LevelPlan { tiles, node_index, total_size: total, hidden_count: n - MAX_CHILDREN_PER_LEVEL };
        assert forall|k: int| 0 <= k < shown implies {
            &&& is_node_tile(#[trigger] plan.tiles@[k], ch[vs[order@[k] as int] as int], depth)
            &&& plan.node_index@[k] == Some(vs[order@[k] as int])
        } by {
            assert(plan.tiles@[k] == shown_tiles[k]);
            assert(is_node_tile(shown_tiles[k], ch[vs[order@[k] as int] as int], depth));
        }
        assert(is_level_plan(ch, depth, strings.others_label@, order@, plan));
        return plan;
    }
    let plan = LevelPlan { tiles, node_index, total_size: total, hidden_count: 0 };
    assert(is_level_plan(ch, depth, strings.others_label@, order@, plan));
    plan
}


/// The name of a tile's kind.
pub open spec fn kind_label(kind: TreemapTileKind, strings: TreemapStrings) -> Seq<char> {
    match kind {
        TreemapTileKind::Directory => strings.folder_label@,
        TreemapTileKind::File => strings.file_label@,
        TreemapTileKind::Mixed => strings.group_label@,
    }
}

/// The lines of a tile's tooltip: its label, its size, its kind and level
/// (counted from one), then whether it is partial or else still pending.
pub open spec fn hover_text(tile: TreemapTile, strings: TreemapStrings) -> Seq<Seq<char>> {
    let base = seq![
        tile.label@,
        size_text(tile.size),
        kind_label(tile.kind, strings) + seq![' ', ' ', '•', ' ', ' '] + strings.level_label@ + seq![' ']
            + decimal(tile.depth as nat + 1),
    ];
    if tile.partial {
        base.push(strings.partial_label@)
    } else if tile.pending {
        base.push(strings.pending_label@)
    } else {
        base
    }
}

/// The tooltip lines of a tile.
pub fn hover_lines(tile: &TreemapTile, strings: &TreemapStrings) -> (lines: Vec<String>)
    requires
        tile.depth < usize::MAX,
    ensures
        lines.len() == hover_text(*tile, *strings).len(),
        forall|i: int| 0 <= i < lines.len() ==> (#[trigger] lines@[i])@ == hover_text(*tile, *strings)[i],
{
    let mut lines: Vec<String> = Vec::new();
    lines.push(tile.label.clone());
    lines.push(format_size(tile.size));
    let kind = match tile.kind {
        TreemapTileKind::Directory => &strings.folder_label,
        TreemapTileKind::File => &strings.file_label,
        TreemapTileKind::Mixed => &strings.group_label,
    };
    let mut cs = chars_of(kind.as_str());
    cs.push(' ');
    cs.push(' ');
    cs.push('•');
    cs.push(' ');
    cs.push(' ');
    extend_chars(&mut cs, &chars_of(strings.level_label.as_str()));
    cs.push(' ');
    let level = (tile.depth + 1) as u64;
    extend_chars(&mut cs, &decimal_chars(level));
    lines.push(string_from_chars(&cs));
    if tile.partial {
        lines.push(strings.partial_label.clone());
    } else if tile.pending {
        lines.push(strings.pending_label.clone());
    }
    let ghost expected = hover_text(*tile, *strings);
    assert(cs@ == expected[2]);
    lines
}

} // verus!
