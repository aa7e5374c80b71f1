//! The scan tree: a directory with the sizes of what it holds.

use vstd::prelude::*;
use crate::model::file_entry::{FileEntry, FileEntryKind};
use crate::paths;
use crate::paths::{ends_in_name, last_segment};

verus! {

#[derive(Debug, Clone, Copy, PartialEq, Eq, Structural)]
pub enum ScanNodeKind {
    File,
    Directory,
}

/// A node of the scan tree. A directory's `size`, `partial` and `pending`
/// summarize its children once refreshed.
#[derive(Debug)]
pub struct ScanNode {
    pub path: String,
    pub name: String,
    pub kind: ScanNodeKind,
    pub size: u64,
    pub partial: bool,
    pub pending: bool,
    pub children: Vec<ScanNode>,
}

/// The sum of the sizes of the nodes of `s`.
pub open spec fn size_sum(s: Seq<ScanNode>) -> nat
    decreases s.len(),
{
    if s.len() == 0 {
        0
    } else {
        size_sum(s.drop_last()) + s.last().size as nat
    }
}

/// Some node of `s` is partial.
pub open spec fn any_partial(s: Seq<ScanNode>) -> bool {
    exists|i: int| 0 <= i < s.len() && (#[trigger] s[i]).partial
}

/// Some node of `s` is pending.
pub open spec fn any_pending(s: Seq<ScanNode>) -> bool {
    exists|i: int| 0 <= i < s.len() && (#[trigger] s[i]).pending
}

/// `n` after its summary has been recomputed from its children: a file is
/// left alone; a directory takes the total size of its children and is
/// partial (pending) when one of them is.
pub open spec fn refreshed(n: ScanNode) -> ScanNode {
    if n.kind == ScanNodeKind::File {
        n
    } else {
        ScanNode {
            path: n.path,
            name: n.name,
            kind: n.kind,
            size: size_sum(n.children@) as u64,
            partial: any_partial(n.children@),
            pending: any_pending(n.children@),
            children: n.children,
        }
    }
}

/// The children of `n` total no more than `u64::MAX` when it is a directory,
/// so that refreshing it cannot overflow.
pub open spec fn refresh_fits(n: ScanNode) -> bool {
    n.kind == ScanNodeKind::Directory ==> size_sum(n.children@) <= u64::MAX
}

/// The number of pending leaves under `n`: a node without children counts
/// itself, a node with children counts only what is below it.
pub open spec fn pending_leaves(n: ScanNode) -> nat
    decreases n, 1nat,
{
    if n.children.len() == 0 {
        if n.pending {
            1
        } else {
            0
        }
    } else {
        pending_leaves_in(n.children@)
    }
}

/// The pending leaves under the nodes of `s`.
pub open spec fn pending_leaves_in(s: Seq<ScanNode>) -> nat
    decreases s, 0nat,
{
    if s.len() == 0 {
        0
    } else {
        pending_leaves_in(s.drop_last()) + pending_leaves(s.last())
    }
}


/// Some prefix sum of the pending leaves never exceeds the whole.
pub proof fn lemma_pending_prefix(s: Seq<ScanNode>, i: int)
    requires
        0 <= i <= s.len(),
    ensures
        pending_leaves_in(s.subrange(0, i)) <= pending_leaves_in(s),
    decreases s.len(),
{
    if i < s.len() {
        lemma_pending_prefix(s.drop_last(), i);
        assert(s.drop_last().subrange(0, i) == s.subrange(0, i));
    } else {
        assert(s.subrange(0, i) == s);
    }
}

/// The number of partial leaves under `n`, counted as `pending_leaves` is.
pub open spec fn partial_leaves(n: ScanNode) -> nat
    decreases n, 1nat,
{
    if n.children.len() == 0 {
        if n.partial {
            1
        } else {
            0
        }
    } else {
        partial_leaves_in(n.children@)
    }
}

/// The partial leaves under the nodes of `s`.
pub open spec fn partial_leaves_in(s: Seq<ScanNode>) -> nat
    decreases s, 0nat,
{
    if s.len() == 0 {
        0
    } else {
        partial_leaves_in(s.drop_last()) + partial_leaves(s.last())
    }
}

pub proof fn lemma_partial_prefix(s: Seq<ScanNode>, i: int)
    requires
        0 <= i <= s.len(),
    ensures
        partial_leaves_in(s.subrange(0, i)) <= partial_leaves_in(s),
    decreases s.len(),
{
    if i < s.len() {
        lemma_partial_prefix(s.drop_last(), i);
        assert(s.drop_last().subrange(0, i) == s.subrange(0, i));
    } else {
        assert(s.subrange(0, i) == s);
    }
}

proof fn lemma_leaves_in_concat(a: Seq<ScanNode>, b: Seq<ScanNode>)
    ensures
        partial_leaves_in(a + b) == partial_leaves_in(a) + partial_leaves_in(b),
        pending_leaves_in(a + b) == pending_leaves_in(a) + pending_leaves_in(b),
    decreases b.len(),
{
    if b.len() > 0 {
        lemma_leaves_in_concat(a, b.drop_last());
        assert((a + b).drop_last() =~= a + b.drop_last());
        assert((a + b).last() == b.last());
    } else {
        assert(a + b =~= a);
    }
}

/// Partial and pending items are counted leaf by leaf: when the children of
/// a directory are those of two other nodes put together, each count is the
/// sum of the two nodes' counts, so every partial (pending) leaf below
/// counts once.
pub proof fn lemma_counts_add_up(n: ScanNode, a: ScanNode, b: ScanNode)
    requires
        a.children@.len() > 0,
        b.children@.len() > 0,
        n.children@ == a.children@ + b.children@,
    ensures
        partial_leaves(n) == partial_leaves(a) + partial_leaves(b),
        pending_leaves(n) == pending_leaves(a) + pending_leaves(b),
{
    lemma_leaves_in_concat(a.children@, b.children@);
}

/// A node without children counts one partial (pending) item when it is
/// partial (pending) itself, and none otherwise; a node with a single child
/// counts what that child counts.
pub proof fn lemma_counts_of_leaf_and_only_child(n: ScanNode, c: ScanNode)
    ensures
        n.children@.len() == 0 ==> partial_leaves(n) == (if n.partial { 1nat } else { 0nat }),
        n.children@.len() == 0 ==> pending_leaves(n) == (if n.pending { 1nat } else { 0nat }),
        n.children@ == seq![c] ==> partial_leaves(n) == partial_leaves(c),
        n.children@ == seq![c] ==> pending_leaves(n) == pending_leaves(c),
{
    if n.children@ == seq![c] {
        let s = n.children@;
        assert(s.drop_last() =~= Seq::<ScanNode>::empty());
        assert(s.last() == c);
        assert(partial_leaves_in(s) == partial_leaves_in(s.drop_last()) + partial_leaves(c));
        assert(pending_leaves_in(s) == pending_leaves_in(s.drop_last()) + pending_leaves(c));
        assert(partial_leaves_in(s.drop_last()) == 0);
        assert(pending_leaves_in(s.drop_last()) == 0);
    }
}

/// A listed file becomes a file node and a listed directory a directory
/// node: the nodes of a listing have the kinds of the entries they stand
/// for, in order, links left out.
pub proof fn lemma_listed_node_kinds(nodes: Seq<ScanNode>, entries: Seq<FileEntry>)
    requires
        nodes_of_entries(nodes, entries),
    ensures
        forall|i: int|
            0 <= i < nodes.len() ==> {
                &&& non_links(entries)[i].kind != FileEntryKind::Symlink
                &&& ((#[trigger] nodes[i]).kind == ScanNodeKind::File <==> non_links(entries)[i].kind
                    == FileEntryKind::File)
                &&& (nodes[i].kind == ScanNodeKind::Directory <==> non_links(entries)[i].kind
                    == FileEntryKind::Directory)
                &&& nodes[i].path == non_links(entries)[i].path
            },
{
    lemma_non_links_are_not_links(entries);
    assert forall|i: int| 0 <= i < nodes.len() implies {
        &&& non_links(entries)[i].kind != FileEntryKind::Symlink
        &&& ((#[trigger] nodes[i]).kind == ScanNodeKind::File <==> non_links(entries)[i].kind
            == FileEntryKind::File)
        &&& (nodes[i].kind == ScanNodeKind::Directory <==> non_links(entries)[i].kind
            == FileEntryKind::Directory)
        &&& nodes[i].path == non_links(entries)[i].path
    } by {
        assert(node_of_entry(nodes[i], non_links(entries)[i]));
    }
}

proof fn lemma_non_links_are_not_links(entries: Seq<FileEntry>)
    ensures
        forall|i: int|
            0 <= i < non_links(entries).len() ==> (#[trigger] non_links(entries)[i]).kind
                != FileEntryKind::Symlink,
    decreases entries.len(),
{
    if entries.len() > 0 {
        lemma_non_links_are_not_links(entries.drop_last());
    }
}

pub proof fn lemma_size_prefix(s: Seq<ScanNode>, i: int)
    requires
        0 <= i <= s.len(),
    ensures
        size_sum(s.subrange(0, i)) <= size_sum(s),
    decreases s.len(),
{
    if i < s.len() {
        lemma_size_prefix(s.drop_last(), i);
        assert(s.drop_last().subrange(0, i) == s.subrange(0, i));
    } else {
        assert(s.subrange(0, i) == s);
    }
}

/// `n` with its children replaced by `children`.
pub open spec fn with_children(n: ScanNode, children: Vec<ScanNode>) -> ScanNode {
    ScanNode {
        path: n.path,
        name: n.name,
        kind: n.kind,
        size: n.size,
        partial: n.partial,
        pending: n.pending,
        children,
    }
}

/// `k` is the first position of `s` whose node has the path `path`.
pub open spec fn is_first_with_path(s: Seq<ScanNode>, path: Seq<char>, k: int) -> bool {
    &&& 0 <= k < s.len()
    &&& s[k].path@ == path
    &&& forall|j: int| 0 <= j < k ==> (#[trigger] s[j]).path@ != path
}

/// Some node of `s` has the path `path`.
pub open spec fn has_path(s: Seq<ScanNode>, path: Seq<char>) -> bool {
    exists|k: int| 0 <= k < s.len() && (#[trigger] s[k]).path@ == path
}

/// The child `k` of `n` failed to scan: it keeps its path, name and kind,
/// and is empty, not pending and partial.
pub open spec fn is_failed_version(c: ScanNode, old: ScanNode) -> bool {
    &&& c.path == old.path
    &&& c.name == old.name
    &&& c.kind == old.kind
    &&& c.size == 0
    &&& c.partial
    &&& !c.pending
    &&& c.children@.len() == 0
}

/// Replacing the first child with path `path` by `child` keeps the
/// children's total within `u64::MAX`.
pub open spec fn child_update_fits(n: ScanNode, path: Seq<char>, child: ScanNode) -> bool {
    forall|k: int|
        is_first_with_path(n.children@, path, k) ==> (n.kind == ScanNodeKind::Directory
            ==> size_sum(#[trigger] n.children@.update(k, child)) <= u64::MAX)
}

/// Emptying the first child with path `path` keeps the children's total
/// within `u64::MAX`.
pub open spec fn child_failure_fits(n: ScanNode, path: Seq<char>) -> bool {
    forall|k: int, c: ScanNode|
        is_first_with_path(n.children@, path, k) && c.size == 0 ==> (n.kind
            == ScanNodeKind::Directory ==> size_sum(#[trigger] n.children@.update(k, c)) <= u64::MAX)
}

/// `new` is `old` with its first child of path `path` replaced by `child`
/// and refreshed; or `old` itself when no child has that path.
pub open spec fn child_updated(old: ScanNode, new: ScanNode, path: Seq<char>, child: ScanNode) -> bool {
    &&& has_path(old.children@, path) ==> exists|k: int|
        is_first_with_path(old.children@, path, k) && new.children@ == old.children@.update(k, child)
            && new == refreshed(with_children(old, new.children))
    &&& !has_path(old.children@, path) ==> new == old
}

/// `new` is `old` with its first child of path `path` marked failed and
/// refreshed; or `old` itself when no child has that path.
pub open spec fn child_failed(old: ScanNode, new: ScanNode, path: Seq<char>) -> bool {
    &&& has_path(old.children@, path) ==> exists|k: int|
        is_first_with_path(old.children@, path, k) && new.children@.len() == old.children@.len()
            && (forall|j: int|
            0 <= j < old.children@.len() && j != k ==> new.children@[j] == old.children@[j])
            && is_failed_version(new.children@[k], old.children@[k]) && new == refreshed(
            with_children(old, new.children),
        )
    &&& !has_path(old.children@, path) ==> new == old
}

/// Replacing one node of `s` changes the total by the difference of sizes.
pub proof fn lemma_size_sum_update(s: Seq<ScanNode>, k: int, c: ScanNode)
    requires
        0 <= k < s.len(),
    ensures
        size_sum(s.update(k, c)) == size_sum(s) - s[k].size + c.size,
    decreases s.len(),
{
    if k < s.len() - 1 {
        lemma_size_sum_update(s.drop_last(), k, c);
        assert(s.update(k, c).drop_last() == s.drop_last().update(k, c));
    } else {
        assert(s.update(k, c).drop_last() == s.drop_last());
    }
}

/// Sequences of the same length whose nodes have the same sizes have the
/// same total.
pub proof fn lemma_size_sum_same_sizes(a: Seq<ScanNode>, b: Seq<ScanNode>)
    requires
        a.len() == b.len(),
        forall|i: int| 0 <= i < a.len() ==> (#[trigger] a[i]).size == b[i].size,
    ensures
        size_sum(a) == size_sum(b),
    decreases a.len(),
{
    if a.len() > 0 {
        lemma_size_sum_same_sizes(a.drop_last(), b.drop_last());
    }
}

/// The name shown for a directory: its final path component when it has one,
/// else the whole path.
pub open spec fn directory_display_name(path: Seq<char>, file_name: Option<Seq<char>>) -> Seq<char> {
    match file_name {
        Some(n) => n,
        None => path,
    }
}

/// `name` is what a directory at `path` is shown as: the path's final
/// component, or the whole path when it has none. Where the platform's path
/// syntax decides, only that the name is not empty (for a non-empty path).
pub open spec fn is_directory_name_of(name: Seq<char>, path: Seq<char>) -> bool {
    &&& ends_in_name(path) ==> name == last_segment(path)
    &&& path == seq!['/'] ==> name == path
    &&& name.len() > 0 || path.len() == 0
}

/// The node that a listed entry becomes, if it becomes one: files and
/// directories keep their path, name, size and partial flag; only a
/// directory can be pending; a symbolic link is left out.
pub open spec fn node_of_entry(n: ScanNode, e: FileEntry) -> bool {
    &&& n.path == e.path
    &&& n.name == e.name
    &&& n.kind == (if e.kind == FileEntryKind::File { ScanNodeKind::File } else { ScanNodeKind::Directory })
    &&& n.size == e.size
    &&& n.partial == e.size_partial
    &&& n.pending == (e.kind == FileEntryKind::Directory && e.size_pending)
    &&& n.children@.len() == 0
}

/// The entries of `s` that are not symbolic links, in order.
pub open spec fn non_links(s: Seq<FileEntry>) -> Seq<FileEntry>
    decreases s.len(),
{
    if s.len() == 0 {
        Seq::empty()
    } else if s.last().kind == FileEntryKind::Symlink {
        non_links(s.drop_last())
    } else {
        non_links(s.drop_last()).push(s.last())
    }
}

/// `nodes` are the nodes of the entries `entries`, in order.
pub open spec fn nodes_of_entries(nodes: Seq<ScanNode>, entries: Seq<FileEntry>) -> bool {
    &&& nodes.len() == non_links(entries).len()
    &&& forall|i: int| 0 <= i < nodes.len() ==> node_of_entry(#[trigger] nodes[i], non_links(entries)[i])
}

/// Sizes of the files and directories of `entries`.
pub open spec fn entries_size(entries: Seq<FileEntry>) -> nat
    decreases entries.len(),
{
    if entries.len() == 0 {
        0
    } else if entries.last().kind == FileEntryKind::Symlink {
        entries_size(entries.drop_last())
    } else {
        entries_size(entries.drop_last()) + entries.last().size as nat
    }
}

proof fn lemma_entries_size_prefix(s: Seq<FileEntry>, i: int)
    requires
        0 <= i <= s.len(),
    ensures
        entries_size(s.subrange(0, i)) <= entries_size(s),
    decreases s.len(),
{
    if i < s.len() {
        lemma_entries_size_prefix(s.drop_last(), i);
        assert(s.drop_last().subrange(0, i) == s.subrange(0, i));
    } else {
        assert(s.subrange(0, i) == s);
    }
}

pub proof fn lemma_nodes_size(nodes: Seq<ScanNode>, entries: Seq<FileEntry>)
    requires
        nodes_of_entries(nodes, entries),
    ensures
        size_sum(nodes) == entries_size(entries),
    decreases entries.len(),
{
    if entries.len() > 0 {
        if entries.last().kind == FileEntryKind::Symlink {
            lemma_nodes_size(nodes, entries.drop_last());
        } else {
            assert(nodes_of_entries(nodes.drop_last(), entries.drop_last())) by {
                assert forall|i: int| 0 <= i < nodes.drop_last().len() implies node_of_entry(
                    #[trigger] nodes.drop_last()[i],
                    non_links(entries.drop_last())[i],
                ) by {
                    assert(node_of_entry(nodes[i], non_links(entries)[i]));
                }
            }
            lemma_nodes_size(nodes.drop_last(), entries.drop_last());
            assert(node_of_entry(nodes[nodes.len() - 1], non_links(entries)[nodes.len() - 1]));
        }
    }
}

/// `a` and `b` are the same tree: equal fields and, child by child, the same
/// subtrees.
pub open spec fn same_tree(a: ScanNode, b: ScanNode) -> bool
    decreases a,
{
    &&& a.path == b.path
    &&& a.name == b.name
    &&& a.kind == b.kind
    &&& a.size == b.size
    &&& a.partial == b.partial
    &&& a.pending == b.pending
    &&& a.children.len() == b.children.len()
    &&& forall|i: int|
        0 <= i < a.children.len() ==> same_tree(#[trigger] a.children@[i], b.children@[i])
}

/// Being the same tree is transitive: a copy of a copy is the same tree.
pub proof fn lemma_same_tree_transitive(a: ScanNode, b: ScanNode, c: ScanNode)
    requires
        same_tree(a, b),
        same_tree(b, c),
    ensures
        same_tree(a, c),
    decreases a,
{
    assert forall|i: int| 0 <= i < a.children.len() implies same_tree(
        #[trigger] a.children@[i],
        c.children@[i],
    ) by {
        assert(same_tree(a.children@[i], b.children@[i]));
        assert(same_tree(b.children@[i], c.children@[i]));
        lemma_same_tree_transitive(a.children@[i], b.children@[i], c.children@[i]);
    }
}

/// A listing fixes the tree built from it: two summarized directory nodes at
/// one path whose children are the nodes of one listing are the same tree,
/// but for the root's display name.
pub proof fn lemma_listing_fixes_tree(a: ScanNode, b: ScanNode, entries: Seq<FileEntry>)
    requires
        a.path == b.path,
        a.kind == ScanNodeKind::Directory,
        b.kind == ScanNodeKind::Directory,
        nodes_of_entries(a.children@, entries),
        nodes_of_entries(b.children@, entries),
        a == refreshed(a),
        b == refreshed(b),
    ensures
        same_tree(ScanNode { name: b.name, ..a }, b),
{
    let ac = a.children@;
    let bc = b.children@;
    assert forall|i: int| 0 <= i < ac.len() implies same_tree(#[trigger] ac[i], bc[i]) by {
        assert(node_of_entry(ac[i], non_links(entries)[i]));
        assert(node_of_entry(bc[i], non_links(entries)[i]));
    }
    assert forall|i: int| 0 <= i < ac.len() implies (#[trigger] ac[i]).size == bc[i].size by {
        assert(node_of_entry(ac[i], non_links(entries)[i]));
        assert(node_of_entry(bc[i], non_links(entries)[i]));
    }
    lemma_size_sum_same_sizes(ac, bc);
    if any_partial(ac) {
        let i = choose|i: int| 0 <= i < ac.len() && (#[trigger] ac[i]).partial;
        assert(node_of_entry(ac[i], non_links(entries)[i]));
        assert(node_of_entry(bc[i], non_links(entries)[i]));
        assert(bc[i].partial);
    }
    if any_partial(bc) {
        let i = choose|i: int| 0 <= i < bc.len() && (#[trigger] bc[i]).partial;
        assert(node_of_entry(ac[i], non_links(entries)[i]));
        assert(node_of_entry(bc[i], non_links(entries)[i]));
        assert(ac[i].partial);
    }
    if any_pending(ac) {
        let i = choose|i: int| 0 <= i < ac.len() && (#[trigger] ac[i]).pending;
        assert(node_of_entry(ac[i], non_links(entries)[i]));
        assert(node_of_entry(bc[i], non_links(entries)[i]));
        assert(bc[i].pending);
    }
    if any_pending(bc) {
        let i = choose|i: int| 0 <= i < bc.len() && (#[trigger] bc[i]).pending;
        assert(node_of_entry(ac[i], non_links(entries)[i]));
        assert(node_of_entry(bc[i], non_links(entries)[i]));
        assert(ac[i].pending);
    }
}

/// Refreshing a node twice is refreshing it once.
pub proof fn lemma_refresh_idempotent(n: ScanNode)
    ensures
        refreshed(refreshed(n)) == refreshed(n),
{
}

impl Clone for ScanNode {
    /// A copy of the whole tree.
    fn clone(&self) -> (r: ScanNode)
        ensures
            same_tree(r, *self),
    {
        self.duplicate()
    }
}

impl ScanNode {
    /// A file node with the given size.
    pub fn new_file(path: String, name: String, size: u64) -> (n: ScanNode)
        ensures
            n.path == path,
            n.name == name,
            n.kind == ScanNodeKind::File,
            n.size == size,
            !n.partial,
            !n.pending,
            n.children@.len() == 0,
    {
        ScanNode {
            path,
            name,
            kind: ScanNodeKind::File,
            size,
            partial: false,
            pending: false,
            children: Vec::new(),
        }
    }

    /// An empty directory node with the given display name.
    pub fn new_directory_with_name(path: String, name: String) -> (n: ScanNode)
        ensures
            n.path == path,
            n.name == name,
            n.kind == ScanNodeKind::Directory,
            n.size == 0,
            !n.partial,
            !n.pending,
            n.children@.len() == 0,
    {
        ScanNode {
            path,
            name,
            kind: ScanNodeKind::Directory,
            size: 0,
            partial: false,
            pending: false,
            children: Vec::new(),
        }
    }

    /// A copy of this tree.
    pub fn duplicate(&self) -> (r: ScanNode)
        ensures
            same_tree(r, *self),
        decreases self,
    {
        let mut children: Vec<ScanNode> = Vec::new();
        let mut i: usize = 0;
        while i < self.children.len()
            invariant
                i <= self.children.len(),
                children.len() == i,
                forall|j: int| 0 <= j < i ==> same_tree(#[trigger] children@[j], self.children@[j]),
            decreases self.children.len() - i,
        {
            let c = self.children[i].duplicate();
            children.push(c);
            i = i + 1;
        }
        ScanNode {
            path: self.path.clone(),
            name: self.name.clone(),
            kind: self.kind,
            size: self.size,
            partial: self.partial,
            pending: self.pending,
            children,
        }
    }

    /// Counts the pending leaves of this tree: a node with children counts
    /// only its children, so a parent is never counted with its content.
    pub fn pending_count(&self) -> (c: usize)
        requires
            pending_leaves(*self) <= usize::MAX,
        ensures
            c == pending_leaves(*self),
        decreases self,
    {
        if self.children.len() == 0 {
            if self.pending {
                1
            } else {
                0
            }
        } else {
            let mut total: usize = 0;
            let mut i: usize = 0;
            assert(self.children@.subrange(0, 0) =~= Seq::<ScanNode>::empty());
            while i < self.children.len()
                invariant
                    i <= self.children.len(),
                    total == pending_leaves_in(self.children@.subrange(0, i as int)),
                    pending_leaves_in(self.children@) <= usize::MAX,
                decreases self.children.len() - i,
            {
                let ghost next = self.children@.subrange(0, i + 1);
                assert(next.drop_last() =~= self.children@.subrange(0, i as int));
                proof {
                    lemma_pending_prefix(self.children@, i + 1);
                }
                let c = self.children[i].pending_count();
                total = total + c;
                i = i + 1;
            }
            assert(self.children@.subrange(0, i as int) =~= self.children@);
            total
        }
    }

    /// Counts the partial leaves of this tree, a parent never counted with
    /// its content.
    pub fn partial_count(&self) -> (c: usize)
        requires
            partial_leaves(*self) <= usize::MAX,
        ensures
            c == partial_leaves(*self),
        decreases self,
    {
        if self.children.len() == 0 {
            if self.partial {
                1
            } else {
                0
            }
        } else {
            let mut total: usize = 0;
            let mut i: usize = 0;
            assert(self.children@.subrange(0, 0) =~= Seq::<ScanNode>::empty());
            while i < self.children.len()
                invariant
                    i <= self.children.len(),
                    total == partial_leaves_in(self.children@.subrange(0, i as int)),
                    partial_leaves_in(self.children@) <= usize::MAX,
                decreases self.children.len() - i,
            {
                let ghost next = self.children@.subrange(0, i + 1);
                assert(next.drop_last() =~= self.children@.subrange(0, i as int));
                proof {
                    lemma_partial_prefix(self.children@, i + 1);
                }
                let c = self.children[i].partial_count();
                total = total + c;
                i = i + 1;
            }
            assert(self.children@.subrange(0, i as int) =~= self.children@);
            total
        }
    }

    /// Recomputes a directory's size, partial and pending flags from its
    /// children; a file is left unchanged.
    pub fn refresh_from_children(&mut self)
        requires
            refresh_fits(*old(self)),
        ensures
            *final(self) == refreshed(*old(self)),
    {
        if self.kind == ScanNodeKind::File {
            return;
        }
        let mut total: u64 = 0;
        let mut partial = false;
        let mut pending = false;
        let mut i: usize = 0;
        assert(self.children@.subrange(0, 0) =~= Seq::<ScanNode>::empty());
        while i < self.children.len()
            invariant
                i <= self.children.len(),
                self.kind == ScanNodeKind::Directory,
                size_sum(self.children@) <= u64::MAX,
                total == size_sum(self.children@.subrange(0, i as int)),
                partial == any_partial(self.children@.subrange(0, i as int)),
                pending == any_pending(self.children@.subrange(0, i as int)),
            decreases self.children.len() - i,
        {
            let ghost prefix = self.children@.subrange(0, i as int);
            let ghost next = self.children@.subrange(0, i + 1);
            assert(next.drop_last() =~= prefix);
            proof {
                lemma_size_prefix(self.children@, i + 1);
            }
            let c = &self.children[i];
            total = total + c.size;
            if c.partial {
                partial = true;
            }
            if c.pending {
                pending = true;
            }
            assert(partial == any_partial(next)) by {
                if any_partial(prefix) {
                    let w = choose|w: int| 0 <= w < prefix.len() && (#[trigger] prefix[w]).partial;
                    assert(next[w].partial);
                }
                if any_partial(next) && !c.partial {
                    let w = choose|w: int| 0 <= w < next.len() && (#[trigger] next[w]).partial;
                    assert(prefix[w].partial);
                }
                if c.partial {
                    assert(next[i as int].partial);
                }
            }
            assert(pending == any_pending(next)) by {
                if any_pending(prefix) {
                    let w = choose|w: int| 0 <= w < prefix.len() && (#[trigger] prefix[w]).pending;
                    assert(next[w].pending);
                }
                if any_pending(next) && !c.pending {
                    let w = choose|w: int| 0 <= w < next.len() && (#[trigger] next[w]).pending;
                    assert(prefix[w].pending);
                }
                if c.pending {
                    assert(next[i as int].pending);
                }
            }
            i = i + 1;
        }
        assert(self.children@.subrange(0, i as int) =~= self.children@);
        self.size = total;
        self.partial = partial;
        self.pending = pending;
    }

    /// Replaces the first child whose path is `path` by `child` and refreshes
    /// this node; answers whether such a child was found (if not, nothing
    /// changes).
    pub fn update_child(&mut self, path: &String, child: ScanNode) -> (found: bool)
        requires
            child_update_fits(*old(self), path@, child),
        ensures
            found == has_path(old(self).children@, path@),
            child_updated(*old(self), *final(self), path@, child),
    {
        let mut k: usize = 0;
        while k < self.children.len() && self.children[k].path != *path
            invariant
                k <= self.children.len(),
                forall|j: int| 0 <= j < k ==> (#[trigger] self.children@[j]).path@ != path@,
            decreases self.children.len() - k,
        {
            k = k + 1;
        }
        if k == self.children.len() {
            return false;
        }
        let ghost before = *self;
        assert(is_first_with_path(before.children@, path@, k as int));
        self.children.set(k, child);
        assert(with_children(before, self.children) == *self);
        self.refresh_from_children();
        true
    }

    /// Marks the first child whose path is `path` as failed (empty, partial,
    /// no longer pending) and refreshes this node; answers whether such a
    /// child was found (if not, nothing changes).
    pub fn mark_child_failed(&mut self, path: &String) -> (found: bool)
        requires
            child_failure_fits(*old(self), path@),
        ensures
            found == has_path(old(self).children@, path@),
            child_failed(*old(self), *final(self), path@),
    {
        let mut k: usize = 0;
        while k < self.children.len() && self.children[k].path != *path
            invariant
                k <= self.children.len(),
                forall|j: int| 0 <= j < k ==> (#[trigger] self.children@[j]).path@ != path@,
            decreases self.children.len() - k,
        {
            k = k + 1;
        }
        if k == self.children.len() {
            return false;
        }
        let ghost before = *self;
        assert(is_first_with_path(before.children@, path@, k as int));
        let failed = ScanNode {
            path: self.children[k].path.clone(),
            name: self.children[k].name.clone(),
            kind: self.children[k].kind,
            size: 0,
            partial: true,
            pending: false,
            children: Vec::new(),
        };
        self.children.set(k, failed);
        assert(with_children(before, self.children) == *self);
        self.refresh_from_children();
        true
    }

    /// An empty directory node named after the final component of `path`
    /// (or the whole path when it has none).
    pub fn new_directory(path: String) -> (n: ScanNode)
        ensures
            n.path == path,
            is_directory_name_of(n.name@, path@),
            n.kind == ScanNodeKind::Directory,
            n.size == 0,
            !n.partial,
            !n.pending,
            n.children@.len() == 0,
    {
        let file_name = paths::file_name(path.as_str());
        let name = directory_name(&path, file_name);
        Self::new_directory_with_name(path, name)
    }

    /// The root node of a freshly listed directory: one child per file and
    /// directory entry (symbolic links are left out), summarized.
    pub fn from_directory_entries(path: String, entries: &Vec<FileEntry>) -> (n: ScanNode)
        requires
            entries_size(entries@) <= u64::MAX,
        ensures
            n.path == path,
            is_directory_name_of(n.name@, path@),
            n.kind == ScanNodeKind::Directory,
            nodes_of_entries(n.children@, entries@),
            n == refreshed(n),
    {
        let file_name = paths::file_name(path.as_str());
        let name = directory_name(&path, file_name);
        Self::from_named_directory_entries(path, name, entries)
    }

    /// The root node of a listed directory with the given display name.
    pub fn from_named_directory_entries(path: String, name: String, entries: &Vec<FileEntry>) -> (n: ScanNode)
        requires
            entries_size(entries@) <= u64::MAX,
        ensures
            n.path == path,
            n.name == name,
            n.kind == ScanNodeKind::Directory,
            nodes_of_entries(n.children@, entries@),
            n == refreshed(n),
    {
        let mut children: Vec<ScanNode> = Vec::new();
        let mut i: usize = 0;
        assert(entries@.subrange(0, 0) =~= Seq::<FileEntry>::empty());
        while i < entries.len()
            invariant
                i <= entries.len(),
                nodes_of_entries(children@, entries@.subrange(0, i as int)),
            decreases entries.len() - i,
        {
            let ghost prefix = entries@.subrange(0, i as int);
            let ghost next = entries@.subrange(0, i + 1);
            assert(next.drop_last() =~= prefix);
            let e = &entries[i];
            match e.kind {
                FileEntryKind::File => {
                    children.push(ScanNode {
                        path: e.path.clone(),
                        name: e.name.clone(),
                        kind: ScanNodeKind::File,
                        size: e.size,
                        partial: e.size_partial,
                        pending: false,
                        children: Vec::new(),
                    });
                },
                FileEntryKind::Directory => {
                    children.push(ScanNode {
                        path: e.path.clone(),
                        name: e.name.clone(),
                        kind: ScanNodeKind::Directory,
                        size: e.size,
                        partial: e.size_partial,
                        pending: e.size_pending,
                        children: Vec::new(),
                    });
                },
                FileEntryKind::Symlink => {},
            }
            assert(nodes_of_entries(children@, next)) by {
                assert forall|j: int| 0 <= j < children@.len() implies node_of_entry(
                    #[trigger] children@[j],
                    non_links(next)[j],
                ) by {
                    if j < non_links(prefix).len() {
                        assert(non_links(next)[j] == non_links(prefix)[j]);
                    }
                }
            }
            i = i + 1;
        }
        assert(entries@.subrange(0, i as int) =~= entries@);
        proof {
            lemma_nodes_size(children@, entries@);
        }
        let mut root = ScanNode {
            path,
            name,
            kind: ScanNodeKind::Directory,
            size: 0,
            partial: false,
            pending: false,
            children,
        };
        root.refresh_from_children();
        root
    }
}

/// The total size of the files and directories of a listing, when it fits
/// in a `u64`.
pub fn entries_total(entries: &Vec<FileEntry>) -> (r: Option<u64>)
    ensures
        r is Some <==> entries_size(entries@) <= u64::MAX,
        r matches Some(t) ==> t == entries_size(entries@),
{
    let mut total: u64 = 0;
    let mut i: usize = 0;
    assert(entries@.subrange(0, 0) =~= Seq::<FileEntry>::empty());
    while i < entries.len()
        invariant
            i <= entries.len(),
            total == entries_size(entries@.subrange(0, i as int)),
        decreases entries.len() - i,
    {
        let ghost prefix = entries@.subrange(0, i as int);
        let ghost next = entries@.subrange(0, i + 1);
        assert(next.drop_last() =~= prefix);
        if entries[i].kind != FileEntryKind::Symlink {
            if entries[i].size > u64::MAX - total {
                proof {
                    lemma_entries_size_prefix(entries@, i + 1);
                }
                return None;
            }
            total = total + entries[i].size;
        }
        i = i + 1;
    }
    assert(entries@.subrange(0, i as int) =~= entries@);
    Some(total)
}

/// The display name of a directory from what `paths::file_name` gave.
pub fn directory_name(path: &String, file_name: Option<String>) -> (name: String)
    ensures
        name@ == directory_display_name(
            path@,
            match file_name {
                Some(n) => Some(n@),
                None => None,
            },
        ),
{
    match file_name {
        Some(n) => n,
        None => path.clone(),
    }
}

} // verus!
