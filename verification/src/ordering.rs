//! Stable ordering of items by a composite key.
//!
//! Items are ordered by a `SortKey` (two numbers, then an optional text,
//! compared in that order, with no text before any text), and items with
//! equal keys keep their relative order, as a stable sort does.
//! The order is returned as the sequence of input positions.

use vstd::prelude::*;
use crate::text::{chars_lt, seq_lt, lemma_seq_lt_irreflexive,
    lemma_seq_lt_transitive, lemma_seq_lt_total};

verus! {

/// A composite sort key.
pub struct SortKey {
    pub first: u64,
    pub second: u64,
    pub text: Option<Vec<char>>,
}

/// The mathematical value of a sort key.
pub type KeyView = (u64, u64, Option<Seq<char>>);

impl View for SortKey {
    type V = KeyView;

    open spec fn view(&self) -> KeyView {
        (
            self.first,
            self.second,
            match self.text {
                Some(t) => Some(t@),
                None => None,
            },
        )
    }
}

/// The views of a sequence of keys.
pub open spec fn key_views(keys: Seq<SortKey>) -> Seq<KeyView> {
    keys.map_values(|k: SortKey| k@)
}

/// Order on optional texts: absent first, then lexicographic.
pub open spec fn text_lt(a: Option<Seq<char>>, b: Option<Seq<char>>) -> bool {
    match (a, b) {
        (None, Some(_)) => true,
        (Some(x), Some(y)) => seq_lt(x, y),
        _ => false,
    }
}

/// Strict order on keys: by `first`, then `second`, then the text.
pub open spec fn key_lt(a: KeyView, b: KeyView) -> bool {
    a.0 < b.0 || (a.0 == b.0 && (a.1 < b.1 || (a.1 == b.1 && text_lt(a.2, b.2))))
}

/// Position `i` goes before position `j`: a smaller key, or an equal key and
/// an earlier position.
pub open spec fn precedes(keys: Seq<KeyView>, i: int, j: int) -> bool {
    key_lt(keys[i], keys[j]) || (keys[i] == keys[j] && i < j)
}

/// `order` lists every position of `keys` once, in the stable sorted order.
pub open spec fn is_stable_order(keys: Seq<KeyView>, order: Seq<usize>) -> bool {
    &&& order.len() == keys.len()
    &&& forall|a: int| 0 <= a < order.len() ==> #[trigger] order[a] < keys.len()
    &&& forall|k: usize| k < keys.len() ==> #[trigger] order.contains(k)
    &&& forall|a: int, b: int|
        0 <= a < b < order.len() ==> #[trigger] precedes(keys, order[a] as int, order[b] as int)
}

pub proof fn lemma_key_lt_irreflexive(a: KeyView)
    ensures
        !key_lt(a, a),
{
    if let Some(x) = a.2 {
        lemma_seq_lt_irreflexive(x);
    }
}

pub proof fn lemma_key_lt_transitive(a: KeyView, b: KeyView, c: KeyView)
    requires
        key_lt(a, b),
        key_lt(b, c),
    ensures
        key_lt(a, c),
{
    if a.0 == b.0 && b.0 == c.0 && a.1 == b.1 && b.1 == c.1 {
        if let (Some(x), Some(y), Some(z)) = (a.2, b.2, c.2) {
            lemma_seq_lt_transitive(x, y, z);
        }
    }
}

pub proof fn lemma_key_lt_total(a: KeyView, b: KeyView)
    ensures
        key_lt(a, b) || a == b || key_lt(b, a),
{
    if let (Some(x), Some(y)) = (a.2, b.2) {
        lemma_seq_lt_total(x, y);
    }
}

/// Whether one optional text comes before the other.
pub fn text_less(a: &Option<Vec<char>>, b: &Option<Vec<char>>) -> (r: bool)
    ensures
        r == text_lt(
            match a { Some(t) => Some(t@), None => None },
            match b { Some(t) => Some(t@), None => None },
        ),
{
    match (a, b) {
        (None, Some(_)) => true,
        (Some(x), Some(y)) => chars_lt(x, y),
        _ => false,
    }
}

/// Whether key `a` is strictly smaller than key `b`.
pub fn key_less(a: &SortKey, b: &SortKey) -> (r: bool)
    ensures
        r == key_lt(a@, b@),
{
    if a.first != b.first {
        a.first < b.first
    } else if a.second != b.second {
        a.second < b.second
    } else {
        text_less(&a.text, &b.text)
    }
}

/// The positions of `keys` in stable sorted order.
pub fn stable_order(keys: &Vec<SortKey>) -> (order: Vec<usize>)
    ensures
        is_stable_order(key_views(keys@), order@),
{
    let ghost ks = key_views(keys@);
    let mut order: Vec<usize> = Vec::new();
    let mut i: usize = 0;
    while i < keys.len()
        invariant
            ks == key_views(keys@),
            ks.len() == keys.len(),
            i <= keys.len(),
            order.len() == i,
            forall|a: int| 0 <= a < order.len() ==> #[trigger] order@[a] < i,
            forall|k: usize| k < i ==> #[trigger] order@.contains(k),
            forall|a: int, b: int|
                0 <= a < b < order.len() ==> #[trigger] precedes(
                    ks,
                    order@[a] as int,
                    order@[b] as int,
                ),
        decreases keys.len() - i,
    {
        let mut p: usize = 0;
        while p < order.len() && !key_less(&keys[i], &keys[order[p]])
            invariant
                ks == key_views(keys@),
                ks.len() == keys.len(),
                i < keys.len(),
                p <= order.len(),
                forall|a: int| 0 <= a < order.len() ==> #[trigger] order@[a] < i,
                forall|q: int| 0 <= q < p ==> !key_lt(ks[i as int], #[trigger] ks[order@[q] as int]),
            decreases order.len() - p,
        {
            p = p + 1;
        }
        let ghost old_order = order@;
        proof {
            assert forall|q: int| 0 <= q < p implies precedes(ks, old_order[q] as int, i as int) by {
                lemma_key_lt_total(ks[i as int], ks[old_order[q] as int]);
            }
            assert forall|q: int| p <= q < old_order.len() implies precedes(
                ks,
                i as int,
                old_order[q] as int,
            ) by {
                if q > p {
                    assert(precedes(ks, old_order[p as int] as int, old_order[q] as int));
                    if key_lt(ks[old_order[p as int] as int], ks[old_order[q] as int]) {
                        lemma_key_lt_transitive(
                            ks[i as int],
                            ks[old_order[p as int] as int],
                            ks[old_order[q] as int],
                        );
                    }
                }
            }
        }
        order.insert(p, i);
        proof {
            assert(order@ == old_order.insert(p as int, i));
            assert forall|a: int, b: int| 0 <= a < b < order.len() implies #[trigger] precedes(
                ks,
                order@[a] as int,
                order@[b] as int,
            ) by {
                if a < p && b < p {
                } else if a < p && b == p {
                } else if a < p && b > p {
                    assert(order@[b] == old_order[b - 1]);
                } else if a == p {
                    assert(order@[b] == old_order[b - 1]);
                } else {
                    assert(order@[a] == old_order[a - 1]);
                    assert(order@[b] == old_order[b - 1]);
                    assert(precedes(ks, old_order[a - 1] as int, old_order[b - 1] as int));
                }
            }
            assert forall|k: usize| k < i + 1 implies #[trigger] order@.contains(k) by {
                if k == i {
                    assert(order@[p as int] == i);
                } else {
                    assert(old_order.contains(k));
                    let w = choose|w: int| 0 <= w < old_order.len() && old_order[w] == k;
                    if w < p {
                        assert(order@[w] == k);
                    } else {
                        assert(order@[w + 1] == k);
                    }
                }
            }
            assert forall|a: int| 0 <= a < order.len() implies #[trigger] order@[a] < i + 1 by {
                if a < p {
                } else if a > p {
                    assert(order@[a] == old_order[a - 1]);
                }
            }
        }
        i = i + 1;
    }
    order
}

} // verus!
