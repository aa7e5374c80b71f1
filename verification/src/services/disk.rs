//! The disks offered for exploration.

use vstd::prelude::*;
use crate::ordering::{SortKey, KeyView, key_views, stable_order, is_stable_order};
use crate::text::{chars_of, extend_chars, string_from_chars, trimmed, is_white_space};

verus! {

/// A mounted disk: how it is shown, and where it is mounted.
#[derive(Debug, Clone, PartialEq, Eq)]
pub struct SystemDisk {
    pub label: String,
    pub mount_point: String,
}

/// `name` is empty or all white space.
pub open spec fn is_blank(name: Seq<char>) -> bool {
    forall|k: int| 0 <= k < name.len() ==> is_white_space(#[trigger] name[k])
}

/// The label of a disk named `name` mounted at `mount`: the mount point alone
/// when the name is blank, else `"name (mount)"`.
pub open spec fn disk_label_text(name: Seq<char>, mount: Seq<char>) -> Seq<char> {
    if is_blank(name) {
        mount
    } else {
        name + seq![' ', '('] + mount + seq![')']
    }
}

/// Builds the label of a disk.
pub fn disk_label(name: &String, mount: &String) -> (label: String)
    ensures
        label@ == disk_label_text(name@, mount@),
{
    let t = trimmed(name.as_str());
    proof {
        let (i, j) = choose|i: int, j: int|
            {
                &&& 0 <= i <= j <= name@.len()
                &&& t@ == name@.subrange(i, j)
                &&& forall|k: int| 0 <= k < i ==> is_white_space(#[trigger] name@[k])
                &&& forall|k: int| j <= k < name@.len() ==> is_white_space(#[trigger] name@[k])
                &&& t@.len() > 0 ==> !is_white_space(t@[0]) && !is_white_space(t@.last())
            };
        if t@.len() > 0 {
            assert(t@[0] == name@[i]);
        } else {
            assert forall|k: int| 0 <= k < name@.len() implies is_white_space(#[trigger] name@[k]) by {
                if i <= k < j {
                    assert(false);
                }
            }
        }
    }
    if t.as_str().unicode_len() == 0 {
        mount.clone()
    } else {
        let mut cs = chars_of(name.as_str());
        cs.push(' ');
        cs.push('(');
        extend_chars(&mut cs, &chars_of(mount.as_str()));
        cs.push(')');
        string_from_chars(&cs)
    }
}

/// The sort keys of disk labels.
pub open spec fn label_keys(labels: Seq<Seq<char>>) -> Seq<KeyView> {
    labels.map_values(|l: Seq<char>| (0u64, 0u64, Some(l)))
}

/// `disks` are the disks `raw` (pairs of name and mount point), labelled,
/// in the stable order of their labels.
pub open spec fn is_disk_list(raw: Seq<(String, String)>, disks: Seq<SystemDisk>) -> bool {
    let labels = raw.map_values(|d: (String, String)| disk_label_text(d.0@, d.1@));
    exists|order: Seq<usize>|
        is_stable_order(label_keys(labels), order) && disks.len() == order.len() && forall|k: int|
            0 <= k < disks.len() ==> {
                &&& (#[trigger] disks[k]).label@ == labels[order[k] as int]
                &&& disks[k].mount_point == raw[order[k] as int].1
            }
}

/// The disks to offer, from the name and mount point of each mounted disk.
pub fn system_disks(raw: &Vec<(String, String)>) -> (disks: Vec<SystemDisk>)
    ensures
        is_disk_list(raw@, disks@),
{
    let ghost labels = raw@.map_values(|d: (String, String)| disk_label_text(d.0@, d.1@));
    let mut labelled: Vec<SystemDisk> = Vec::new();
    let mut keys: Vec<SortKey> = Vec::new();
    let mut i: usize = 0;
    while i < raw.len()
        invariant
            i <= raw.len(),
            labels == raw@.map_values(|d: (String, String)| disk_label_text(d.0@, d.1@)),
            labelled.len() == i,
            keys.len() == i,
            forall|q: int|
                0 <= q < i ==> {
                    &&& (#[trigger] labelled@[q]).label@ == labels[q]
                    &&& labelled@[q].mount_point == raw@[q].1
                    &&& keys@[q]@ == (0u64, 0u64, Some(labels[q]))
                },
        decreases raw.len() - i,
    {
        let label = disk_label(&raw[i].0, &raw[i].1);
        keys.push(SortKey { first: 0, second: 0, text: Some(chars_of(label.as_str())) });
        labelled.push(SystemDisk { label, mount_point: raw[i].1.clone() });
        i = i + 1;
    }
    assert(labels.len() == keys.len());
    assert forall|q: int| 0 <= q < keys.len() implies #[trigger] key_views(keys@)[q] == label_keys(
        labels,
    )[q] by {
        assert(labelled@[q].label@ == labels[q]);
        assert(keys@[q]@ == (0u64, 0u64, Some(labels[q])));
    }
    assert(key_views(keys@) =~= label_keys(labels));
    let order = stable_order(&keys);
    let mut disks: Vec<SystemDisk> = Vec::new();
    let mut k: usize = 0;
    while k < order.len()
        invariant
            k <= order.len(),
            order.len() == labelled.len(),
            forall|a: int| 0 <= a < order.len() ==> #[trigger] order@[a] < labelled.len(),
            disks.len() == k,
            forall|q: int|
                0 <= q < k ==> {
                    &&& (#[trigger] disks@[q]).label == labelled@[order@[q] as int].label
                    &&& disks@[q].mount_point == labelled@[order@[q] as int].mount_point
                },
        decreases order.len() - k,
    {
        let d = &labelled[order[k]];
        disks.push(SystemDisk { label: d.label.clone(), mount_point: d.mount_point.clone() });
        k = k + 1;
    }
    assert(is_stable_order(label_keys(labels), order@));
    disks
}

} // verus!
