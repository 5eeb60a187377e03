//! Listing one directory level and ordering its entries by size.
//!
//! A level listing takes the immediate children of one directory, as plain
//! values handed in by the filesystem layer: each child's name, whether it
//! is a file or a directory, and the size probes the walk produced for it.
//! Every child becomes an [`Entry`] whose size is a rendered string — the
//! only size representation the entry keeps.
//!
//! Ordering then sorts entries largest-first by the key recovered from each
//! entry's rendered size string (not from the raw byte count), reproducing
//! the precision loss and the unknown-unit blind spot of that round trip.
//! Entries with equal keys may come out in any order.

use vstd::prelude::*;
use vstd::seq_lib::group_to_multiset_ensures;
use vstd::multiset::group_multiset_axioms;
use crate::aggregate::{FileProbe, probe_value, clamped_sum, aggregate_size};
use crate::size_text::{format_binary, format_binary_of, size_key, size_key_spec};

verus! {

broadcast use group_to_multiset_ensures, group_multiset_axioms;

/// Whether a listed child is a directory or a regular file. The set is
/// closed: anything else is classified by the traversal before it gets here.
#[derive(Clone, Copy, Debug, PartialEq, Eq, Structural)]
pub enum EntryKind {
    Directory,
    File,
}

/// What the filesystem layer reports for one child: a file with its
/// metadata probe, or a directory with the probes of every regular file
/// reachable in its subtree.
pub enum ChildNode {
    File(FileProbe),
    Directory(Vec<FileProbe>),
}

/// One immediate child of the directory being listed.
pub struct Child {
    pub name: String,
    pub node: ChildNode,
}

/// One entry of a level listing, as shown to the user.
pub struct Entry {
    pub name: String,
    pub size: String,
    pub kind: EntryKind,
}

/// The kind a child is classified as.
pub open spec fn child_kind(c: Child) -> EntryKind {
    match c.node {
        ChildNode::File(_) => EntryKind::File,
        ChildNode::Directory(_) => EntryKind::Directory,
    }
}

/// The byte count a child is listed with: a file's direct length (zero if
/// its metadata was unreadable), or a directory's aggregated subtree size.
pub open spec fn child_size(c: Child) -> nat {
    match c.node {
        ChildNode::File(p) => probe_value(p),
        ChildNode::Directory(ps) => clamped_sum(ps@),
    }
}

/// The ordering key of an entry: its rendered size string, parsed back.
pub open spec fn entry_key(e: Entry) -> nat {
    size_key_spec(e.size@)
}

/// Descending order by parsed size key.
pub open spec fn sorted_desc(s: Seq<Entry>) -> bool {
    forall|i: int, j: int| 0 <= i < j < s.len() ==> entry_key(s[i]) >= entry_key(s[j])
}

/// Builds the entries of one directory level: classifies each child,
/// aggregates directory subtrees, and renders every size. A directory that
/// could not be read at all hands in no children, so its listing is empty.
pub fn list_level(children: &Vec<Child>) -> (entries: Vec<Entry>)
    ensures
        entries@.len() == children@.len(),
        forall|i: int|
            0 <= i < children@.len() ==> {
                &&& (#[trigger] entries@[i]).name@ == children@[i].name@
                &&& entries@[i].kind == child_kind(children@[i])
                &&& entries@[i].size@ == format_binary_of(child_size(children@[i]))
            },
{
    let mut entries: Vec<Entry> = Vec::new();
    let mut i: usize = 0;
    while i < children.len()
        invariant
            i <= children@.len(),
            entries@.len() == i,
            forall|k: int|
                0 <= k < i ==> {
                    &&& (#[trigger] entries@[k]).name@ == children@[k].name@
                    &&& entries@[k].kind == child_kind(children@[k])
                    &&& entries@[k].size@ == format_binary_of(child_size(children@[k]))
                },
        decreases children@.len() - i,
    {
        let c = &children[i];
        let bytes: u64 = match &c.node {
            ChildNode::File(p) => match p {
                FileProbe::Size(n) => *n,
                FileProbe::Unreadable => 0,
            },
            ChildNode::Directory(ps) => aggregate_size(ps),
        };
        let kind = match &c.node {
            ChildNode::File(_) => EntryKind::File,
            ChildNode::Directory(_) => EntryKind::Directory,
        };
        let text = format_binary(bytes);
        entries.push(Entry { name: c.name.clone(), size: text, kind });
        i = i + 1;
    }
    entries
}

/// Sorts entries descending by the key parsed back from each entry's
/// rendered size string. The result holds exactly the given entries;
/// entries whose keys tie may come out in either order.
pub fn order_entries(entries: Vec<Entry>) -> (ordered: Vec<Entry>)
    ensures
        sorted_desc(ordered@),
        ordered@.to_multiset() == entries@.to_multiset(),
        ordered@.len() == entries@.len(),
{
    let mut rest = entries;
    let mut ordered: Vec<Entry> = Vec::new();
    proof {
        assert(ordered@.to_multiset().add(rest@.to_multiset()) =~= rest@.to_multiset());
    }
    while rest.len() > 0
        invariant
            sorted_desc(ordered@),
            ordered@.to_multiset().add(rest@.to_multiset()) == entries@.to_multiset(),
        decreases rest@.len(),
    {
        let ghost rest_before = rest@;
        let e = rest.pop().unwrap();
        proof {
            assert(rest_before =~= rest@.push(e));
            assert(rest@.push(e).to_multiset() =~= rest@.to_multiset().insert(e));
            assert(rest_before.to_multiset() =~= rest@.to_multiset().insert(e));
        }
        let ek = size_key(e.size.as_str());
        let mut p: usize = 0;
        while p < ordered.len()
            invariant_except_break
                p <= ordered@.len(),
                forall|k: int| 0 <= k < p ==> entry_key(#[trigger] ordered@[k]) >= ek,
            ensures
                p <= ordered@.len(),
                forall|k: int| 0 <= k < p ==> entry_key(#[trigger] ordered@[k]) >= ek,
                p < ordered@.len() ==> entry_key(ordered@[p as int]) < ek,
            decreases ordered@.len() - p,
        {
            if size_key(ordered[p].size.as_str()) < ek {
                break ;
            }
            p = p + 1;
        }
        let ghost ordered_before = ordered@;
        proof {
            ordered_before.insert_ensures(p as int, e);
            assert(ordered_before.insert(p as int, e).to_multiset() == ordered_before.to_multiset()
                .insert(e));
        }
        ordered.insert(p, e);
        proof {
            assert(entry_key(ordered@[p as int]) == ek);
            assert forall|i: int, j: int| 0 <= i < j < ordered@.len() implies entry_key(
                ordered@[i],
            ) >= entry_key(ordered@[j]) by {
                if j < p {
                    assert(ordered@[i] == ordered_before[i]);
                    assert(ordered@[j] == ordered_before[j]);
                } else if i > p {
                    assert(ordered@[i] == ordered_before[i - 1]);
                    assert(ordered@[j] == ordered_before[j - 1]);
                } else if i == p {
                    assert(ordered@[j] == ordered_before[j - 1]);
                    assert(entry_key(ordered_before[p as int]) < ek);
                } else if j == p {
                    assert(ordered@[i] == ordered_before[i]);
                } else {
                    // i < p < j
                    assert(ordered@[i] == ordered_before[i]);
                    assert(ordered@[j] == ordered_before[j - 1]);
                    if p < ordered_before.len() {
                        assert(entry_key(ordered_before[p as int]) < ek);
                    }
                }
            }
            assert(ordered@.to_multiset().add(rest@.to_multiset()) =~= entries@.to_multiset());
        }
    }
    proof {
        assert(rest@.to_multiset().len() == 0);
        assert(ordered@.to_multiset().add(rest@.to_multiset()) =~= ordered@.to_multiset());
        assert(ordered@.to_multiset().len() == ordered@.len());
        assert(entries@.to_multiset().len() == entries@.len());
    }
    ordered
}

} // verus!
