//! Recursive directory-size aggregation over the results of a subtree walk.
//!
//! A walk of a directory's subtree yields one [`FileProbe`] per regular file
//! it reaches: the file's byte length, or a marker that the metadata could
//! not be read. Nodes the walk could not enter at all simply yield no probe.
//! Aggregation sums the lengths, counting unreadable nodes as zero, so a
//! permission error never aborts the computation.

use vstd::prelude::*;

verus! {

/// One regular file met while walking a directory subtree: its byte length,
/// or a marker that its metadata was unavailable.
#[derive(Clone, Copy, Debug, PartialEq, Eq, Structural)]
pub enum FileProbe {
    Size(u64),
    Unreadable,
}

/// Bytes one probe contributes: an unreadable node counts as zero.
pub open spec fn probe_value(p: FileProbe) -> nat {
    match p {
        FileProbe::Size(n) => n as nat,
        FileProbe::Unreadable => 0,
    }
}

/// Total bytes contributed by a sequence of probes.
pub open spec fn sum_probes(s: Seq<FileProbe>) -> nat
    decreases s.len(),
{
    if s.len() == 0 {
        0
    } else {
        sum_probes(s.drop_last()) + probe_value(s.last())
    }
}

/// `sum_probes`, saturated at what a `u64` can hold.
pub open spec fn clamped_sum(s: Seq<FileProbe>) -> nat {
    if sum_probes(s) <= u64::MAX {
        sum_probes(s)
    } else {
        u64::MAX as nat
    }
}

/// Sums the byte lengths of every regular file found under one directory,
/// counting unreadable nodes as zero. Never fails; saturates at `u64::MAX`.
pub fn aggregate_size(probes: &Vec<FileProbe>) -> (total: u64)
    ensures
        total == clamped_sum(probes@),
{
    let mut total: u64 = 0;
    let mut i: usize = 0;
    while i < probes.len()
        invariant
            i <= probes.len(),
            total == clamped_sum(probes@.subrange(0, i as int)),
        decreases probes.len() - i,
    {
        let step: u64 = match probes[i] {
            FileProbe::Size(n) => n,
            FileProbe::Unreadable => 0,
        };
        proof {
            assert(probes@.subrange(0, i + 1).drop_last() =~= probes@.subrange(0, i as int));
            assert(probes@.subrange(0, i + 1).last() == probes@[i as int]);
        }
        total = if total <= u64::MAX - step {
            total + step
        } else {
            u64::MAX
        };
        i = i + 1;
    }
    proof {
        assert(probes@.subrange(0, probes@.len() as int) =~= probes@);
    }
    total
}

/// Law: an unreadable node contributes nothing — dropping it from a walk
/// leaves the aggregate unchanged.
pub proof fn lemma_unreadable_contributes_zero(s: Seq<FileProbe>, i: int)
    requires
        0 <= i < s.len(),
        s[i] is Unreadable,
    ensures
        sum_probes(s.remove(i)) == sum_probes(s),
    decreases s.len(),
{
    if i == s.len() - 1 {
        assert(s.remove(i) =~= s.drop_last());
    } else {
        assert(s.remove(i).drop_last() =~= s.drop_last().remove(i));
        assert(s.remove(i).last() == s.last());
        lemma_unreadable_contributes_zero(s.drop_last(), i);
    }
}

} // verus!
