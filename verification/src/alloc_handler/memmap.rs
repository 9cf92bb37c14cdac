//! The bootloader's memory map, as the allocators read it.

use vstd::prelude::*;

verus! {

/// One region of physical memory reported by the bootloader.
#[derive(Clone, Copy, Debug)]
pub struct MemmapEntry {
    /// Start of the region, in physical memory.
    pub base: u64,
    /// Length of the region in bytes.
    pub length: u64,
    /// Whether the bootloader reports the region as freely usable.
    pub usable: bool,
}

/// The usable entries of `s`, in map order.
pub open spec fn usable_entries(s: Seq<MemmapEntry>) -> Seq<MemmapEntry>
    decreases s.len(),
{
    if s.len() == 0 {
        Seq::empty()
    } else {
        let rest = usable_entries(s.drop_last());
        if s.last().usable {
            rest.push(s.last())
        } else {
            rest
        }
    }
}

/// Extending a prefix of the map by one entry extends its usable entries by
/// that entry exactly when it is usable.
pub proof fn lemma_usable_entries_step(s: Seq<MemmapEntry>, i: int)
    requires
        0 <= i < s.len(),
    ensures
        usable_entries(s.take(i + 1)) == if s[i].usable {
            usable_entries(s.take(i)).push(s[i])
        } else {
            usable_entries(s.take(i))
        },
{
    assert(s.take(i + 1).drop_last() =~= s.take(i));
}

/// No more entries are usable than there are entries.
pub proof fn lemma_usable_entries_len(s: Seq<MemmapEntry>)
    ensures
        usable_entries(s).len() <= s.len(),
    decreases s.len(),
{
    if s.len() > 0 {
        lemma_usable_entries_len(s.drop_last());
    }
}

} // verus!
