//! What the optimised build hands to its heap: every usable region of the
//! memory map, seen through the higher-half direct map.
//!
//! Optimised builds do not check arithmetic, so the sums here wrap.

use crate::alloc_handler::memmap::{lemma_usable_entries_step, usable_entries, MemmapEntry};
use vstd::prelude::*;

verus! {

/// A region that the heap claims: where it starts in virtual memory and how
/// long it is.
#[derive(Clone, Copy, Debug, PartialEq, Eq)]
pub struct Claim {
    pub base: usize,
    pub size: usize,
}

/// The regions to claim, in map order, and the total length of usable memory.
pub struct HeapInit {
    pub claims: Vec<Claim>,
    pub total: u64,
}

/// The claim made for a usable entry: its base moved by the direct-map offset.
pub open spec fn claim_of(e: MemmapEntry, offset: u64) -> Claim {
    Claim { base: e.base.wrapping_add(offset) as usize, size: e.length as usize }
}

/// The lengths of `s` added up with wrapping 64-bit arithmetic, in order.
pub open spec fn wrapping_total(s: Seq<MemmapEntry>) -> u64
    decreases s.len(),
{
    if s.len() == 0 {
        0
    } else {
        wrapping_total(s.drop_last()).wrapping_add(s.last().length)
    }
}

/// The lengths of `s` added up.
pub open spec fn length_sum(s: Seq<MemmapEntry>) -> nat
    decreases s.len(),
{
    if s.len() == 0 {
        0
    } else {
        length_sum(s.drop_last()) + s.last().length as nat
    }
}

/// One entry of the memory map: a usable entry adds its length to the
/// running `total` and is claimed; any other entry changes nothing.
pub fn claim_step(total: u64, entry: &MemmapEntry, offset: u64) -> (r: (u64, Option<Claim>))
    ensures
        r == (if entry.usable {
            (total.wrapping_add(entry.length), Some(claim_of(*entry, offset)))
        } else {
            (total, None::<Claim>)
        }),
{
    if entry.usable {
        let claim = Claim { base: entry.base.wrapping_add(offset) as usize, size: entry.length as usize };
        (total.wrapping_add(entry.length), Some(claim))
    } else {
        (total, None)
    }
}

/// The claims for every usable entry of `memmap`, in map order, with each
/// base moved by `offset`, and the total length of those entries.
pub fn init_global(memmap: &[MemmapEntry], offset: u64) -> (r: HeapInit)
    ensures
        r.claims@ == usable_entries(memmap@).map_values(|e: MemmapEntry| claim_of(e, offset)),
        r.total == wrapping_total(usable_entries(memmap@)),
{
    let mut claims: Vec<Claim> = Vec::new();
    let mut total: u64 = 0;
    let mut i: usize = 0;
    while i < memmap.len()
        invariant
            i <= memmap@.len(),
            claims@ == usable_entries(memmap@.take(i as int)).map_values(
                |e: MemmapEntry| claim_of(e, offset),
            ),
            total == wrapping_total(usable_entries(memmap@.take(i as int))),
        decreases memmap@.len() - i,
    {
        proof {
            lemma_usable_entries_step(memmap@, i as int);
        }
        let entry = memmap[i];
        let ghost before = usable_entries(memmap@.take(i as int));
        let (next_total, claim) = claim_step(total, &entry, offset);
        total = next_total;
        if let Some(c) = claim {
            claims.push(c);
            proof {
                assert(before.push(entry).drop_last() =~= before);
                assert(claims@ =~= before.push(entry).map_values(|e: MemmapEntry| claim_of(e, offset)));
            }
        }
        i = i + 1;
    }
    assert(memmap@.take(memmap@.len() as int) =~= memmap@);
    HeapInit { claims, total }
}

/// Law: the reported total is the true sum of the usable lengths, reduced
/// modulo 2^64.
pub proof fn lemma_total_is_sum_mod(s: Seq<MemmapEntry>)
    ensures
        wrapping_total(s) as int == length_sum(s) as int % 0x1_0000_0000_0000_0000,
    decreases s.len(),
{
    if s.len() > 0 {
        lemma_total_is_sum_mod(s.drop_last());
        let a = wrapping_total(s.drop_last()) as int;
        let l = s.last().length as int;
        let m: int = 0x1_0000_0000_0000_0000;
        vstd::arithmetic::div_mod::lemma_add_mod_noop(length_sum(s.drop_last()) as int, l, m);
        vstd::arithmetic::div_mod::lemma_small_mod(l as nat, m as nat);
        if a + l >= m {
            vstd::arithmetic::div_mod::lemma_mod_sub_multiples_vanish(a + l, m);
            vstd::arithmetic::div_mod::lemma_small_mod((a + l - m) as nat, m as nat);
        } else {
            vstd::arithmetic::div_mod::lemma_small_mod((a + l) as nat, m as nat);
        }
    }
}

} // verus!
