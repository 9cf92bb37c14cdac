//! The global allocator of debug builds: a first-fit search over the free
//! gaps of the usable memory blocks, padding each allocation on both sides to
//! catch memory errors.

use crate::alloc_handler::memmap::{lemma_usable_entries_step, usable_entries, MemmapEntry};
use crate::small_vec::{AllocationList, GapList, SMALL_VEC_PUSH_LIMIT};
use vstd::prelude::*;

verus! {

/// Denominator of the fraction that sets how much an allocation is padded;
/// the numerator is 1, so at most 100% is added on each side.
pub const PAD_FRAC_DENOM: usize = 2;

/// Maximum number of blocks.
pub const MAX_BLOCK_COUNT: usize = 31;

/// Maximum number of gaps per block.
pub const MAX_BLOCK_GAPS: usize = 0x50;

/// One block of memory, taken from a usable entry of the memory map.
pub struct Block {
    /// Start of the block in physical memory.
    pub start: usize,
    /// Length of the block.
    pub len: usize,
    /// All free space in the block, each gap a start address and a length.
    /// An empty block has one gap, with `gaps[0].1 == len`.
    pub gaps: GapList,
}

impl Block {
    /// The number of free gaps in the block.
    pub fn gap_count(&self) -> (n: usize)
        ensures
            n == self.gaps@.len(),
    {
        self.gaps.len()
    }

    /// The free gap at position `i`: its start and its length.
    pub fn gap(&self, i: usize) -> (g: (usize, usize))
        requires
            i < self.gaps@.len(),
        ensures
            g == self.gaps@[i as int],
    {
        self.gaps.get(i)
    }
}

/// An allocation, including its padding.
#[derive(Clone, Copy, Debug, PartialEq, Eq)]
pub struct Allocation {
    /// Block number.
    pub block: usize,
    /// Start of the allocation proper, without the padding.
    pub start_addr: usize,
    /// Total size of the allocation in bytes.
    pub size: usize,
    /// Required minimum alignment.
    pub align: usize,
    /// The padding in bytes on both the beginning and the end.
    pub padding_amt: usize,
}

/// The padding on each side of a request of `len` bytes.
pub open spec fn pad_of(len: usize) -> int {
    (len / PAD_FRAC_DENOM) as int
}

/// The room a request of `len` bytes takes: the request and its padding on
/// both sides.
pub open spec fn needed(len: usize) -> int {
    len + 2 * pad_of(len)
}

/// `x` rounded up to a multiple of `align`.
pub open spec fn align_up(x: int, align: int) -> int {
    if x % align == 0 {
        x
    } else {
        x + (align - x % align)
    }
}

/// Where a request of `len` bytes aligned to `align` starts in `gap`: the
/// first aligned address after the gap's start and the front padding.
pub open spec fn placement(gap: (usize, usize), len: usize, align: usize) -> int {
    align_up(gap.0 + pad_of(len), align as int)
}

/// Where such a request ends in `gap`, its back padding included.
pub open spec fn placed_end(gap: (usize, usize), len: usize, align: usize) -> int {
    placement(gap, len, align) + len + pad_of(len)
}

/// The request, placed so, ends within `gap` and within the address space.
pub open spec fn fits(gap: (usize, usize), len: usize, align: usize) -> bool {
    &&& placed_end(gap, len, align) <= gap.0 + gap.1
    &&& placed_end(gap, len, align) <= usize::MAX
}

/// The bytes of `gap` before the front padding of such a request, left over
/// by the alignment.
pub open spec fn slack_of(gap: (usize, usize), len: usize, align: usize) -> int {
    placement(gap, len, align) - pad_of(len) - gap.0
}

/// The index of the first gap at index `j` or later that can hold the request.
pub open spec fn first_fit_gap_from(gaps: Seq<(usize, usize)>, len: usize, align: usize, j: int) -> Option<int>
    decreases gaps.len() - j,
{
    if j < 0 || j >= gaps.len() {
        None
    } else if fits(gaps[j], len, align) {
        Some(j)
    } else {
        first_fit_gap_from(gaps, len, align, j + 1)
    }
}

/// The first block at index `b` or later with a gap that can hold the
/// request, with the index of the first such gap in it.
pub open spec fn first_fit_from(blocks: Seq<Block>, len: usize, align: usize, b: int) -> Option<(int, int)>
    decreases blocks.len() - b,
{
    if b < 0 || b >= blocks.len() {
        None
    } else {
        match first_fit_gap_from(blocks[b].gaps@, len, align, 0) {
            Some(j) => Some((b, j)),
            None => first_fit_from(blocks, len, align, b + 1),
        }
    }
}

/// The gaps of a block after a request has been placed in gap `j`: the gap
/// keeps what lies past the request, and the slack before it becomes a gap of
/// its own while the block has room for one more.
pub open spec fn gaps_after(gaps: Seq<(usize, usize)>, j: int, len: usize, align: usize) -> Seq<(usize, usize)> {
    let g = gaps[j];
    let end = placed_end(g, len, align);
    let rest = gaps.update(j, (end as usize, (g.0 + g.1 - end) as usize));
    if slack_of(g, len, align) > 0 && gaps.len() < MAX_BLOCK_GAPS {
        rest.push((g.0, slack_of(g, len, align) as usize))
    } else {
        rest
    }
}

/// The record that a successful allocation adds.
pub open spec fn allocation_record(block: usize, addr: usize, size: usize, align: usize) -> Allocation {
    Allocation { block, start_addr: addr, size, align, padding_amt: size / PAD_FRAC_DENOM }
}

/// `b` is the block that the allocator makes of the memory map entry `e`:
/// same start and length, and one gap spanning all of it.
pub open spec fn is_fresh_block(b: Block, e: MemmapEntry) -> bool {
    &&& b.start == e.base as usize
    &&& b.len == e.length as usize
    &&& b.gaps@ == seq![(e.base as usize, e.length as usize)]
}

/// The addresses a gap covers, as a half-open range.
pub open spec fn gap_range(g: (usize, usize)) -> (int, int) {
    (g.0 as int, g.0 + g.1)
}

/// The addresses a block covers, as a half-open range.
pub open spec fn block_range(b: Block) -> (int, int) {
    (b.start as int, b.start + b.len)
}

/// The addresses an allocation takes, its padding included, as a half-open range.
pub open spec fn footprint(a: Allocation) -> (int, int) {
    (a.start_addr - a.padding_amt, a.start_addr + a.size + a.padding_amt)
}

/// Range `r` lies within range `outer`.
pub open spec fn within(r: (int, int), outer: (int, int)) -> bool {
    outer.0 <= r.0 <= r.1 <= outer.1
}

/// The ranges share no address.
pub open spec fn disjoint(r: (int, int), s: (int, int)) -> bool {
    r.1 <= r.0 || s.1 <= s.0 || r.1 <= s.0 || s.1 <= r.0
}

/// Every gap lies within its block.
pub open spec fn gaps_inside(blocks: Seq<Block>) -> bool {
    forall|b: int, j: int|
        0 <= b < blocks.len() && 0 <= j < blocks[b].gaps@.len() ==> within(
            gap_range(#[trigger] blocks[b].gaps@[j]),
            block_range(blocks[b]),
        )
}

/// The gaps of a block share no address.
pub open spec fn gaps_apart(blocks: Seq<Block>) -> bool {
    forall|b: int, j: int, k: int|
        0 <= b < blocks.len() && 0 <= j < blocks[b].gaps@.len() && 0 <= k < blocks[b].gaps@.len()
            && j != k ==> disjoint(
            gap_range(#[trigger] blocks[b].gaps@[j]),
            gap_range(#[trigger] blocks[b].gaps@[k]),
        )
}

/// Every allocation is a record of its block: padded by half its size,
/// aligned, and lying with its padding within the block.
pub open spec fn allocations_placed(blocks: Seq<Block>, allocs: Seq<Allocation>) -> bool {
    forall|i: int|
        0 <= i < allocs.len() ==> {
            let a = #[trigger] allocs[i];
            &&& a.block < blocks.len()
            &&& a.padding_amt == a.size / PAD_FRAC_DENOM
            &&& a.align > 0
            &&& a.start_addr % a.align == 0
            &&& within(footprint(a), block_range(blocks[a.block as int]))
        }
}

/// No allocation shares an address with a gap of its block.
pub open spec fn allocations_apart_from_gaps(blocks: Seq<Block>, allocs: Seq<Allocation>) -> bool {
    forall|i: int, j: int|
        0 <= i < allocs.len() && allocs[i].block < blocks.len() && 0 <= j
            < blocks[allocs[i].block as int].gaps@.len() ==> disjoint(
            footprint(#[trigger] allocs[i]),
            gap_range(#[trigger] blocks[allocs[i].block as int].gaps@[j]),
        )
}

/// No two allocations of one block share an address.
pub open spec fn allocations_apart(allocs: Seq<Allocation>) -> bool {
    forall|i: int, k: int|
        0 <= i < allocs.len() && 0 <= k < allocs.len() && i != k && allocs[i].block
            == allocs[k].block ==> disjoint(footprint(#[trigger] allocs[i]), footprint(#[trigger] allocs[k]))
}

/// How blocks, gaps and allocations lie in memory.
pub open spec fn layout_ok(blocks: Seq<Block>, allocs: Seq<Allocation>) -> bool {
    &&& gaps_inside(blocks)
    &&& gaps_apart(blocks)
    &&& allocations_placed(blocks, allocs)
    &&& allocations_apart_from_gaps(blocks, allocs)
    &&& allocations_apart(allocs)
}

/// Rounding up to a positive alignment gives the first multiple at or after `x`.
pub proof fn lemma_align_up(x: int, align: int)
    requires
        0 <= x,
        0 < align,
    ensures
        x <= align_up(x, align) < x + align,
        align_up(x, align) % align == 0,
{
    vstd::arithmetic::div_mod::lemma_fundamental_div_mod(x, align);
    vstd::arithmetic::div_mod::lemma_mod_bound(x, align);
    if x % align != 0 {
        let q = x / align;
        assert(align_up(x, align) == (q + 1) * align) by (nonlinear_arith)
            requires
                x == align * q + x % align,
                align_up(x, align) == x + (align - x % align),
        ;
        vstd::arithmetic::div_mod::lemma_mod_multiples_basic(q + 1, align);
    }
}

/// Where a request of `len` bytes aligned to `align` starts in `gap`; `None`
/// where it does not fit.
fn place(gap: (usize, usize), len: usize, align: usize) -> (r: Option<usize>)
    requires
        align > 0,
    ensures
        r == (if fits(gap, len, align) {
            Some(placement(gap, len, align) as usize)
        } else {
            None::<usize>
        }),
{
    let pad = len / PAD_FRAC_DENOM;
    proof {
        lemma_align_up(gap.0 + pad_of(len), align as int);
    }
    let lo = match gap.0.checked_add(pad) {
        Some(v) => v,
        None => return None,
    };
    let rem = lo % align;
    let addr = if rem == 0 {
        lo
    } else {
        match lo.checked_add(align - rem) {
            Some(v) => v,
            None => return None,
        }
    };
    let end = match addr.checked_add(len) {
        Some(v) => match v.checked_add(pad) {
            Some(w) => w,
            None => return None,
        },
        None => return None,
    };
    if end - gap.0 <= gap.1 {
        Some(addr)
    } else {
        None
    }
}

/// `g` is the gap at index `j` of `gaps`, the request fits it, and it fits no
/// gap before it.
pub open spec fn is_first_fitting_gap(gaps: Seq<(usize, usize)>, len: usize, align: usize, j: int) -> bool {
    &&& 0 <= j < gaps.len()
    &&& fits(gaps[j], len, align)
    &&& forall|i: int| 0 <= i < j ==> !fits(#[trigger] gaps[i], len, align)
}

/// Some gap in `gaps` can hold the request.
pub open spec fn has_fit(gaps: Seq<(usize, usize)>, len: usize, align: usize) -> bool {
    exists|j: int| 0 <= j < gaps.len() && fits(#[trigger] gaps[j], len, align)
}

proof fn lemma_first_fit_gap_from(gaps: Seq<(usize, usize)>, len: usize, align: usize, j: int)
    requires
        0 <= j <= gaps.len(),
    ensures
        match first_fit_gap_from(gaps, len, align, j) {
            Some(k) => j <= k < gaps.len() && fits(gaps[k], len, align) && forall|i: int|
                j <= i < k ==> !fits(#[trigger] gaps[i], len, align),
            None => forall|i: int| j <= i < gaps.len() ==> !fits(#[trigger] gaps[i], len, align),
        },
    decreases gaps.len() - j,
{
    if j < gaps.len() {
        lemma_first_fit_gap_from(gaps, len, align, j + 1);
    }
}

/// Block `found` is the first block from `b` on with a gap that can hold the
/// request, and `j` is the index of its first such gap.
pub open spec fn is_first_fit_from(blocks: Seq<Block>, len: usize, align: usize, b: int, found: int, j: int) -> bool {
    &&& b <= found < blocks.len()
    &&& is_first_fitting_gap(blocks[found].gaps@, len, align, j)
    &&& forall|i: int| b <= i < found ==> !has_fit(#[trigger] blocks[i].gaps@, len, align)
}

/// No block from `b` on has a gap that can hold the request.
pub open spec fn no_fit_from(blocks: Seq<Block>, len: usize, align: usize, b: int) -> bool {
    forall|i: int| b <= i < blocks.len() ==> !has_fit(#[trigger] blocks[i].gaps@, len, align)
}

/// `r` is what a first-fit search from block `b` on must answer.
pub open spec fn first_fit_from_answers(blocks: Seq<Block>, len: usize, align: usize, b: int, r: Option<(int, int)>) -> bool {
    match r {
        Some((found, j)) => is_first_fit_from(blocks, len, align, b, found, j),
        None => no_fit_from(blocks, len, align, b),
    }
}

proof fn lemma_first_fit_from(blocks: Seq<Block>, len: usize, align: usize, b: int)
    requires
        0 <= b <= blocks.len(),
    ensures
        first_fit_from_answers(blocks, len, align, b, first_fit_from(blocks, len, align, b)),
    decreases blocks.len() - b,
{
    if b < blocks.len() {
        let gaps = blocks[b].gaps@;
        lemma_first_fit_gap_from(gaps, len, align, 0);
        lemma_first_fit_from(blocks, len, align, b + 1);
        match first_fit_gap_from(gaps, len, align, 0) {
            Some(j) => {
                assert(is_first_fitting_gap(gaps, len, align, j));
                assert(is_first_fit_from(blocks, len, align, b, b, j));
            },
            None => {
                assert(!has_fit(gaps, len, align));
                let r = first_fit_from(blocks, len, align, b + 1);
                assert(first_fit_from(blocks, len, align, b) == r);
                match r {
                    Some((found, j)) => {
                        assert forall|i: int| b <= i < found implies !has_fit(
                            #[trigger] blocks[i].gaps@,
                            len,
                            align,
                        ) by {
                            if i > b {
                                assert(b + 1 <= i < found);
                            }
                        }
                    },
                    None => {
                        assert forall|i: int| b <= i < blocks.len() implies !has_fit(
                            #[trigger] blocks[i].gaps@,
                            len,
                            align,
                        ) by {
                            if i > b {
                                assert(b + 1 <= i);
                            }
                        }
                    },
                }
                assert(first_fit_from_answers(blocks, len, align, b, r));
            },
        }
    }
}

/// Placing a request in gap `j` of block `b` keeps the layout: the new
/// allocation takes addresses of that gap alone, and what is left of the gap
/// stays free.
proof fn lemma_placing_keeps_layout(
    blocks: Seq<Block>,
    allocs: Seq<Allocation>,
    b: int,
    j: int,
    len: usize,
    align: usize,
    nb: Block,
)
    requires
        layout_ok(blocks, allocs),
        0 <= b < blocks.len(),
        blocks.len() <= MAX_BLOCK_COUNT,
        0 <= j < blocks[b].gaps@.len(),
        fits(blocks[b].gaps@[j], len, align),
        align > 0,
        nb.start == blocks[b].start,
        nb.len == blocks[b].len,
        nb.gaps@ == gaps_after(blocks[b].gaps@, j, len, align),
    ensures
        layout_ok(
            blocks.update(b, nb),
            allocs.push(
                allocation_record(
                    b as usize,
                    placement(blocks[b].gaps@[j], len, align) as usize,
                    len,
                    align,
                ),
            ),
        ),
{
    let g = blocks[b].gaps@[j];
    let p = placement(g, len, align);
    let end = placed_end(g, len, align);
    let pad = pad_of(len);
    lemma_align_up(g.0 + pad, align as int);
    let nblocks = blocks.update(b, nb);
    let a = allocation_record(b as usize, p as usize, len, align);
    let nallocs = allocs.push(a);
    let old_gaps = blocks[b].gaps@;
    let new_gaps = nb.gaps@;
    assert(footprint(a) == (p - pad, end));
    assert(within(gap_range(g), block_range(blocks[b])));
    // Every new gap lies within the old gap `j`, or is an old gap.
    assert forall|k: int| 0 <= k < new_gaps.len() implies (k < old_gaps.len() && k != j
        && new_gaps[k] == old_gaps[k]) || within(gap_range(#[trigger] new_gaps[k]), gap_range(g)) by {
    }
    // The new allocation lies within the old gap `j`, apart from the new gaps.
    assert forall|k: int| 0 <= k < new_gaps.len() implies disjoint(
        footprint(a),
        gap_range(#[trigger] new_gaps[k]),
    ) by {
        if k < old_gaps.len() && k != j {
            assert(disjoint(gap_range(old_gaps[j]), gap_range(old_gaps[k])));
        }
    }
    assert(gaps_inside(nblocks)) by {
        assert forall|c: int, k: int|
            0 <= c < nblocks.len() && 0 <= k < nblocks[c].gaps@.len() implies within(
            gap_range(#[trigger] nblocks[c].gaps@[k]),
            block_range(nblocks[c]),
        ) by {
            if c == b && !(k < old_gaps.len() && k != j && new_gaps[k] == old_gaps[k]) {
                assert(within(gap_range(new_gaps[k]), gap_range(g)));
            }
        }
    }
    assert(gaps_apart(nblocks)) by {
        assert forall|c: int, k: int, m: int|
            0 <= c < nblocks.len() && 0 <= k < nblocks[c].gaps@.len() && 0 <= m
                < nblocks[c].gaps@.len() && k != m implies disjoint(
            gap_range(#[trigger] nblocks[c].gaps@[k]),
            gap_range(#[trigger] nblocks[c].gaps@[m]),
        ) by {
            if c == b {
                if k < old_gaps.len() && m < old_gaps.len() && k != j && m != j {
                    assert(disjoint(gap_range(old_gaps[k]), gap_range(old_gaps[m])));
                } else if k < old_gaps.len() && k != j {
                    assert(disjoint(gap_range(old_gaps[k]), gap_range(old_gaps[j])));
                    assert(within(gap_range(new_gaps[m]), gap_range(g)));
                } else if m < old_gaps.len() && m != j {
                    assert(disjoint(gap_range(old_gaps[m]), gap_range(old_gaps[j])));
                    assert(within(gap_range(new_gaps[k]), gap_range(g)));
                }
            }
        }
    }
    assert(allocations_placed(nblocks, nallocs)) by {
        assert forall|i: int| 0 <= i < nallocs.len() implies {
            let x = #[trigger] nallocs[i];
            &&& x.block < nblocks.len()
            &&& x.padding_amt == x.size / PAD_FRAC_DENOM
            &&& x.align > 0
            &&& x.start_addr % x.align == 0
            &&& within(footprint(x), block_range(nblocks[x.block as int]))
        } by {
            if i < allocs.len() {
                assert(nallocs[i] == allocs[i]);
            }
        }
    }
    assert(allocations_apart_from_gaps(nblocks, nallocs)) by {
        assert forall|i: int, k: int|
            0 <= i < nallocs.len() && nallocs[i].block < nblocks.len() && 0 <= k
                < nblocks[nallocs[i].block as int].gaps@.len() implies disjoint(
            footprint(#[trigger] nallocs[i]),
            gap_range(#[trigger] nblocks[nallocs[i].block as int].gaps@[k]),
        ) by {
            if i < allocs.len() {
                let x = allocs[i];
                assert(nallocs[i] == x);
                if x.block as int == b {
                    if !(k < old_gaps.len() && k != j && new_gaps[k] == old_gaps[k]) {
                        assert(disjoint(footprint(x), gap_range(old_gaps[j])));
                        assert(within(gap_range(new_gaps[k]), gap_range(g)));
                    } else {
                        assert(disjoint(footprint(x), gap_range(old_gaps[k])));
                    }
                } else {
                    assert(disjoint(footprint(x), gap_range(blocks[x.block as int].gaps@[k])));
                }
            }
        }
    }
    assert(allocations_apart(nallocs)) by {
        assert forall|i: int, k: int|
            0 <= i < nallocs.len() && 0 <= k < nallocs.len() && i != k && nallocs[i].block
                == nallocs[k].block implies disjoint(
            footprint(#[trigger] nallocs[i]),
            footprint(#[trigger] nallocs[k]),
        ) by {
            if i < allocs.len() && k < allocs.len() {
                assert(nallocs[i] == allocs[i]);
                assert(nallocs[k] == allocs[k]);
            } else if i < allocs.len() {
                assert(nallocs[i] == allocs[i]);
                assert(disjoint(footprint(allocs[i]), gap_range(old_gaps[j])));
            } else {
                assert(nallocs[k] == allocs[k]);
                assert(disjoint(footprint(allocs[k]), gap_range(old_gaps[j])));
            }
        }
    }
}

/// Law (documented padding): without alignment, a request of `len` bytes
/// fits a gap exactly when the gap holds the request and `len /
/// PAD_FRAC_DENOM` bytes of padding on each side, within the address space.
pub proof fn lemma_unaligned_fit(gap: (usize, usize), len: usize)
    ensures
        placement(gap, len, 1) == gap.0 + pad_of(len),
        slack_of(gap, len, 1) == 0,
        fits(gap, len, 1) <==> (gap.1 >= needed(len) && gap.0 + needed(len) <= usize::MAX),
{
    assert((gap.0 + pad_of(len)) % 1 == 0);
}

/// Law (the used gap shrinks): placing a request in a gap leaves, past it, a
/// gap that starts where the request's back padding ends; that gap and the
/// alignment slack before the request together hold exactly the old gap's
/// length less the request and its padding on both sides.
pub proof fn lemma_used_gap_shrinks(gaps: Seq<(usize, usize)>, j: int, len: usize, align: usize)
    requires
        0 <= j < gaps.len(),
        fits(gaps[j], len, align),
        align > 0,
    ensures
        gaps_after(gaps, j, len, align)[j] == (
            placed_end(gaps[j], len, align) as usize,
            (gaps[j].0 + gaps[j].1 - placed_end(gaps[j], len, align)) as usize,
        ),
        gaps_after(gaps, j, len, align)[j].1 + slack_of(gaps[j], len, align) == gaps[j].1 - needed(len),
        0 <= slack_of(gaps[j], len, align) < align,
        slack_of(gaps[j], len, align) > 0 && gaps.len() < MAX_BLOCK_GAPS ==> {
            &&& gaps_after(gaps, j, len, align).len() == gaps.len() + 1
            &&& gaps_after(gaps, j, len, align).last() == (gaps[j].0, slack_of(gaps[j], len, align) as usize)
        },
        !(slack_of(gaps[j], len, align) > 0 && gaps.len() < MAX_BLOCK_GAPS) ==> gaps_after(gaps, j, len, align).len() == gaps.len(),
        forall|k: int| 0 <= k < gaps.len() && k != j ==> #[trigger] gaps_after(gaps, j, len, align)[k] == gaps[k],
{
    lemma_align_up(gaps[j].0 + pad_of(len), align as int);
}

/// Law (the record keeps the request): the record of an allocation holds
/// the block, the address, the size and the alignment asked for, and a
/// padding of `size / PAD_FRAC_DENOM`.
pub proof fn lemma_record_keeps_request(block: usize, addr: usize, size: usize, align: usize)
    ensures
        allocation_record(block, addr, size, align).block == block,
        allocation_record(block, addr, size, align).start_addr == addr,
        allocation_record(block, addr, size, align).size == size,
        allocation_record(block, addr, size, align).align == align,
        allocation_record(block, addr, size, align).padding_amt == size / PAD_FRAC_DENOM,
{
}

/// The first multiple of `align` at or after `x` comes no later than any
/// multiple at or after `x`.
proof fn lemma_align_up_least(x: int, align: int, a: int)
    requires
        0 <= x <= a,
        0 < align,
        a % align == 0,
    ensures
        align_up(x, align) <= a,
{
    lemma_align_up(x, align);
    let u = align_up(x, align);
    if a < u {
        vstd::arithmetic::div_mod::lemma_fundamental_div_mod(a, align);
        vstd::arithmetic::div_mod::lemma_fundamental_div_mod(u, align);
        let qa = a / align;
        let qu = u / align;
        assert(false) by (nonlinear_arith)
            requires
                a == align * qa,
                u == align * qu,
                a < u,
                u < a + align,
                0 < align,
        ;
    }
}

/// Law (fit is complete): wherever an address `a` that is a multiple of
/// `align` leaves room in `gap` for `len / PAD_FRAC_DENOM` bytes before it
/// and `len` bytes and the same padding after it, within the address space,
/// the request fits the gap, placed no later than `a`.
pub proof fn lemma_fit_complete(gap: (usize, usize), len: usize, align: usize, a: int)
    requires
        align > 0,
        a % (align as int) == 0,
        gap.0 + len / PAD_FRAC_DENOM <= a,
        a + len + len / PAD_FRAC_DENOM <= gap.0 + gap.1,
        a + len + len / PAD_FRAC_DENOM <= usize::MAX,
    ensures
        fits(gap, len, align),
        placement(gap, len, align) <= a,
{
    lemma_align_up_least(gap.0 + pad_of(len), align as int, a);
}

/// Law (the search is complete): wherever some gap of some block has room
/// for the request at an aligned address, with its padding and within the
/// address space, the search finds room, in that block or an earlier one.
pub proof fn lemma_search_finds_room(g: Global, len: usize, align: usize, b: int, j: int, a: int)
    requires
        align > 0,
        0 <= b < g.blocks().len(),
        0 <= j < g.blocks()[b].gaps@.len(),
        a % (align as int) == 0,
        g.blocks()[b].gaps@[j].0 + len / PAD_FRAC_DENOM <= a,
        a + len + len / PAD_FRAC_DENOM <= g.blocks()[b].gaps@[j].0 + g.blocks()[b].gaps@[j].1,
        a + len + len / PAD_FRAC_DENOM <= usize::MAX,
    ensures
        g.first_fit(len, align) is Some,
        (g.first_fit(len, align)->0).0 <= b,
{
    lemma_fit_complete(g.blocks()[b].gaps@[j], len, align, a);
    assert(has_fit(g.blocks()[b].gaps@, len, align));
    lemma_first_fit_is_first(g, len, align);
}

/// Law (first fit): the allocator picks the first gap that can hold the
/// request in the first block that has such a gap, and picks nothing only
/// where no gap of any block can hold it.
pub proof fn lemma_first_fit_is_first(g: Global, len: usize, align: usize)
    ensures
        match g.choice(len, align) {
            Some((found, j)) => {
                &&& 0 <= found < g.blocks().len()
                &&& is_first_fitting_gap(g.blocks()[found].gaps@, len, align, j)
                &&& forall|i: int| 0 <= i < found ==> !has_fit(#[trigger] g.blocks()[i].gaps@, len, align)
            },
            None => forall|i: int|
                0 <= i < g.blocks().len() ==> !has_fit(#[trigger] g.blocks()[i].gaps@, len, align),
        },
{
    lemma_first_fit_from(g.blocks(), len, align, 0);
}

/// Law (fresh heap): once the usable entries of a memory map have become the
/// blocks of an allocator, a request finds room exactly when the whole region
/// of some usable entry can hold it, and then it lands in the first such
/// block, in its single gap.
pub proof fn lemma_fresh_heap_fit(g: Global, memmap: Seq<MemmapEntry>, len: usize, align: usize)
    requires
        g.blocks().len() == usable_entries(memmap).len(),
        forall|k: int|
            0 <= k < usable_entries(memmap).len() ==> is_fresh_block(
                #[trigger] g.blocks()[k],
                usable_entries(memmap)[k],
            ),
    ensures
        g.choice(len, align) is Some <==> exists|k: int|
            0 <= k < usable_entries(memmap).len() && fits(
                (#[trigger] usable_entries(memmap)[k].base as usize, usable_entries(memmap)[k].length as usize),
                len,
                align,
            ),
        match g.choice(len, align) {
            Some((found, j)) => {
                let e = usable_entries(memmap)[found];
                &&& j == 0
                &&& fits((e.base as usize, e.length as usize), len, align)
                &&& forall|k: int|
                    0 <= k < found ==> !fits(
                        (#[trigger] usable_entries(memmap)[k].base as usize, usable_entries(memmap)[k].length as usize),
                        len,
                        align,
                    )
            },
            None => true,
        },
{
    let u = usable_entries(memmap);
    lemma_first_fit_is_first(g, len, align);
    assert forall|k: int| 0 <= k < u.len() implies (has_fit(#[trigger] g.blocks()[k].gaps@, len, align)
        <==> fits((u[k].base as usize, u[k].length as usize), len, align)) by {
        assert(g.blocks()[k].gaps@[0] == (u[k].base as usize, u[k].length as usize));
        if has_fit(g.blocks()[k].gaps@, len, align) {
            let j = choose|j: int| 0 <= j < g.blocks()[k].gaps@.len() && fits(#[trigger] g.blocks()[k].gaps@[j], len, align);
            assert(j == 0);
        }
    }
    match g.choice(len, align) {
        Some((found, j)) => {
            assert(has_fit(g.blocks()[found].gaps@, len, align));
            assert forall|k: int| 0 <= k < found implies !fits(
                (#[trigger] u[k].base as usize, u[k].length as usize),
                len,
                align,
            ) by {
                assert(!has_fit(g.blocks()[k].gaps@, len, align));
            }
        },
        None => {
            assert forall|k: int| 0 <= k < u.len() implies !fits(
                (#[trigger] u[k].base as usize, u[k].length as usize),
                len,
                align,
            ) by {
                assert(!has_fit(g.blocks()[k].gaps@, len, align));
            }
        },
    }
}

/// Law (placement): every live allocation starts at a multiple of its
/// alignment, is padded by `size / PAD_FRAC_DENOM` bytes on each side, and
/// lies with its padding inside the memory of its block.
pub proof fn lemma_allocation_inside_block(g: Global, i: int)
    requires
        g.wf(),
        0 <= i < g.allocations().len(),
    ensures
        ({
            let a = g.allocations()[i];
            &&& a.block < g.blocks().len()
            &&& a.align > 0
            &&& a.start_addr % a.align == 0
            &&& a.padding_amt == a.size / PAD_FRAC_DENOM
            &&& g.blocks()[a.block as int].start <= a.start_addr - a.padding_amt
            &&& a.start_addr + a.size + a.padding_amt <= g.blocks()[a.block as int].start
                + g.blocks()[a.block as int].len
        }),
{
    let a = g.allocations()[i];
    assert(within(footprint(a), block_range(g.blocks()[a.block as int])));
}

/// Law (no overlap): two live allocations, their padding included, share no
/// address, where they come from one block or from blocks whose memory does
/// not overlap; and no live allocation shares an address with a free gap of
/// its block.
pub proof fn lemma_allocations_disjoint(g: Global, i: int, k: int)
    requires
        g.wf(),
        0 <= i < g.allocations().len(),
        0 <= k < g.allocations().len(),
        i != k,
        g.allocations()[i].block == g.allocations()[k].block || disjoint(
            block_range(g.blocks()[g.allocations()[i].block as int]),
            block_range(g.blocks()[g.allocations()[k].block as int]),
        ),
    ensures
        disjoint(footprint(g.allocations()[i]), footprint(g.allocations()[k])),
        forall|j: int|
            0 <= j < g.blocks()[g.allocations()[i].block as int].gaps@.len() ==> disjoint(
                footprint(g.allocations()[i]),
                gap_range(#[trigger] g.blocks()[g.allocations()[i].block as int].gaps@[j]),
            ),
{
    let a = g.allocations()[i];
    let c = g.allocations()[k];
    assert(within(footprint(a), block_range(g.blocks()[a.block as int])));
    assert(within(footprint(c), block_range(g.blocks()[c.block as int])));
}

/// The debug global allocator.
pub struct Global {
    /// The blocks; the first `block_count` slots are in use.
    blocks: [Option<Block>; 31],
    /// All currently active allocations.
    allocations: AllocationList,
    /// Total number of active allocations.
    allocation_count: usize,
    /// Total number of blocks available for allocations.
    block_count: usize,
}

impl Global {
    /// The blocks in use, in the order they were added.
    pub closed spec fn blocks(&self) -> Seq<Block> {
        Seq::new(self.block_count as nat, |i: int| self.blocks@[i]->0)
    }

    /// The recorded allocations, oldest first.
    pub closed spec fn allocations(&self) -> Seq<Allocation> {
        self.allocations@
    }

    /// The allocation counter.
    pub closed spec fn allocation_count(&self) -> usize {
        self.allocation_count
    }

    /// The block counter.
    pub closed spec fn block_count(&self) -> usize {
        self.block_count
    }

    /// The slots in use are the first `block_count`, at most
    /// `MAX_BLOCK_COUNT`; the counter counts the recorded allocations; and
    /// blocks, gaps and allocations lie in memory as `layout_ok` says.
    pub closed spec fn wf(&self) -> bool {
        &&& self.block_count <= MAX_BLOCK_COUNT
        &&& forall|i: int|
            0 <= i < MAX_BLOCK_COUNT ==> (#[trigger] self.blocks@[i] is Some <==> i
                < self.block_count)
        &&& self.allocation_count == self.allocations@.len()
        &&& layout_ok(self.blocks(), self.allocations@)
    }

    /// Which gap a request of `len` bytes aligned to `align` goes to: the
    /// first block with a gap that can hold it, and the first such gap in it.
    pub open spec fn choice(&self, len: usize, align: usize) -> Option<(int, int)> {
        first_fit_from(self.blocks(), len, align, 0)
    }

    /// Where such a request goes: the block number and the start address.
    pub open spec fn first_fit(&self, len: usize, align: usize) -> Option<(usize, usize)> {
        match self.choice(len, align) {
            Some((b, j)) => Some((b as usize, placement(self.blocks()[b].gaps@[j], len, align) as usize)),
            None => None,
        }
    }

    /// An allocator with no blocks and no allocations.
    pub fn new_uninit() -> (r: Self)
        ensures
            r.wf(),
            r.blocks() == Seq::<Block>::empty(),
            r.allocations() == Seq::<Allocation>::empty(),
            r.allocation_count() == 0,
            r.block_count() == 0,
    {
        let r = Global {
            blocks: [
                None, None, None, None, None, None, None, None, None, None, None, None, None,
                None, None, None, None, None, None, None, None, None, None, None, None, None,
                None, None, None, None, None,
            ],
            allocations: AllocationList::new(),
            allocation_count: 0,
            block_count: 0,
        };
        assert(r.blocks() =~= Seq::<Block>::empty());
        r
    }

    /// The number of blocks.
    pub fn num_blocks(&self) -> (n: usize)
        requires
            self.wf(),
        ensures
            n == self.blocks().len(),
    {
        self.block_count
    }

    /// The block at position `i`.
    pub fn block(&self, i: usize) -> (b: &Block)
        requires
            self.wf(),
            i < self.blocks().len(),
        ensures
            *b == self.blocks()[i as int],
    {
        self.blocks[i].as_ref().unwrap()
    }

    /// The number of recorded allocations.
    pub fn num_allocations(&self) -> (n: usize)
        ensures
            n == self.allocations().len(),
    {
        self.allocations.len()
    }

    /// The recorded allocation at position `i`.
    pub fn allocation(&self, i: usize) -> (a: Allocation)
        requires
            i < self.allocations().len(),
        ensures
            a == self.allocations()[i as int],
    {
        self.allocations.get(i)
    }

    /// The value of the allocation counter.
    pub fn allocations_made(&self) -> (n: usize)
        ensures
            n == self.allocation_count(),
    {
        self.allocation_count
    }

    /// The first fitting gap for a request: block number, gap index and
    /// start address.
    fn find_fit(&self, len: usize, align: usize) -> (r: Option<(usize, usize, usize)>)
        requires
            self.wf(),
            align > 0,
        ensures
            match self.choice(len, align) {
                Some((b, j)) => r == Some(
                    (b as usize, j as usize, placement(self.blocks()[b].gaps@[j], len, align) as usize),
                ),
                None => r is None,
            },
    {
        let block_count = self.block_count;
        let mut b: usize = 0;
        while b < block_count
            invariant
                self.wf(),
                align > 0,
                block_count == self.blocks().len(),
                b <= block_count,
                first_fit_from(self.blocks(), len, align, 0) == first_fit_from(
                    self.blocks(),
                    len,
                    align,
                    b as int,
                ),
            decreases block_count - b,
        {
            let block = self.block(b);
            let n = block.gaps.len();
            let mut j: usize = 0;
            while j < n
                invariant
                    align > 0,
                    b < block_count == self.blocks().len(),
                    *block == self.blocks()[b as int],
                    first_fit_from(self.blocks(), len, align, 0) == first_fit_from(
                        self.blocks(),
                        len,
                        align,
                        b as int,
                    ),
                    n == block.gaps@.len(),
                    j <= n,
                    first_fit_gap_from(block.gaps@, len, align, 0) == first_fit_gap_from(
                        block.gaps@,
                        len,
                        align,
                        j as int,
                    ),
                decreases n - j,
            {
                let g = block.gaps.get(j);
                if let Some(addr) = place(g, len, align) {
                    return Some((b, j, addr));
                }
                j = j + 1;
            }
            b = b + 1;
        }
        None
    }

    /// Finds the first gap, in the first block that has one, that can hold
    /// `len` bytes aligned to `align` with their padding on both sides;
    /// returns the block number and the start address of the allocation.
    pub fn find_free_block_addr(&self, len: usize, align: usize) -> (r: Option<(usize, usize)>)
        requires
            self.wf(),
            align > 0,
        ensures
            r == self.first_fit(len, align),
    {
        match self.find_fit(len, align) {
            Some((b, _j, addr)) => Some((b, addr)),
            None => None,
        }
    }

    /// Allocates `size` bytes aligned to `align` in the first gap that can
    /// hold them with their padding, records the allocation and takes its
    /// room out of the gap; returns the start address, or `None` (changing
    /// nothing) where no gap can hold it.
    pub fn allocate(&mut self, size: usize, align: usize) -> (r: Option<usize>)
        requires
            old(self).wf(),
            align > 0,
            old(self).allocations().len() < SMALL_VEC_PUSH_LIMIT,
        ensures
            final(self).wf(),
            final(self).block_count() == old(self).block_count(),
            match old(self).choice(size, align) {
                Some((b, j)) => {
                    let gap = old(self).blocks()[b].gaps@[j];
                    let addr = placement(gap, size, align) as usize;
                    &&& r == Some(addr)
                    &&& final(self).allocations() == old(self).allocations().push(
                        allocation_record(b as usize, addr, size, align),
                    )
                    &&& final(self).allocations().last().block == b
                    &&& final(self).allocations().last().start_addr == addr
                    &&& final(self).allocations().last().size == size
                    &&& final(self).allocations().last().align == align
                    &&& final(self).allocations().last().padding_amt == size / PAD_FRAC_DENOM
                    &&& final(self).allocation_count() == old(self).allocation_count() + 1
                    &&& final(self).blocks().len() == old(self).blocks().len()
                    &&& forall|c: int|
                        0 <= c < old(self).blocks().len() && c != b
                            ==> #[trigger] final(self).blocks()[c] == old(self).blocks()[c]
                    &&& final(self).blocks()[b].start == old(self).blocks()[b].start
                    &&& final(self).blocks()[b].len == old(self).blocks()[b].len
                    &&& final(self).blocks()[b].gaps@ == gaps_after(
                        old(self).blocks()[b].gaps@,
                        j,
                        size,
                        align,
                    )
                },
                None => {
                    &&& r is None
                    &&& final(self).blocks() == old(self).blocks()
                    &&& final(self).allocations() == old(self).allocations()
                    &&& final(self).allocation_count() == old(self).allocation_count()
                },
            },
    {
        proof {
            lemma_first_fit_from(self.blocks(), size, align, 0);
        }
        let found = self.find_fit(size, align);
        match found {
            Some((b, j, addr)) => {
                let ghost old_blocks = self.blocks();
                let ghost old_allocs = self.allocations@;
                let pad = size / PAD_FRAC_DENOM;
                let (start, len) = self.block(b).gap(j);
                let end = addr + size + pad;
                proof {
                    lemma_align_up(start + pad_of(size), align as int);
                }
                let gap_count = self.block(b).gap_count();
                match &mut self.blocks[b] {
                    Some(block) => {
                        block.gaps.set(j, (end, len - (end - start)));
                        if addr - pad > start && gap_count < MAX_BLOCK_GAPS {
                            block.gaps.push((start, addr - pad - start));
                        }
                    },
                    None => {},
                }
                let allocation = Allocation {
                    block: b,
                    start_addr: addr,
                    size,
                    align,
                    padding_amt: pad,
                };
                self.allocations.push(allocation);
                self.allocation_count = self.allocation_count + 1;
                proof {
                    let nb = self.blocks()[b as int];
                    assert(self.blocks() =~= old_blocks.update(b as int, nb));
                    lemma_placing_keeps_layout(old_blocks, old_allocs, b as int, j as int, size, align, nb);
                }
                Some(addr)
            },
            None => None,
        }
    }
}

/// Makes every usable entry of `memmap` a block of `global`, in map order,
/// each with one gap that spans the whole block.
pub fn init_global(global: &mut Global, memmap: &[MemmapEntry])
    requires
        old(global).wf(),
        old(global).block_count() + usable_entries(memmap@).len() <= MAX_BLOCK_COUNT,
    ensures
        final(global).wf(),
        final(global).block_count() == old(global).block_count() + usable_entries(memmap@).len(),
        final(global).blocks().len() == old(global).blocks().len() + usable_entries(memmap@).len(),
        forall|i: int|
            0 <= i < old(global).blocks().len() ==> final(global).blocks()[i] == old(
                global,
            ).blocks()[i],
        forall|k: int|
            0 <= k < usable_entries(memmap@).len() ==> is_fresh_block(
                #[trigger] final(global).blocks()[old(global).blocks().len() + k],
                usable_entries(memmap@)[k],
            ),
        final(global).allocations() == old(global).allocations(),
        final(global).allocation_count() == old(global).allocation_count(),
{
    let ghost old_blocks = global.blocks();
    let mut i: usize = 0;
    while i < memmap.len()
        invariant
            i <= memmap@.len(),
            global.wf(),
            old_blocks.len() + usable_entries(memmap@).len() <= MAX_BLOCK_COUNT,
            global.blocks().len() == old_blocks.len() + usable_entries(memmap@.take(i as int)).len(),
            forall|j: int| 0 <= j < old_blocks.len() ==> global.blocks()[j] == old_blocks[j],
            forall|k: int|
                0 <= k < usable_entries(memmap@.take(i as int)).len() ==> is_fresh_block(
                    #[trigger] global.blocks()[old_blocks.len() + k],
                    usable_entries(memmap@.take(i as int))[k],
                ),
            global.allocations@ == old(global).allocations@,
            global.allocation_count == old(global).allocation_count,
        decreases memmap@.len() - i,
    {
        proof {
            lemma_usable_entries_step(memmap@, i as int);
            lemma_usable_prefix_len(memmap@, i as int + 1);
        }
        let entry = memmap[i];
        if entry.usable {
            let ghost before = global.blocks();
            let start = entry.base as usize;
            let len = entry.length as usize;
            let mut gaps = GapList::new();
            gaps.push((start, len));
            let idx = global.block_count;
            global.blocks[idx] = Some(Block { start, len, gaps });
            global.block_count = idx + 1;
            proof {
                let nb = global.blocks()[idx as int];
                assert(global.blocks() =~= before.push(nb));
                assert(is_fresh_block(nb, entry));
                lemma_adding_block_keeps_layout(before, global.allocations@, nb);
            }
        }
        i = i + 1;
    }
    assert(memmap@.take(memmap@.len() as int) =~= memmap@);
}

/// Law (layout): in a well-formed allocator the block counter counts the
/// blocks, there are at most `MAX_BLOCK_COUNT` of them, the counter of
/// allocations counts the records, and blocks, gaps and allocations lie in
/// memory as `layout_ok` says: every gap inside its block, the gaps of a
/// block apart, every allocation aligned and inside its block, and no two
/// of them, nor an allocation and a gap, sharing an address within a block.
pub proof fn lemma_layout(g: Global)
    requires
        g.wf(),
    ensures
        g.block_count() == g.blocks().len(),
        g.blocks().len() <= MAX_BLOCK_COUNT,
        g.allocation_count() == g.allocations().len(),
        layout_ok(g.blocks(), g.allocations()),
{
}

/// Law (found address): where the search finds room for a request, the
/// address it returns is aligned, and the request with its padding on both
/// sides lies inside the first fitting gap of the block it names, and so
/// inside that block.
pub proof fn lemma_found_inside_block(g: Global, len: usize, align: usize)
    requires
        g.wf(),
        align > 0,
    ensures
        match g.choice(len, align) {
            Some((b, j)) => {
                let gap = g.blocks()[b].gaps@[j];
                let addr = placement(gap, len, align);
                &&& g.first_fit(len, align) == Some((b as usize, addr as usize))
                &&& 0 <= b < g.blocks().len()
                &&& 0 <= j < g.blocks()[b].gaps@.len()
                &&& addr % align as int == 0
                &&& gap.0 <= addr - pad_of(len)
                &&& addr + len + pad_of(len) <= gap.0 + gap.1
                &&& g.blocks()[b].start <= addr - pad_of(len)
                &&& addr + len + pad_of(len) <= g.blocks()[b].start + g.blocks()[b].len
            },
            None => g.first_fit(len, align) is None,
        },
{
    lemma_first_fit_is_first(g, len, align);
    match g.choice(len, align) {
        Some((b, j)) => {
            let gap = g.blocks()[b].gaps@[j];
            lemma_align_up(gap.0 + pad_of(len), align as int);
            assert(within(gap_range(gap), block_range(g.blocks()[b])));
        },
        None => {},
    }
}

/// Adding a block whose only gap spans it keeps the layout.
proof fn lemma_adding_block_keeps_layout(blocks: Seq<Block>, allocs: Seq<Allocation>, nb: Block)
    requires
        layout_ok(blocks, allocs),
        nb.gaps@ == seq![(nb.start, nb.len)],
    ensures
        layout_ok(blocks.push(nb), allocs),
{
    let nblocks = blocks.push(nb);
    assert(gaps_inside(nblocks)) by {
        assert forall|c: int, k: int|
            0 <= c < nblocks.len() && 0 <= k < nblocks[c].gaps@.len() implies within(
            gap_range(#[trigger] nblocks[c].gaps@[k]),
            block_range(nblocks[c]),
        ) by {
            if c < blocks.len() {
                assert(nblocks[c] == blocks[c]);
            }
        }
    }
    assert(gaps_apart(nblocks)) by {
        assert forall|c: int, k: int, m: int|
            0 <= c < nblocks.len() && 0 <= k < nblocks[c].gaps@.len() && 0 <= m
                < nblocks[c].gaps@.len() && k != m implies disjoint(
            gap_range(#[trigger] nblocks[c].gaps@[k]),
            gap_range(#[trigger] nblocks[c].gaps@[m]),
        ) by {
            if c < blocks.len() {
                assert(nblocks[c] == blocks[c]);
            }
        }
    }
    assert(allocations_placed(nblocks, allocs)) by {
        assert forall|i: int| 0 <= i < allocs.len() implies {
            let x = #[trigger] allocs[i];
            &&& x.block < nblocks.len()
            &&& x.padding_amt == x.size / PAD_FRAC_DENOM
            &&& x.align > 0
            &&& x.start_addr % x.align == 0
            &&& within(footprint(x), block_range(nblocks[x.block as int]))
        } by {
            assert(nblocks[allocs[i].block as int] == blocks[allocs[i].block as int]);
        }
    }
    assert(allocations_apart_from_gaps(nblocks, allocs)) by {
        assert forall|i: int, k: int|
            0 <= i < allocs.len() && allocs[i].block < nblocks.len() && 0 <= k
                < nblocks[allocs[i].block as int].gaps@.len() implies disjoint(
            footprint(#[trigger] allocs[i]),
            gap_range(#[trigger] nblocks[allocs[i].block as int].gaps@[k]),
        ) by {
            assert(allocs[i].block < blocks.len());
            assert(nblocks[allocs[i].block as int] == blocks[allocs[i].block as int]);
        }
    }
}

/// A prefix of the map has no more usable entries than the whole map.
proof fn lemma_usable_prefix_len(s: Seq<MemmapEntry>, i: int)
    requires
        0 <= i <= s.len(),
    ensures
        usable_entries(s.take(i)).len() <= usable_entries(s).len(),
    decreases s.len() - i,
{
    if i < s.len() {
        lemma_usable_prefix_len(s, i + 1);
        lemma_usable_entries_step(s, i);
    } else {
        assert(s.take(i) =~= s);
    }
}

} // verus!
