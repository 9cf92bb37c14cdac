use kernel::alloc_handler::dbg::{init_global, Global, MAX_BLOCK_COUNT, MAX_BLOCK_GAPS, PAD_FRAC_DENOM};
use kernel::alloc_handler::memmap::MemmapEntry;

fn entry(base: u64, length: u64, usable: bool) -> MemmapEntry {
    MemmapEntry { base, length, usable }
}

fn heap(entries: &[MemmapEntry]) -> Global {
    let mut g = Global::new_uninit();
    init_global(&mut g, entries);
    g
}

fn gaps(g: &Global, b: usize) -> Vec<(usize, usize)> {
    let block = g.block(b);
    (0..block.gap_count()).map(|j| block.gap(j)).collect()
}

/// The addresses an allocation takes, its padding included.
fn footprint(g: &Global, i: usize) -> (usize, usize) {
    let a = g.allocation(i);
    (a.start_addr - a.padding_amt, a.start_addr + a.size + a.padding_amt)
}

#[test]
fn new_allocator_is_empty() {
    let g = Global::new_uninit();
    assert_eq!(g.num_blocks(), 0);
    assert_eq!(g.num_allocations(), 0);
    assert_eq!(g.allocations_made(), 0);
    assert_eq!(g.find_free_block_addr(1, 1), None);
    assert_eq!(g.find_free_block_addr(usize::MAX, 1), None);
}

#[test]
fn init_global_turns_usable_entries_into_blocks() {
    let g = heap(&[
        entry(0x1000, 100, false),
        entry(0x2000, 64, true),
        entry(0x8000, 7, false),
        entry(0x9000, 400, true),
    ]);
    assert_eq!(g.num_blocks(), 2);
    let b0 = g.block(0);
    assert_eq!((b0.start, b0.len), (0x2000, 64));
    assert_eq!(gaps(&g, 0), vec![(0x2000, 64)]);
    let b1 = g.block(1);
    assert_eq!((b1.start, b1.len), (0x9000, 400));
    assert_eq!(gaps(&g, 1), vec![(0x9000, 400)]);
    assert_eq!(g.num_allocations(), 0);
}

#[test]
fn init_global_appends_after_existing_blocks() {
    let mut g = heap(&[entry(0x2000, 64, true)]);
    init_global(&mut g, &[entry(0x5000, 32, true), entry(0x6000, 8, false)]);
    assert_eq!(g.num_blocks(), 2);
    assert_eq!(g.block(0).start, 0x2000);
    assert_eq!(g.block(1).start, 0x5000);
}

#[test]
fn init_global_fills_every_block_slot() {
    let entries: Vec<MemmapEntry> = (0..MAX_BLOCK_COUNT as u64)
        .map(|i| entry(i * 0x1000, 0x100, true))
        .collect();
    let g = heap(&entries);
    assert_eq!(g.num_blocks(), MAX_BLOCK_COUNT);
    assert_eq!(g.block(MAX_BLOCK_COUNT - 1).start, (MAX_BLOCK_COUNT - 1) * 0x1000);
}

#[test]
fn padding_is_a_fraction_of_the_request_on_each_side() {
    // 3 bytes with 3 / PAD_FRAC_DENOM = 1 byte on each side need exactly 5.
    assert_eq!(PAD_FRAC_DENOM, 2);
    let g = heap(&[entry(0x1000, 5, true)]);
    assert_eq!(g.find_free_block_addr(3, 1), Some((0, 0x1001)));
    assert_eq!(g.find_free_block_addr(4, 1), None);
    let g = heap(&[entry(0x2000, 64, true)]);
    assert_eq!(g.find_free_block_addr(32, 1), Some((0, 0x2010)));
    assert_eq!(g.find_free_block_addr(33, 1), None);
}

#[test]
fn find_returns_an_aligned_address_inside_the_block() {
    let g = heap(&[entry(0x2000, 64, true)]);
    // 10 bytes with 5 bytes of padding: 0x2005 rounded up to 8 is 0x2008.
    assert_eq!(g.find_free_block_addr(10, 8), Some((0, 0x2008)));
    assert_eq!(g.find_free_block_addr(10, 0x40), None);
    let g = heap(&[entry(0x2000, 0x100, true)]);
    assert_eq!(g.find_free_block_addr(10, 0x40), Some((0, 0x2040)));
}

#[test]
fn find_picks_first_block_that_fits() {
    let g = heap(&[entry(0x2000, 64, true), entry(0x9000, 400, true), entry(0xA000, 500, true)]);
    assert_eq!(g.find_free_block_addr(50, 1), Some((1, 0x9019)));
    assert_eq!(g.find_free_block_addr(10, 1), Some((0, 0x2005)));
    assert_eq!(g.find_free_block_addr(220, 1), Some((2, 0xA06E)));
    assert_eq!(g.find_free_block_addr(251, 1), None);
}

#[test]
fn allocate_records_the_allocation_and_shrinks_the_gap() {
    let mut g = heap(&[entry(0x2000, 64, true), entry(0x9000, 400, true)]);
    assert_eq!(g.allocate(50, 1), Some(0x9019));
    assert_eq!(g.num_allocations(), 1);
    assert_eq!(g.allocations_made(), 1);
    let a = g.allocation(0);
    assert_eq!(a.block, 1);
    assert_eq!(a.start_addr, 0x9019);
    assert_eq!(a.size, 50);
    assert_eq!(a.align, 1);
    assert_eq!(a.padding_amt, 25);
    // The gap lost the request and both paddings: 400 - 100 bytes are left.
    assert_eq!(gaps(&g, 1), vec![(0x9064, 300)]);
    assert_eq!(gaps(&g, 0), vec![(0x2000, 64)]);
}

#[test]
fn alignment_slack_stays_free() {
    let mut g = heap(&[entry(0x2000, 64, true)]);
    assert_eq!(g.allocate(10, 8), Some(0x2008));
    // The allocation takes 0x2003..0x2017; 0x2000..0x2003 is left as a gap.
    assert_eq!(gaps(&g, 0), vec![(0x2017, 41), (0x2000, 3)]);
    assert_eq!(MAX_BLOCK_GAPS, 0x50);
}

#[test]
fn allocations_do_not_overlap() {
    let mut g = heap(&[entry(0x2000, 64, true)]);
    assert_eq!(g.allocate(10, 1), Some(0x2005));
    assert_eq!(g.allocate(10, 1), Some(0x2019));
    assert_eq!(g.allocate(10, 1), Some(0x202d));
    assert_eq!(g.allocate(10, 1), None);
    assert_eq!(g.num_allocations(), 3);
    for i in 0..3 {
        for k in 0..3 {
            if i != k {
                let (lo1, hi1) = footprint(&g, i);
                let (lo2, hi2) = footprint(&g, k);
                assert!(hi1 <= lo2 || hi2 <= lo1);
            }
        }
    }
    assert_eq!(gaps(&g, 0), vec![(0x203c, 4)]);
}

#[test]
fn allocate_fails_without_room_and_changes_nothing() {
    let mut g = heap(&[entry(0x2000, 64, true), entry(0x9000, 400, false)]);
    assert_eq!(g.allocate(33, 1), None);
    assert_eq!(g.num_allocations(), 0);
    assert_eq!(g.allocations_made(), 0);
    assert_eq!(g.num_blocks(), 1);
    assert_eq!(gaps(&g, 0), vec![(0x2000, 64)]);
}

#[test]
fn fresh_heap_fits_exactly_where_an_entry_is_long_enough() {
    let map = [entry(0, 10, true), entry(0x100, 90, false), entry(0x200, 30, true), entry(0x300, 60, true)];
    let g = heap(&map);
    // 14 bytes need 28: the first usable entry of at least 28 bytes is the second block.
    assert_eq!(g.find_free_block_addr(14, 1), Some((1, 0x207)));
    // 30 bytes need 60: only the last usable entry is long enough.
    assert_eq!(g.find_free_block_addr(30, 1), Some((2, 0x30f)));
    // 31 bytes need 61: no usable entry is long enough (the unusable one would be).
    assert_eq!(g.find_free_block_addr(31, 1), None);
}

#[test]
fn found_addresses_lie_inside_their_block_with_padding() {
    let g = heap(&[entry(0x2000, 64, true), entry(0x9000, 0x300, true)]);
    for (len, align) in [(1, 1), (10, 8), (40, 16), (100, 64), (3, 0x100)] {
        if let Some((b, addr)) = g.find_free_block_addr(len, align) {
            let block = g.block(b);
            let pad = len / PAD_FRAC_DENOM;
            assert_eq!(addr % align, 0);
            assert!(block.start <= addr - pad);
            assert!(addr + len + pad <= block.start + block.len);
        } else {
            panic!("a request of {len} bytes aligned to {align} fits the second block");
        }
    }
}
