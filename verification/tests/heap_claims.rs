use kernel::alloc_handler::memmap::MemmapEntry;
use kernel::alloc_handler::opt::{claim_step, init_global, Claim};

fn entry(base: u64, length: u64, usable: bool) -> MemmapEntry {
    MemmapEntry { base, length, usable }
}

#[test]
fn claims_every_usable_entry_in_order() {
    let map = [
        entry(0x1000, 0x100, true),
        entry(0x2000, 0x200, false),
        entry(0x3000, 0x300, true),
    ];
    let h = init_global(&map, 0xffff_8000_0000_0000);
    assert_eq!(
        h.claims,
        vec![
            Claim { base: 0xffff_8000_0000_1000, size: 0x100 },
            Claim { base: 0xffff_8000_0000_3000, size: 0x300 },
        ]
    );
    assert_eq!(h.total, 0x400);
}

#[test]
fn empty_map_claims_nothing() {
    let h = init_global(&[], 0x1000);
    assert!(h.claims.is_empty());
    assert_eq!(h.total, 0);
}

#[test]
fn no_usable_entry_claims_nothing() {
    let h = init_global(&[entry(0, 0x1000, false), entry(0x1000, 0x1000, false)], 0);
    assert!(h.claims.is_empty());
    assert_eq!(h.total, 0);
}

#[test]
fn base_and_total_wrap_around() {
    let map = [entry(u64::MAX - 0xf, u64::MAX, true), entry(0x10, 2, true)];
    let h = init_global(&map, 0x20);
    assert_eq!(h.claims[0], Claim { base: 0x10, size: u64::MAX as usize });
    assert_eq!(h.claims[1], Claim { base: 0x30, size: 2 });
    // (2^64 - 1) + 2 reduced modulo 2^64.
    assert_eq!(h.total, 1);
}

#[test]
fn claim_step_claims_only_usable_entries() {
    assert_eq!(
        claim_step(5, &entry(0x1000, 0x10, true), 0x100),
        (0x15, Some(Claim { base: 0x1100, size: 0x10 }))
    );
    assert_eq!(claim_step(5, &entry(0x1000, 0x10, false), 0x100), (5, None));
}
