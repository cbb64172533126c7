use rvos::mm::address::{PhysPageNum, VirtPageNum};
use rvos::mm::frame_allocator::{init_frame_allocator, StackFrameAllocator};
use rvos::mm::page_table::{
    MapError, PageTable, PageTableEntry, PTEFlags, PTE_R, PTE_U, PTE_V, PTE_W, PTE_X,
};
use rvos::mm::phys_mem::PhysMem;

fn setup(pages: usize) -> (PhysMem, StackFrameAllocator) {
    let mem = PhysMem::new(0x100, pages);
    let mut a = StackFrameAllocator::new();
    init_frame_allocator(&mut a, &mem);
    (mem, a)
}

#[test]
fn pte_fields_roundtrip() {
    let pte = PageTableEntry::new(PhysPageNum(0x80200), PTEFlags::from_bits(PTE_V | PTE_R | PTE_W));
    assert_eq!(pte.ppn().0, 0x80200);
    assert_eq!(pte.flags().bits(), PTE_V | PTE_R | PTE_W);
    assert!(pte.is_valid());
    let e = PageTableEntry::empty();
    assert_eq!(e.bits, 0);
    assert!(!e.is_valid());
}

#[test]
fn map_then_translate_sees_exactly_what_was_supplied() {
    let (mut mem, mut a) = setup(64);
    let mut pt = PageTable::new(&mut mem, &mut a);
    let vpn = VirtPageNum(0x12345);
    let ppn = PhysPageNum(0x80222);
    let flags = PTEFlags::from_bits(PTE_R | PTE_W | PTE_U);
    assert!(pt.map(&mut mem, &mut a, vpn, ppn, flags).is_ok());
    let pte = pt.translate(&mem, vpn).expect("mapped page must translate");
    assert_eq!(pte.ppn().0, ppn.0);
    assert_eq!(pte.flags().bits(), PTE_R | PTE_W | PTE_U | PTE_V);
    assert!(pte.is_valid());
    // a different page is untouched
    assert!(pt.translate(&mem, VirtPageNum(0x12346)).is_none());
}

#[test]
fn unmap_then_translate_finds_nothing() {
    let (mut mem, mut a) = setup(64);
    let mut pt = PageTable::new(&mut mem, &mut a);
    let vpn = VirtPageNum(7);
    assert!(pt.map(&mut mem, &mut a, vpn, PhysPageNum(0x300), PTEFlags::from_bits(PTE_R)).is_ok());
    assert!(pt.translate(&mem, vpn).is_some());
    assert!(pt.unmap(&mut mem, vpn).is_ok());
    assert!(pt.translate(&mem, vpn).is_none());
    // unmapping again is rejected
    assert_eq!(pt.unmap(&mut mem, vpn), Err(MapError::NotMapped));
}

#[test]
fn double_map_without_unmap_is_rejected() {
    let (mut mem, mut a) = setup(64);
    let mut pt = PageTable::new(&mut mem, &mut a);
    let vpn = VirtPageNum(42);
    assert!(pt.map(&mut mem, &mut a, vpn, PhysPageNum(0x400), PTEFlags::from_bits(PTE_R)).is_ok());
    assert_eq!(
        pt.map(&mut mem, &mut a, vpn, PhysPageNum(0x500), PTEFlags::from_bits(PTE_W)),
        Err(MapError::AlreadyMapped)
    );
    // the original mapping is intact
    let pte = pt.translate(&mem, vpn).unwrap();
    assert_eq!(pte.ppn().0, 0x400);
    assert_eq!(pte.flags().bits(), PTE_R | PTE_V);
    // after an unmap, remapping succeeds
    assert!(pt.unmap(&mut mem, vpn).is_ok());
    assert!(pt.map(&mut mem, &mut a, vpn, PhysPageNum(0x500), PTEFlags::from_bits(PTE_W)).is_ok());
    assert_eq!(pt.translate(&mem, vpn).unwrap().ppn().0, 0x500);
}

#[test]
fn unmap_on_missing_path_is_rejected() {
    let (mut mem, mut a) = setup(64);
    let mut pt = PageTable::new(&mut mem, &mut a);
    assert_eq!(pt.unmap(&mut mem, VirtPageNum(9)), Err(MapError::NotMapped));
}

#[test]
fn token_selects_sv39_over_the_root() {
    let (mut mem, mut a) = setup(16);
    let pt = PageTable::new(&mut mem, &mut a);
    let token = pt.token();
    assert_eq!(token >> 60, 8);
    assert_eq!(token & 0xfff_ffff_ffff, pt.root_ppn.0);
    let borrowed = PageTable::from_token(token);
    assert_eq!(borrowed.root_ppn.0, pt.root_ppn.0);
    assert_eq!(borrowed.frames.len(), 0);
}

#[test]
fn flags_union_and_contains() {
    let rw = PTEFlags::from_bits(PTE_R).union(PTEFlags::from_bits(PTE_W));
    assert_eq!(rw.bits(), PTE_R | PTE_W);
    assert!(rw.contains(PTEFlags::from_bits(PTE_R)));
    assert!(!rw.contains(PTEFlags::from_bits(PTE_X)));
    assert_eq!(PTEFlags::empty().bits(), 0);
}
