use rvos::mm::address::{PhysAddr, PhysPageNum, SimpleRange, SimpleRangeIterator, VirtAddr, VirtPageNum};

#[test]
fn from_masks_to_valid_width() {
    assert_eq!(PhysAddr::from(u64::MAX).0, 0x00ff_ffff_ffff_ffff);
    assert_eq!(VirtAddr::from(u64::MAX).0, 0x7f_ffff_ffff);
    assert_eq!(PhysPageNum::from(u64::MAX).0, 0xfff_ffff_ffff);
    assert_eq!(VirtPageNum::from(u64::MAX).0, 0x7ff_ffff);
    assert_eq!(PhysAddr::from(0x8020_0000u64).0, 0x8020_0000);
}

#[test]
fn floor_ceil_offset() {
    let a = VirtAddr(0x3456);
    assert_eq!(a.floor().0, 3);
    assert_eq!(a.ceil().0, 4);
    assert_eq!(a.page_offset(), 0x456);
    assert!(!a.aligned());
    let b = VirtAddr(0x4000);
    assert_eq!(b.floor().0, 4);
    assert_eq!(b.ceil().0, 4);
    assert!(b.aligned());
    assert_eq!(VirtAddr(0).ceil().0, 0);
    let p = PhysAddr(0x8020_0123);
    assert_eq!(p.floor().0, 0x80200);
    assert_eq!(p.ceil().0, 0x80201);
    assert_eq!(p.page_offset(), 0x123);
}

#[test]
fn phys_page_roundtrip() {
    // a page-aligned address survives floor and back
    let a = PhysAddr(0x8020_0000);
    let ppn = a.floor();
    assert_eq!(PhysAddr::from(ppn.0 << 12).0, a.0);
    assert_eq!(a.ceil().0, ppn.0);
    // page number -> address -> page number is the identity
    let p = PhysPageNum(0x80200);
    let back: PhysAddr = PhysAddr::from(p.0 << 12);
    assert_eq!(back.floor().0, p.0);
    assert_eq!(back.page_offset(), 0);
}

#[test]
fn aligned_addresses_convert_to_their_page_number() {
    assert_eq!(PhysAddr(0x8020_0000).page_num().0, 0x80200);
    assert_eq!(VirtAddr(0x4000).page_num().0, 4);
}

#[test]
fn indexes_zero_and_max() {
    assert_eq!(VirtPageNum(0).indexes(), [0, 0, 0]);
    assert_eq!(VirtPageNum(0x7ff_ffff).indexes(), [511, 511, 511]);
    let v = VirtPageNum((3 << 18) | (7 << 9) | 11);
    assert_eq!(v.indexes(), [3, 7, 11]);
}

#[test]
fn indexes_recompose() {
    let vals: [u64; 4] = [0, 1, 0x123_4567, 0x7ff_ffff];
    for &x in vals.iter() {
        let idx = VirtPageNum(x).indexes();
        assert_eq!(idx[0] * 0x40000 + idx[1] * 0x200 + idx[2], x);
        assert!(idx[0] < 512 && idx[1] < 512 && idx[2] < 512);
    }
}

#[test]
fn simple_range_iterates_in_order() {
    let r = SimpleRange::new(VirtPageNum(5), VirtPageNum(8));
    assert_eq!(r.get_start().0, 5);
    assert_eq!(r.get_end().0, 8);
    let mut it = SimpleRangeIterator::new(r.get_start(), r.get_end());
    assert_eq!(it.next(), Some(VirtPageNum(5)));
    assert_eq!(it.next(), Some(VirtPageNum(6)));
    assert_eq!(it.next(), Some(VirtPageNum(7)));
    assert_eq!(it.next(), None);
}
