use rvos::mm::address::PhysPageNum;
use rvos::mm::frame_allocator::{
    frame_alloc, frame_dealloc, init_frame_allocator, FrameDeallocError, StackFrameAllocator,
};
use rvos::mm::phys_mem::PhysMem;

#[test]
fn alloc_is_lifo_over_recycled_frames() {
    let mut a = StackFrameAllocator::new();
    a.init(PhysPageNum(100), PhysPageNum(110));
    let p1 = a.alloc_page().unwrap();
    let p2 = a.alloc_page().unwrap();
    let p3 = a.alloc_page().unwrap();
    assert_eq!((p1.0, p2.0, p3.0), (100, 101, 102));
    assert!(a.dealloc(p2).is_ok());
    assert!(a.dealloc(p1).is_ok());
    // most recently freed first
    assert_eq!(a.alloc_page().unwrap().0, 100);
    assert_eq!(a.alloc_page().unwrap().0, 101);
    // then the never-used region again
    assert_eq!(a.alloc_page().unwrap().0, 103);
}

#[test]
fn pool_exhaustion_returns_none() {
    let mut a = StackFrameAllocator::new();
    a.init(PhysPageNum(5), PhysPageNum(7));
    assert!(a.alloc_page().is_some());
    assert!(a.alloc_page().is_some());
    assert!(a.alloc_page().is_none());
    assert!(a.dealloc(PhysPageNum(5)).is_ok());
    assert_eq!(a.alloc_page().unwrap().0, 5);
    assert!(a.alloc_page().is_none());
}

#[test]
fn dealloc_rejects_double_free_and_unallocated() {
    let mut a = StackFrameAllocator::new();
    a.init(PhysPageNum(10), PhysPageNum(20));
    let p = a.alloc_page().unwrap();
    // never allocated: at or above the never-used mark
    assert_eq!(a.dealloc(PhysPageNum(15)), Err(FrameDeallocError::NotAllocated));
    assert!(a.dealloc(p).is_ok());
    // already in the recycle list
    assert_eq!(a.dealloc(p), Err(FrameDeallocError::NotAllocated));
}

#[test]
fn no_two_live_frames_share_a_page() {
    let mut mem = PhysMem::new(0, 16);
    let mut a = StackFrameAllocator::new();
    init_frame_allocator(&mut a, &mem);
    let mut seen = Vec::new();
    for _ in 0..16 {
        let f = frame_alloc(&mut a, &mut mem).unwrap();
        assert!(!seen.contains(&f.ppn.0));
        assert!(f.ppn.0 < 16);
        seen.push(f.ppn.0);
    }
    assert!(frame_alloc(&mut a, &mut mem).is_none());
}

#[test]
fn freed_frames_are_reused_after_arbitrary_order_release() {
    let mut mem = PhysMem::new(0, 8);
    let mut a = StackFrameAllocator::new();
    init_frame_allocator(&mut a, &mem);
    let mut frames = Vec::new();
    for _ in 0..8 {
        frames.push(frame_alloc(&mut a, &mut mem).unwrap());
    }
    // free in arbitrary order
    for i in [3usize, 0, 7, 1, 5, 2, 6, 4] {
        let f = frames.swap_remove(frames.iter().position(|x| x.ppn.0 == i as u64).unwrap());
        assert!(frame_dealloc(&mut a, f).is_ok());
    }
    // re-allocate all eight: all distinct, all within the pool
    let mut seen = Vec::new();
    for _ in 0..8 {
        let f = frame_alloc(&mut a, &mut mem).unwrap();
        assert!(!seen.contains(&f.ppn.0));
        assert!(f.ppn.0 < 8);
        seen.push(f.ppn.0);
    }
    assert!(frame_alloc(&mut a, &mut mem).is_none());
}

#[test]
fn fresh_frames_are_zeroed() {
    let mut mem = PhysMem::new(0, 4);
    let mut a = StackFrameAllocator::new();
    init_frame_allocator(&mut a, &mem);
    let f = frame_alloc(&mut a, &mut mem).unwrap();
    mem.write_byte(f.ppn.0, 17, 0xab);
    assert_eq!(mem.read_byte(f.ppn.0, 17), 0xab);
    assert!(frame_dealloc(&mut a, f).is_ok());
    let g = frame_alloc(&mut a, &mut mem).unwrap();
    assert_eq!(mem.read_byte(g.ppn.0, 17), 0);
}
