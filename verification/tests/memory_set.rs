use rvos::mm::address::{PhysPageNum, VirtAddr, VirtPageNum};
use rvos::mm::elf::LoadSegment;
use rvos::mm::frame_allocator::{init_frame_allocator, StackFrameAllocator};
use rvos::mm::memory_set::{
    KernelLayout, LoadError, MapArea, MapPermission, MapType, MemorySet, MAP_R, MAP_U, MAP_W,
    MAP_X,
};
use rvos::mm::page_table::{PageTable, PTE_V};
use rvos::mm::phys_mem::PhysMem;

fn setup(pages: usize) -> (PhysMem, StackFrameAllocator) {
    let mem = PhysMem::new(0x100, pages);
    let mut a = StackFrameAllocator::new();
    init_frame_allocator(&mut a, &mem);
    (mem, a)
}

#[test]
fn insert_framed_area_maps_the_whole_range() {
    let (mut mem, mut a) = setup(64);
    let mut ms = MemorySet::new_bare(&mut mem, &mut a);
    ms.insert_framed_area(
        &mut mem,
        &mut a,
        VirtAddr(0x10000),
        VirtAddr(0x13000),
        MapPermission::from_bits(MAP_R | MAP_W),
    );
    for vpn in 0x10u64..0x13u64 {
        let pte = ms.page_table.translate(&mem, VirtPageNum(vpn)).unwrap();
        assert_eq!(pte.flags().bits(), MAP_R | MAP_W | PTE_V);
    }
    assert!(ms.page_table.translate(&mem, VirtPageNum(0x13)).is_none());
    assert!(ms.page_table.translate(&mem, VirtPageNum(0xf)).is_none());
}

#[test]
fn push_with_data_reproduces_the_source_bytes() {
    let (mut mem, mut a) = setup(64);
    let mut ms = MemorySet::new_bare(&mut mem, &mut a);
    let area = MapArea::new(
        VirtAddr(0x5000),
        VirtAddr(0x7000),
        MapType::Framed,
        MapPermission::from_bits(MAP_R | MAP_X | MAP_U),
    );
    let data: Vec<u8> = (0..5000u32).map(|x| (x % 251) as u8).collect();
    ms.push(&mut mem, &mut a, area, Some(&data));
    // read every byte back through the translation
    for (j, &b) in data.iter().enumerate() {
        let vpn = 5 + (j as u64) / 4096;
        let off = (j as u64) % 4096;
        let ppn = ms.page_table.translate(&mem, VirtPageNum(vpn)).unwrap().ppn();
        assert_eq!(mem.read_byte(ppn.0, off), b, "byte {j}");
    }
    // the tail of the last page stays zero
    let ppn = ms.page_table.translate(&mem, VirtPageNum(6)).unwrap().ppn();
    assert_eq!(mem.read_byte(ppn.0, 4095), 0);
}

#[test]
fn identical_area_maps_page_to_itself() {
    let (mut mem, mut a) = setup(16);
    let mut ms = MemorySet::new_bare(&mut mem, &mut a);
    let area = MapArea::new(
        VirtAddr(0x80200000),
        VirtAddr(0x80202000),
        MapType::Identical,
        MapPermission::from_bits(MAP_R | MAP_X),
    );
    ms.push(&mut mem, &mut a, area, None);
    let pte = ms.page_table.translate(&mem, VirtPageNum(0x80200)).unwrap();
    assert_eq!(pte.ppn().0, 0x80200);
    assert_eq!(pte.flags().bits(), MAP_R | MAP_X | PTE_V);
}

#[test]
fn from_segments_read_execute_gives_rxu_and_copies_bytes() {
    let (mut mem, mut a) = setup(128);
    let data: Vec<u8> = vec![0xde, 0xad, 0xbe, 0xef, 0x11, 0x22];
    let segments = vec![LoadSegment {
        vaddr: 0x1000,
        mem_size: 0x1800,
        offset: 2,
        file_size: 4,
        flags: 0x1 | 0x4, // execute | read
    }];
    let (ms, stack_top, entry) = MemorySet::from_segments(
        &mut mem,
        &mut a,
        &segments,
        &data,
        0x1000,
        PhysPageNum(0x80200),
    )
    .expect("synthetic segment must load");
    assert_eq!(entry, 0x1000);
    // the stack top: segment end page 3, one guard page, two stack pages
    assert_eq!(stack_top, 6 * 4096);
    // one area per segment, plus user stack and trap context
    assert_eq!(ms.areas.len(), 3);
    let seg_area = &ms.areas[0];
    assert_eq!(seg_area.map_perm.bits, MAP_R | MAP_X | MAP_U);
    assert!(matches!(seg_area.map_type, MapType::Framed));
    // the copied bytes are exactly the file bytes, zero-padded
    let ppn = ms.page_table.translate(&mem, VirtPageNum(1)).unwrap().ppn();
    assert_eq!(mem.read_byte(ppn.0, 0), 0xbe);
    assert_eq!(mem.read_byte(ppn.0, 1), 0xef);
    assert_eq!(mem.read_byte(ppn.0, 2), 0x11);
    assert_eq!(mem.read_byte(ppn.0, 3), 0x22);
    assert_eq!(mem.read_byte(ppn.0, 4), 0);
    // guard page: the stack sits one unmapped page above the segment end
    let stack_bottom_vpn = stack_top / 4096 - 2;
    assert!(ms.page_table.translate(&mem, VirtPageNum(stack_bottom_vpn - 1)).is_none());
    let stack_pte = ms.page_table.translate(&mem, VirtPageNum(stack_bottom_vpn)).unwrap();
    assert_eq!(stack_pte.flags().bits(), MAP_R | MAP_W | MAP_U | PTE_V);
    // the trap-context page sits just below the trampoline
    let trap_pte = ms.page_table.translate(&mem, VirtPageNum(0x7ff_fffe)).unwrap();
    assert_eq!(trap_pte.flags().bits(), MAP_R | MAP_W | PTE_V);
    // the trampoline itself is read-execute
    let tramp = ms.page_table.translate(&mem, VirtPageNum(0x7ff_ffff)).unwrap();
    assert_eq!(tramp.ppn().0, 0x80200);
    assert_eq!(tramp.flags().bits(), MAP_R | MAP_X | PTE_V);
}

#[test]
fn new_kernel_identity_maps_the_sections() {
    let (mut mem, mut a) = setup(192);
    let layout = KernelLayout {
        stext: 0x80200000,
        etext: 0x80202000,
        srodata: 0x80202000,
        erodata: 0x80203000,
        sdata: 0x80203000,
        edata: 0x80204000,
        sbss_with_stack: 0x80204000,
        ebss: 0x80206000,
        ekernel: 0x80206000,
        memory_end: 0x80208000,
    };
    let ms = MemorySet::new_kernel(&mut mem, &mut a, &layout, PhysPageNum(0x80201));
    let text = ms.page_table.translate(&mem, VirtPageNum(0x80200)).unwrap();
    assert_eq!(text.ppn().0, 0x80200);
    assert_eq!(text.flags().bits(), MAP_R | MAP_X | PTE_V);
    let ro = ms.page_table.translate(&mem, VirtPageNum(0x80202)).unwrap();
    assert_eq!(ro.flags().bits(), MAP_R | PTE_V);
    let dat = ms.page_table.translate(&mem, VirtPageNum(0x80203)).unwrap();
    assert_eq!(dat.flags().bits(), MAP_R | MAP_W | PTE_V);
    let bss = ms.page_table.translate(&mem, VirtPageNum(0x80205)).unwrap();
    assert_eq!(bss.flags().bits(), MAP_R | MAP_W | PTE_V);
    let phys = ms.page_table.translate(&mem, VirtPageNum(0x80207)).unwrap();
    assert_eq!(phys.ppn().0, 0x80207);
    assert_eq!(phys.flags().bits(), MAP_R | MAP_W | PTE_V);
    // the trampoline is mapped outside the tracked areas
    assert_eq!(ms.areas.len(), 5);
    assert!(ms.page_table.translate(&mem, VirtPageNum(0x7ff_ffff)).is_some());
    // the token selects SV39
    assert_eq!(ms.token() >> 60, 8);
}

#[test]
fn overlapping_push_is_caught_by_range_check() {
    let (mut mem, mut a) = setup(64);
    let mut ms = MemorySet::new_bare(&mut mem, &mut a);
    ms.insert_framed_area(
        &mut mem,
        &mut a,
        VirtAddr(0x4000),
        VirtAddr(0x6000),
        MapPermission::from_bits(MAP_R),
    );
    assert!(!ms.range_unmapped(&mem, 0x5, 0x7));
    assert!(ms.range_unmapped(&mem, 0x6, 0x8));
}

#[test]
fn area_unmap_returns_every_frame_and_clears_translations() {
    let (mut mem, mut a) = setup(64);
    let mut pt = PageTable::new(&mut mem, &mut a);
    let mut area = MapArea::new(
        VirtAddr(0x2000),
        VirtAddr(0x5000),
        MapType::Framed,
        MapPermission::from_bits(MAP_R | MAP_W),
    );
    area.map(&mut pt, &mut mem, &mut a);
    for vpn in 2u64..5 {
        assert!(pt.translate(&mem, VirtPageNum(vpn)).is_some());
    }
    let free_before = a.recycled.len() as u64 + (a.end - a.current);
    area.unmap(&mut pt, &mut mem, &mut a);
    for vpn in 2u64..5 {
        assert!(pt.translate(&mem, VirtPageNum(vpn)).is_none());
    }
    assert!(area.data_frames.iter().all(|f| f.is_none()));
    // the three data frames went back to the pool
    let free_after = a.recycled.len() as u64 + (a.end - a.current);
    assert_eq!(free_after, free_before + 3);
}

#[test]
fn unmap_one_frees_a_single_page() {
    let (mut mem, mut a) = setup(64);
    let mut pt = PageTable::new(&mut mem, &mut a);
    let mut area = MapArea::new(
        VirtAddr(0x8000),
        VirtAddr(0xa000),
        MapType::Framed,
        MapPermission::from_bits(MAP_R),
    );
    area.map(&mut pt, &mut mem, &mut a);
    area.unmap_one(&mut pt, &mut mem, &mut a, VirtPageNum(8));
    assert!(pt.translate(&mem, VirtPageNum(8)).is_none());
    assert!(pt.translate(&mem, VirtPageNum(9)).is_some());
    assert!(area.data_frames[0].is_none());
    assert!(area.data_frames[1].is_some());
}

#[test]
fn from_segments_rejects_malformed_segments() {
    // file size beyond memory size
    let (mut mem, mut a) = setup(64);
    let segments = vec![LoadSegment {
        vaddr: 0x1000,
        mem_size: 2,
        offset: 0,
        file_size: 8,
        flags: 4,
    }];
    let r = MemorySet::from_segments(&mut mem, &mut a, &segments, &vec![0u8; 16], 0, PhysPageNum(1));
    assert!(matches!(r, Err(LoadError::BadSegment)));

    // segment bytes beyond the end of the image
    let (mut mem, mut a) = setup(64);
    let segments = vec![LoadSegment {
        vaddr: 0x1000,
        mem_size: 8,
        offset: 12,
        file_size: 8,
        flags: 4,
    }];
    let r = MemorySet::from_segments(&mut mem, &mut a, &segments, &vec![0u8; 16], 0, PhysPageNum(1));
    assert!(matches!(r, Err(LoadError::BadSegment)));
}

#[test]
fn from_segments_rejects_overlapping_segments() {
    let (mut mem, mut a) = setup(128);
    let seg = LoadSegment {
        vaddr: 0x1000,
        mem_size: 4,
        offset: 0,
        file_size: 4,
        flags: 4,
    };
    let r = MemorySet::from_segments(
        &mut mem,
        &mut a,
        &vec![seg, seg],
        &vec![0u8; 16],
        0,
        PhysPageNum(1),
    );
    assert!(matches!(r, Err(LoadError::Overlap)));
}

#[test]
fn from_segments_reports_an_exhausted_pool() {
    // two frames are not enough for even the bare table and trampoline
    let mut mem = PhysMem::new(0x100, 2);
    let mut a = StackFrameAllocator::new();
    init_frame_allocator(&mut a, &mem);
    let r = MemorySet::from_segments(
        &mut mem,
        &mut a,
        &Vec::new(),
        &Vec::new(),
        0,
        PhysPageNum(1),
    );
    assert!(matches!(r, Err(LoadError::OutOfFrames)));
}
