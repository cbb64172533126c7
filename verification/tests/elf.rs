use rvos::mm::address::{PhysPageNum, VirtPageNum};
use rvos::mm::elf::{parse_elf, ElfError};
use rvos::mm::frame_allocator::{init_frame_allocator, StackFrameAllocator};
use rvos::mm::memory_set::{LoadError, MemorySet, MAP_R, MAP_U, MAP_X};
use rvos::mm::page_table::PTE_V;
use rvos::mm::phys_mem::PhysMem;

fn put16(v: &mut Vec<u8>, off: usize, x: u16) {
    v[off] = (x & 0xff) as u8;
    v[off + 1] = (x >> 8) as u8;
}

fn put32(v: &mut Vec<u8>, off: usize, x: u32) {
    for k in 0..4 {
        v[off + k] = ((x >> (8 * k)) & 0xff) as u8;
    }
}

fn put64(v: &mut Vec<u8>, off: usize, x: u64) {
    for k in 0..8 {
        v[off + k] = ((x >> (8 * k)) & 0xff) as u8;
    }
}

/// A minimal ELF64 image: one loadable read-execute segment whose four
/// payload bytes sit at file offset 120.
fn tiny_elf() -> Vec<u8> {
    let mut v = vec![0u8; 124];
    v[0] = 0x7f;
    v[1] = 0x45;
    v[2] = 0x4c;
    v[3] = 0x46;
    v[4] = 2; // 64-bit
    put64(&mut v, 24, 0x1000); // entry point
    put64(&mut v, 32, 64); // program-header table offset
    put16(&mut v, 54, 56); // program-header entry size
    put16(&mut v, 56, 1); // one program header
    // the program header at offset 64
    put32(&mut v, 64, 1); // LOAD
    put32(&mut v, 68, 0x1 | 0x4); // execute | read
    put64(&mut v, 72, 120); // file offset of segment bytes
    put64(&mut v, 80, 0x1000); // virtual address
    put64(&mut v, 96, 4); // file size
    put64(&mut v, 104, 4); // memory size
    v[120] = 0x13;
    v[121] = 0x05;
    v[122] = 0x10;
    v[123] = 0x00;
    v
}

#[test]
fn parse_elf_reads_entry_and_segments() {
    let img = parse_elf(&tiny_elf()).expect("well-formed image");
    assert_eq!(img.entry_point, 0x1000);
    assert_eq!(img.segments.len(), 1);
    let s = img.segments[0];
    assert_eq!(s.vaddr, 0x1000);
    assert_eq!(s.mem_size, 4);
    assert_eq!(s.offset, 120);
    assert_eq!(s.file_size, 4);
    assert_eq!(s.flags, 5);
}

#[test]
fn parse_elf_rejects_bad_magic_and_class() {
    let mut bad = tiny_elf();
    bad[0] = 0x00;
    assert_eq!(parse_elf(&bad), Err(ElfError::BadHeader));
    let mut wrong_class = tiny_elf();
    wrong_class[4] = 1;
    assert_eq!(parse_elf(&wrong_class), Err(ElfError::BadHeader));
    assert_eq!(parse_elf(&vec![0u8; 10]), Err(ElfError::BadHeader));
}

#[test]
fn parse_elf_rejects_out_of_bounds_headers() {
    let mut bad = tiny_elf();
    put64(&mut bad, 32, 1000); // table beyond the file
    assert_eq!(parse_elf(&bad), Err(ElfError::BadProgramHeader));
}

#[test]
fn from_elf_builds_the_address_space() {
    let mut mem = PhysMem::new(0x100, 128);
    let mut a = StackFrameAllocator::new();
    init_frame_allocator(&mut a, &mem);
    let elf = tiny_elf();
    let (ms, stack_top, entry) =
        MemorySet::from_elf(&mut mem, &mut a, &elf, PhysPageNum(0x80200)).expect("tiny image loads");
    assert_eq!(entry, 0x1000);
    // segment end page 2, one guard page, two stack pages
    assert_eq!(stack_top, 5 * 4096);
    assert_eq!(ms.areas.len(), 3);
    assert_eq!(ms.areas[0].map_perm.bits, MAP_R | MAP_X | MAP_U);
    let pte = ms.page_table.translate(&mem, VirtPageNum(1)).unwrap();
    assert_eq!(pte.flags().bits(), MAP_R | MAP_X | MAP_U | PTE_V);
    // the segment's bytes were copied in
    let ppn = pte.ppn();
    assert_eq!(mem.read_byte(ppn.0, 0), 0x13);
    assert_eq!(mem.read_byte(ppn.0, 1), 0x05);
    assert_eq!(mem.read_byte(ppn.0, 2), 0x10);
    assert_eq!(mem.read_byte(ppn.0, 3), 0x00);
    assert_eq!(mem.read_byte(ppn.0, 4), 0);
}

#[test]
fn from_elf_rejects_a_broken_image() {
    let mut mem = PhysMem::new(0x100, 64);
    let mut a = StackFrameAllocator::new();
    init_frame_allocator(&mut a, &mem);
    let mut bad = tiny_elf();
    bad[1] = 0;
    match MemorySet::from_elf(&mut mem, &mut a, &bad, PhysPageNum(0x80200)) {
        Err(LoadError::Elf(ElfError::BadHeader)) => {}
        other => panic!("expected a header rejection, got {:?}", other.map(|_| ())),
    }
}
