//! Memory management: address types, the physical-memory arena, the frame
//! allocator, the SV39 page table and address spaces.

pub mod address;
pub mod phys_mem;
pub mod frame_allocator;
pub mod page_table;
pub mod memory_set;
pub mod elf;
