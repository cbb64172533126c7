//! Platform and layout constants for the qemu-virt board.

use vstd::prelude::*;

verus! {

/// Greatest number of embedded applications the task table can hold.
pub const MAX_APP_NUM: u64 = 9;
/// Size of each application's user stack, in bytes.
pub const USER_STACK_SIZE: u64 = 4096 * 2;
/// Size of each application's kernel stack, in bytes.
pub const KERNEL_STACK_SIZE: u64 = 4096 * 2;
/// Size of the kernel heap, in bytes.
pub const KERNEL_HEAP_SIZE: u64 = 0x30_0000;

/// Width of the in-page offset, in bits.
pub const PAGE_SIZE_BITS: u64 = 12;
/// Size of one page, in bytes.
pub const PAGE_SIZE: u64 = 0x1000;

/// One past the last physical address managed by the kernel.
pub const MEMORY_END: u64 = 0x8080_0000;

/// Virtual address of the trampoline page: the very top page of the
/// address space.
pub const TRAMPOLINE: u64 = u64::MAX - PAGE_SIZE + 1;
/// Virtual address of the trap-context page, just below the trampoline.
pub const TRAP_CONTEXT: u64 = TRAMPOLINE - PAGE_SIZE;

/// Timer frequency of the board, in ticks per second.
pub const CLOCK_FREQ: u64 = 12500000;
/// Physical address where the first application is loaded.
pub const APP_BASE_ADDRESS: u64 = 0x80400000;
/// Greatest size of one loaded application image, in bytes.
pub const APP_SIZE_LIMIT: u64 = 0x20000;

} // verus!
