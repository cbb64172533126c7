//! The user-side system-call interface: each call marshals its identifier
//! and arguments by the register convention; the ecall instruction itself
//! is the surrounding runtime's step.

use vstd::prelude::*;

verus! {

/// Write to a file.
pub const SYSCALL_WRITE: u64 = 64;
/// Exit the application.
pub const SYSCALL_EXIT: u64 = 93;
/// Give up the processor.
pub const SYSCALL_YIELD: u64 = 124;
/// Read the time.
pub const SYSCALL_GET_TIME: u64 = 169;

/// One system call as it enters the kernel: the number in a7 and the
/// arguments in a0 to a2.
#[derive(Debug, Copy, Clone)]
pub struct SyscallRequest {
    pub id: u64,
    pub args: [u64; 3],
}

/// Write `len` bytes at user address `buffer_addr` to file `fd`.
pub fn sys_write(fd: u64, buffer_addr: u64, len: u64) -> (r: SyscallRequest)
    ensures
        r.id == SYSCALL_WRITE,
        r.args@[0] == fd && r.args@[1] == buffer_addr && r.args@[2] == len,
{
    SyscallRequest { id: SYSCALL_WRITE, args: [fd, buffer_addr, len] }
}

/// Exit with `exit_code`.
pub fn sys_exit(exit_code: i64) -> (r: SyscallRequest)
    ensures
        r.id == SYSCALL_EXIT,
        r.args@[0] == exit_code as u64 && r.args@[1] == 0 && r.args@[2] == 0,
{
    SyscallRequest { id: SYSCALL_EXIT, args: [exit_code as u64, 0, 0] }
}

/// Give up the processor.
pub fn sys_yield() -> (r: SyscallRequest)
    ensures
        r.id == SYSCALL_YIELD,
        r.args@[0] == 0 && r.args@[1] == 0 && r.args@[2] == 0,
{
    SyscallRequest { id: SYSCALL_YIELD, args: [0, 0, 0] }
}

/// Read the time in microseconds.
pub fn sys_get_time() -> (r: SyscallRequest)
    ensures
        r.id == SYSCALL_GET_TIME,
        r.args@[0] == 0 && r.args@[1] == 0 && r.args@[2] == 0,
{
    SyscallRequest { id: SYSCALL_GET_TIME, args: [0, 0, 0] }
}

/// Write a buffer to a file.
pub fn write(fd: u64, buffer_addr: u64, len: u64) -> (r: SyscallRequest)
    ensures
        r.id == SYSCALL_WRITE,
        r.args@[0] == fd && r.args@[1] == buffer_addr && r.args@[2] == len,
{
    sys_write(fd, buffer_addr, len)
}

/// Exit the application.
pub fn exit(exit_code: i64) -> (r: SyscallRequest)
    ensures
        r.id == SYSCALL_EXIT,
        r.args@[0] == exit_code as u64,
{
    sys_exit(exit_code)
}

/// Give up the processor; named with a trailing underscore because the
/// bare word is a keyword.
pub fn yield_() -> (r: SyscallRequest)
    ensures
        r.id == SYSCALL_YIELD,
{
    sys_yield()
}

} // verus!
