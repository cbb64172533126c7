//! The system-call surface: identifiers, dispatch and the four calls the
//! kernel models (write, exit, yield, get-time).
//!
//! A call that performs outside work (writing bytes to the console,
//! switching tasks) returns what must be done as a value; the surrounding
//! trap loop carries it out.

use vstd::prelude::*;
use crate::task::{ScheduleDecision, TaskManager};

verus! {

/// The system-call numbers of the ABI.
#[derive(Debug, Copy, Clone, PartialEq, Eq, Structural)]
pub enum SyscallID {
    Invalid,
    Write,
    Exit,
    Ts,
    Yield,
    TaskInfo,
}

/// The ABI number of a system call; the invalid marker maps to the
/// all-ones word.
pub open spec fn syscall_number_spec(id: SyscallID) -> u64 {
    match id {
        SyscallID::Invalid => u64::MAX,
        SyscallID::Write => 64,
        SyscallID::Exit => 93,
        SyscallID::Ts => 169,
        SyscallID::Yield => 124,
        SyscallID::TaskInfo => 410,
    }
}

/// The identifier a raw ABI number names.
pub open spec fn syscall_id_spec(val: u64) -> SyscallID {
    if val == 64 {
        SyscallID::Write
    } else if val == 93 {
        SyscallID::Exit
    } else if val == 169 {
        SyscallID::Ts
    } else if val == 124 {
        SyscallID::Yield
    } else if val == 410 {
        SyscallID::TaskInfo
    } else {
        SyscallID::Invalid
    }
}

impl From<u64> for SyscallID {
    fn from(val: u64) -> Self {
        match val {
            64 => SyscallID::Write,
            93 => SyscallID::Exit,
            169 => SyscallID::Ts,
            124 => SyscallID::Yield,
            410 => SyscallID::TaskInfo,
            _ => SyscallID::Invalid,
        }
    }
}

impl vstd::std_specs::convert::FromSpecImpl<u64> for SyscallID {
    open spec fn obeys_from_spec() -> bool {
        true
    }

    open spec fn from_spec(val: u64) -> Self {
        syscall_id_spec(val)
    }
}

impl From<SyscallID> for u64 {
    fn from(val: SyscallID) -> Self {
        match val {
            SyscallID::Invalid => u64::MAX,
            SyscallID::Write => 64,
            SyscallID::Exit => 93,
            SyscallID::Ts => 169,
            SyscallID::Yield => 124,
            SyscallID::TaskInfo => 410,
        }
    }
}

impl vstd::std_specs::convert::FromSpecImpl<SyscallID> for u64 {
    open spec fn obeys_from_spec() -> bool {
        true
    }

    open spec fn from_spec(val: SyscallID) -> Self {
        syscall_number_spec(val)
    }
}

/// A {seconds, microseconds} pair as the get-time call can fill in.
#[derive(Debug, Copy, Clone, PartialEq, Eq, Structural)]
pub struct TimeVal {
    pub sec: u64,
    pub usec: u64,
}

/// Why a system call was fatal to the kernel.
#[derive(Debug, Copy, Clone, PartialEq, Eq, Structural)]
pub enum SyscallError {
    /// The file descriptor is not the supported standard output.
    UnsupportedFd,
    /// The call number is not in the dispatch table.
    UnsupportedSyscall,
}

/// Console output the caller must perform: `len` bytes at user address
/// `addr`.
#[derive(Debug, Copy, Clone, PartialEq, Eq, Structural)]
pub struct WriteRequest {
    pub addr: u64,
    pub len: u64,
}

/// Everything one system call decides: the value for the return-value
/// register, what output to perform, and whether to switch tasks.
#[derive(Debug, Copy, Clone, PartialEq, Eq, Structural)]
pub struct SyscallOutcome {
    pub ret: u64,
    pub write: Option<WriteRequest>,
    pub action: ScheduleDecision,
}

/// File descriptor of standard output.
pub const FD_STDOUT: u64 = 1;

/// Validate a write request: only standard output is supported; the
/// number of bytes written is the whole buffer.
pub fn sys_write(fd: u64, buffer: u64, len: u64) -> (r: Result<
    WriteRequest,
    SyscallError,
>)
    ensures
        r is Ok <==> fd == FD_STDOUT,
        r is Ok ==> r->Ok_0 == (WriteRequest { addr: buffer, len }),
        r is Err ==> r->Err_0 == SyscallError::UnsupportedFd,
{
    if fd == FD_STDOUT {
        Ok(WriteRequest { addr: buffer, len })
    } else {
        Err(SyscallError::UnsupportedFd)
    }
}

/// The task exits with `exit_code`: mark it exited and pick what runs
/// next.  Control never returns to the caller task.
pub fn sys_exit(tm: &mut TaskManager, _exit_code: i64, now: u64) -> (r:
    ScheduleDecision)
    requires
        old(tm).wf(),
        now >= old(tm).inner.last_ts,
    ensures
        final(tm).wf(),
        final(tm).num_app == old(tm).num_app,
        crate::task::exited_then_scheduled(*old(tm), *final(tm), r, now),
{
    crate::task::exit_current_and_run_next(tm, now)
}

/// The task yields: mark it ready again and pick what runs next.
pub fn sys_yield(tm: &mut TaskManager, now: u64) -> (r: ScheduleDecision)
    requires
        old(tm).wf(),
        now >= old(tm).inner.last_ts,
    ensures
        final(tm).wf(),
        final(tm).num_app == old(tm).num_app,
        crate::task::suspended_then_scheduled(*old(tm), *final(tm), r, now),
{
    crate::task::suspend_current_and_run_next(tm, now)
}

/// The current time in microseconds, as the plain-return mode of the
/// get-time call reports it.
pub fn sys_get_time(now_us: u64) -> (r: u64)
    ensures
        r == now_us,
{
    now_us
}

/// Dispatch one system call by its ABI number.  Write never switches;
/// exit and yield schedule the next ready task; an unknown number is a
/// fatal kernel error.
pub fn syscall(tm: &mut TaskManager, syscall_id: u64, args: [u64; 3], now: u64) -> (r:
    Result<SyscallOutcome, SyscallError>)
    requires
        old(tm).wf(),
        now >= old(tm).inner.last_ts,
    ensures
        final(tm).wf(),
        final(tm).num_app == old(tm).num_app,
        r is Err <==> (syscall_id_spec(syscall_id) == SyscallID::Invalid
            || syscall_id_spec(syscall_id) == SyscallID::TaskInfo || (syscall_id_spec(
            syscall_id,
        ) == SyscallID::Write && args@[0] != FD_STDOUT)),
        syscall_id_spec(syscall_id) == SyscallID::Write && args@[0] == FD_STDOUT ==> (r
            matches Ok(o) && o.ret == args@[2] && o.write == Some(
            WriteRequest { addr: args@[1], len: args@[2] },
        ) && o.action == ScheduleDecision::Continue && *final(tm) == *old(tm)),
        syscall_id_spec(syscall_id) == SyscallID::Exit ==> (r matches Ok(o)
            && crate::task::exited_then_scheduled(*old(tm), *final(tm), o.action, now)
            && o.write is None),
        syscall_id_spec(syscall_id) == SyscallID::Yield ==> (r matches Ok(o) && o.ret
            == 0 && crate::task::suspended_then_scheduled(
            *old(tm),
            *final(tm),
            o.action,
            now,
        ) && o.write is None),
        syscall_id_spec(syscall_id) == SyscallID::Ts ==> (r matches Ok(o) && o.ret == now
            && o.write is None && o.action == ScheduleDecision::Continue && *final(tm)
            == *old(tm)),
        r is Err ==> *final(tm) == *old(tm),
        syscall_id_spec(syscall_id) == SyscallID::Write && args@[0] != FD_STDOUT ==> r
            == Err::<SyscallOutcome, SyscallError>(SyscallError::UnsupportedFd),
        (syscall_id_spec(syscall_id) == SyscallID::Invalid || syscall_id_spec(syscall_id)
            == SyscallID::TaskInfo) ==> r == Err::<SyscallOutcome, SyscallError>(
            SyscallError::UnsupportedSyscall,
        ),
{
    let id: SyscallID = SyscallID::from(syscall_id);
    match id {
        SyscallID::Write => {
            match sys_write(args[0], args[1], args[2]) {
                Ok(w) => Ok(
                    SyscallOutcome {
                        ret: args[2],
                        write: Some(w),
                        action: ScheduleDecision::Continue,
                    },
                ),
                Err(e) => Err(e),
            }
        },
        SyscallID::Exit => {
            let action = sys_exit(tm, args[0] as i64, now);
            Ok(SyscallOutcome { ret: 0, write: None, action })
        },
        SyscallID::Yield => {
            let action = sys_yield(tm, now);
            Ok(SyscallOutcome { ret: 0, write: None, action })
        },
        SyscallID::Ts => Ok(
            SyscallOutcome {
                ret: sys_get_time(now),
                write: None,
                action: ScheduleDecision::Continue,
            },
        ),
        SyscallID::Invalid => Err(SyscallError::UnsupportedSyscall),
        SyscallID::TaskInfo => Err(SyscallError::UnsupportedSyscall),
    }
}

} // verus!
