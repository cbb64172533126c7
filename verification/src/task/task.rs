//! Per-task records: status, saved context and accounting.

use vstd::prelude::*;
use super::context::TaskContext;
use crate::syscall::SyscallID;

verus! {

/// The life cycle of a task.  No transition leaves `Exited`.
#[derive(Debug, Copy, Clone, PartialEq, Eq, Structural)]
pub enum TaskStatus {
    Uninit,
    Ready,
    Running,
    Exited,
}

/// Invocation count of one system-call kind.
#[derive(Debug, Copy, Clone, PartialEq, Eq, Structural)]
pub struct SyscallInfo {
    pub id: SyscallID,
    /// How many times the call was made, not how long it ran.
    pub times: u64,
}

/// Status plus per-syscall counters and split CPU-time accounting.
#[derive(Debug, Clone)]
pub struct TaskInfo {
    pub status: TaskStatus,
    /// One slot per system-call kind.
    pub syscall: Vec<SyscallInfo>,
    /// Microseconds spent on the task's behalf in user mode.
    pub user_time: u64,
    /// Microseconds spent on the task's behalf in the kernel.
    pub kernel_time: u64,
}

/// Number of per-syscall counter slots.
pub const SYSCALL_KINDS: usize = 6;

impl TaskInfo {
    /// A fresh record: uninitialised, with zeroed counters and times.
    pub fn init() -> (r: Self)
        ensures
            r.status == TaskStatus::Uninit,
            r.syscall@.len() == 6,
            forall|i: int|
                0 <= i < 6 ==> r.syscall@[i] == (SyscallInfo {
                    id: SyscallID::Invalid,
                    times: 0,
                }),
            r.user_time == 0,
            r.kernel_time == 0,
    {
        let mut syscall: Vec<SyscallInfo> = Vec::new();
        let mut i: usize = 0;
        while i < 6
            invariant
                i <= 6,
                syscall@.len() == i,
                forall|j: int|
                    0 <= j < i ==> syscall@[j] == (SyscallInfo {
                        id: SyscallID::Invalid,
                        times: 0,
                    }),
            decreases 6 - i,
        {
            syscall.push(SyscallInfo { id: SyscallID::Invalid, times: 0 });
            i = i + 1;
        }
        TaskInfo { status: TaskStatus::Uninit, syscall, user_time: 0, kernel_time: 0 }
    }
}

/// Saved context plus accounting record of one task.
#[derive(Debug, Clone)]
pub struct TaskControlBlock {
    pub task_ctx: TaskContext,
    pub task_info: TaskInfo,
}

} // verus!
