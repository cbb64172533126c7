//! The minimal per-task context the switch routine saves and restores:
//! return address, stack pointer and the twelve callee-saved registers.

use vstd::prelude::*;

verus! {

#[derive(Debug, Copy, Clone)]
pub struct TaskContext {
    /// Return address the switch routine resumes at.
    pub ra: u64,
    /// Kernel stack pointer of the task.
    pub sp: u64,
    /// Callee-saved registers s0 to s11.
    pub s: [u64; 12],
}

impl TaskContext {
    /// An all-zero context.
    pub fn zero_init() -> (r: Self)
        ensures
            r.ra == 0,
            r.sp == 0,
            forall|i: int| 0 <= i < 12 ==> r.s@[i] == 0,
    {
        TaskContext { ra: 0, sp: 0, s: [0, 0, 0, 0, 0, 0, 0, 0, 0, 0, 0, 0] }
    }

    /// The context a task starts from: control goes to the restore
    /// routine at `restore_entry` with the kernel stack at `kstack_ptr`.
    pub fn goto_restore(kstack_ptr: u64, restore_entry: u64) -> (r: Self)
        ensures
            r.ra == restore_entry,
            r.sp == kstack_ptr,
            forall|i: int| 0 <= i < 12 ==> r.s@[i] == 0,
    {
        TaskContext {
            ra: restore_entry,
            sp: kstack_ptr,
            s: [0, 0, 0, 0, 0, 0, 0, 0, 0, 0, 0, 0],
        }
    }
}

} // verus!
