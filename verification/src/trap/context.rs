//! The register snapshot saved on a supervisor-level trap: all 32 general
//! registers plus the status and trap program-counter control registers.

use vstd::prelude::*;

verus! {

/// The status-register bit recording the previous privilege mode; clear
/// means user.
pub const SSTATUS_SPP: u64 = 0x100;

pub struct TrapContext {
    /// General registers x0 to x31; x0 is hard-wired zero.
    pub x: Vec<u64>,
    /// Saved status register.
    pub sstatus: u64,
    /// Saved trap program counter.
    pub sepc: u64,
}

impl TrapContext {
    pub open spec fn wf(self) -> bool {
        self.x@.len() == 32
    }

    /// Set the stack-pointer register x2.
    pub fn set_sp(&mut self, sp: u64)
        requires
            old(self).wf(),
        ensures
            final(self).wf(),
            final(self).x@ == old(self).x@.update(2, sp),
            final(self).sstatus == old(self).sstatus,
            final(self).sepc == old(self).sepc,
    {
        self.set_x(2, sp);
    }

    /// Set general register `i`.
    pub fn set_x(&mut self, i: usize, v: u64)
        requires
            old(self).wf(),
            i < 32,
        ensures
            final(self).wf(),
            final(self).x@ == old(self).x@.update(i as int, v),
            final(self).sstatus == old(self).sstatus,
            final(self).sepc == old(self).sepc,
    {
        let x = &mut self.x;
        vstd::pervasive::VecAdditionalExecFns::set(x, i, v);
    }

    /// The initial context of an application: empty registers but for the
    /// stack pointer, the entry point in the trap program counter, and the
    /// previous-privilege field forced to user mode so that the trap
    /// return lands in the application.
    pub fn app_init_context(entry: u64, sp: u64, sstatus: u64) -> (r: Self)
        ensures
            r.wf(),
            r.sepc == entry,
            r.sstatus == sstatus & 0xffff_ffff_ffff_feff,
            r.x@[2] == sp,
            forall|i: int| 0 <= i < 32 && i != 2 ==> r.x@[i] == 0,
    {
        let mut x: Vec<u64> = Vec::new();
        let mut i: usize = 0;
        while i < 32
            invariant
                i <= 32,
                x@.len() == i,
                forall|j: int| 0 <= j < i ==> x@[j] == 0,
            decreases 32 - i,
        {
            x.push(0);
            i = i + 1;
        }
        let mut ctx = TrapContext { x, sstatus: sstatus & 0xffff_ffff_ffff_feff, sepc: entry };
        ctx.set_sp(sp);
        ctx
    }
}

} // verus!
