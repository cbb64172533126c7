//! Supervisor-mode trap handling: the saved context and the cause-based
//! dispatch for traps from user mode and from the kernel itself.
//!
//! Reading the cause and status registers and returning through the
//! trampoline are hardware steps outside this crate; the dispatch here is
//! the decision logic between them.  After a decision that keeps the
//! current task running, the surrounding loop charges the closing kernel
//! time through the task manager before returning to user mode.

pub mod context;

use vstd::prelude::*;
use crate::syscall::{syscall, SyscallError, WriteRequest};
use crate::task::{
    exited_then_scheduled,
    suspended_then_scheduled,
    ScheduleDecision,
    TaskManager,
};
use context::TrapContext;

verus! {

/// The classified cause of a trap, as read from the cause register.
#[derive(Debug, Copy, Clone, PartialEq, Eq, Structural)]
pub enum TrapCause {
    /// Environment call from user mode: a system call.
    UserEnvCall,
    /// Store access fault.
    StoreFault,
    /// Store page fault.
    StorePageFault,
    /// Illegal instruction.
    IllegalInstruction,
    /// The supervisor timer fired.
    SupervisorTimer,
    /// Any cause the kernel does not handle.
    Unknown,
}

/// A condition the kernel cannot recover from: it halts with a dump.
#[derive(Debug, Copy, Clone, PartialEq, Eq, Structural)]
pub enum TrapFault {
    /// A system call outside the dispatch table, or with an unsupported
    /// file descriptor.
    FatalSyscall(SyscallError),
    /// A trap cause the kernel does not support.
    UnsupportedTrap,
    /// A store fault raised while the kernel itself was running.
    KernelPageFault,
}

/// Everything one user trap decides: whether to rearm the timer, what
/// console output to perform, and whether to switch tasks.
#[derive(Debug, Copy, Clone, PartialEq, Eq, Structural)]
pub struct TrapOutcome {
    pub set_timer: bool,
    pub write: Option<WriteRequest>,
    pub action: ScheduleDecision,
}

/// Record `t` with `dur` more user time.
pub open spec fn user_charged(
    t: crate::task::task::TaskControlBlock,
    dur: int,
) -> crate::task::task::TaskControlBlock {
    crate::task::task::TaskControlBlock {
        task_ctx: t.task_ctx,
        task_info: crate::task::task::TaskInfo {
            status: t.task_info.status,
            syscall: t.task_info.syscall,
            user_time: (t.task_info.user_time + dur) as u64,
            kernel_time: t.task_info.kernel_time,
        },
    }
}

/// The manager `mid` is `pre` with the current task charged its user time
/// up to `now`.
pub open spec fn user_hook_applied(pre: TaskManager, mid: TaskManager, now: u64) -> bool {
    let cur = pre.inner.current_task as int;
    &&& mid.num_app == pre.num_app
    &&& mid.inner.current_task == pre.inner.current_task
    &&& mid.inner.last_ts == now
    &&& mid.inner.start_ts == pre.inner.start_ts
    &&& mid.inner.tasks@ == pre.inner.tasks@.update(
        cur,
        user_charged(pre.inner.tasks@[cur], now - pre.inner.last_ts),
    )
}

/// The manager `mid` is `pre` with the current task charged its user time
/// up to `now` and one invocation of call `id` recorded against it.
pub open spec fn hook_and_trace_applied(
    pre: TaskManager,
    mid: TaskManager,
    now: u64,
    id: u64,
) -> bool {
    let cur = pre.inner.current_task as int;
    let t0 = pre.inner.tasks@[cur];
    let idx = crate::task::syscall_slot(crate::syscall::syscall_id_spec(id));
    let si = crate::task::SyscallInfo {
        id: crate::syscall::syscall_id_spec(id),
        times: (t0.task_info.syscall@[idx].times + 1) as u64,
    };
    &&& mid.num_app == pre.num_app
    &&& mid.inner.current_task == pre.inner.current_task
    &&& mid.inner.last_ts == now
    &&& mid.inner.start_ts == pre.inner.start_ts
    &&& mid.inner.tasks@.len() == pre.inner.tasks@.len()
    &&& forall|j: int|
        0 <= j < pre.inner.tasks@.len() && j != cur ==> mid.inner.tasks@[j]
            == pre.inner.tasks@[j]
    &&& mid.inner.tasks@[cur].task_ctx == t0.task_ctx
    &&& mid.inner.tasks@[cur].task_info.status == t0.task_info.status
    &&& mid.inner.tasks@[cur].task_info.user_time == (t0.task_info.user_time + (now
        - pre.inner.last_ts)) as u64
    &&& mid.inner.tasks@[cur].task_info.kernel_time == t0.task_info.kernel_time
    &&& mid.inner.tasks@[cur].task_info.syscall@ == t0.task_info.syscall@.update(idx, si)
}

/// What one user trap leaves behind: the full relation between the states
/// before and after, the decision returned, and the saved context.
pub open spec fn user_trap_post(
    pre: TaskManager,
    post: TaskManager,
    pre_ctx: TrapContext,
    post_ctx: TrapContext,
    cause: TrapCause,
    now_us: u64,
    r: Result<TrapOutcome, TrapFault>,
) -> bool {
    let cur = pre.inner.current_task as int;
    let dur = now_us - pre.inner.last_ts;
    match cause {
        TrapCause::UserEnvCall => {
            let id = pre_ctx.x@[17];
            &&& post_ctx.sepc == pre_ctx.sepc + 4
            // a supported call succeeds; only an unknown number or a write
            // to a file other than standard output is fatal
            &&& (r is Ok <==> (crate::syscall::syscall_id_spec(id)
                == crate::syscall::SyscallID::Write && pre_ctx.x@[10]
                == crate::syscall::FD_STDOUT) || crate::syscall::syscall_id_spec(id)
                == crate::syscall::SyscallID::Exit || crate::syscall::syscall_id_spec(id)
                == crate::syscall::SyscallID::Yield || crate::syscall::syscall_id_spec(
                id,
            ) == crate::syscall::SyscallID::Ts)
            &&& (r matches Ok(o) ==> {
                &&& !o.set_timer
                &&& (crate::syscall::syscall_id_spec(id)
                    == crate::syscall::SyscallID::Write ==> o.write == Some(
                    WriteRequest { addr: pre_ctx.x@[11], len: pre_ctx.x@[12] },
                ) && o.action == ScheduleDecision::Continue && post_ctx.x@
                    == pre_ctx.x@.update(10, pre_ctx.x@[12]) && hook_and_trace_applied(
                    pre,
                    post,
                    now_us,
                    id,
                ))
                &&& (crate::syscall::syscall_id_spec(id) == crate::syscall::SyscallID::Ts
                    ==> o.action == ScheduleDecision::Continue && post_ctx.x@
                    == pre_ctx.x@.update(10, now_us) && hook_and_trace_applied(
                    pre,
                    post,
                    now_us,
                    id,
                ))
                &&& (crate::syscall::syscall_id_spec(id)
                    == crate::syscall::SyscallID::Exit ==> o.write is None && exists|
                    mid: TaskManager,
                |
                    hook_and_trace_applied(pre, mid, now_us, id) && #[trigger]
                    exited_then_scheduled(mid, post, o.action, now_us))
                &&& (crate::syscall::syscall_id_spec(id)
                    == crate::syscall::SyscallID::Yield ==> o.write is None && exists|
                    mid: TaskManager,
                |
                    hook_and_trace_applied(pre, mid, now_us, id) && #[trigger]
                    suspended_then_scheduled(mid, post, o.action, now_us))
            })
            &&& (r is Err ==> post_ctx.x@ == pre_ctx.x@ && hook_and_trace_applied(
                pre,
                post,
                now_us,
                id,
            ))
            &&& (crate::syscall::syscall_id_spec(id) == crate::syscall::SyscallID::Write
                && pre_ctx.x@[10] != crate::syscall::FD_STDOUT ==> r == Err::<
                TrapOutcome,
                TrapFault,
            >(TrapFault::FatalSyscall(crate::syscall::SyscallError::UnsupportedFd)))
            &&& ((crate::syscall::syscall_id_spec(id)
                == crate::syscall::SyscallID::Invalid || crate::syscall::syscall_id_spec(
                id,
            ) == crate::syscall::SyscallID::TaskInfo) ==> r == Err::<
                TrapOutcome,
                TrapFault,
            >(TrapFault::FatalSyscall(crate::syscall::SyscallError::UnsupportedSyscall)))
        },
        TrapCause::StoreFault | TrapCause::StorePageFault
            | TrapCause::IllegalInstruction => {
            &&& r matches Ok(o)
            &&& !o.set_timer
            &&& o.write is None
            &&& (r matches Ok(o) ==> exists|mid: TaskManager|
                user_hook_applied(pre, mid, now_us) && #[trigger] exited_then_scheduled(
                    mid,
                    post,
                    o.action,
                    now_us,
                ))
        },
        TrapCause::SupervisorTimer => {
            &&& r matches Ok(o)
            &&& o.set_timer
            &&& o.write is None
            &&& (r matches Ok(o) ==> exists|mid: TaskManager|
                user_hook_applied(pre, mid, now_us) && #[trigger]
                suspended_then_scheduled(mid, post, o.action, now_us))
        },
        TrapCause::Unknown => {
            r == Err::<TrapOutcome, TrapFault>(TrapFault::UnsupportedTrap)
        },
    }
}

/// Handle a trap taken from user mode.  The user-side time of the current
/// task is charged first; then the cause decides: a system call advances
/// the saved program counter, records itself and runs; faults and illegal
/// instructions kill the task and schedule the next; the timer suspends
/// the task, rearms and schedules the next; anything else is fatal.
pub fn user_trap_handler(
    tm: &mut TaskManager,
    ctx: &mut TrapContext,
    cause: TrapCause,
    stval: u64,
    now_us: u64,
) -> (r: Result<TrapOutcome, TrapFault>)
    requires
        old(tm).wf(),
        old(ctx).wf(),
        now_us >= old(tm).inner.last_ts,
        old(ctx).sepc <= u64::MAX - 4,
        forall|i: int|
            0 <= i < 6 ==> (#[trigger] old(tm).inner.tasks@[old(
            tm).inner.current_task as int].task_info.syscall@[i]).times < u64::MAX,
    ensures
        final(tm).wf(),
        final(tm).num_app == old(tm).num_app,
        final(ctx).wf(),
        user_trap_post(
            *old(tm),
            *final(tm),
            *old(ctx),
            *final(ctx),
            cause,
            now_us,
            r,
        ),
{
    let ghost pre = *tm;
    tm.user_end_and_kernel_time_start(now_us);
    proof {
        assert(user_hook_applied(pre, *tm, now_us));
    }
    match cause {
        TrapCause::UserEnvCall => {
            ctx.sepc = ctx.sepc + 4;
            let id = ctx.x[17];
            tm.trace_syscall_info(id);
            let a0 = ctx.x[10];
            let a1 = ctx.x[11];
            let a2 = ctx.x[12];
            match syscall(tm, id, [a0, a1, a2], now_us) {
                Ok(o) => {
                    ctx.set_x(10, o.ret);
                    Ok(
                        TrapOutcome {
                            set_timer: false,
                            write: o.write,
                            action: o.action,
                        },
                    )
                },
                Err(e) => Err(TrapFault::FatalSyscall(e)),
            }
        },
        TrapCause::StoreFault | TrapCause::StorePageFault
            | TrapCause::IllegalInstruction => {
            let ghost mid2 = *tm;
            let action = crate::task::exit_current_and_run_next(tm, now_us);
            proof {
                assert(user_hook_applied(pre, mid2, now_us) && exited_then_scheduled(
                    mid2, *tm, action, now_us));
            }
            Ok(TrapOutcome { set_timer: false, write: None, action })
        },
        TrapCause::SupervisorTimer => {
            let ghost mid2 = *tm;
            let action = crate::task::suspend_current_and_run_next(tm, now_us);
            proof {
                assert(user_hook_applied(pre, mid2, now_us) && suspended_then_scheduled(
                    mid2, *tm, action, now_us));
            }
            Ok(TrapOutcome { set_timer: true, write: None, action })
        },
        TrapCause::Unknown => Err(TrapFault::UnsupportedTrap),
    }
}

/// Whether a kernel-mode timer interrupt has ever been observed.
pub struct KernelState {
    pub kernel_interrupt_triggered: bool,
}

/// Read the kernel-interrupt marker.
pub fn check_kernel_interrupt(ks: &KernelState) -> (r: bool)
    ensures
        r == ks.kernel_interrupt_triggered,
{
    ks.kernel_interrupt_triggered
}

/// Set the kernel-interrupt marker.
pub fn mark_kernel_interrupt(ks: &mut KernelState)
    ensures
        final(ks).kernel_interrupt_triggered,
{
    ks.kernel_interrupt_triggered = true;
}

/// Handle a trap taken while the kernel itself was running.  The kernel
/// never preempts itself: a timer interrupt is only acknowledged and
/// rearmed; a store fault in the kernel is fatal; anything else is merely
/// noted without terminating the machine.
pub fn kernel_trap_handler(ks: &mut KernelState, cause: TrapCause) -> (r: Result<
    bool,
    TrapFault,
>)
    ensures
        cause == TrapCause::SupervisorTimer ==> r == Ok::<bool, TrapFault>(true)
            && final(ks).kernel_interrupt_triggered,
        cause == TrapCause::StoreFault || cause == TrapCause::StorePageFault ==> r
            == Err::<bool, TrapFault>(TrapFault::KernelPageFault) && *final(ks) == *old(
            ks,
        ),
        !(cause == TrapCause::SupervisorTimer || cause == TrapCause::StoreFault || cause
            == TrapCause::StorePageFault) ==> r == Ok::<bool, TrapFault>(false) && *final(
        ks) == *old(ks),
{
    match cause {
        TrapCause::SupervisorTimer => {
            mark_kernel_interrupt(ks);
            Ok(true)
        },
        TrapCause::StoreFault | TrapCause::StorePageFault => Err(
            TrapFault::KernelPageFault,
        ),
        _ => Ok(false),
    }
}

/// Which privilege level the trap came from.
#[derive(Debug, Copy, Clone, PartialEq, Eq, Structural)]
pub enum TrapOrigin {
    User,
    Supervisor,
}

/// Route a trap to the user-origin or kernel-origin handler, as the saved
/// previous-privilege field decides.
pub fn trap_handler(
    tm: &mut TaskManager,
    ctx: &mut TrapContext,
    ks: &mut KernelState,
    origin: TrapOrigin,
    cause: TrapCause,
    stval: u64,
    now_us: u64,
) -> (r: Result<TrapOutcome, TrapFault>)
    requires
        old(tm).wf(),
        old(ctx).wf(),
        now_us >= old(tm).inner.last_ts,
        old(ctx).sepc <= u64::MAX - 4,
        forall|i: int|
            0 <= i < 6 ==> (#[trigger] old(tm).inner.tasks@[old(
            tm).inner.current_task as int].task_info.syscall@[i]).times < u64::MAX,
    ensures
        final(tm).wf(),
        final(ctx).wf(),
        origin == TrapOrigin::Supervisor ==> final(tm).inner.tasks@ == old(
        tm).inner.tasks@ && final(ctx).x@ == old(ctx).x@ && final(ctx).sepc == old(
        ctx).sepc && (r matches Ok(o) ==> o.write is None && o.action
            == ScheduleDecision::Continue && (o.set_timer <==> cause
            == TrapCause::SupervisorTimer)) && (r is Err <==> cause
            == TrapCause::StoreFault || cause == TrapCause::StorePageFault),
        origin == TrapOrigin::User ==> user_trap_post(
            *old(tm),
            *final(tm),
            *old(ctx),
            *final(ctx),
            cause,
            now_us,
            r,
        ),
{
    match origin {
        TrapOrigin::Supervisor => {
            match kernel_trap_handler(ks, cause) {
                Ok(set_timer) => Ok(
                    TrapOutcome {
                        set_timer,
                        write: None,
                        action: ScheduleDecision::Continue,
                    },
                ),
                Err(e) => Err(e),
            }
        },
        TrapOrigin::User => user_trap_handler(tm, ctx, cause, stval, now_us),
    }
}

} // verus!
