use rvos::syscall::{SyscallError, WriteRequest};
use rvos::task::task::TaskStatus;
use rvos::task::{ScheduleDecision, TaskManager};
use rvos::trap::context::TrapContext;
use rvos::trap::{
    check_kernel_interrupt, kernel_trap_handler, trap_handler, user_trap_handler, KernelState,
    TrapCause, TrapFault, TrapOrigin,
};
use rvos::task::context::TaskContext;

fn two_ready_tasks() -> TaskManager {
    TaskManager::new(vec![TaskContext::zero_init(), TaskContext::zero_init()])
}

fn user_ctx() -> TrapContext {
    TrapContext::app_init_context(0x80400000, 0x9000, 0)
}

fn set_syscall(ctx: &mut TrapContext, id: u64, a0: u64, a1: u64, a2: u64) {
    ctx.set_x(17, id);
    ctx.set_x(10, a0);
    ctx.set_x(11, a1);
    ctx.set_x(12, a2);
}

#[test]
fn write_then_exit_emits_one_output_and_exits_the_task() {
    let mut tm = two_ready_tasks();
    rvos::task::run_first_task(&mut tm, 0);
    let mut ctx = user_ctx();

    // the application issues `write(1, buf, 5)`
    set_syscall(&mut ctx, 64, 1, 0x4000, 5);
    let sepc_before = ctx.sepc;
    let out = user_trap_handler(&mut tm, &mut ctx, TrapCause::UserEnvCall, 0, 50)
        .expect("write is supported");
    // exactly one output event, no task switch, return value is the length
    assert_eq!(out.write, Some(WriteRequest { addr: 0x4000, len: 5 }));
    assert_eq!(out.action, ScheduleDecision::Continue);
    assert!(!out.set_timer);
    assert_eq!(ctx.x[10], 5);
    assert_eq!(ctx.sepc, sepc_before + 4);
    tm.kernel_end_and_user_time_start(60);

    // then it exits
    set_syscall(&mut ctx, 93, 0, 0, 0);
    let out = user_trap_handler(&mut tm, &mut ctx, TrapCause::UserEnvCall, 0, 80)
        .expect("exit is supported");
    assert_eq!(out.write, None);
    assert_eq!(out.action, ScheduleDecision::Switch { prev: 0, next: 1 });
    assert_eq!(tm.inner.tasks[0].task_info.status, TaskStatus::Exited);
    // its accounting is consistent with the wall time it lived
    let info = &tm.inner.tasks[0].task_info;
    assert!(info.kernel_time + info.user_time <= 80);
    assert_eq!(info.syscall[0].times, 1);
    assert_eq!(info.syscall[1].times, 1);
}

#[test]
fn timer_interrupt_preempts_and_rearms() {
    let mut tm = two_ready_tasks();
    rvos::task::run_first_task(&mut tm, 0);
    let mut ctx = user_ctx();
    let out = user_trap_handler(&mut tm, &mut ctx, TrapCause::SupervisorTimer, 0, 30)
        .expect("timer is handled");
    assert!(out.set_timer);
    assert_eq!(out.write, None);
    assert_eq!(out.action, ScheduleDecision::Switch { prev: 0, next: 1 });
    assert_eq!(tm.inner.tasks[0].task_info.status, TaskStatus::Ready);
    assert_eq!(tm.inner.tasks[1].task_info.status, TaskStatus::Running);
    // the preemption overhead was charged to the outgoing task
    assert!(tm.inner.tasks[0].task_info.user_time + tm.inner.tasks[0].task_info.kernel_time <= 30);
}

#[test]
fn store_fault_kills_the_task_but_not_the_kernel() {
    let mut tm = two_ready_tasks();
    rvos::task::run_first_task(&mut tm, 0);
    let mut ctx = user_ctx();
    let out = user_trap_handler(&mut tm, &mut ctx, TrapCause::StorePageFault, 0xdead, 12)
        .expect("a user fault is recovered at scheduler granularity");
    assert_eq!(out.action, ScheduleDecision::Switch { prev: 0, next: 1 });
    assert_eq!(tm.inner.tasks[0].task_info.status, TaskStatus::Exited);
    assert_eq!(tm.inner.tasks[1].task_info.status, TaskStatus::Running);
}

#[test]
fn yield_syscall_schedules_the_next_task() {
    let mut tm = two_ready_tasks();
    rvos::task::run_first_task(&mut tm, 0);
    let mut ctx = user_ctx();
    set_syscall(&mut ctx, 124, 0, 0, 0);
    let out = user_trap_handler(&mut tm, &mut ctx, TrapCause::UserEnvCall, 0, 9).unwrap();
    assert_eq!(out.action, ScheduleDecision::Switch { prev: 0, next: 1 });
    assert_eq!(tm.inner.tasks[0].task_info.status, TaskStatus::Ready);
}

#[test]
fn get_time_returns_microseconds() {
    let mut tm = two_ready_tasks();
    rvos::task::run_first_task(&mut tm, 0);
    let mut ctx = user_ctx();
    set_syscall(&mut ctx, 169, 0, 0, 0);
    let out = user_trap_handler(&mut tm, &mut ctx, TrapCause::UserEnvCall, 0, 777).unwrap();
    assert_eq!(out.action, ScheduleDecision::Continue);
    assert_eq!(ctx.x[10], 777);
}

#[test]
fn unsupported_fd_and_unknown_syscall_are_fatal() {
    let mut tm = two_ready_tasks();
    rvos::task::run_first_task(&mut tm, 0);
    let mut ctx = user_ctx();
    set_syscall(&mut ctx, 64, 2, 0x4000, 5);
    let r = user_trap_handler(&mut tm, &mut ctx, TrapCause::UserEnvCall, 0, 5);
    assert_eq!(r, Err(TrapFault::FatalSyscall(SyscallError::UnsupportedFd)));
    let mut ctx = user_ctx();
    set_syscall(&mut ctx, 410, 0, 0, 0);
    let r = user_trap_handler(&mut tm, &mut ctx, TrapCause::UserEnvCall, 0, 6);
    assert_eq!(r, Err(TrapFault::FatalSyscall(SyscallError::UnsupportedSyscall)));
}

#[test]
fn unsupported_trap_cause_is_fatal() {
    let mut tm = two_ready_tasks();
    let mut ctx = user_ctx();
    let r = user_trap_handler(&mut tm, &mut ctx, TrapCause::Unknown, 0x42, 5);
    assert_eq!(r, Err(TrapFault::UnsupportedTrap));
}

#[test]
fn kernel_trap_acknowledges_timer_without_switching() {
    let mut ks = KernelState { kernel_interrupt_triggered: false };
    assert!(!check_kernel_interrupt(&ks));
    assert_eq!(kernel_trap_handler(&mut ks, TrapCause::SupervisorTimer), Ok(true));
    assert!(check_kernel_interrupt(&ks));
    // a kernel store fault is fatal
    assert_eq!(
        kernel_trap_handler(&mut ks, TrapCause::StoreFault),
        Err(TrapFault::KernelPageFault)
    );
    // anything else is noted without terminating the machine
    assert_eq!(kernel_trap_handler(&mut ks, TrapCause::Unknown), Ok(false));
}

#[test]
fn trap_handler_routes_by_privilege_origin() {
    let mut tm = two_ready_tasks();
    rvos::task::run_first_task(&mut tm, 0);
    let mut ctx = user_ctx();
    let mut ks = KernelState { kernel_interrupt_triggered: false };
    // a kernel-origin timer never switches tasks
    let out = trap_handler(
        &mut tm,
        &mut ctx,
        &mut ks,
        TrapOrigin::Supervisor,
        TrapCause::SupervisorTimer,
        0,
        10,
    )
    .unwrap();
    assert!(out.set_timer);
    assert_eq!(out.action, ScheduleDecision::Continue);
    assert_eq!(tm.inner.tasks[0].task_info.status, TaskStatus::Running);
    // a user-origin timer does
    let out = trap_handler(
        &mut tm,
        &mut ctx,
        &mut ks,
        TrapOrigin::User,
        TrapCause::SupervisorTimer,
        0,
        20,
    )
    .unwrap();
    assert_eq!(out.action, ScheduleDecision::Switch { prev: 0, next: 1 });
}

#[test]
fn app_init_context_fabricates_a_user_entry() {
    let ctx = TrapContext::app_init_context(0x80400000, 0x1_2000, 0xffff_ffff_ffff_ffff);
    assert_eq!(ctx.sepc, 0x80400000);
    assert_eq!(ctx.x[2], 0x1_2000);
    // the previous-privilege field is forced to user
    assert_eq!(ctx.sstatus & 0x100, 0);
    for (i, &x) in ctx.x.iter().enumerate() {
        if i != 2 {
            assert_eq!(x, 0);
        }
    }
}
