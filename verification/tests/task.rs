use rvos::task::context::TaskContext;
use rvos::task::task::TaskStatus;
use rvos::task::{
    exit_current_and_run_next, run_first_task, suspend_current_and_run_next, ScheduleDecision,
    TaskManager,
};

fn three_ready_tasks() -> TaskManager {
    let ctxs = vec![
        TaskContext::goto_restore(0x9000, 0x100),
        TaskContext::goto_restore(0xa000, 0x100),
        TaskContext::goto_restore(0xb000, 0x100),
    ];
    TaskManager::new(ctxs)
}

#[test]
fn new_manager_has_all_tasks_ready() {
    let tm = three_ready_tasks();
    assert_eq!(tm.num_app, 3);
    assert_eq!(tm.inner.current_task, 0);
    for t in tm.inner.tasks.iter() {
        assert_eq!(t.task_info.status, TaskStatus::Ready);
        assert_eq!(t.task_info.kernel_time, 0);
        assert_eq!(t.task_info.user_time, 0);
    }
    assert_eq!(tm.inner.tasks[1].task_ctx.sp, 0xa000);
    assert_eq!(tm.inner.tasks[1].task_ctx.ra, 0x100);
}

#[test]
fn round_robin_wraps_through_all_tasks() {
    // three tasks all Ready, current = 0: next is 1, then 2, then wraps to 0
    let mut tm = three_ready_tasks();
    assert_eq!(run_first_task(&mut tm, 0), ScheduleDecision::Switch { prev: 0, next: 0 });
    assert_eq!(tm.inner.tasks[0].task_info.status, TaskStatus::Running);

    assert_eq!(tm.find_next_task(), Some(1));
    let d = suspend_current_and_run_next(&mut tm, 10);
    assert_eq!(d, ScheduleDecision::Switch { prev: 0, next: 1 });
    assert_eq!(tm.inner.current_task, 1);
    assert_eq!(tm.inner.tasks[1].task_info.status, TaskStatus::Running);
    assert_eq!(tm.inner.tasks[0].task_info.status, TaskStatus::Ready);

    assert_eq!(tm.find_next_task(), Some(2));
    let d = suspend_current_and_run_next(&mut tm, 20);
    assert_eq!(d, ScheduleDecision::Switch { prev: 1, next: 2 });

    // wraps around to 0
    assert_eq!(tm.find_next_task(), Some(0));
    let d = suspend_current_and_run_next(&mut tm, 30);
    assert_eq!(d, ScheduleDecision::Switch { prev: 2, next: 0 });
    assert_eq!(tm.inner.current_task, 0);
}

#[test]
fn exited_tasks_are_skipped_and_exhaustion_shuts_down() {
    let mut tm = three_ready_tasks();
    run_first_task(&mut tm, 0);
    let d = exit_current_and_run_next(&mut tm, 5);
    assert_eq!(d, ScheduleDecision::Switch { prev: 0, next: 1 });
    assert_eq!(tm.inner.tasks[0].task_info.status, TaskStatus::Exited);
    let d = exit_current_and_run_next(&mut tm, 6);
    assert_eq!(d, ScheduleDecision::Switch { prev: 1, next: 2 });
    // the last task exits: nothing is ready, the machine shuts down
    let d = exit_current_and_run_next(&mut tm, 7);
    assert_eq!(d, ScheduleDecision::Shutdown);
    // no transition leaves Exited
    assert_eq!(tm.inner.tasks[0].task_info.status, TaskStatus::Exited);
    assert_eq!(tm.inner.tasks[1].task_info.status, TaskStatus::Exited);
    assert_eq!(tm.inner.tasks[2].task_info.status, TaskStatus::Exited);
}

#[test]
fn yield_with_single_task_reschedules_itself() {
    let mut tm = TaskManager::new(vec![TaskContext::zero_init()]);
    run_first_task(&mut tm, 0);
    let d = suspend_current_and_run_next(&mut tm, 3);
    assert_eq!(d, ScheduleDecision::Switch { prev: 0, next: 0 });
    assert_eq!(tm.inner.tasks[0].task_info.status, TaskStatus::Running);
}

#[test]
fn time_accounting_splits_kernel_and_user_time() {
    let mut tm = three_ready_tasks();
    run_first_task(&mut tm, 100);
    // user runs until 150, kernel until 170, user again until 200
    tm.user_end_and_kernel_time_start(150);
    tm.kernel_end_and_user_time_start(170);
    tm.user_end_and_kernel_time_start(200);
    let info = &tm.inner.tasks[0].task_info;
    assert_eq!(info.user_time, 50 + 30);
    assert_eq!(info.kernel_time, 20);
    assert!(info.kernel_time + info.user_time <= 200 - 100);
}

#[test]
fn suspend_charges_kernel_time() {
    let mut tm = three_ready_tasks();
    run_first_task(&mut tm, 0);
    tm.user_end_and_kernel_time_start(40);
    let _ = suspend_current_and_run_next(&mut tm, 65);
    assert_eq!(tm.inner.tasks[0].task_info.user_time, 40);
    assert_eq!(tm.inner.tasks[0].task_info.kernel_time, 25);
}

#[test]
fn trace_syscall_counts_by_kind() {
    let mut tm = three_ready_tasks();
    tm.trace_syscall_info(64);
    tm.trace_syscall_info(64);
    tm.trace_syscall_info(124);
    tm.trace_syscall_info(999);
    let sys = &tm.inner.tasks[0].task_info.syscall;
    assert_eq!(sys[0].times, 2); // write
    assert_eq!(sys[2].times, 1); // yield
    assert_eq!(sys[5].times, 1); // unknown
    assert_eq!(sys[1].times, 0);
}

#[test]
fn zero_init_and_goto_restore() {
    let z = TaskContext::zero_init();
    assert_eq!(z.ra, 0);
    assert_eq!(z.sp, 0);
    assert_eq!(z.s, [0u64; 12]);
    let g = TaskContext::goto_restore(0x8800, 0x1234);
    assert_eq!(g.sp, 0x8800);
    assert_eq!(g.ra, 0x1234);
}
