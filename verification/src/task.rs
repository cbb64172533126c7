//! Task control and the cooperative round-robin scheduler.
//!
//! A fixed table of tasks, an index of the running one, and a timestamp of
//! the last accounting point.  Control transfers between tasks only through
//! the decisions these functions return; the raw context switch itself is
//! an outside primitive the surrounding loop performs.

pub mod context;

#[allow(clippy::module_inception)]
pub mod task;

use vstd::prelude::*;
use crate::config::MAX_APP_NUM;
use crate::syscall::SyscallID;
use context::TaskContext;
pub use task::{SyscallInfo, TaskControlBlock, TaskInfo, TaskStatus};

verus! {

/// What the scheduler decided: keep running the current task, switch from
/// task `prev` to task `next`, or shut the machine down because no task is
/// ready any more.
#[derive(Debug, Copy, Clone, PartialEq, Eq, Structural)]
pub enum ScheduleDecision {
    Continue,
    Switch { prev: usize, next: usize },
    Shutdown,
}

/// Total kernel plus user time accumulated over all tasks.
pub open spec fn times_sum(tasks: Seq<TaskControlBlock>) -> int
    decreases tasks.len(),
{
    if tasks.len() == 0 {
        0
    } else {
        times_sum(tasks.drop_last()) + tasks.last().task_info.kernel_time
            + tasks.last().task_info.user_time
    }
}

/// The total accumulated time is never negative.
pub proof fn lemma_times_sum_nonneg(s: Seq<TaskControlBlock>)
    ensures
        times_sum(s) >= 0,
    decreases s.len(),
{
    if s.len() > 0 {
        lemma_times_sum_nonneg(s.drop_last());
    }
}

/// Replacing one record changes the total by exactly the difference of
/// that record's times.
pub proof fn lemma_times_sum_update(s: Seq<TaskControlBlock>, i: int, v: TaskControlBlock)
    requires
        0 <= i < s.len(),
    ensures
        times_sum(s.update(i, v)) == times_sum(s) - s[i].task_info.kernel_time
            - s[i].task_info.user_time + v.task_info.kernel_time + v.task_info.user_time,
    decreases s.len(),
{
    if i == s.len() - 1 {
        assert(s.update(i, v).drop_last() =~= s.drop_last());
    } else {
        assert(s.update(i, v).drop_last() =~= s.drop_last().update(i, v));
        lemma_times_sum_update(s.drop_last(), i, v);
    }
}

/// Each task's own time is no more than the total.
pub proof fn lemma_times_sum_le(s: Seq<TaskControlBlock>, i: int)
    requires
        0 <= i < s.len(),
    ensures
        s[i].task_info.kernel_time + s[i].task_info.user_time <= times_sum(s),
    decreases s.len(),
{
    if i == s.len() - 1 {
        lemma_times_sum_nonneg(s.drop_last());
    } else {
        lemma_times_sum_le(s.drop_last(), i);
    }
}

/// The index of the first Ready task at offset `k` or beyond (wrapping,
/// up to offset `n`) after `cur`.
pub open spec fn find_ready_from(
    tasks: Seq<TaskControlBlock>,
    cur: int,
    n: int,
    k: int,
) -> Option<int>
    decreases n + 1 - k,
{
    if k > n || n <= 0 {
        None
    } else {
        if tasks[(cur + k) % n].task_info.status == TaskStatus::Ready {
            Some((cur + k) % n)
        } else {
            find_ready_from(tasks, cur, n, k + 1)
        }
    }
}

/// A found index is always a valid task index.
pub proof fn lemma_find_ready_bound(tasks: Seq<TaskControlBlock>, cur: int, n: int, k: int)
    requires
        n > 0,
    ensures
        find_ready_from(tasks, cur, n, k) matches Some(v) ==> 0 <= v < n,
    decreases n + 1 - k,
{
    if k <= n {
        lemma_find_ready_bound(tasks, cur, n, k + 1);
    }
}

/// The first Ready task strictly after `cur` in wrapping order, the
/// current task itself considered last.
pub open spec fn first_ready_after(tasks: Seq<TaskControlBlock>, cur: int, n: int) -> Option<
    int,
> {
    find_ready_from(tasks, cur, n, 1)
}

/// Scheduler state: the task table, the running task's index and the last
/// accounting timestamp.
pub struct TaskManagerInner {
    pub tasks: Vec<TaskControlBlock>,
    pub current_task: usize,
    pub last_ts: u64,
    /// When accounting began; every accumulated time is measured against
    /// this origin.
    pub start_ts: Ghost<u64>,
}

impl TaskManagerInner {
    /// Time elapsed since the previous accounting point; the point moves
    /// to `now`.
    pub fn update_duration(&mut self, now: u64) -> (d: u64)
        requires
            now >= old(self).last_ts,
        ensures
            d == now - old(self).last_ts,
            final(self).last_ts == now,
            final(self).tasks == old(self).tasks,
            final(self).current_task == old(self).current_task,
            final(self).start_ts == old(self).start_ts,
    {
        let tmp_ts = self.last_ts;
        self.last_ts = now;
        now - tmp_ts
    }
}

/// The task table with its exclusive-access discipline: on the single
/// core, every entry point takes the manager exclusively.
pub struct TaskManager {
    pub num_app: usize,
    pub inner: TaskManagerInner,
}

/// The record of task `cur` after charging `dur` of kernel time and
/// moving it to `status`.
pub open spec fn charged(t: TaskControlBlock, status: TaskStatus, dur: int) -> TaskControlBlock {
    TaskControlBlock {
        task_ctx: t.task_ctx,
        task_info: TaskInfo {
            status,
            syscall: t.task_info.syscall,
            user_time: t.task_info.user_time,
            kernel_time: (t.task_info.kernel_time + dur) as u64,
        },
    }
}

/// The record of task `t` with only its status changed.
pub open spec fn with_status(t: TaskControlBlock, status: TaskStatus) -> TaskControlBlock {
    TaskControlBlock {
        task_ctx: t.task_ctx,
        task_info: TaskInfo {
            status,
            syscall: t.task_info.syscall,
            user_time: t.task_info.user_time,
            kernel_time: t.task_info.kernel_time,
        },
    }
}

/// After `pre`'s current task was marked with `status` at time `now` (its
/// kernel time charged up to `now`), the next Ready task was scheduled:
/// either a switch to it, or shutdown when none is left.  `post` is the
/// resulting state and `r` the decision.
pub open spec fn marked_then_scheduled(
    pre: TaskManager,
    post: TaskManager,
    r: ScheduleDecision,
    status: TaskStatus,
    now: u64,
) -> bool {
    let cur = pre.inner.current_task as int;
    let n = pre.num_app as int;
    let dur = now - pre.inner.last_ts;
    let mid = pre.inner.tasks@.update(cur, charged(pre.inner.tasks@[cur], status, dur));
    &&& post.num_app == pre.num_app
    &&& post.inner.last_ts == now
    &&& post.inner.start_ts == pre.inner.start_ts
    &&& match first_ready_after(mid, cur, n) {
        Some(next) => {
            &&& r == (ScheduleDecision::Switch { prev: cur as usize, next: next as usize })
            &&& post.inner.tasks@ == mid.update(
                next,
                with_status(mid[next], TaskStatus::Running),
            )
            &&& post.inner.current_task == next
        },
        None => {
            &&& r == ScheduleDecision::Shutdown
            &&& post.inner.tasks@ == mid
            &&& post.inner.current_task == cur
        },
    }
}

/// The current task exited, then the next Ready one was scheduled.
pub open spec fn exited_then_scheduled(
    pre: TaskManager,
    post: TaskManager,
    r: ScheduleDecision,
    now: u64,
) -> bool {
    marked_then_scheduled(pre, post, r, TaskStatus::Exited, now)
}

/// The current task was suspended back to Ready, then the next Ready one
/// was scheduled (possibly the same task again).
pub open spec fn suspended_then_scheduled(
    pre: TaskManager,
    post: TaskManager,
    r: ScheduleDecision,
    now: u64,
) -> bool {
    marked_then_scheduled(pre, post, r, TaskStatus::Ready, now)
}

impl TaskManager {
    pub open spec fn wf(self) -> bool {
        &&& 1 <= self.num_app <= MAX_APP_NUM
        &&& self.inner.tasks@.len() == self.num_app
        &&& self.inner.current_task < self.num_app
        &&& forall|i: int|
            0 <= i < self.num_app ==> (#[trigger] self.inner.tasks@[i]).task_info.syscall@.len()
                == 6
        &&& self.inner.start_ts@ <= self.inner.last_ts
        &&& times_sum(self.inner.tasks@) <= self.inner.last_ts - self.inner.start_ts@
    }

    /// A manager over `task_ctxs.len()` tasks, every one Ready to run with
    /// its initial context; task 0 is the nominal current task and
    /// accounting starts at time zero.
    pub fn new(task_ctxs: Vec<TaskContext>) -> (tm: Self)
        requires
            1 <= task_ctxs@.len() <= MAX_APP_NUM,
        ensures
            tm.wf(),
            tm.num_app == task_ctxs@.len(),
            tm.inner.current_task == 0,
            tm.inner.last_ts == 0,
            forall|i: int|
                0 <= i < task_ctxs@.len() ==> (#[trigger] tm.inner.tasks@[i]).task_ctx
                    == task_ctxs@[i] && tm.inner.tasks@[i].task_info.status
                    == TaskStatus::Ready && tm.inner.tasks@[i].task_info.kernel_time == 0
                    && tm.inner.tasks@[i].task_info.user_time == 0,
    {
        let n = task_ctxs.len();
        let mut tasks: Vec<TaskControlBlock> = Vec::new();
        let mut i: usize = 0;
        while i < n
            invariant
                i <= n,
                n == task_ctxs@.len(),
                tasks@.len() == i,
                forall|j: int|
                    0 <= j < i ==> (#[trigger] tasks@[j]).task_ctx == task_ctxs@[j]
                        && tasks@[j].task_info.status == TaskStatus::Ready
                        && tasks@[j].task_info.kernel_time == 0
                        && tasks@[j].task_info.user_time == 0
                        && tasks@[j].task_info.syscall@.len() == 6,
            decreases n - i,
        {
            let mut info = TaskInfo::init();
            info.status = TaskStatus::Ready;
            tasks.push(TaskControlBlock { task_ctx: task_ctxs[i], task_info: info });
            i = i + 1;
        }
        let tm = TaskManager {
            num_app: n,
            inner: TaskManagerInner {
                tasks,
                current_task: 0,
                last_ts: 0,
                start_ts: Ghost(0),
            },
        };
        proof {
            lemma_all_zero_times_sum(tm.inner.tasks@);
        }
        tm
    }

    /// Record one invocation of `syscall_id` against the current task.
    pub fn trace_syscall_info(&mut self, syscall_id: u64)
        requires
            old(self).wf(),
            forall|i: int|
                0 <= i < 6 ==> (#[trigger] old(self).inner.tasks@[old(
                self).inner.current_task as int].task_info.syscall@[i]).times < u64::MAX,
        ensures
            final(self).wf(),
            final(self).num_app == old(self).num_app,
            final(self).inner.current_task == old(self).inner.current_task,
            final(self).inner.last_ts == old(self).inner.last_ts,
            final(self).inner.start_ts == old(self).inner.start_ts,
            ({
                let cur = old(self).inner.current_task as int;
                let idx = syscall_slot(crate::syscall::syscall_id_spec(syscall_id));
                let t = old(self).inner.tasks@[cur];
                let si = SyscallInfo {
                    id: crate::syscall::syscall_id_spec(syscall_id),
                    times: (t.task_info.syscall@[idx].times + 1) as u64,
                };
                let nt = final(self).inner.tasks@[cur];
                &&& final(self).inner.tasks@.len() == old(self).inner.tasks@.len()
                &&& forall|j: int|
                    0 <= j < old(self).inner.tasks@.len() && j != cur ==> final(
                    self).inner.tasks@[j] == old(self).inner.tasks@[j]
                &&& nt.task_info.syscall@ == t.task_info.syscall@.update(idx, si)
                &&& nt.task_info.status == t.task_info.status
                &&& nt.task_info.user_time == t.task_info.user_time
                &&& nt.task_info.kernel_time == t.task_info.kernel_time
                &&& nt.task_ctx == t.task_ctx
            }),
    {
        let ghost pre = *self;
        let cur = self.inner.current_task;
        let id: SyscallID = SyscallID::from(syscall_id);
        let idx: usize = match id {
            SyscallID::Write => 0,
            SyscallID::Exit => 1,
            SyscallID::Yield => 2,
            SyscallID::Ts => 3,
            _ => 5,
        };
        let tcb = &mut self.inner.tasks[cur];
        let old_si = tcb.task_info.syscall[idx];
        tcb.task_info.syscall.set(idx, SyscallInfo { id, times: old_si.times + 1 });
        proof {
            let cur = cur as int;
            lemma_times_sum_update(
                pre.inner.tasks@,
                cur,
                final(self).inner.tasks@[cur],
            );
            assert(final(self).inner.tasks@ =~= pre.inner.tasks@.update(
                cur,
                final(self).inner.tasks@[cur],
            ));
        }
    }

    /// Mark the current task with `status`, charging it the kernel time
    /// since the last accounting point.
    fn mark_current(&mut self, status: TaskStatus, now: u64)
        requires
            old(self).wf(),
            now >= old(self).inner.last_ts,
        ensures
            final(self).wf(),
            final(self).num_app == old(self).num_app,
            final(self).inner.current_task == old(self).inner.current_task,
            final(self).inner.last_ts == now,
            final(self).inner.start_ts == old(self).inner.start_ts,
            final(self).inner.tasks@ == old(self).inner.tasks@.update(
                old(self).inner.current_task as int,
                charged(
                    old(self).inner.tasks@[old(self).inner.current_task as int],
                    status,
                    now - old(self).inner.last_ts,
                ),
            ),
    {
        let ghost pre = *self;
        let cur = self.inner.current_task;
        proof {
            lemma_times_sum_le(pre.inner.tasks@, cur as int);
            lemma_times_sum_nonneg(pre.inner.tasks@);
        }
        let dur = self.inner.update_duration(now);
        let tcb = &mut self.inner.tasks[cur];
        tcb.task_info.kernel_time = tcb.task_info.kernel_time + dur;
        tcb.task_info.status = status;
        proof {
            let cur = cur as int;
            assert(final(self).inner.tasks@ =~= pre.inner.tasks@.update(
                cur,
                charged(pre.inner.tasks@[cur], status, now - pre.inner.last_ts),
            ));
            lemma_times_sum_update(
                pre.inner.tasks@,
                cur,
                final(self).inner.tasks@[cur],
            );
        }
    }

    /// Mark the current task suspended (Ready again); it stops being
    /// charged kernel time.
    pub fn mark_current_suspended(&mut self, now: u64)
        requires
            old(self).wf(),
            now >= old(self).inner.last_ts,
        ensures
            final(self).wf(),
            final(self).num_app == old(self).num_app,
            final(self).inner.current_task == old(self).inner.current_task,
            final(self).inner.last_ts == now,
            final(self).inner.start_ts == old(self).inner.start_ts,
            final(self).inner.tasks@ == old(self).inner.tasks@.update(
                old(self).inner.current_task as int,
                charged(
                    old(self).inner.tasks@[old(self).inner.current_task as int],
                    TaskStatus::Ready,
                    now - old(self).inner.last_ts,
                ),
            ),
    {
        self.mark_current(TaskStatus::Ready, now)
    }

    /// Mark the current task exited; the state is terminal.
    pub fn mark_current_exited(&mut self, now: u64)
        requires
            old(self).wf(),
            now >= old(self).inner.last_ts,
        ensures
            final(self).wf(),
            final(self).num_app == old(self).num_app,
            final(self).inner.current_task == old(self).inner.current_task,
            final(self).inner.last_ts == now,
            final(self).inner.start_ts == old(self).inner.start_ts,
            final(self).inner.tasks@ == old(self).inner.tasks@.update(
                old(self).inner.current_task as int,
                charged(
                    old(self).inner.tasks@[old(self).inner.current_task as int],
                    TaskStatus::Exited,
                    now - old(self).inner.last_ts,
                ),
            ),
    {
        self.mark_current(TaskStatus::Exited, now)
    }

    /// Scan the tasks in index order starting just after the current one,
    /// wrapping around, for the first Ready task.
    pub fn find_next_task(&self) -> (r: Option<usize>)
        requires
            self.wf(),
        ensures
            match first_ready_after(
                self.inner.tasks@,
                self.inner.current_task as int,
                self.num_app as int,
            ) {
                Some(next) => r == Some(next as usize) && 0 <= next < self.num_app,
                None => r is None,
            },
    {
        proof {
            lemma_find_ready_bound(
                self.inner.tasks@,
                self.inner.current_task as int,
                self.num_app as int,
                1,
            );
        }
        let n = self.num_app;
        let cur = self.inner.current_task;
        let mut k: usize = 1;
        while k <= n
            invariant
                self.wf(),
                n == self.num_app,
                cur == self.inner.current_task,
                1 <= k <= n + 1,
                first_ready_after(self.inner.tasks@, cur as int, n as int)
                    == find_ready_from(self.inner.tasks@, cur as int, n as int, k as int),
            decreases n + 1 - k,
        {
            let id = (cur + k) % n;
            if self.inner.tasks[id].task_info.status == TaskStatus::Ready {
                return Some(id);
            }
            k = k + 1;
        }
        None
    }

    /// If a Ready task exists, mark it Running, make it current and decide
    /// a switch to it; otherwise every application has completed and the
    /// machine is to shut down.
    pub fn run_next_task(&mut self) -> (r: ScheduleDecision)
        requires
            old(self).wf(),
        ensures
            final(self).wf(),
            final(self).num_app == old(self).num_app,
            final(self).inner.last_ts == old(self).inner.last_ts,
            final(self).inner.start_ts == old(self).inner.start_ts,
            match first_ready_after(
                old(self).inner.tasks@,
                old(self).inner.current_task as int,
                old(self).num_app as int,
            ) {
                Some(next) => {
                    &&& r == (ScheduleDecision::Switch {
                        prev: old(self).inner.current_task,
                        next: next as usize,
                    })
                    &&& final(self).inner.tasks@ == old(self).inner.tasks@.update(
                        next,
                        with_status(old(self).inner.tasks@[next], TaskStatus::Running),
                    )
                    &&& final(self).inner.current_task == next
                },
                None => {
                    &&& r == ScheduleDecision::Shutdown
                    &&& final(self).inner.tasks@ == old(self).inner.tasks@
                    &&& final(self).inner.current_task == old(self).inner.current_task
                },
            },
    {
        let ghost pre = *self;
        match self.find_next_task() {
            Some(next) => {
                let current = self.inner.current_task;
                let tcb = &mut self.inner.tasks[next];
                tcb.task_info.status = TaskStatus::Running;
                self.inner.current_task = next;
                proof {
                    let nx = next as int;
                    assert(final(self).inner.tasks@ =~= pre.inner.tasks@.update(
                        nx,
                        with_status(pre.inner.tasks@[nx], TaskStatus::Running),
                    ));
                    lemma_times_sum_update(
                        pre.inner.tasks@,
                        nx,
                        final(self).inner.tasks@[nx],
                    );
                }
                ScheduleDecision::Switch { prev: current, next }
            },
            None => ScheduleDecision::Shutdown,
        }
    }

    /// Start the very first task: task 0 becomes Running and accounting
    /// begins at `now`.  The decision to switch into task 0 is returned;
    /// performing it never comes back here.
    pub fn run_first_task(&mut self, now: u64) -> (r: ScheduleDecision)
        requires
            old(self).wf(),
            now >= old(self).inner.last_ts,
        ensures
            final(self).wf(),
            final(self).num_app == old(self).num_app,
            final(self).inner.current_task == old(self).inner.current_task,
            final(self).inner.last_ts == now,
            r == (ScheduleDecision::Switch { prev: 0, next: 0 }),
            final(self).inner.tasks@ == old(self).inner.tasks@.update(
                0,
                with_status(old(self).inner.tasks@[0], TaskStatus::Running),
            ),
    {
        let ghost pre = *self;
        proof {
            lemma_times_sum_le(pre.inner.tasks@, 0);
            lemma_times_sum_nonneg(pre.inner.tasks@);
        }
        let tcb = &mut self.inner.tasks[0];
        tcb.task_info.status = TaskStatus::Running;
        let _ = self.inner.update_duration(now);
        proof {
            assert(final(self).inner.tasks@ =~= pre.inner.tasks@.update(
                0,
                with_status(pre.inner.tasks@[0], TaskStatus::Running),
            ));
            lemma_times_sum_update(pre.inner.tasks@, 0, final(self).inner.tasks@[0]);
        }
        ScheduleDecision::Switch { prev: 0, next: 0 }
    }

    /// Kernel-side work for the current task ends here: charge it the
    /// kernel time since the last accounting point.
    pub fn kernel_end_and_user_time_start(&mut self, now: u64)
        requires
            old(self).wf(),
            now >= old(self).inner.last_ts,
        ensures
            final(self).wf(),
            final(self).num_app == old(self).num_app,
            final(self).inner.current_task == old(self).inner.current_task,
            final(self).inner.last_ts == now,
            final(self).inner.start_ts == old(self).inner.start_ts,
            ({
                let cur = old(self).inner.current_task as int;
                let t = old(self).inner.tasks@[cur];
                final(self).inner.tasks@ == old(self).inner.tasks@.update(
                    cur,
                    charged(t, t.task_info.status, now - old(self).inner.last_ts),
                )
            }),
    {
        let ghost pre = *self;
        let cur = self.inner.current_task;
        proof {
            lemma_times_sum_le(pre.inner.tasks@, cur as int);
            lemma_times_sum_nonneg(pre.inner.tasks@);
        }
        let dur = self.inner.update_duration(now);
        let tcb = &mut self.inner.tasks[cur];
        tcb.task_info.kernel_time = tcb.task_info.kernel_time + dur;
        proof {
            let cur = cur as int;
            assert(final(self).inner.tasks@ =~= pre.inner.tasks@.update(
                cur,
                charged(
                    pre.inner.tasks@[cur],
                    pre.inner.tasks@[cur].task_info.status,
                    now - pre.inner.last_ts,
                ),
            ));
            lemma_times_sum_update(
                pre.inner.tasks@,
                cur,
                final(self).inner.tasks@[cur],
            );
        }
    }

    /// User-side work for the current task ends here: charge it the user
    /// time since the last accounting point.
    pub fn user_end_and_kernel_time_start(&mut self, now: u64)
        requires
            old(self).wf(),
            now >= old(self).inner.last_ts,
        ensures
            final(self).wf(),
            final(self).num_app == old(self).num_app,
            final(self).inner.current_task == old(self).inner.current_task,
            final(self).inner.last_ts == now,
            final(self).inner.start_ts == old(self).inner.start_ts,
            ({
                let cur = old(self).inner.current_task as int;
                let t = old(self).inner.tasks@[cur];
                final(self).inner.tasks@ == old(self).inner.tasks@.update(
                    cur,
                    TaskControlBlock {
                        task_ctx: t.task_ctx,
                        task_info: TaskInfo {
                            status: t.task_info.status,
                            syscall: t.task_info.syscall,
                            user_time: (t.task_info.user_time + (now - old(
                            self).inner.last_ts)) as u64,
                            kernel_time: t.task_info.kernel_time,
                        },
                    },
                )
            }),
    {
        let ghost pre = *self;
        let cur = self.inner.current_task;
        proof {
            lemma_times_sum_le(pre.inner.tasks@, cur as int);
            lemma_times_sum_nonneg(pre.inner.tasks@);
        }
        let dur = self.inner.update_duration(now);
        let tcb = &mut self.inner.tasks[cur];
        tcb.task_info.user_time = tcb.task_info.user_time + dur;
        proof {
            let cur = cur as int;
            assert(final(self).inner.tasks@ =~= pre.inner.tasks@.update(
                cur,
                final(self).inner.tasks@[cur],
            ));
            lemma_times_sum_update(
                pre.inner.tasks@,
                cur,
                final(self).inner.tasks@[cur],
            );
        }
    }
}

/// A table of tasks that have never run has no accumulated time.
proof fn lemma_all_zero_times_sum(s: Seq<TaskControlBlock>)
    requires
        forall|i: int|
            0 <= i < s.len() ==> (#[trigger] s[i]).task_info.kernel_time == 0
                && s[i].task_info.user_time == 0,
    ensures
        times_sum(s) == 0,
    decreases s.len(),
{
    if s.len() > 0 {
        lemma_all_zero_times_sum(s.drop_last());
    }
}

/// The slot in the per-task counter table that records a call kind.
pub open spec fn syscall_slot(id: SyscallID) -> int {
    match id {
        SyscallID::Write => 0,
        SyscallID::Exit => 1,
        SyscallID::Yield => 2,
        SyscallID::Ts => 3,
        _ => 5,
    }
}

/// Mark the current task suspended.
pub fn mark_current_suspended(tm: &mut TaskManager, now: u64)
    requires
        old(tm).wf(),
        now >= old(tm).inner.last_ts,
    ensures
        final(tm).wf(),
        final(tm).num_app == old(tm).num_app,
        final(tm).inner.current_task == old(tm).inner.current_task,
        final(tm).inner.last_ts == now,
        final(tm).inner.start_ts == old(tm).inner.start_ts,
        final(tm).inner.tasks@ == old(tm).inner.tasks@.update(
            old(tm).inner.current_task as int,
            charged(
                old(tm).inner.tasks@[old(tm).inner.current_task as int],
                TaskStatus::Ready,
                now - old(tm).inner.last_ts,
            ),
        ),
{
    tm.mark_current_suspended(now)
}

/// Mark the current task exited.
pub fn mark_current_exited(tm: &mut TaskManager, now: u64)
    requires
        old(tm).wf(),
        now >= old(tm).inner.last_ts,
    ensures
        final(tm).wf(),
        final(tm).num_app == old(tm).num_app,
        final(tm).inner.current_task == old(tm).inner.current_task,
        final(tm).inner.last_ts == now,
        final(tm).inner.start_ts == old(tm).inner.start_ts,
        final(tm).inner.tasks@ == old(tm).inner.tasks@.update(
            old(tm).inner.current_task as int,
            charged(
                old(tm).inner.tasks@[old(tm).inner.current_task as int],
                TaskStatus::Exited,
                now - old(tm).inner.last_ts,
            ),
        ),
{
    tm.mark_current_exited(now)
}

/// Schedule the next Ready task, or decide shutdown.
pub fn run_next_task(tm: &mut TaskManager) -> (r: ScheduleDecision)
    requires
        old(tm).wf(),
    ensures
        final(tm).wf(),
        final(tm).num_app == old(tm).num_app,
        final(tm).inner.last_ts == old(tm).inner.last_ts,
        final(tm).inner.start_ts == old(tm).inner.start_ts,
        match first_ready_after(
            old(tm).inner.tasks@,
            old(tm).inner.current_task as int,
            old(tm).num_app as int,
        ) {
            Some(next) => {
                &&& r == (ScheduleDecision::Switch {
                    prev: old(tm).inner.current_task,
                    next: next as usize,
                })
                &&& final(tm).inner.tasks@ == old(tm).inner.tasks@.update(
                    next,
                    with_status(old(tm).inner.tasks@[next], TaskStatus::Running),
                )
                &&& final(tm).inner.current_task == next
            },
            None => {
                &&& r == ScheduleDecision::Shutdown
                &&& final(tm).inner.tasks@ == old(tm).inner.tasks@
                &&& final(tm).inner.current_task == old(tm).inner.current_task
            },
        },
{
    tm.run_next_task()
}

/// Suspend the current task and schedule the next Ready one.
pub fn suspend_current_and_run_next(tm: &mut TaskManager, now: u64) -> (r:
    ScheduleDecision)
    requires
        old(tm).wf(),
        now >= old(tm).inner.last_ts,
    ensures
        final(tm).wf(),
        final(tm).num_app == old(tm).num_app,
        suspended_then_scheduled(*old(tm), *final(tm), r, now),
{
    mark_current_suspended(tm, now);
    run_next_task(tm)
}

/// Exit the current task and schedule the next Ready one.
pub fn exit_current_and_run_next(tm: &mut TaskManager, now: u64) -> (r:
    ScheduleDecision)
    requires
        old(tm).wf(),
        now >= old(tm).inner.last_ts,
    ensures
        final(tm).wf(),
        final(tm).num_app == old(tm).num_app,
        exited_then_scheduled(*old(tm), *final(tm), r, now),
{
    mark_current_exited(tm, now);
    run_next_task(tm)
}

/// Start the very first task.
pub fn run_first_task(tm: &mut TaskManager, now: u64) -> (r: ScheduleDecision)
    requires
        old(tm).wf(),
        now >= old(tm).inner.last_ts,
    ensures
        final(tm).wf(),
        final(tm).num_app == old(tm).num_app,
        final(tm).inner.current_task == old(tm).inner.current_task,
        final(tm).inner.last_ts == now,
        r == (ScheduleDecision::Switch { prev: 0, next: 0 }),
        final(tm).inner.tasks@ == old(tm).inner.tasks@.update(
            0,
            with_status(old(tm).inner.tasks@[0], TaskStatus::Running),
        ),
{
    tm.run_first_task(now)
}

/// Record one invocation of `syscall_id` against the current task.
pub fn trace_syscall_info(tm: &mut TaskManager, syscall_id: u64)
    requires
        old(tm).wf(),
        forall|i: int|
            0 <= i < 6 ==> (#[trigger] old(tm).inner.tasks@[old(
            tm).inner.current_task as int].task_info.syscall@[i]).times < u64::MAX,
    ensures
        final(tm).wf(),
        final(tm).num_app == old(tm).num_app,
        final(tm).inner.current_task == old(tm).inner.current_task,
        final(tm).inner.last_ts == old(tm).inner.last_ts,
        final(tm).inner.start_ts == old(tm).inner.start_ts,
        ({
            let cur = old(tm).inner.current_task as int;
            let idx = syscall_slot(crate::syscall::syscall_id_spec(syscall_id));
            let t = old(tm).inner.tasks@[cur];
            let si = SyscallInfo {
                id: crate::syscall::syscall_id_spec(syscall_id),
                times: (t.task_info.syscall@[idx].times + 1) as u64,
            };
            let nt = final(tm).inner.tasks@[cur];
            &&& final(tm).inner.tasks@.len() == old(tm).inner.tasks@.len()
            &&& forall|j: int|
                0 <= j < old(tm).inner.tasks@.len() && j != cur ==> final(
                tm).inner.tasks@[j] == old(tm).inner.tasks@[j]
            &&& nt.task_info.syscall@ == t.task_info.syscall@.update(idx, si)
            &&& nt.task_info.status == t.task_info.status
            &&& nt.task_info.user_time == t.task_info.user_time
            &&& nt.task_info.kernel_time == t.task_info.kernel_time
            &&& nt.task_ctx == t.task_ctx
        }),
{
    tm.trace_syscall_info(syscall_id)
}

/// Kernel-side time of the current task ends at `now`.
pub fn kernel_end_and_user_time_start(tm: &mut TaskManager, now: u64)
    requires
        old(tm).wf(),
        now >= old(tm).inner.last_ts,
    ensures
        final(tm).wf(),
        final(tm).num_app == old(tm).num_app,
        final(tm).inner.current_task == old(tm).inner.current_task,
        final(tm).inner.last_ts == now,
        final(tm).inner.start_ts == old(tm).inner.start_ts,
        ({
            let cur = old(tm).inner.current_task as int;
            let t = old(tm).inner.tasks@[cur];
            final(tm).inner.tasks@ == old(tm).inner.tasks@.update(
                cur,
                charged(t, t.task_info.status, now - old(tm).inner.last_ts),
            )
        }),
{
    tm.kernel_end_and_user_time_start(now)
}

/// User-side time of the current task ends at `now`.
pub fn user_end_and_kernel_time_start(tm: &mut TaskManager, now: u64)
    requires
        old(tm).wf(),
        now >= old(tm).inner.last_ts,
    ensures
        final(tm).wf(),
        final(tm).num_app == old(tm).num_app,
        final(tm).inner.current_task == old(tm).inner.current_task,
        final(tm).inner.last_ts == now,
        final(tm).inner.start_ts == old(tm).inner.start_ts,
        ({
            let cur = old(tm).inner.current_task as int;
            let t = old(tm).inner.tasks@[cur];
            final(tm).inner.tasks@ == old(tm).inner.tasks@.update(
                cur,
                TaskControlBlock {
                    task_ctx: t.task_ctx,
                    task_info: TaskInfo {
                        status: t.task_info.status,
                        syscall: t.task_info.syscall,
                        user_time: (t.task_info.user_time + (now - old(
                        tm).inner.last_ts)) as u64,
                        kernel_time: t.task_info.kernel_time,
                    },
                },
            )
        }),
{
    tm.user_end_and_kernel_time_start(now)
}

/// Per-task CPU-time accounting never exceeds the wall time the manager
/// has observed: every task's accumulated kernel and user time are
/// non-negative machine words and, over all tasks, they sum to no more
/// than the time elapsed since accounting began.
pub proof fn lemma_time_accounting(tm: TaskManager, i: int)
    requires
        tm.wf(),
        0 <= i < tm.num_app,
    ensures
        tm.inner.tasks@[i].task_info.kernel_time + tm.inner.tasks@[i].task_info.user_time
            <= tm.inner.last_ts - tm.inner.start_ts@,
        times_sum(tm.inner.tasks@) <= tm.inner.last_ts - tm.inner.start_ts@,
        times_sum(tm.inner.tasks@) >= 0,
{
    lemma_times_sum_le(tm.inner.tasks@, i);
    lemma_times_sum_nonneg(tm.inner.tasks@);
}

} // verus!
