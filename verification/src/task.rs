//! Per-task accounting, the task-status life cycle, the monotonic clock, and
//! the snapshot types a task can ask the kernel to copy out.

use vstd::pervasive::VecAdditionalExecFns;
use vstd::prelude::*;

use crate::MAX_SYSCALL_NUM;

verus! {

/// Life-cycle status of a task.
#[derive(Clone, Copy, PartialEq, Eq, Structural, Debug)]
pub enum TaskStatus {
    /// Created but never run.
    UnInit,
    /// Runnable, waiting for a timeslice.
    Ready,
    /// Currently executing.
    Running,
    /// Terminated; immutable from here on.
    Exited,
}

/// Elapsed time split into whole seconds and the microsecond remainder.
#[derive(Clone, Copy, PartialEq, Eq, Structural, Debug)]
pub struct TimeVal {
    /// Whole seconds.
    pub sec: u64,
    /// Microseconds below one second.
    pub usec: u64,
}

impl TimeVal {
    /// The microsecond field never reaches one second.
    pub open spec fn wf(self) -> bool {
        self.usec < 1_000_000
    }
}

/// Read-only snapshot of one task's accounting, copied out to user memory on
/// request.
pub struct TaskInfo {
    /// Task status in its life cycle.
    pub status: TaskStatus,
    /// Invocation count per syscall identifier.
    pub syscall_times: Vec<u32>,
    /// Total running time of the task in microseconds.
    pub time: u64,
}

impl TaskInfo {
    /// The counter table always has one slot per possible syscall identifier.
    pub open spec fn wf(self) -> bool {
        self.syscall_times@.len() == MAX_SYSCALL_NUM
    }
}

/// Per-task accounting: status, per-syscall invocation counters, cumulative
/// running time, and the exit code once the task has exited.
pub struct TaskAccounting {
    /// Life-cycle status.
    pub status: TaskStatus,
    /// Invocation count per syscall identifier.
    pub syscall_times: Vec<u32>,
    /// Total running time in microseconds.
    pub time: u64,
    /// Exit code; meaningful once `status` is `Exited`.
    pub exit_code: i32,
}

impl TaskAccounting {
    /// The counter table always has one slot per possible syscall identifier.
    pub open spec fn wf(self) -> bool {
        self.syscall_times@.len() == MAX_SYSCALL_NUM
    }

    /// Fresh accounting for a task that has just begun running.
    pub fn new() -> (r: TaskAccounting)
        ensures
            r.wf(),
            r.status == TaskStatus::Running,
            r.time == 0,
            r.exit_code == 0,
            forall|i: int| 0 <= i < MAX_SYSCALL_NUM ==> r.syscall_times@[i] == 0u32,
    {
        let mut counts: Vec<u32> = Vec::new();
        let mut t: usize = 0;
        while t < MAX_SYSCALL_NUM
            invariant
                t <= MAX_SYSCALL_NUM,
                counts@.len() == t,
                forall|i: int| 0 <= i < t ==> counts@[i] == 0u32,
            decreases MAX_SYSCALL_NUM - t,
        {
            counts.push(0u32);
            t = t + 1;
        }
        TaskAccounting { status: TaskStatus::Running, syscall_times: counts, time: 0, exit_code: 0 }
    }

    /// Scheduler-side bookkeeping: records the task's cumulative running
    /// time, in microseconds since it first began running.
    pub fn set_running_time(&mut self, time_us: u64)
        requires
            old(self).wf(),
        ensures
            final(self).wf(),
            final(self).time == time_us,
            final(self).status == old(self).status,
            final(self).syscall_times == old(self).syscall_times,
            final(self).exit_code == old(self).exit_code,
    {
        self.time = time_us;
    }

    /// Books one invocation of syscall `id`; every other slot and every other
    /// field stays as it was.
    pub fn record_syscall(&mut self, id: usize)
        requires
            old(self).wf(),
            id < MAX_SYSCALL_NUM,
            old(self).syscall_times@[id as int] < u32::MAX,
        ensures
            final(self).wf(),
            final(self).syscall_times@ == old(self).syscall_times@.update(
                id as int,
                (old(self).syscall_times@[id as int] + 1) as u32,
            ),
            final(self).status == old(self).status,
            final(self).time == old(self).time,
            final(self).exit_code == old(self).exit_code,
    {
        let c = self.syscall_times[id];
        self.syscall_times.set(id, c + 1);
    }
}

/// Monotonic microsecond clock: elapsed time since boot.
pub struct Clock {
    /// Microseconds since boot.
    pub now_us: u64,
}

impl Clock {
    /// A clock at boot time.
    pub fn new() -> (c: Clock)
        ensures
            c.now_us == 0,
    {
        Clock { now_us: 0 }
    }

    /// Moves time forward by `delta` microseconds; the clock never goes
    /// backward.
    pub fn advance(&mut self, delta: u64)
        requires
            old(self).now_us + delta <= u64::MAX,
        ensures
            final(self).now_us == old(self).now_us + delta,
            final(self).now_us >= old(self).now_us,
    {
        self.now_us = self.now_us + delta;
    }

    /// Elapsed microseconds since boot.
    pub fn get_time_us(&self) -> (r: u64)
        ensures
            r == self.now_us,
    {
        self.now_us
    }
}

} // verus!
