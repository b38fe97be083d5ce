//! The syscall entry points. Each one acts on an explicit context for the
//! current task, validates its raw arguments, books its own invocation in the
//! task's counter table, and returns a single signed word: `0` or a positive
//! payload on success, `-1` on any failure.

use vstd::prelude::*;

use crate::codec::info_bytes;
use crate::codec::taskinfo_to_bytes;
use crate::codec::timeval_of_us;
use crate::codec::timeval_bytes;
use crate::codec::timeval_to_bytes;
use crate::codec::TASK_INFO_BYTES;
use crate::codec::TIME_VAL_BYTES;
use crate::mem::mmap_ok;
use crate::mem::mmap_post;
use crate::mem::munmap_match;
use crate::mem::munmap_post;
use crate::mem::same_layout;
use crate::mem::sbrk_ok;
use crate::mem::TaskMemory;
use crate::task::Clock;
use crate::task::TaskAccounting;
use crate::task::TaskInfo;
use crate::task::TaskStatus;
use crate::task::TimeVal;
use crate::MAX_SYSCALL_NUM;
use crate::SYSCALL_EXIT;
use crate::SYSCALL_GET_TIME;
use crate::SYSCALL_MMAP;
use crate::SYSCALL_MUNMAP;
use crate::SYSCALL_SBRK;
use crate::SYSCALL_TASK_INFO;
use crate::SYSCALL_YIELD;

verus! {

/// Execution context of the current task: its virtual memory, its accounting
/// record, and the boot clock. Every syscall acts on one explicit context
/// rather than on ambient global state.
pub struct TaskContext {
    /// The task's mapped regions and heap bookkeeping.
    pub mem: TaskMemory,
    /// The task's status, counters and running time.
    pub acct: TaskAccounting,
    /// Microseconds since boot.
    pub clock: Clock,
}

/// The one accounting change a non-exiting syscall makes: one more booked
/// invocation of syscall `id`; status, time, exit code and the clock stay.
pub open spec fn counted(pre: TaskContext, post: TaskContext, id: int) -> bool {
    &&& post.acct.syscall_times@ == pre.acct.syscall_times@.update(
        id,
        (pre.acct.syscall_times@[id] + 1) as u32,
    )
    &&& post.acct.status == pre.acct.status
    &&& post.acct.time == pre.acct.time
    &&& post.acct.exit_code == pre.acct.exit_code
    &&& post.clock == pre.clock
}

impl TaskContext {
    /// Structural invariant of the whole context.
    pub open spec fn wf(self) -> bool {
        &&& self.mem.wf()
        &&& self.acct.wf()
    }

    /// Whether the task may still issue syscalls: an exited task never runs
    /// again, so resuming it is a kernel bug, not a reachable state.
    pub open spec fn live(self) -> bool {
        self.acct.status != TaskStatus::Exited
    }

    /// Whether one more invocation of syscall `id` still fits its counter.
    pub open spec fn can_count(self, id: int) -> bool {
        self.acct.syscall_times@[id] < u32::MAX
    }

    /// A fresh running task with no mapped regions and an empty heap at
    /// `heap_base`, allowed to grow to `heap_top`.
    pub fn new(heap_base: usize, heap_top: usize) -> (r: TaskContext)
        requires
            heap_base <= heap_top,
            heap_top <= usize::MAX / 2,
        ensures
            r.wf(),
            r.live(),
            r.acct.status == TaskStatus::Running,
            r.acct.time == 0,
            forall|i: int| 0 <= i < MAX_SYSCALL_NUM ==> r.acct.syscall_times@[i] == 0u32,
            r.mem.regions@.len() == 0,
            r.mem.heap_base == heap_base,
            r.mem.heap_top == heap_top,
            r.mem.brk == heap_base,
            r.clock.now_us == 0,
    {
        TaskContext {
            mem: TaskMemory { regions: Vec::new(), heap_base, heap_top, brk: heap_base },
            acct: TaskAccounting::new(),
            clock: Clock::new(),
        }
    }
}

/// Copies a counter table.
fn copy_counts(v: &Vec<u32>) -> (r: Vec<u32>)
    ensures
        r@ == v@,
{
    let n = v.len();
    let mut out: Vec<u32> = Vec::new();
    let mut k: usize = 0;
    while k < n
        invariant
            k <= n,
            n == v@.len(),
            out@ == v@.take(k as int),
        decreases n - k,
    {
        out.push(v[k]);
        proof {
            assert(out@ =~= v@.take(k as int + 1));
        }
        k = k + 1;
    }
    proof {
        assert(v@.take(n as int) =~= v@);
    }
    out
}

/// Task exits with `exit_code`. Terminal transition: the task is marked
/// `Exited`, its code is recorded, and control never returns to it — no
/// caller may present an already-exited context again.
pub fn sys_exit(ctx: &mut TaskContext, exit_code: i32)
    requires
        old(ctx).wf(),
        old(ctx).live(),
        old(ctx).can_count(SYSCALL_EXIT as int),
    ensures
        final(ctx).wf(),
        !final(ctx).live(),
        final(ctx).acct.status == TaskStatus::Exited,
        final(ctx).acct.exit_code == exit_code,
        final(ctx).acct.syscall_times@ == old(ctx).acct.syscall_times@.update(
            SYSCALL_EXIT as int,
            (old(ctx).acct.syscall_times@[SYSCALL_EXIT as int] + 1) as u32,
        ),
        final(ctx).acct.time == old(ctx).acct.time,
        final(ctx).mem == old(ctx).mem,
        final(ctx).clock == old(ctx).clock,
{
    ctx.acct.record_syscall(SYSCALL_EXIT);
    ctx.acct.status = TaskStatus::Exited;
    ctx.acct.exit_code = exit_code;
}

/// Current task gives up its timeslice; it stays runnable and resumes later,
/// seeing `0`. Nothing changes beyond the booked invocation.
pub fn sys_yield(ctx: &mut TaskContext) -> (r: isize)
    requires
        old(ctx).wf(),
        old(ctx).live(),
        old(ctx).can_count(SYSCALL_YIELD as int),
    ensures
        final(ctx).wf(),
        final(ctx).live(),
        r == 0,
        counted(*old(ctx), *final(ctx), SYSCALL_YIELD as int),
        final(ctx).mem == old(ctx).mem,
{
    ctx.acct.record_syscall(SYSCALL_YIELD);
    0
}

/// Writes the current time, split into seconds and microseconds, to user
/// address `ts`. Returns `0` exactly when the whole destination is mapped
/// writable; on `-1` user memory is untouched. The write is all or nothing
/// and lands byte-exactly even when the destination straddles page frames.
/// The second argument is reserved and ignored.
pub fn sys_get_time(ctx: &mut TaskContext, ts: usize, _tz: usize) -> (r: isize)
    requires
        old(ctx).wf(),
        old(ctx).live(),
        old(ctx).can_count(SYSCALL_GET_TIME as int),
    ensures
        final(ctx).wf(),
        final(ctx).live(),
        counted(*old(ctx), *final(ctx), SYSCALL_GET_TIME as int),
        r == 0 || r == -1,
        (r == 0) == old(ctx).mem.range_writable(ts as int, TIME_VAL_BYTES as int),
        timeval_of_us(old(ctx).clock.now_us).wf(),
        r == -1 ==> final(ctx).mem == old(ctx).mem,
        r == 0 ==> same_layout(old(ctx).mem, final(ctx).mem),
        r == 0 ==> forall|b: int|
            ts <= b < ts + TIME_VAL_BYTES ==> final(ctx).mem.byte_at(b) == timeval_bytes(
                timeval_of_us(old(ctx).clock.now_us),
            )[b - ts],
        forall|b: int|
            old(ctx).mem.mapped_at(b) && !(ts <= b < ts + TIME_VAL_BYTES)
                ==> final(ctx).mem.byte_at(b) == old(ctx).mem.byte_at(b),
{
    ctx.acct.record_syscall(SYSCALL_GET_TIME);
    let us = ctx.clock.get_time_us();
    let tv = TimeVal { sec: us / 1_000_000, usec: us % 1_000_000 };
    let bytes = timeval_to_bytes(&tv);
    let ok = ctx.mem.write_bytes(ts, &bytes);
    if ok {
        0
    } else {
        -1
    }
}

/// Writes a snapshot of the current task's accounting — status, the full
/// syscall counter table, running time — to user address `ti`. The snapshot
/// counts this very invocation too. Returns `0` exactly when the whole
/// destination is mapped writable; on `-1` user memory is untouched.
pub fn sys_task_info(ctx: &mut TaskContext, ti: usize) -> (r: isize)
    requires
        old(ctx).wf(),
        old(ctx).live(),
        old(ctx).can_count(SYSCALL_TASK_INFO as int),
    ensures
        final(ctx).wf(),
        final(ctx).live(),
        counted(*old(ctx), *final(ctx), SYSCALL_TASK_INFO as int),
        r == 0 || r == -1,
        (r == 0) == old(ctx).mem.range_writable(ti as int, TASK_INFO_BYTES as int),
        r == -1 ==> final(ctx).mem == old(ctx).mem,
        r == 0 ==> same_layout(old(ctx).mem, final(ctx).mem),
        r == 0 ==> forall|b: int|
            ti <= b < ti + TASK_INFO_BYTES ==> final(ctx).mem.byte_at(b) == info_bytes(
                final(ctx).acct.status,
                final(ctx).acct.syscall_times@,
                final(ctx).acct.time,
            )[b - ti],
        forall|b: int|
            old(ctx).mem.mapped_at(b) && !(ti <= b < ti + TASK_INFO_BYTES)
                ==> final(ctx).mem.byte_at(b) == old(ctx).mem.byte_at(b),
{
    ctx.acct.record_syscall(SYSCALL_TASK_INFO);
    let info = TaskInfo {
        status: ctx.acct.status,
        syscall_times: copy_counts(&ctx.acct.syscall_times),
        time: ctx.acct.time,
    };
    let bytes = taskinfo_to_bytes(&info);
    let ok = ctx.mem.write_bytes(ti, &bytes);
    if ok {
        0
    } else {
        -1
    }
}

/// Maps `page_round_up(len)` bytes of fresh zeroed memory at `start` with
/// permission mask `port` (bit 0 read, bit 1 write, bit 2 execute). Returns
/// `0` exactly when `start` is page-aligned, `len` is nonzero and fits,
/// `port` has some low bit and no high bit set, and the range overlaps no
/// existing region; on `-1` nothing changes.
pub fn sys_mmap(ctx: &mut TaskContext, start: usize, len: usize, port: usize) -> (r: isize)
    requires
        old(ctx).wf(),
        old(ctx).live(),
        old(ctx).can_count(SYSCALL_MMAP as int),
    ensures
        final(ctx).wf(),
        final(ctx).live(),
        counted(*old(ctx), *final(ctx), SYSCALL_MMAP as int),
        r == 0 || r == -1,
        (r == 0) == mmap_ok(old(ctx).mem, start, len, port),
        r == -1 ==> final(ctx).mem == old(ctx).mem,
        r == 0 ==> mmap_post(old(ctx).mem, final(ctx).mem, start, len, port),
{
    ctx.acct.record_syscall(SYSCALL_MMAP);
    let ok = ctx.mem.mmap(start, len, port);
    if ok {
        0
    } else {
        -1
    }
}

/// Unmaps the region previously mapped at exactly `start` with exactly
/// `page_round_up(len)` bytes. Returns `0` exactly when such a region exists;
/// a partial or non-matching request returns `-1` and nothing changes.
pub fn sys_munmap(ctx: &mut TaskContext, start: usize, len: usize) -> (r: isize)
    requires
        old(ctx).wf(),
        old(ctx).live(),
        old(ctx).can_count(SYSCALL_MUNMAP as int),
    ensures
        final(ctx).wf(),
        final(ctx).live(),
        counted(*old(ctx), *final(ctx), SYSCALL_MUNMAP as int),
        r == 0 || r == -1,
        (r == 0) == munmap_match(old(ctx).mem, start, len),
        r == -1 ==> final(ctx).mem == old(ctx).mem,
        r == 0 ==> munmap_post(old(ctx).mem, final(ctx).mem, start, len),
{
    ctx.acct.record_syscall(SYSCALL_MUNMAP);
    let ok = ctx.mem.munmap(start, len);
    if ok {
        0
    } else {
        -1
    }
}

/// Adjusts the task's program break by the signed byte delta `size`,
/// returning the previous break so the caller can compute the newly usable
/// range. A break that would leave the heap bounds returns `-1` and changes
/// nothing.
pub fn sys_sbrk(ctx: &mut TaskContext, size: i32) -> (r: isize)
    requires
        old(ctx).wf(),
        old(ctx).live(),
        old(ctx).can_count(SYSCALL_SBRK as int),
    ensures
        final(ctx).wf(),
        final(ctx).live(),
        counted(*old(ctx), *final(ctx), SYSCALL_SBRK as int),
        r >= 0 || r == -1,
        (r >= 0) == sbrk_ok(old(ctx).mem, size as int),
        r == -1 ==> final(ctx).mem == old(ctx).mem,
        r >= 0 ==> r == old(ctx).mem.brk && final(ctx).mem.brk == old(ctx).mem.brk + size,
        final(ctx).mem.regions@ == old(ctx).mem.regions@,
        final(ctx).mem.heap_base == old(ctx).mem.heap_base,
        final(ctx).mem.heap_top == old(ctx).mem.heap_top,
{
    ctx.acct.record_syscall(SYSCALL_SBRK);
    match ctx.mem.sbrk(size) {
        Some(prev) => {
            assert(prev <= usize::MAX / 2);
            prev as isize
        },
        None => -1,
    }
}

} // verus!
