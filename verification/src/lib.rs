//! Syscall boundary of a small teaching kernel.
//!
//! The library receives raw system-call arguments on behalf of the current
//! task, validates them, and acts on an explicit task context: a set of
//! page-aligned mapped memory regions, a per-task accounting record, and a
//! monotonic microsecond clock. User pointers are never dereferenced
//! directly; every transfer into user memory goes through a translation-aware,
//! all-or-nothing byte copy over the task's mapped regions.

use vstd::prelude::*;

pub mod codec;
pub mod laws;
pub mod mem;
pub mod syscall;
pub mod task;

verus! {

/// Size in bytes of one page, the alignment unit for mapping and unmapping.
pub const PAGE_SIZE: usize = 4096;

/// Number of slots in the per-task syscall invocation-count table.
pub const MAX_SYSCALL_NUM: usize = 500;

/// Fixed identifier of the exit syscall in the invocation-count table.
pub const SYSCALL_EXIT: usize = 93;

/// Fixed identifier of the yield syscall in the invocation-count table.
pub const SYSCALL_YIELD: usize = 124;

/// Fixed identifier of the get-time syscall in the invocation-count table.
pub const SYSCALL_GET_TIME: usize = 169;

/// Fixed identifier of the sbrk syscall in the invocation-count table.
pub const SYSCALL_SBRK: usize = 214;

/// Fixed identifier of the munmap syscall in the invocation-count table.
pub const SYSCALL_MUNMAP: usize = 215;

/// Fixed identifier of the mmap syscall in the invocation-count table.
pub const SYSCALL_MMAP: usize = 222;

/// Fixed identifier of the task-info syscall in the invocation-count table.
pub const SYSCALL_TASK_INFO: usize = 410;

} // verus!
