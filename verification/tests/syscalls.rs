use syscall_layer::codec::taskinfo_from_bytes;
use syscall_layer::codec::timeval_from_bytes;
use syscall_layer::codec::timeval_to_bytes;
use syscall_layer::codec::TASK_INFO_BYTES;
use syscall_layer::codec::TIME_VAL_BYTES;
use syscall_layer::syscall::sys_exit;
use syscall_layer::syscall::sys_get_time;
use syscall_layer::syscall::sys_mmap;
use syscall_layer::syscall::sys_task_info;
use syscall_layer::syscall::sys_yield;
use syscall_layer::syscall::TaskContext;
use syscall_layer::task::TaskStatus;
use syscall_layer::task::TimeVal;
use syscall_layer::PAGE_SIZE;
use syscall_layer::SYSCALL_GET_TIME;
use syscall_layer::SYSCALL_TASK_INFO;
use syscall_layer::SYSCALL_YIELD;

fn fresh() -> TaskContext {
    TaskContext::new(0x8000, 0x10000)
}

fn fresh_with_rw_region(start: usize, pages: usize) -> TaskContext {
    let mut ctx = fresh();
    assert_eq!(sys_mmap(&mut ctx, start, pages * PAGE_SIZE, 3), 0);
    ctx
}

#[test]
fn yield_returns_zero_and_counts_itself() {
    let mut ctx = fresh();
    assert_eq!(sys_yield(&mut ctx), 0);
    assert_eq!(sys_yield(&mut ctx), 0);
    assert_eq!(ctx.acct.syscall_times[SYSCALL_YIELD], 2);
    assert_eq!(ctx.acct.status, TaskStatus::Running);
}

#[test]
fn exit_marks_task_exited_with_code() {
    let mut ctx = fresh();
    sys_exit(&mut ctx, 42);
    assert_eq!(ctx.acct.status, TaskStatus::Exited);
    assert_eq!(ctx.acct.exit_code, 42);
}

#[test]
fn get_time_writes_decomposed_microseconds() {
    let dest: usize = 16 * PAGE_SIZE;
    let mut ctx = fresh_with_rw_region(dest, 1);
    ctx.clock.advance(2_500_000);
    assert_eq!(sys_get_time(&mut ctx, dest, 0), 0);
    let bytes = ctx.mem.read_bytes(dest, TIME_VAL_BYTES).unwrap();
    let tv = timeval_from_bytes(&bytes);
    assert_eq!(tv.sec, 2);
    assert_eq!(tv.usec, 500_000);
}

#[test]
fn get_time_twice_is_non_decreasing_and_usec_bounded() {
    let dest: usize = 16 * PAGE_SIZE;
    let mut ctx = fresh_with_rw_region(dest, 1);
    ctx.clock.advance(999_999);
    assert_eq!(sys_get_time(&mut ctx, dest, 0), 0);
    let first = timeval_from_bytes(&ctx.mem.read_bytes(dest, TIME_VAL_BYTES).unwrap());
    ctx.clock.advance(3);
    assert_eq!(sys_get_time(&mut ctx, dest, 0), 0);
    let second = timeval_from_bytes(&ctx.mem.read_bytes(dest, TIME_VAL_BYTES).unwrap());
    assert!(first.usec < 1_000_000);
    assert!(second.usec < 1_000_000);
    let us1: u64 = first.sec * 1_000_000 + first.usec;
    let us2: u64 = second.sec * 1_000_000 + second.usec;
    assert!(us1 <= us2);
    assert_eq!(us1, 999_999);
    assert_eq!(us2, 1_000_002);
}

#[test]
fn get_time_unmapped_destination_fails() {
    let mut ctx = fresh();
    assert_eq!(sys_get_time(&mut ctx, 16 * PAGE_SIZE, 0), -1);
}

#[test]
fn get_time_read_only_destination_fails_without_partial_write() {
    let dest: usize = 16 * PAGE_SIZE;
    let mut ctx = fresh();
    assert_eq!(sys_mmap(&mut ctx, dest, PAGE_SIZE, 1), 0);
    ctx.clock.advance(7);
    assert_eq!(sys_get_time(&mut ctx, dest, 0), -1);
    let bytes = ctx.mem.read_bytes(dest, TIME_VAL_BYTES).unwrap();
    assert!(bytes.iter().all(|b| *b == 0));
}

#[test]
fn get_time_partially_mapped_destination_fails_without_partial_write() {
    // one mapped page, destination hangs one byte past its end
    let dest: usize = 16 * PAGE_SIZE;
    let mut ctx = fresh_with_rw_region(dest, 1);
    let tail: usize = dest + PAGE_SIZE - (TIME_VAL_BYTES - 1);
    assert_eq!(sys_get_time(&mut ctx, tail, 0), -1);
    let bytes = ctx.mem.read_bytes(tail, TIME_VAL_BYTES - 1).unwrap();
    assert!(bytes.iter().all(|b| *b == 0));
}

#[test]
fn get_time_straddling_page_boundary_roundtrips() {
    // a two-page region: a destination one byte before the page boundary
    // makes the value straddle two separate frames
    let base: usize = 16 * PAGE_SIZE;
    let mut ctx = fresh_with_rw_region(base, 2);
    let straddle: usize = base + PAGE_SIZE - 1;
    let aligned: usize = base;
    ctx.clock.advance(1_234_567);
    assert_eq!(sys_get_time(&mut ctx, straddle, 0), 0);
    assert_eq!(sys_get_time(&mut ctx, aligned, 0), 0);
    let at_straddle = timeval_from_bytes(&ctx.mem.read_bytes(straddle, TIME_VAL_BYTES).unwrap());
    let at_aligned = timeval_from_bytes(&ctx.mem.read_bytes(aligned, TIME_VAL_BYTES).unwrap());
    assert_eq!(at_straddle, at_aligned);
    assert_eq!(at_straddle.sec, 1);
    assert_eq!(at_straddle.usec, 234_567);
}

#[test]
fn get_time_across_two_adjacent_regions_roundtrips() {
    let base: usize = 16 * PAGE_SIZE;
    let mut ctx = fresh();
    assert_eq!(sys_mmap(&mut ctx, base, PAGE_SIZE, 3), 0);
    assert_eq!(sys_mmap(&mut ctx, base + PAGE_SIZE, PAGE_SIZE, 3), 0);
    let straddle: usize = base + PAGE_SIZE - 5;
    ctx.clock.advance(42);
    assert_eq!(sys_get_time(&mut ctx, straddle, 0), 0);
    let tv = timeval_from_bytes(&ctx.mem.read_bytes(straddle, TIME_VAL_BYTES).unwrap());
    assert_eq!(tv, TimeVal { sec: 0, usec: 42 });
}

#[test]
fn task_info_reports_exact_counts_including_itself() {
    let dest: usize = 16 * PAGE_SIZE;
    let mut ctx = fresh_with_rw_region(dest, 1);
    for _ in 0..5 {
        assert_eq!(sys_yield(&mut ctx), 0);
    }
    assert_eq!(sys_get_time(&mut ctx, dest, 0), 0);
    assert_eq!(sys_task_info(&mut ctx, dest), 0);
    let bytes = ctx.mem.read_bytes(dest, TASK_INFO_BYTES).unwrap();
    let info = taskinfo_from_bytes(&bytes).unwrap();
    assert_eq!(info.status, TaskStatus::Running);
    assert_eq!(info.syscall_times[SYSCALL_YIELD], 5);
    assert_eq!(info.syscall_times[SYSCALL_GET_TIME], 1);
    assert_eq!(info.syscall_times[SYSCALL_TASK_INFO], 1);
    assert_eq!(info.time, 0);
}

#[test]
fn task_info_straddling_page_boundary_roundtrips() {
    let base: usize = 16 * PAGE_SIZE;
    let mut ctx = fresh_with_rw_region(base, 2);
    let straddle: usize = base + PAGE_SIZE - 1;
    assert_eq!(sys_yield(&mut ctx), 0);
    assert_eq!(sys_task_info(&mut ctx, straddle), 0);
    let info = taskinfo_from_bytes(&ctx.mem.read_bytes(straddle, TASK_INFO_BYTES).unwrap())
        .unwrap();
    assert_eq!(info.status, TaskStatus::Running);
    assert_eq!(info.syscall_times[SYSCALL_YIELD], 1);
    assert_eq!(info.syscall_times[SYSCALL_TASK_INFO], 1);
}

#[test]
fn task_info_reports_recorded_running_time() {
    let dest: usize = 16 * PAGE_SIZE;
    let mut ctx = fresh_with_rw_region(dest, 1);
    ctx.acct.set_running_time(777);
    assert_eq!(sys_task_info(&mut ctx, dest), 0);
    let info = taskinfo_from_bytes(&ctx.mem.read_bytes(dest, TASK_INFO_BYTES).unwrap()).unwrap();
    assert_eq!(info.time, 777);
}

#[test]
fn task_info_unmapped_destination_fails() {
    let mut ctx = fresh();
    assert_eq!(sys_task_info(&mut ctx, 16 * PAGE_SIZE), -1);
    assert_eq!(ctx.acct.syscall_times[SYSCALL_TASK_INFO], 1);
}

#[test]
fn timeval_bytes_are_little_endian() {
    let tv = TimeVal { sec: 0x0102030405060708, usec: 0x1122334455667788 };
    let bytes = timeval_to_bytes(&tv);
    assert_eq!(bytes.len(), TIME_VAL_BYTES);
    assert_eq!(&bytes[0..8], &[8, 7, 6, 5, 4, 3, 2, 1]);
    assert_eq!(&bytes[8..16], &[0x88, 0x77, 0x66, 0x55, 0x44, 0x33, 0x22, 0x11]);
    assert_eq!(timeval_from_bytes(&bytes), tv);
}

#[test]
fn mapped_region_starts_zero_filled() {
    let base: usize = 16 * PAGE_SIZE;
    let ctx = fresh_with_rw_region(base, 1);
    let bytes = ctx.mem.read_bytes(base, PAGE_SIZE).unwrap();
    assert_eq!(bytes.len(), PAGE_SIZE);
    assert!(bytes.iter().all(|b| *b == 0));
}
