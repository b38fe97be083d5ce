use syscall_layer::syscall::TaskContext;
use syscall_layer::PAGE_SIZE;

fn fresh() -> TaskContext {
    TaskContext::new(0x8000, 0x10000)
}

#[test]
fn mmap_then_equal_munmap_restores_region_set() {
    let mut ctx = fresh();
    let start: usize = 16 * PAGE_SIZE;
    let len: usize = 2 * PAGE_SIZE;
    assert_eq!(ctx.mem.regions.len(), 0);
    assert_eq!(syscall_layer::syscall::sys_mmap(&mut ctx, start, len, 3), 0);
    assert_eq!(ctx.mem.regions.len(), 1);
    assert_eq!(syscall_layer::syscall::sys_munmap(&mut ctx, start, len), 0);
    assert_eq!(ctx.mem.regions.len(), 0);
}

#[test]
fn mmap_high_port_bits_rejected() {
    let mut ctx = fresh();
    let start: usize = 16 * PAGE_SIZE;
    assert_eq!(syscall_layer::syscall::sys_mmap(&mut ctx, start, PAGE_SIZE, 8), -1);
    assert_eq!(syscall_layer::syscall::sys_mmap(&mut ctx, start, PAGE_SIZE, 9), -1);
    assert_eq!(syscall_layer::syscall::sys_mmap(&mut ctx, start, PAGE_SIZE, 0x17), -1);
    assert_eq!(ctx.mem.regions.len(), 0);
}

#[test]
fn mmap_empty_port_rejected() {
    let mut ctx = fresh();
    let start: usize = 16 * PAGE_SIZE;
    assert_eq!(syscall_layer::syscall::sys_mmap(&mut ctx, start, PAGE_SIZE, 0), -1);
    assert_eq!(ctx.mem.regions.len(), 0);
}

#[test]
fn mmap_unaligned_start_rejected() {
    let mut ctx = fresh();
    let start: usize = 16 * PAGE_SIZE + 1;
    assert_eq!(syscall_layer::syscall::sys_mmap(&mut ctx, start, PAGE_SIZE, 3), -1);
    assert_eq!(ctx.mem.regions.len(), 0);
}

#[test]
fn mmap_zero_length_rejected() {
    let mut ctx = fresh();
    let start: usize = 16 * PAGE_SIZE;
    assert_eq!(syscall_layer::syscall::sys_mmap(&mut ctx, start, 0, 3), -1);
    assert_eq!(ctx.mem.regions.len(), 0);
}

#[test]
fn mmap_huge_length_rejected() {
    let mut ctx = fresh();
    let start: usize = 16 * PAGE_SIZE;
    assert_eq!(syscall_layer::syscall::sys_mmap(&mut ctx, start, usize::MAX, 3), -1);
    assert_eq!(ctx.mem.regions.len(), 0);
}

#[test]
fn mmap_disjoint_pair_then_overlap_rejected() {
    let mut ctx = fresh();
    let a: usize = 16 * PAGE_SIZE;
    let b: usize = 32 * PAGE_SIZE;
    assert_eq!(syscall_layer::syscall::sys_mmap(&mut ctx, a, 2 * PAGE_SIZE, 3), 0);
    assert_eq!(syscall_layer::syscall::sys_mmap(&mut ctx, b, PAGE_SIZE, 1), 0);
    assert_eq!(ctx.mem.regions.len(), 2);
    // overlaps the first region's second page
    assert_eq!(syscall_layer::syscall::sys_mmap(&mut ctx, a + PAGE_SIZE, PAGE_SIZE, 3), -1);
    // overlaps the second region
    assert_eq!(syscall_layer::syscall::sys_mmap(&mut ctx, b, 3 * PAGE_SIZE, 7), -1);
    assert_eq!(ctx.mem.regions.len(), 2);
}

#[test]
fn mmap_length_rounds_up_to_whole_pages() {
    let mut ctx = fresh();
    let start: usize = 16 * PAGE_SIZE;
    assert_eq!(syscall_layer::syscall::sys_mmap(&mut ctx, start, PAGE_SIZE + 1, 3), 0);
    assert_eq!(ctx.mem.regions[0].len, 2 * PAGE_SIZE);
    // unmapping with any length that rounds to the same two pages matches
    assert_eq!(syscall_layer::syscall::sys_munmap(&mut ctx, start, 2 * PAGE_SIZE - 5), 0);
    assert_eq!(ctx.mem.regions.len(), 0);
}

#[test]
fn munmap_mismatch_rejected_and_regions_kept() {
    let mut ctx = fresh();
    let start: usize = 16 * PAGE_SIZE;
    assert_eq!(syscall_layer::syscall::sys_mmap(&mut ctx, start, 2 * PAGE_SIZE, 3), 0);
    // wrong length: only part of the region
    assert_eq!(syscall_layer::syscall::sys_munmap(&mut ctx, start, PAGE_SIZE), -1);
    // wrong start
    assert_eq!(syscall_layer::syscall::sys_munmap(&mut ctx, start + PAGE_SIZE, PAGE_SIZE), -1);
    // nothing mapped there at all
    assert_eq!(syscall_layer::syscall::sys_munmap(&mut ctx, 64 * PAGE_SIZE, PAGE_SIZE), -1);
    assert_eq!(ctx.mem.regions.len(), 1);
    assert_eq!(ctx.mem.regions[0].start, start);
    assert_eq!(ctx.mem.regions[0].len, 2 * PAGE_SIZE);
    assert_eq!(syscall_layer::syscall::sys_munmap(&mut ctx, start, 2 * PAGE_SIZE), 0);
    assert_eq!(ctx.mem.regions.len(), 0);
}

#[test]
fn sbrk_zero_returns_current_break_unchanged() {
    let mut ctx = fresh();
    assert_eq!(syscall_layer::syscall::sys_sbrk(&mut ctx, 0), 0x8000);
    assert_eq!(ctx.mem.brk, 0x8000);
}

#[test]
fn sbrk_grow_then_shrink_returns_previous_break() {
    let mut ctx = fresh();
    assert_eq!(syscall_layer::syscall::sys_sbrk(&mut ctx, 4096), 0x8000);
    assert_eq!(ctx.mem.brk, 0x9000);
    assert_eq!(syscall_layer::syscall::sys_sbrk(&mut ctx, -4096), 0x9000);
    assert_eq!(ctx.mem.brk, 0x8000);
}

#[test]
fn sbrk_below_heap_base_rejected_and_break_kept() {
    let mut ctx = fresh();
    assert_eq!(syscall_layer::syscall::sys_sbrk(&mut ctx, -1), -1);
    assert_eq!(ctx.mem.brk, 0x8000);
    assert_eq!(syscall_layer::syscall::sys_sbrk(&mut ctx, 16), 0x8000);
    assert_eq!(syscall_layer::syscall::sys_sbrk(&mut ctx, -17), -1);
    assert_eq!(ctx.mem.brk, 0x8010);
}

#[test]
fn sbrk_above_heap_top_rejected() {
    let mut ctx = fresh();
    assert_eq!(syscall_layer::syscall::sys_sbrk(&mut ctx, i32::MAX), -1);
    assert_eq!(ctx.mem.brk, 0x8000);
}
