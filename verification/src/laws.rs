//! Laws the syscall layer obeys, proved once and for all inputs: mapping
//! round trips, rejection of invalid or overlapping requests, clock
//! monotonicity, counter bookkeeping, byte-exact copies, and break bounds.

use vstd::arithmetic::div_mod::lemma_fundamental_div_mod;
use vstd::prelude::*;

use crate::codec::timeval_of_us;
use crate::mem::lemma_page_round_up;
use crate::mem::mmap_ok;
use crate::mem::mmap_post;
use crate::mem::munmap_match;
use crate::mem::munmap_post;
use crate::mem::page_round_up;
use crate::mem::sbrk_ok;
use crate::mem::TaskMemory;
use crate::syscall::counted;
use crate::syscall::TaskContext;
use crate::MAX_SYSCALL_NUM;
use crate::PAGE_SIZE;

verus! {

/// A valid mmap immediately followed by an munmap of the same range
/// succeeds — the freshly mapped region matches the unmap request exactly —
/// and restores the region set to exactly what it was before the mmap.
pub proof fn lemma_map_unmap_roundtrip(
    m1: TaskMemory,
    m2: TaskMemory,
    m3: TaskMemory,
    start: usize,
    len: usize,
    port: usize,
)
    requires
        m1.wf(),
        mmap_ok(m1, start, len, port),
        mmap_post(m1, m2, start, len, port),
        munmap_post(m2, m3, start, len),
    ensures
        munmap_match(m2, start, len),
        m3.regions@ == m1.regions@,
{
    let n1 = m1.regions@.len() as int;
    let plen = page_round_up(len as int);
    lemma_page_round_up(len as int);
    assert(m2.regions@[n1] == m2.regions@.last());
    assert(munmap_match(m2, start, len));
    assert(exists|i: int|
        0 <= i < m2.regions@.len() && (#[trigger] m2.regions@[i]).start == start
            && m2.regions@[i].len == plen && m3.regions@ == m2.regions@.remove(i));
    let i = choose|i: int|
        0 <= i < m2.regions@.len() && (#[trigger] m2.regions@[i]).start == start
            && m2.regions@[i].len == plen && m3.regions@ == m2.regions@.remove(i);
    if i < n1 {
        assert(m2.regions@[i] == m1.regions@[i]);
        assert(m1.regions@[i].end() <= start || start + plen <= m1.regions@[i].start);
        assert(false);
    }
    m2.regions@.remove_ensures(n1);
    assert(m3.regions@ =~= m1.regions@);
}

/// An mmap whose permission mask has any bit at or above bit 2 set is never
/// valid; together with the mmap contract, such a request returns `-1` and
/// the region set is untouched.
pub proof fn lemma_mmap_rejects_high_port_bits(
    m: TaskMemory,
    start: usize,
    len: usize,
    port: usize,
)
    requires
        port >= 8,
    ensures
        !mmap_ok(m, start, len, port),
{
}

/// An mmap whose permission mask is empty is never valid.
pub proof fn lemma_mmap_rejects_empty_port(m: TaskMemory, start: usize, len: usize)
    ensures
        !mmap_ok(m, start, len, 0),
{
}

/// An mmap whose start is not page-aligned is never valid; together with the
/// mmap contract, such a request returns `-1`.
pub proof fn lemma_mmap_rejects_unaligned(m: TaskMemory, start: usize, len: usize, port: usize)
    requires
        start % PAGE_SIZE != 0,
    ensures
        !mmap_ok(m, start, len, port),
{
}

/// An mmap whose page-rounded range overlaps any existing region is never
/// valid; together with the mmap contract, such a request returns `-1`.
pub proof fn lemma_mmap_rejects_overlap(
    m: TaskMemory,
    i: int,
    start: usize,
    len: usize,
    port: usize,
)
    requires
        0 <= i < m.regions@.len(),
        m.regions@[i].start < start + page_round_up(len as int),
        start < m.regions@[i].end(),
    ensures
        !mmap_ok(m, start, len, port),
{
}

/// After one valid mmap, a second request whose page-rounded range is
/// disjoint from every old region and from the first request is valid too:
/// two non-overlapping mmap calls both succeed.
pub proof fn lemma_mmap_disjoint_pair(
    m1: TaskMemory,
    m2: TaskMemory,
    start1: usize,
    len1: usize,
    port1: usize,
    start2: usize,
    len2: usize,
    port2: usize,
)
    requires
        m1.wf(),
        mmap_ok(m1, start1, len1, port1),
        mmap_post(m1, m2, start1, len1, port1),
        start2 % PAGE_SIZE == 0,
        0 < len2,
        len2 <= usize::MAX - (PAGE_SIZE - 1),
        0 < port2 < 8,
        start2 + page_round_up(len2 as int) <= usize::MAX,
        forall|i: int|
            0 <= i < m1.regions@.len()
                ==> ((#[trigger] m1.regions@[i]).end() <= start2
                    || start2 + page_round_up(len2 as int) <= m1.regions@[i].start),
        start1 + page_round_up(len1 as int) <= start2
            || start2 + page_round_up(len2 as int) <= start1,
    ensures
        mmap_ok(m2, start2, len2, port2),
{
    let n1 = m1.regions@.len() as int;
    assert forall|i: int| 0 <= i < m2.regions@.len()
        implies ((#[trigger] m2.regions@[i]).end() <= start2
            || start2 + page_round_up(len2 as int) <= m2.regions@[i].start) by {
        if i < n1 {
            assert(m2.regions@[i] == m1.regions@[i]);
        } else {
            assert(m2.regions@[i] == m2.regions@.last());
        }
    }
}

/// The microsecond decomposition loses nothing and keeps order: each split
/// satisfies the sub-second bound and reconstructs to its input, so a later
/// clock reading never decomposes to an earlier time.
pub proof fn lemma_time_decomposition_monotone(us1: u64, us2: u64)
    requires
        us1 <= us2,
    ensures
        timeval_of_us(us1).wf(),
        timeval_of_us(us2).wf(),
        timeval_of_us(us1).sec * 1_000_000 + timeval_of_us(us1).usec == us1,
        timeval_of_us(us2).sec * 1_000_000 + timeval_of_us(us2).usec == us2,
        timeval_of_us(us1).sec * 1_000_000 + timeval_of_us(us1).usec <= timeval_of_us(us2).sec
            * 1_000_000 + timeval_of_us(us2).usec,
{
    lemma_fundamental_div_mod(us1 as int, 1_000_000);
    lemma_fundamental_div_mod(us2 as int, 1_000_000);
}

/// Each booked syscall raises exactly its own counter by one and no other:
/// after N invocations of one identifier, that identifier's counter reports
/// exactly N more than before.
pub proof fn lemma_counted_increments(pre: TaskContext, post: TaskContext, id: int)
    requires
        pre.acct.wf(),
        0 <= id < MAX_SYSCALL_NUM,
        pre.can_count(id),
        counted(pre, post, id),
    ensures
        post.acct.syscall_times@[id] == pre.acct.syscall_times@[id] + 1,
        forall|j: int|
            0 <= j < MAX_SYSCALL_NUM && j != id ==> post.acct.syscall_times@[j]
                == pre.acct.syscall_times@[j],
{
}

/// Bytes stored by the all-or-nothing user-memory write come back unchanged
/// through the all-or-nothing read, whatever frames back the range — a
/// destination straddling a page boundary recovers the same value as a
/// single-page one.
pub proof fn lemma_write_read_roundtrip(m: TaskMemory, va: int, data: Seq<u8>, out: Seq<u8>)
    requires
        forall|b: int| va <= b < va + data.len() ==> m.byte_at(b) == data[b - va],
        out.len() == data.len(),
        forall|k: int| 0 <= k < out.len() ==> #[trigger] out[k] == m.byte_at(va + k),
    ensures
        out == data,
{
    assert forall|k: int| 0 <= k < out.len() implies out[k] == data[k] by {
        assert(m.byte_at(va + k) == data[(va + k) - va]);
    }
    assert(out =~= data);
}

/// A zero delta always keeps the break where it is, inside its bounds, so
/// `sbrk(0)` succeeds and returns the unchanged break.
pub proof fn lemma_sbrk_zero(m: TaskMemory)
    requires
        m.wf(),
    ensures
        sbrk_ok(m, 0),
        m.brk + 0 == m.brk,
{
}

/// A delta that would move the break below the heap base is refused;
/// together with the sbrk contract, the break stays unchanged.
pub proof fn lemma_sbrk_below_base_rejected(m: TaskMemory, delta: int)
    requires
        m.brk + delta < m.heap_base,
    ensures
        !sbrk_ok(m, delta),
{
}

} // verus!
