//! Fixed little-endian byte layouts for the structures the kernel copies into
//! user memory, with proofs that reading the bytes back recovers the value.

use vstd::arithmetic::div_mod::lemma_fundamental_div_mod_converse;
use vstd::prelude::*;

use crate::MAX_SYSCALL_NUM;
use crate::task::TaskInfo;
use crate::task::TaskStatus;
use crate::task::TimeVal;

verus! {

/// Size in bytes of an encoded `TimeVal`.
pub const TIME_VAL_BYTES: usize = 16;

/// Size in bytes of an encoded `TaskInfo`.
pub const TASK_INFO_BYTES: usize = 1 + 4 * MAX_SYSCALL_NUM + 8;

/// Little-endian bytes of a 64-bit word.
pub open spec fn u64_le(x: u64) -> Seq<u8> {
    seq![
        (x & 0xff) as u8,
        ((x >> 8) & 0xff) as u8,
        ((x >> 16) & 0xff) as u8,
        ((x >> 24) & 0xff) as u8,
        ((x >> 32) & 0xff) as u8,
        ((x >> 40) & 0xff) as u8,
        ((x >> 48) & 0xff) as u8,
        ((x >> 56) & 0xff) as u8,
    ]
}

/// The 64-bit word read from 8 little-endian bytes.
pub open spec fn u64_of_le(s: Seq<u8>) -> u64
    recommends
        s.len() == 8,
{
    (s[0] as u64) | ((s[1] as u64) << 8) | ((s[2] as u64) << 16) | ((s[3] as u64) << 24) | ((
    s[4] as u64) << 32) | ((s[5] as u64) << 40) | ((s[6] as u64) << 48) | ((s[7] as u64) << 56)
}

/// Encoding a 64-bit word and reading it back yields the word.
pub proof fn lemma_u64_le_roundtrip(x: u64)
    ensures
        u64_of_le(u64_le(x)) == x,
        u64_le(x).len() == 8,
{
    assert((((x & 0xff) as u8) as u64) | (((((x >> 8) & 0xff) as u8) as u64) << 8) | (((((x >> 16)
        & 0xff) as u8) as u64) << 16) | (((((x >> 24) & 0xff) as u8) as u64) << 24) | (((((x >> 32)
        & 0xff) as u8) as u64) << 32) | (((((x >> 40) & 0xff) as u8) as u64) << 40) | (((((x >> 48)
        & 0xff) as u8) as u64) << 48) | (((((x >> 56) & 0xff) as u8) as u64) << 56) == x)
        by (bit_vector);
}

/// Little-endian bytes of a 32-bit word.
pub open spec fn u32_le(x: u32) -> Seq<u8> {
    seq![(x & 0xff) as u8, ((x >> 8) & 0xff) as u8, ((x >> 16) & 0xff) as u8, ((x >> 24) & 0xff) as u8]
}

/// The 32-bit word read from 4 little-endian bytes.
pub open spec fn u32_of_le(s: Seq<u8>) -> u32
    recommends
        s.len() == 4,
{
    (s[0] as u32) | ((s[1] as u32) << 8) | ((s[2] as u32) << 16) | ((s[3] as u32) << 24)
}

/// Encoding a 32-bit word and reading it back yields the word.
pub proof fn lemma_u32_le_roundtrip(x: u32)
    ensures
        u32_of_le(u32_le(x)) == x,
        u32_le(x).len() == 4,
{
    assert((((x & 0xff) as u8) as u32) | (((((x >> 8) & 0xff) as u8) as u32) << 8) | (((((x >> 16)
        & 0xff) as u8) as u32) << 16) | (((((x >> 24) & 0xff) as u8) as u32) << 24) == x)
        by (bit_vector);
}

/// Little-endian bytes of a table of 32-bit counters, four bytes per entry.
pub open spec fn counts_bytes(s: Seq<u32>) -> Seq<u8> {
    Seq::new((4 * s.len()) as nat, |i: int| u32_le(s[i / 4])[i % 4])
}

/// The counter table read back from its little-endian bytes.
pub open spec fn counts_of_bytes(b: Seq<u8>) -> Seq<u32> {
    Seq::new((b.len() / 4) as nat, |i: int| u32_of_le(b.subrange(4 * i, 4 * i + 4)))
}

/// The four bytes of entry `k` inside an encoded counter table are that
/// entry's own little-endian encoding.
pub proof fn lemma_counts_bytes_entry(s: Seq<u32>, k: int)
    requires
        0 <= k < s.len(),
    ensures
        counts_bytes(s).subrange(4 * k, 4 * k + 4) == u32_le(s[k]),
{
    lemma_u32_le_roundtrip(s[k]);
    assert forall|t: int| 0 <= t < 4 implies counts_bytes(s).subrange(4 * k, 4 * k + 4)[t]
        == u32_le(s[k])[t] by {
        lemma_fundamental_div_mod_converse(4 * k + t, 4, k, t);
        assert(counts_bytes(s)[4 * k + t] == u32_le(s[(4 * k + t) / 4])[(4 * k + t) % 4]);
    }
    assert(counts_bytes(s).subrange(4 * k, 4 * k + 4) =~= u32_le(s[k]));
}

/// Encoding a counter table and reading it back yields the table.
pub proof fn lemma_counts_roundtrip(s: Seq<u32>)
    ensures
        counts_bytes(s).len() == 4 * s.len(),
        counts_of_bytes(counts_bytes(s)) == s,
{
    assert forall|k: int| 0 <= k < s.len() implies counts_of_bytes(counts_bytes(s))[k]
        == s[k] by {
        lemma_counts_bytes_entry(s, k);
        lemma_u32_le_roundtrip(s[k]);
    }
    assert(counts_of_bytes(counts_bytes(s)) =~= s);
}

/// Growing an encoded counter table by one entry appends that entry's bytes.
pub proof fn lemma_counts_bytes_snoc(s: Seq<u32>, k: int)
    requires
        0 <= k < s.len(),
    ensures
        counts_bytes(s.take(k + 1)) == counts_bytes(s.take(k)) + u32_le(s[k]),
{
    assert forall|j: int| 0 <= j < 4 * (k + 1) implies counts_bytes(s.take(k + 1))[j]
        == (counts_bytes(s.take(k)) + u32_le(s[k]))[j] by {
        if j < 4 * k {
            assert(0 <= j / 4 < k);
            assert(s.take(k + 1)[j / 4] == s.take(k)[j / 4]);
        } else {
            lemma_fundamental_div_mod_converse(j, 4, k, j - 4 * k);
            assert(s.take(k + 1)[j / 4] == s[k]);
        }
    }
    assert(counts_bytes(s.take(k + 1)) =~= counts_bytes(s.take(k)) + u32_le(s[k]));
}

/// The byte tag of a task status.
pub open spec fn status_byte(s: TaskStatus) -> u8 {
    match s {
        TaskStatus::UnInit => 0u8,
        TaskStatus::Ready => 1u8,
        TaskStatus::Running => 2u8,
        TaskStatus::Exited => 3u8,
    }
}

/// The task status read back from a byte tag, when the tag is one.
pub open spec fn status_of_byte(b: u8) -> Option<TaskStatus> {
    if b == 0 {
        Some(TaskStatus::UnInit)
    } else if b == 1 {
        Some(TaskStatus::Ready)
    } else if b == 2 {
        Some(TaskStatus::Running)
    } else if b == 3 {
        Some(TaskStatus::Exited)
    } else {
        None
    }
}

/// Tagging a status and reading it back yields the status.
pub proof fn lemma_status_roundtrip(s: TaskStatus)
    ensures
        status_of_byte(status_byte(s)) == Some(s),
{
}

/// Elapsed microseconds split into whole seconds and the remainder.
pub open spec fn timeval_of_us(us: u64) -> TimeVal {
    TimeVal { sec: (us / 1_000_000) as u64, usec: (us % 1_000_000) as u64 }
}

/// Byte layout of a `TimeVal`: seconds, then microseconds.
pub open spec fn timeval_bytes(tv: TimeVal) -> Seq<u8> {
    u64_le(tv.sec) + u64_le(tv.usec)
}

/// The `TimeVal` read back from its bytes.
pub open spec fn timeval_of_bytes(s: Seq<u8>) -> TimeVal
    recommends
        s.len() == TIME_VAL_BYTES,
{
    TimeVal { sec: u64_of_le(s.subrange(0, 8)), usec: u64_of_le(s.subrange(8, 16)) }
}

/// Encoding a `TimeVal` and reading it back yields the value, whatever
/// memory layout the bytes crossed in between.
pub proof fn lemma_timeval_roundtrip(tv: TimeVal)
    ensures
        timeval_bytes(tv).len() == TIME_VAL_BYTES,
        timeval_of_bytes(timeval_bytes(tv)) == tv,
{
    lemma_u64_le_roundtrip(tv.sec);
    lemma_u64_le_roundtrip(tv.usec);
    assert(timeval_bytes(tv).subrange(0, 8) =~= u64_le(tv.sec));
    assert(timeval_bytes(tv).subrange(8, 16) =~= u64_le(tv.usec));
}

/// Byte layout of an accounting snapshot: status tag, then the counter
/// table, then the running time.
pub open spec fn info_bytes(status: TaskStatus, counts: Seq<u32>, time: u64) -> Seq<u8> {
    seq![status_byte(status)] + counts_bytes(counts) + u64_le(time)
}

/// Byte layout of a `TaskInfo`: status tag, then the counter table, then the
/// running time.
pub open spec fn taskinfo_bytes(ti: TaskInfo) -> Seq<u8> {
    info_bytes(ti.status, ti.syscall_times@, ti.time)
}

/// Encoding an accounting snapshot and reading its three parts back yields
/// the snapshot.
pub proof fn lemma_info_bytes_roundtrip(status: TaskStatus, counts: Seq<u32>, time: u64)
    requires
        counts.len() == MAX_SYSCALL_NUM,
    ensures
        info_bytes(status, counts, time).len() == TASK_INFO_BYTES,
        status_of_byte(info_bytes(status, counts, time)[0]) == Some(status),
        counts_of_bytes(info_bytes(status, counts, time).subrange(1, 1 + 4 * MAX_SYSCALL_NUM))
            == counts,
        u64_of_le(
            info_bytes(status, counts, time).subrange(
                1 + 4 * MAX_SYSCALL_NUM,
                1 + 4 * MAX_SYSCALL_NUM + 8,
            ),
        ) == time,
{
    lemma_status_roundtrip(status);
    lemma_counts_roundtrip(counts);
    lemma_u64_le_roundtrip(time);
    assert(info_bytes(status, counts, time).subrange(1, 1 + 4 * MAX_SYSCALL_NUM) =~= counts_bytes(
        counts,
    ));
    assert(info_bytes(status, counts, time).subrange(
        1 + 4 * MAX_SYSCALL_NUM,
        1 + 4 * MAX_SYSCALL_NUM + 8,
    ) =~= u64_le(time));
}

/// Encoding a `TaskInfo` and reading its three parts back yields the value.
pub proof fn lemma_taskinfo_roundtrip(ti: TaskInfo)
    requires
        ti.wf(),
    ensures
        taskinfo_bytes(ti).len() == TASK_INFO_BYTES,
        status_of_byte(taskinfo_bytes(ti)[0]) == Some(ti.status),
        counts_of_bytes(taskinfo_bytes(ti).subrange(1, 1 + 4 * MAX_SYSCALL_NUM))
            == ti.syscall_times@,
        u64_of_le(
            taskinfo_bytes(ti).subrange(
                1 + 4 * MAX_SYSCALL_NUM,
                1 + 4 * MAX_SYSCALL_NUM + 8,
            ),
        ) == ti.time,
{
    lemma_info_bytes_roundtrip(ti.status, ti.syscall_times@, ti.time);
}

/// Appends the little-endian bytes of a 64-bit word.
pub fn push_u64_le(out: &mut Vec<u8>, x: u64)
    ensures
        final(out)@ == old(out)@ + u64_le(x),
{
    out.push((x & 0xff) as u8);
    out.push(((x >> 8) & 0xff) as u8);
    out.push(((x >> 16) & 0xff) as u8);
    out.push(((x >> 24) & 0xff) as u8);
    out.push(((x >> 32) & 0xff) as u8);
    out.push(((x >> 40) & 0xff) as u8);
    out.push(((x >> 48) & 0xff) as u8);
    out.push(((x >> 56) & 0xff) as u8);
    proof {
        assert(out@ =~= old(out)@ + u64_le(x));
    }
}

/// Appends the little-endian bytes of a 32-bit word.
pub fn push_u32_le(out: &mut Vec<u8>, x: u32)
    ensures
        final(out)@ == old(out)@ + u32_le(x),
{
    out.push((x & 0xff) as u8);
    out.push(((x >> 8) & 0xff) as u8);
    out.push(((x >> 16) & 0xff) as u8);
    out.push(((x >> 24) & 0xff) as u8);
    proof {
        assert(out@ =~= old(out)@ + u32_le(x));
    }
}

/// Reads a little-endian 64-bit word at byte offset `off`.
pub fn u64_from_le(b: &Vec<u8>, off: usize) -> (r: u64)
    requires
        off + 8 <= b@.len(),
    ensures
        r == u64_of_le(b@.subrange(off as int, off as int + 8)),
{
    let n = b.len();
    let r = (b[off] as u64) | ((b[off + 1] as u64) << 8) | ((b[off + 2] as u64) << 16) | ((b[off
        + 3] as u64) << 24) | ((b[off + 4] as u64) << 32) | ((b[off + 5] as u64) << 40) | ((b[off
        + 6] as u64) << 48) | ((b[off + 7] as u64) << 56);
    proof {
        let s = b@.subrange(off as int, off as int + 8);
        assert(s[0] == b@[off as int] && s[1] == b@[off as int + 1] && s[2] == b@[off as int + 2]
            && s[3] == b@[off as int + 3] && s[4] == b@[off as int + 4] && s[5] == b@[off as int
            + 5] && s[6] == b@[off as int + 6] && s[7] == b@[off as int + 7]);
    }
    r
}

/// Reads a little-endian 32-bit word at byte offset `off`.
pub fn u32_from_le(b: &Vec<u8>, off: usize) -> (r: u32)
    requires
        off + 4 <= b@.len(),
    ensures
        r == u32_of_le(b@.subrange(off as int, off as int + 4)),
{
    let n = b.len();
    let r = (b[off] as u32) | ((b[off + 1] as u32) << 8) | ((b[off + 2] as u32) << 16) | ((b[off
        + 3] as u32) << 24);
    proof {
        let s = b@.subrange(off as int, off as int + 4);
        assert(s[0] == b@[off as int] && s[1] == b@[off as int + 1] && s[2] == b@[off as int + 2]
            && s[3] == b@[off as int + 3]);
    }
    r
}

/// The byte tag of a task status.
pub fn status_to_byte(s: TaskStatus) -> (r: u8)
    ensures
        r == status_byte(s),
{
    match s {
        TaskStatus::UnInit => 0u8,
        TaskStatus::Ready => 1u8,
        TaskStatus::Running => 2u8,
        TaskStatus::Exited => 3u8,
    }
}

/// The task status read back from a byte tag, when the tag is one.
pub fn status_from_byte(b: u8) -> (r: Option<TaskStatus>)
    ensures
        r == status_of_byte(b),
{
    if b == 0 {
        Some(TaskStatus::UnInit)
    } else if b == 1 {
        Some(TaskStatus::Ready)
    } else if b == 2 {
        Some(TaskStatus::Running)
    } else if b == 3 {
        Some(TaskStatus::Exited)
    } else {
        None
    }
}

/// Encodes a `TimeVal` into its 16 bytes.
pub fn timeval_to_bytes(tv: &TimeVal) -> (r: Vec<u8>)
    ensures
        r@ == timeval_bytes(*tv),
        r@.len() == TIME_VAL_BYTES,
{
    let mut out: Vec<u8> = Vec::new();
    push_u64_le(&mut out, tv.sec);
    push_u64_le(&mut out, tv.usec);
    proof {
        assert(out@ =~= timeval_bytes(*tv));
    }
    out
}

/// Decodes a `TimeVal` from its 16 bytes.
pub fn timeval_from_bytes(b: &Vec<u8>) -> (r: TimeVal)
    requires
        b@.len() == TIME_VAL_BYTES,
    ensures
        r == timeval_of_bytes(b@),
{
    let sec = u64_from_le(b, 0);
    let usec = u64_from_le(b, 8);
    TimeVal { sec, usec }
}

/// Encodes a `TaskInfo` into its fixed-size byte layout.
pub fn taskinfo_to_bytes(ti: &TaskInfo) -> (r: Vec<u8>)
    requires
        ti.wf(),
    ensures
        r@ == taskinfo_bytes(*ti),
        r@.len() == TASK_INFO_BYTES,
{
    let mut out: Vec<u8> = Vec::new();
    out.push(status_to_byte(ti.status));
    let n = ti.syscall_times.len();
    let mut k: usize = 0;
    proof {
        assert(out@ =~= seq![status_byte(ti.status)] + counts_bytes(
            ti.syscall_times@.take(0),
        ));
    }
    while k < n
        invariant
            k <= n,
            n == ti.syscall_times@.len(),
            out@ == seq![status_byte(ti.status)] + counts_bytes(ti.syscall_times@.take(k as int)),
        decreases n - k,
    {
        push_u32_le(&mut out, ti.syscall_times[k]);
        proof {
            lemma_counts_bytes_snoc(ti.syscall_times@, k as int);
            assert(out@ =~= seq![status_byte(ti.status)] + counts_bytes(
                ti.syscall_times@.take(k as int + 1),
            ));
        }
        k = k + 1;
    }
    proof {
        assert(ti.syscall_times@.take(n as int) =~= ti.syscall_times@);
    }
    push_u64_le(&mut out, ti.time);
    proof {
        lemma_counts_roundtrip(ti.syscall_times@);
        assert(out@ =~= taskinfo_bytes(*ti));
    }
    out
}

/// Decodes a `TaskInfo` from its fixed-size byte layout; fails exactly when
/// the status tag is not one the kernel writes.
pub fn taskinfo_from_bytes(b: &Vec<u8>) -> (r: Option<TaskInfo>)
    requires
        b@.len() == TASK_INFO_BYTES,
    ensures
        r is Some == status_of_byte(b@[0]) is Some,
        r is Some ==> {
            &&& r->Some_0.status == status_of_byte(b@[0])->Some_0
            &&& r->Some_0.syscall_times@ == counts_of_bytes(
                b@.subrange(1, 1 + 4 * MAX_SYSCALL_NUM),
            )
            &&& r->Some_0.time == u64_of_le(
                b@.subrange(1 + 4 * MAX_SYSCALL_NUM, 1 + 4 * MAX_SYSCALL_NUM + 8),
            )
            &&& r->Some_0.wf()
        },
{
    let status = match status_from_byte(b[0]) {
        None => {
            return None;
        },
        Some(s) => s,
    };
    let mut counts: Vec<u32> = Vec::new();
    let mut k: usize = 0;
    while k < MAX_SYSCALL_NUM
        invariant
            b@.len() == TASK_INFO_BYTES,
            k <= MAX_SYSCALL_NUM,
            counts@.len() == k,
            forall|i: int|
                0 <= i < k ==> #[trigger] counts@[i] == u32_of_le(
                    b@.subrange(1 + 4 * i, 1 + 4 * i + 4),
                ),
        decreases MAX_SYSCALL_NUM - k,
    {
        let c = u32_from_le(b, 1 + 4 * k);
        counts.push(c);
        k = k + 1;
    }
    let time = u64_from_le(b, 1 + 4 * MAX_SYSCALL_NUM);
    proof {
        let cb = b@.subrange(1, 1 + 4 * MAX_SYSCALL_NUM as int);
        assert forall|i: int| 0 <= i < MAX_SYSCALL_NUM implies counts@[i] == counts_of_bytes(
            cb,
        )[i] by {
            assert(cb.subrange(4 * i, 4 * i + 4) =~= b@.subrange(1 + 4 * i, 1 + 4 * i + 4));
        }
        assert(counts@ =~= counts_of_bytes(cb));
    }
    Some(TaskInfo { status, syscall_times: counts, time })
}

} // verus!
