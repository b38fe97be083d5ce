//! A task's virtual memory: mapped regions, the frames backing them, and the
//! translation-aware byte access every cross-address-space copy goes through.

use vstd::arithmetic::div_mod::lemma_fundamental_div_mod;
use vstd::arithmetic::div_mod::lemma_mod_multiples_basic;
use vstd::arithmetic::div_mod::lemma_fundamental_div_mod_converse;
use vstd::arithmetic::div_mod::lemma_div_pos_is_pos;
use vstd::arithmetic::mul::lemma_mul_inequality;
use vstd::pervasive::VecAdditionalExecFns;
use vstd::prelude::*;

use crate::PAGE_SIZE;

verus! {

/// A contiguous, page-aligned span of virtual addresses with uniform
/// permission bits, backed by one frame per page. The frames need not be
/// physically contiguous: a range that straddles a page boundary is served
/// by several frames.
pub struct MappedRegion {
    /// First virtual address of the region; always page-aligned.
    pub start: usize,
    /// Length in bytes; always a nonzero multiple of the page size.
    pub len: usize,
    /// Permission bits: bit 0 readable, bit 1 writable, bit 2 executable.
    pub port: usize,
    /// Backing frames, one page each, in ascending virtual-address order.
    pub frames: Vec<Vec<u8>>,
}

impl MappedRegion {
    /// One past the last virtual address of the region.
    pub open spec fn end(self) -> int {
        self.start + self.len
    }

    /// Whether virtual address `a` lies inside the region.
    pub open spec fn contains(self, a: int) -> bool {
        self.start <= a < self.end()
    }

    /// Whether the region's pages may be read.
    pub open spec fn readable(self) -> bool {
        self.port % 2 == 1
    }

    /// Whether the region's pages may be written.
    pub open spec fn writable(self) -> bool {
        (self.port / 2) % 2 == 1
    }

    /// Structural invariant: page alignment, whole pages, a valid nonempty
    /// permission subset, and one full frame per page.
    pub open spec fn wf(self) -> bool {
        &&& self.start % PAGE_SIZE == 0
        &&& self.len % PAGE_SIZE == 0
        &&& 0 < self.len
        &&& self.start + self.len <= usize::MAX
        &&& 0 < self.port < 8
        &&& self.frames@.len() == self.len / PAGE_SIZE
        &&& forall|i: int| 0 <= i < self.frames@.len() ==> (#[trigger] self.frames@[i])@.len() == PAGE_SIZE
    }

    /// Whether the two regions occupy disjoint address ranges.
    pub open spec fn disjoint(self, other: MappedRegion) -> bool {
        self.end() <= other.start || other.end() <= self.start
    }
}

/// The virtual memory state of one task: its mapped regions and its
/// heap-break bookkeeping.
pub struct TaskMemory {
    /// The mapped regions; pairwise disjoint.
    pub regions: Vec<MappedRegion>,
    /// Lowest address the program break may take.
    pub heap_base: usize,
    /// Highest address the program break may take.
    pub heap_top: usize,
    /// Current program break.
    pub brk: usize,
}

impl TaskMemory {
    /// Structural invariant: every region well formed, regions pairwise
    /// disjoint, and the break inside its bounds. The heap bounds stay below
    /// the positive half of the signed address range so a break value can be
    /// reported through the signed syscall return word.
    pub open spec fn wf(self) -> bool {
        &&& forall|i: int| 0 <= i < self.regions@.len() ==> (#[trigger] self.regions@[i]).wf()
        &&& forall|i: int, j: int|
            0 <= i < self.regions@.len() && 0 <= j < self.regions@.len() && i != j
                ==> (#[trigger] self.regions@[i]).disjoint(#[trigger] self.regions@[j])
        &&& self.heap_base <= self.brk <= self.heap_top
        &&& self.heap_top <= usize::MAX / 2
    }

    /// Whether some region contains virtual address `a`.
    pub open spec fn mapped_at(self, a: int) -> bool {
        exists|i: int| 0 <= i < self.regions@.len() && (#[trigger] self.regions@[i]).contains(a)
    }

    /// Index of the region containing `a`; meaningful only when `mapped_at`.
    pub open spec fn region_index_at(self, a: int) -> int {
        choose|i: int| 0 <= i < self.regions@.len() && (#[trigger] self.regions@[i]).contains(a)
    }

    /// Whether `a` is mapped by a readable region.
    pub open spec fn readable_at(self, a: int) -> bool {
        self.mapped_at(a) && self.regions@[self.region_index_at(a)].readable()
    }

    /// Whether `a` is mapped by a writable region.
    pub open spec fn writable_at(self, a: int) -> bool {
        self.mapped_at(a) && self.regions@[self.region_index_at(a)].writable()
    }

    /// The byte stored at mapped virtual address `a`.
    pub open spec fn byte_at(self, a: int) -> u8 {
        let r = self.regions@[self.region_index_at(a)];
        let off = a - r.start;
        r.frames@[off / (PAGE_SIZE as int)]@[off % (PAGE_SIZE as int)]
    }

    /// Whether every address of `[va, va + n)` is mapped writable.
    pub open spec fn range_writable(self, va: int, n: int) -> bool {
        forall|a: int| va <= a < va + n ==> self.writable_at(a)
    }

    /// Whether every address of `[va, va + n)` is mapped readable.
    pub open spec fn range_readable(self, va: int, n: int) -> bool {
        forall|a: int| va <= a < va + n ==> self.readable_at(a)
    }
}

/// Under disjointness, the region containing an address is unique, so the
/// chosen index is the witness index.
pub proof fn lemma_region_index_unique(m: TaskMemory, a: int, i: int)
    requires
        m.wf(),
        0 <= i < m.regions@.len(),
        m.regions@[i].contains(a),
    ensures
        m.mapped_at(a),
        m.region_index_at(a) == i,
{
    assert(m.mapped_at(a));
    let j = m.region_index_at(a);
    if j != i {
        assert(m.regions@[i].disjoint(m.regions@[j]));
    }
}

/// Splitting a byte offset inside a whole-page range into a page index and an
/// in-page offset stays inside the range's page count.
pub proof fn lemma_offset_page(off: int, len: int)
    requires
        0 <= off < len,
        len % (PAGE_SIZE as int) == 0,
    ensures
        0 <= off / (PAGE_SIZE as int) < len / (PAGE_SIZE as int),
        0 <= off % (PAGE_SIZE as int) < PAGE_SIZE,
        off == (PAGE_SIZE as int) * (off / (PAGE_SIZE as int)) + off % (PAGE_SIZE as int),
{
    let p = PAGE_SIZE as int;
    lemma_fundamental_div_mod(off, p);
    lemma_fundamental_div_mod(len, p);
    lemma_div_pos_is_pos(off, p);
    lemma_div_pos_is_pos(len, p);
    if off / p >= len / p {
        lemma_mul_inequality(len / p, off / p, p);
        assert((len / p) * p <= (off / p) * p);
        assert(len == p * (len / p));
        assert(false);
    }
}

/// The page index and in-page offset together determine the byte offset.
pub proof fn lemma_offset_page_injective(off1: int, off2: int)
    requires
        0 <= off1,
        0 <= off2,
        off1 / (PAGE_SIZE as int) == off2 / (PAGE_SIZE as int),
        off1 % (PAGE_SIZE as int) == off2 % (PAGE_SIZE as int),
    ensures
        off1 == off2,
{
    let p = PAGE_SIZE as int;
    lemma_fundamental_div_mod(off1, p);
    lemma_fundamental_div_mod(off2, p);
}

/// Whether two memory states have the same regions (addresses, lengths,
/// permissions, page counts) and heap bookkeeping; frame contents may differ.
pub open spec fn same_layout(m1: TaskMemory, m2: TaskMemory) -> bool {
    &&& m2.regions@.len() == m1.regions@.len()
    &&& forall|i: int|
        0 <= i < m1.regions@.len() ==> {
            &&& (#[trigger] m2.regions@[i]).start == m1.regions@[i].start
            &&& m2.regions@[i].len == m1.regions@[i].len
            &&& m2.regions@[i].port == m1.regions@[i].port
            &&& m2.regions@[i].frames@.len() == m1.regions@[i].frames@.len()
        }
    &&& m2.heap_base == m1.heap_base
    &&& m2.heap_top == m1.heap_top
    &&& m2.brk == m1.brk
}

/// Two well-formed states with the same layout map, read and write the same
/// addresses, and translate each mapped address through the same region.
pub proof fn lemma_same_layout_access(m1: TaskMemory, m2: TaskMemory)
    requires
        m1.wf(),
        m2.wf(),
        same_layout(m1, m2),
    ensures
        forall|a: int| m2.mapped_at(a) == m1.mapped_at(a),
        forall|a: int| m2.readable_at(a) == m1.readable_at(a),
        forall|a: int| m2.writable_at(a) == m1.writable_at(a),
        forall|a: int| m1.mapped_at(a) ==> m2.region_index_at(a) == m1.region_index_at(a),
{
    assert forall|a: int| m2.mapped_at(a) == m1.mapped_at(a) by {
        if m1.mapped_at(a) {
            let i = m1.region_index_at(a);
            assert(m2.regions@[i].contains(a));
            assert(m2.mapped_at(a));
        }
        if m2.mapped_at(a) {
            let i = m2.region_index_at(a);
            assert(m1.regions@[i].contains(a));
            assert(m1.mapped_at(a));
        }
    }
    assert forall|a: int| m1.mapped_at(a) implies m2.region_index_at(a) == m1.region_index_at(a) by {
        let i = m1.region_index_at(a);
        assert(m2.regions@[i].contains(a));
        lemma_region_index_unique(m2, a, i);
    }
    assert forall|a: int| m2.readable_at(a) == m1.readable_at(a) by {
        if m1.mapped_at(a) {
            let i = m1.region_index_at(a);
            assert(m2.regions@[i].port == m1.regions@[i].port);
        }
    }
    assert forall|a: int| m2.writable_at(a) == m1.writable_at(a) by {
        if m1.mapped_at(a) {
            let i = m1.region_index_at(a);
            assert(m2.regions@[i].port == m1.regions@[i].port);
        }
    }
}

impl TaskMemory {
    /// Finds the region containing virtual address `a`, if any.
    pub fn find_region(&self, a: usize) -> (r: Option<usize>)
        requires
            self.wf(),
        ensures
            match r {
                Some(i) => {
                    &&& i < self.regions@.len()
                    &&& self.regions@[i as int].contains(a as int)
                    &&& self.mapped_at(a as int)
                    &&& self.region_index_at(a as int) == i
                },
                None => !self.mapped_at(a as int),
            },
    {
        let n = self.regions.len();
        let mut i: usize = 0;
        while i < n
            invariant
                self.wf(),
                n == self.regions@.len(),
                i <= n,
                forall|k: int| 0 <= k < i ==> !(#[trigger] self.regions@[k]).contains(a as int),
            decreases n - i,
        {
            let r = &self.regions[i];
            if r.start <= a && a - r.start < r.len {
                proof {
                    lemma_region_index_unique(*self, a as int, i as int);
                }
                return Some(i);
            }
            i = i + 1;
        }
        None
    }

    /// Reads the byte at user virtual address `a`, or reports that the
    /// address is not mapped readable.
    pub fn read_byte(&self, a: usize) -> (r: Option<u8>)
        requires
            self.wf(),
        ensures
            r is Some == self.readable_at(a as int),
            r is Some ==> r->Some_0 == self.byte_at(a as int),
    {
        match self.find_region(a) {
            None => None,
            Some(i) => {
                let region = &self.regions[i];
                if region.port % 2 != 1 {
                    return None;
                }
                let off = a - region.start;
                proof {
                    lemma_offset_page(off as int, region.len as int);
                }
                let p = off / PAGE_SIZE;
                let o = off % PAGE_SIZE;
                Some(region.frames[p][o])
            },
        }
    }

    /// Writes one byte at user virtual address `a`, reporting whether the
    /// address is mapped writable; on failure nothing changes.
    pub fn write_byte(&mut self, a: usize, v: u8) -> (r: bool)
        requires
            old(self).wf(),
        ensures
            final(self).wf(),
            same_layout(*old(self), *final(self)),
            r == old(self).writable_at(a as int),
            !r ==> *final(self) == *old(self),
            r ==> final(self).byte_at(a as int) == v,
            forall|b: int|
                old(self).mapped_at(b) && b != a
                    ==> final(self).byte_at(b) == old(self).byte_at(b),
    {
        let ghost m0 = *self;
        match self.find_region(a) {
            None => false,
            Some(i) => {
                if self.regions[i].port / 2 % 2 != 1 {
                    return false;
                }
                let mut region = MappedRegion { start: 0, len: 0, port: 0, frames: Vec::new() };
                self.regions.set_and_swap(i, &mut region);
                let off = a - region.start;
                proof {
                    lemma_offset_page(off as int, region.len as int);
                }
                let p = off / PAGE_SIZE;
                let o = off % PAGE_SIZE;
                let mut frame: Vec<u8> = Vec::new();
                region.frames.set_and_swap(p, &mut frame);
                frame.set(o, v);
                region.frames.set_and_swap(p, &mut frame);
                self.regions.set_and_swap(i, &mut region);
                proof {
                    let ri = i as int;
                    let pp = p as int;
                    let oo = o as int;
                    let aa = a as int;
                    let psz = PAGE_SIZE as int;
                    let r_old = m0.regions@[ri];
                    let r_new = self.regions@[ri];
                    assert(r_new.start == r_old.start && r_new.len == r_old.len
                        && r_new.port == r_old.port);
                    assert(r_new.frames@.len() == r_old.frames@.len());
                    assert(r_new.frames@[pp]@ == r_old.frames@[pp]@.update(oo, v));
                    assert(forall|q: int|
                        0 <= q < r_old.frames@.len() && q != pp
                            ==> (#[trigger] r_new.frames@[q]) == r_old.frames@[q]);
                    assert(forall|j: int|
                        0 <= j < m0.regions@.len() && j != ri
                            ==> (#[trigger] self.regions@[j]) == m0.regions@[j]);
                    assert(self.wf()) by {
                        assert forall|j: int| 0 <= j < self.regions@.len()
                            implies (#[trigger] self.regions@[j]).wf() by {
                            if j == ri {
                                assert(forall|q: int|
                                    0 <= q < r_new.frames@.len()
                                        ==> (#[trigger] r_new.frames@[q])@.len() == PAGE_SIZE);
                            }
                        }
                        assert forall|j: int, k: int|
                            0 <= j < self.regions@.len() && 0 <= k < self.regions@.len() && j != k
                            implies (#[trigger] self.regions@[j]).disjoint(
                                #[trigger] self.regions@[k]) by {
                            assert(m0.regions@[j].disjoint(m0.regions@[k]));
                        }
                    }
                    lemma_region_index_unique(*self, aa, ri);
                    assert(self.byte_at(aa) == v);
                    assert forall|b: int| m0.mapped_at(b) && b != aa
                        implies self.byte_at(b) == m0.byte_at(b) by {
                        let j = m0.region_index_at(b);
                        assert(m0.regions@[j].contains(b));
                        lemma_region_index_unique(*self, b, j);
                        if j == ri {
                            let offb = b - r_old.start;
                            lemma_offset_page(offb, r_old.len as int);
                            if offb / psz == pp && offb % psz == oo {
                                lemma_offset_page_injective(offb, off as int);
                                assert(false);
                            }
                        }
                    }
                }
                true
            },
        }
    }
}

/// Same-layout is transitive.
pub proof fn lemma_same_layout_trans(m1: TaskMemory, m2: TaskMemory, m3: TaskMemory)
    requires
        same_layout(m1, m2),
        same_layout(m2, m3),
    ensures
        same_layout(m1, m3),
{
    assert forall|i: int| 0 <= i < m1.regions@.len() implies {
        &&& (#[trigger] m3.regions@[i]).start == m1.regions@[i].start
        &&& m3.regions@[i].len == m1.regions@[i].len
        &&& m3.regions@[i].port == m1.regions@[i].port
        &&& m3.regions@[i].frames@.len() == m1.regions@[i].frames@.len()
    } by {
        assert(m2.regions@[i].start == m1.regions@[i].start);
    }
}

impl TaskMemory {
    /// Whether the byte at `a` may be written, without writing it.
    pub fn is_writable(&self, a: usize) -> (r: bool)
        requires
            self.wf(),
        ensures
            r == self.writable_at(a as int),
    {
        match self.find_region(a) {
            None => false,
            Some(i) => self.regions[i].port / 2 % 2 == 1,
        }
    }

    /// Writes `data` into user memory at `[va, va + data.len())`, across as
    /// many backing frames as the range touches. All or nothing: either every
    /// address of the range is mapped writable and every byte is stored, or
    /// nothing changes and failure is reported.
    pub fn write_bytes(&mut self, va: usize, data: &Vec<u8>) -> (r: bool)
        requires
            old(self).wf(),
        ensures
            final(self).wf(),
            same_layout(*old(self), *final(self)),
            r == old(self).range_writable(va as int, data@.len() as int),
            !r ==> *final(self) == *old(self),
            r ==> forall|b: int|
                va <= b < va + data@.len() ==> final(self).byte_at(b) == data@[b - va],
            forall|b: int|
                old(self).mapped_at(b) && !(va <= b < va + data@.len())
                    ==> final(self).byte_at(b) == old(self).byte_at(b),
    {
        let ghost m0 = *self;
        let n = data.len();
        if n == 0 {
            return true;
        }
        if n > usize::MAX - va {
            proof {
                let top = va + n - 1;
                if m0.mapped_at(top) {
                    assert(m0.regions@[m0.region_index_at(top)].contains(top));
                }
                assert(!m0.writable_at(top));
            }
            return false;
        }
        let mut k: usize = 0;
        while k < n
            invariant
                self.wf(),
                *self == m0,
                n == data@.len(),
                n <= usize::MAX - va,
                k <= n,
                forall|b: int| va <= b < va + k ==> m0.writable_at(b),
            decreases n - k,
        {
            if !self.is_writable(va + k) {
                return false;
            }
            k = k + 1;
        }
        assert(m0.range_writable(va as int, n as int));
        let mut k: usize = 0;
        while k < n
            invariant
                self.wf(),
                same_layout(m0, *self),
                m0.wf(),
                m0.range_writable(va as int, n as int),
                n == data@.len(),
                n <= usize::MAX - va,
                k <= n,
                forall|b: int| va <= b < va + k ==> self.byte_at(b) == data@[b - va],
                forall|b: int|
                    m0.mapped_at(b) && !(va <= b < va + n) ==> self.byte_at(b) == m0.byte_at(b),
            decreases n - k,
        {
            let ghost pre = *self;
            proof {
                lemma_same_layout_access(m0, pre);
            }
            let ok = self.write_byte(va + k, data[k]);
            proof {
                assert(ok);
                lemma_same_layout_trans(m0, pre, *self);
                assert forall|b: int| va <= b < va + k + 1
                    implies self.byte_at(b) == data@[b - va] by {
                    if b < va + k {
                        assert(m0.writable_at(b));
                        assert(m0.mapped_at(b));
                        assert(pre.mapped_at(b));
                    }
                }
                assert forall|b: int| m0.mapped_at(b) && !(va <= b < va + n)
                    implies self.byte_at(b) == m0.byte_at(b) by {
                    assert(pre.mapped_at(b));
                }
            }
            k = k + 1;
        }
        true
    }

    /// Reads `n` bytes of user memory at `[va, va + n)`. All or nothing:
    /// either every address of the range is mapped readable and all bytes
    /// come back in order, or nothing does.
    pub fn read_bytes(&self, va: usize, n: usize) -> (r: Option<Vec<u8>>)
        requires
            self.wf(),
        ensures
            r is Some == self.range_readable(va as int, n as int),
            r is Some ==> r->Some_0@.len() == n,
            r is Some ==> forall|k: int|
                0 <= k < n ==> #[trigger] r->Some_0@[k] == self.byte_at(va + k),
    {
        if n == 0 {
            return Some(Vec::new());
        }
        if n > usize::MAX - va {
            proof {
                let top = va + n - 1;
                if self.mapped_at(top) {
                    assert(self.regions@[self.region_index_at(top)].contains(top));
                }
                assert(!self.readable_at(top));
            }
            return None;
        }
        let mut out: Vec<u8> = Vec::new();
        let mut k: usize = 0;
        while k < n
            invariant
                self.wf(),
                n <= usize::MAX - va,
                k <= n,
                out@.len() == k,
                forall|b: int| va <= b < va + k ==> self.readable_at(b),
                forall|j: int| 0 <= j < k ==> #[trigger] out@[j] == self.byte_at(va + j),
            decreases n - k,
        {
            match self.read_byte(va + k) {
                None => {
                    return None;
                },
                Some(b) => {
                    out.push(b);
                },
            }
            k = k + 1;
        }
        Some(out)
    }
}

/// Length `len` rounded up to a whole number of pages.
pub open spec fn page_round_up(len: int) -> int {
    ((len + PAGE_SIZE - 1) / (PAGE_SIZE as int)) * (PAGE_SIZE as int)
}

/// Rounding a positive length up to whole pages lands on the nearest page
/// multiple at or above it.
pub proof fn lemma_page_round_up(len: int)
    requires
        0 < len,
    ensures
        len <= page_round_up(len) < len + PAGE_SIZE,
        page_round_up(len) % (PAGE_SIZE as int) == 0,
        len % (PAGE_SIZE as int) == 0 ==> page_round_up(len) == len,
{
    let p = PAGE_SIZE as int;
    let q = (len + p - 1) / p;
    lemma_fundamental_div_mod(len + p - 1, p);
    lemma_mod_multiples_basic(q, p);
    assert(page_round_up(len) == q * p);
    if len % p == 0 {
        lemma_fundamental_div_mod(len, p);
        lemma_fundamental_div_mod_converse(len + p - 1, p, len / p, p - 1);
    }
}

/// Whether an mmap request is valid against memory state `m`: page-aligned
/// start, nonzero length, a nonempty three-bit permission mask, a range that
/// fits in the address space, and no overlap with any existing region.
pub open spec fn mmap_ok(m: TaskMemory, start: usize, len: usize, port: usize) -> bool {
    &&& start % PAGE_SIZE == 0
    &&& 0 < len
    &&& len <= usize::MAX - (PAGE_SIZE - 1)
    &&& 0 < port < 8
    &&& start + page_round_up(len as int) <= usize::MAX
    &&& forall|i: int|
        0 <= i < m.regions@.len()
            ==> ((#[trigger] m.regions@[i]).end() <= start
                || start + page_round_up(len as int) <= m.regions@[i].start)
}

/// Whether an munmap request names exactly one mapped region: same start and
/// the same whole-page length.
pub open spec fn munmap_match(m: TaskMemory, start: usize, len: usize) -> bool {
    &&& len <= usize::MAX - (PAGE_SIZE - 1)
    &&& exists|i: int|
        0 <= i < m.regions@.len() && (#[trigger] m.regions@[i]).start == start
            && m.regions@[i].len == page_round_up(len as int)
}

/// Whether adjusting the program break by `delta` stays inside the heap
/// bounds.
pub open spec fn sbrk_ok(m: TaskMemory, delta: int) -> bool {
    m.heap_base <= m.brk + delta <= m.heap_top
}

/// A page of zero bytes.
fn zero_frame() -> (f: Vec<u8>)
    ensures
        f@.len() == PAGE_SIZE,
        forall|i: int| 0 <= i < f@.len() ==> f@[i] == 0u8,
{
    let mut f: Vec<u8> = Vec::new();
    let mut t: usize = 0;
    while t < PAGE_SIZE
        invariant
            t <= PAGE_SIZE,
            f@.len() == t,
            forall|i: int| 0 <= i < t ==> f@[i] == 0u8,
        decreases PAGE_SIZE - t,
    {
        f.push(0u8);
        t = t + 1;
    }
    f
}

/// `count` pages of zero bytes.
fn zero_frames(count: usize) -> (fs: Vec<Vec<u8>>)
    ensures
        fs@.len() == count,
        forall|i: int| 0 <= i < count ==> (#[trigger] fs@[i])@.len() == PAGE_SIZE,
        forall|i: int, j: int|
            0 <= i < count && 0 <= j < PAGE_SIZE ==> (#[trigger] fs@[i]@[j]) == 0u8,
{
    let mut fs: Vec<Vec<u8>> = Vec::new();
    let mut t: usize = 0;
    while t < count
        invariant
            t <= count,
            fs@.len() == t,
            forall|i: int| 0 <= i < t ==> (#[trigger] fs@[i])@.len() == PAGE_SIZE,
            forall|i: int, j: int|
                0 <= i < t && 0 <= j < PAGE_SIZE ==> (#[trigger] fs@[i]@[j]) == 0u8,
        decreases count - t,
    {
        fs.push(zero_frame());
        t = t + 1;
    }
    fs
}

/// The successful mmap outcome: one region appended at `start` with
/// `page_round_up(len)` bytes and mask `port`, zero-filled, everything else
/// untouched.
pub open spec fn mmap_post(m1: TaskMemory, m2: TaskMemory, start: usize, len: usize, port: usize) -> bool {
    &&& m2.regions@ == m1.regions@.push(m2.regions@.last())
    &&& m2.regions@.last().start == start
    &&& m2.regions@.last().len == page_round_up(len as int)
    &&& m2.regions@.last().port == port
    &&& m2.brk == m1.brk
    &&& m2.heap_base == m1.heap_base
    &&& m2.heap_top == m1.heap_top
    &&& forall|b: int|
        m2.mapped_at(b) == (m1.mapped_at(b) || start <= b < start + page_round_up(len as int))
    &&& forall|b: int|
        m1.mapped_at(b) ==> m2.byte_at(b) == m1.byte_at(b) && m2.readable_at(b)
            == m1.readable_at(b) && m2.writable_at(b) == m1.writable_at(b)
    &&& forall|b: int|
        start <= b < start + page_round_up(len as int) ==> m2.byte_at(b) == 0 && m2.readable_at(b)
            == (port % 2 == 1) && m2.writable_at(b) == (port / 2 % 2 == 1)
}

/// The successful munmap outcome: exactly the one region matching the request
/// is gone, everything else untouched.
pub open spec fn munmap_post(m1: TaskMemory, m2: TaskMemory, start: usize, len: usize) -> bool {
    &&& m2.brk == m1.brk
    &&& m2.heap_base == m1.heap_base
    &&& m2.heap_top == m1.heap_top
    &&& exists|i: int|
        0 <= i < m1.regions@.len() && (#[trigger] m1.regions@[i]).start == start
            && m1.regions@[i].len == page_round_up(len as int) && m2.regions@
            == m1.regions@.remove(i)
}

impl TaskMemory {
    /// Maps a new region of `page_round_up(len)` bytes at `start` with
    /// permission mask `port`, zero-filled, reporting whether the request was
    /// valid and non-overlapping; on failure nothing changes.
    pub fn mmap(&mut self, start: usize, len: usize, port: usize) -> (r: bool)
        requires
            old(self).wf(),
        ensures
            final(self).wf(),
            r == mmap_ok(*old(self), start, len, port),
            !r ==> *final(self) == *old(self),
            final(self).brk == old(self).brk,
            final(self).heap_base == old(self).heap_base,
            final(self).heap_top == old(self).heap_top,
            r ==> mmap_post(*old(self), *final(self), start, len, port),
    {
        let ghost m0 = *self;
        if start % PAGE_SIZE != 0 {
            return false;
        }
        if len == 0 {
            return false;
        }
        if len > usize::MAX - (PAGE_SIZE - 1) {
            return false;
        }
        if port == 0 || port >= 8 {
            return false;
        }
        proof {
            lemma_page_round_up(len as int);
        }
        let plen = (len + (PAGE_SIZE - 1)) / PAGE_SIZE * PAGE_SIZE;
        assert(plen == page_round_up(len as int));
        if start > usize::MAX - plen {
            return false;
        }
        let n = self.regions.len();
        let mut i: usize = 0;
        while i < n
            invariant
                self.wf(),
                *self == m0,
                n == self.regions@.len(),
                i <= n,
                start + plen <= usize::MAX,
                plen == page_round_up(len as int),
                forall|k: int|
                    0 <= k < i
                        ==> ((#[trigger] self.regions@[k]).end() <= start
                            || start + plen <= self.regions@[k].start),
            decreases n - i,
        {
            let reg = &self.regions[i];
            if reg.start < start + plen && start < reg.start + reg.len {
                return false;
            }
            i = i + 1;
        }
        assert(mmap_ok(m0, start, len, port));
        let frames = zero_frames(plen / PAGE_SIZE);
        let region = MappedRegion { start, len: plen, port, frames };
        proof {
            assert(region.wf());
        }
        self.regions.push(region);
        proof {
            let ri = n as int;
            let plen_i = plen as int;
            assert(self.regions@ == m0.regions@.push(region));
            assert(self.regions@.last() == region);
            assert(self.wf()) by {
                assert forall|j: int, k: int|
                    0 <= j < self.regions@.len() && 0 <= k < self.regions@.len() && j != k
                    implies (#[trigger] self.regions@[j]).disjoint(
                        #[trigger] self.regions@[k]) by {
                    if j < ri && k < ri {
                        assert(m0.regions@[j].disjoint(m0.regions@[k]));
                    }
                }
            }
            assert forall|b: int|
                self.mapped_at(b) == (m0.mapped_at(b) || start <= b < start + plen_i) by {
                if m0.mapped_at(b) {
                    let j = m0.region_index_at(b);
                    assert(m0.regions@[j].contains(b));
                    assert(self.regions@[j].contains(b));
                    assert(self.mapped_at(b));
                }
                if start <= b < start + plen_i {
                    assert(self.regions@[ri].contains(b));
                    assert(self.mapped_at(b));
                }
                if self.mapped_at(b) {
                    let j = self.region_index_at(b);
                    assert(self.regions@[j].contains(b));
                    if j < ri {
                        assert(m0.regions@[j].contains(b));
                        assert(m0.mapped_at(b));
                    }
                }
            }
            assert forall|b: int| m0.mapped_at(b)
                implies self.byte_at(b) == m0.byte_at(b) && self.readable_at(b)
                    == m0.readable_at(b) && self.writable_at(b) == m0.writable_at(b) by {
                let j = m0.region_index_at(b);
                assert(m0.regions@[j].contains(b));
                lemma_region_index_unique(m0, b, j);
                lemma_region_index_unique(*self, b, j);
            }
            assert forall|b: int| start <= b < start + plen_i
                implies self.byte_at(b) == 0 && self.readable_at(b) == (port % 2 == 1)
                    && self.writable_at(b) == (port / 2 % 2 == 1) by {
                assert(self.regions@[ri].contains(b));
                lemma_region_index_unique(*self, b, ri);
                let off = b - start;
                lemma_offset_page(off, plen_i);
            }
        }
        true
    }

    /// Unmaps the region whose start is `start` and whose length is exactly
    /// `page_round_up(len)`, reporting whether such a region existed; on
    /// failure nothing changes.
    pub fn munmap(&mut self, start: usize, len: usize) -> (r: bool)
        requires
            old(self).wf(),
        ensures
            final(self).wf(),
            r == munmap_match(*old(self), start, len),
            !r ==> *final(self) == *old(self),
            final(self).brk == old(self).brk,
            final(self).heap_base == old(self).heap_base,
            final(self).heap_top == old(self).heap_top,
            r ==> munmap_post(*old(self), *final(self), start, len),
        {
        let ghost m0 = *self;
        if len > usize::MAX - (PAGE_SIZE - 1) {
            return false;
        }
        let plen = (len + (PAGE_SIZE - 1)) / PAGE_SIZE * PAGE_SIZE;
        assert(plen == page_round_up(len as int));
        let n = self.regions.len();
        let mut i: usize = 0;
        while i < n
            invariant
                self.wf(),
                *self == m0,
                m0 == *old(self),
                n == self.regions@.len(),
                i <= n,
                plen == page_round_up(len as int),
                len <= usize::MAX - (PAGE_SIZE - 1),
                forall|k: int|
                    0 <= k < i
                        ==> !((#[trigger] self.regions@[k]).start == start && self.regions@[k].len
                            == plen),
            decreases n - i,
        {
            let found = {
                let reg = &self.regions[i];
                reg.start == start && reg.len == plen
            };
            if found {
                self.regions.remove(i);
                proof {
                    m0.regions@.remove_ensures(i as int);
                    assert(self.wf()) by {
                        assert forall|k: int| 0 <= k < self.regions@.len()
                            implies (#[trigger] self.regions@[k]).wf() by {
                            if k < i {
                                assert(self.regions@[k] == m0.regions@[k]);
                            } else {
                                assert(self.regions@[k] == m0.regions@[k + 1]);
                            }
                        }
                        assert forall|j: int, k: int|
                            0 <= j < self.regions@.len() && 0 <= k < self.regions@.len() && j != k
                            implies (#[trigger] self.regions@[j]).disjoint(
                                #[trigger] self.regions@[k]) by {
                            let j0: int = if j < i { j } else { j + 1 };
                            let k0: int = if k < i { k } else { k + 1 };
                            assert(self.regions@[j] == m0.regions@[j0]);
                            assert(self.regions@[k] == m0.regions@[k0]);
                            assert(m0.regions@[j0].disjoint(m0.regions@[k0]));
                        }
                    }
                    assert(munmap_match(m0, start, len));
                }
                return true;
            }
            i = i + 1;
        }
        proof {
            if munmap_match(m0, start, len) {
                let j = choose|j: int|
                    0 <= j < m0.regions@.len() && (#[trigger] m0.regions@[j]).start == start
                        && m0.regions@[j].len == page_round_up(len as int);
                assert(!(m0.regions@[j].start == start && m0.regions@[j].len == plen));
            }
        }
        false
    }

    /// Adjusts the program break by `delta` bytes, returning the previous
    /// break on success; a break that would leave the heap bounds is refused
    /// and nothing changes.
    pub fn sbrk(&mut self, delta: i32) -> (r: Option<usize>)
        requires
            old(self).wf(),
        ensures
            final(self).wf(),
            r is Some == sbrk_ok(*old(self), delta as int),
            r is None ==> *final(self) == *old(self),
            r is Some ==> r->Some_0 == old(self).brk && final(self).brk == old(self).brk + delta,
            final(self).regions@ == old(self).regions@,
            final(self).heap_base == old(self).heap_base,
            final(self).heap_top == old(self).heap_top,
    {
        let prev = self.brk;
        if delta >= 0 {
            let d = delta as usize;
            if d <= self.heap_top - self.brk {
                self.brk = self.brk + d;
                Some(prev)
            } else {
                None
            }
        } else {
            let d = (-(delta as i64)) as usize;
            assert(d == -(delta as int));
            if d <= self.brk - self.heap_base {
                self.brk = self.brk - d;
                Some(prev)
            } else {
                None
            }
        }
    }
}

} // verus!
