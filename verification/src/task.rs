//! Task control blocks: per-task identity, status, address space, heap
//! boundaries, accounting counters and the process-tree links.

use vstd::prelude::*;
use crate::config::{
    DEFAULT_PRIORITY, MAX_SYSCALL_NUM, MAX_VA, MAX_VPN, PAGE_SIZE, PID_LIMIT,
    lemma_vpn_ceil_bound, lemma_vpn_ceil_mono, page_aligned, page_ceil, vpn_ceil,
};
use crate::frame_alloc::FrameAllocator;
use crate::loader::{ProgramImage, Segment, covers, image_layout, lemma_seg_pages_nonneg,
    lemma_seg_pages_split, lemma_seg_pages_take_step, seg_pages};
use crate::memory_set::{MemorySet, range_free};

verus! {

/// Permission bits of user heap pages: user, readable, writable.
pub const HEAP_FLAGS: u8 = 0x16;

/// Where a task stands in its life cycle.
#[derive(Clone, Copy, PartialEq, Eq, Structural, Debug)]
pub enum TaskStatus {
    /// Eligible to run; sits in the ready queue.
    Ready,
    /// The one task the core is executing.
    Running,
    /// Exited, but not yet reaped by a `waitpid`.
    Zombie,
}

/// The kernel's control structure for one task.
pub struct TaskControlBlock {
    /// Process id; equals the task's slot in the arena.
    pub pid: usize,
    /// Scheduling state.
    pub status: TaskStatus,
    /// Exit code recorded when the task becomes a zombie.
    pub exit_code: i32,
    /// Pid of the parent; a weak link that confers no ownership.
    pub parent: Option<usize>,
    /// Pids of the children; the owning side of the process tree.
    pub children: Vec<usize>,
    /// The task's address space.
    pub memory_set: MemorySet,
    /// Lowest address of the user heap; page-aligned and fixed.
    pub heap_bottom: usize,
    /// Current program break; grows and shrinks with `sbrk`.
    pub program_brk: usize,
    /// Per-syscall invocation counters, indexed by syscall id.
    pub syscall_times: Vec<u32>,
    /// Millisecond clock reading when the task was first dispatched.
    pub start_time: usize,
    /// Whether the task has been dispatched at least once.
    pub started: bool,
    /// Scheduling priority; at least 2, larger runs sooner.
    pub prio: usize,
    /// The saved return-value register of the task's user context.
    pub trap_a0: isize,
    /// Open-file handles; opaque to this core.
    pub fd_table: Vec<usize>,
}

impl TaskControlBlock {
    /// Internal consistency of one task.
    pub open spec fn wf(self) -> bool {
        &&& self.pid < PID_LIMIT
        &&& self.memory_set.wf()
        &&& self.syscall_times@.len() == MAX_SYSCALL_NUM
        &&& page_aligned(self.heap_bottom)
        &&& self.heap_bottom <= self.program_brk
        &&& self.program_brk <= MAX_VA
        &&& self.prio >= 2
    }

    /// Process id.
    pub fn getpid(&self) -> (r: usize)
        ensures
            r == self.pid,
    {
        self.pid
    }

    /// Whether the task has exited and awaits reaping.
    pub fn is_zombie(&self) -> (r: bool)
        ensures
            r == (self.status is Zombie),
    {
        match self.status {
            TaskStatus::Zombie => true,
            _ => false,
        }
    }

    /// A fresh task whose address space is built from a program image:
    /// every segment mapped with its permission bits, the heap empty with
    /// bottom and break at the image's heap base.
    pub fn build_from_image(pid: usize, img: &ProgramImage, fa: &mut FrameAllocator) -> (t:
        TaskControlBlock)
        requires
            pid < PID_LIMIT,
            img.wf(),
            old(fa).wf(),
            old(fa).free_frames() >= img.total_pages,
        ensures
            t.wf(),
            final(fa).wf(),
            final(fa).cap == old(fa).cap,
            final(fa).free_frames() == old(fa).free_frames() - img.total_pages,
            t.pid == pid,
            t.status is Ready,
            t.exit_code == 0,
            t.parent is None,
            t.children@ == Seq::<usize>::empty(),
            image_layout(img.segments@, t.memory_set@),
            t.heap_bottom == img.heap_base_vpn * PAGE_SIZE,
            t.program_brk == t.heap_bottom,
            forall|i: int| 0 <= i < MAX_SYSCALL_NUM ==> (#[trigger] t.syscall_times@[i]) == 0,
            t.start_time == 0,
            !t.started,
            t.prio == DEFAULT_PRIORITY,
            t.trap_a0 == 0,
    {
        let ms = build_memory_set(img, fa);
        let heap_bottom = img.heap_base_vpn * PAGE_SIZE;
        let syscall_times = fresh_counters();
        TaskControlBlock {
            pid,
            status: TaskStatus::Ready,
            exit_code: 0,
            parent: None,
            children: Vec::new(),
            memory_set: ms,
            heap_bottom,
            program_brk: heap_bottom,
            syscall_times,
            start_time: 0,
            started: false,
            prio: DEFAULT_PRIORITY,
            trap_a0: 0,
            fd_table: Vec::new(),
        }
    }
}

/// The fields `change_program_brk` leaves alone.
pub open spec fn same_but_heap(a: TaskControlBlock, b: TaskControlBlock) -> bool {
    &&& a.pid == b.pid
    &&& a.status == b.status
    &&& a.exit_code == b.exit_code
    &&& a.parent == b.parent
    &&& a.children == b.children
    &&& a.heap_bottom == b.heap_bottom
    &&& a.syscall_times == b.syscall_times
    &&& a.start_time == b.start_time
    &&& a.started == b.started
    &&& a.prio == b.prio
    &&& a.trap_a0 == b.trap_a0
    &&& a.fd_table == b.fd_table
}

/// An address space freshly built from a program image: every page of
/// every segment mapped with that segment's permission bits.
pub fn build_memory_set(img: &ProgramImage, fa: &mut FrameAllocator) -> (ms: MemorySet)
    requires
        img.wf(),
        old(fa).wf(),
        old(fa).free_frames() >= img.total_pages,
    ensures
        ms.wf(),
        final(fa).wf(),
        final(fa).cap == old(fa).cap,
        final(fa).free_frames() == old(fa).free_frames() - img.total_pages,
        image_layout(img.segments@, ms@),
{
        let mut ms = MemorySet::new();
        let ghost segs = img.segments@;
        let mut i: usize = 0;
        proof {
            lemma_seg_pages_split(segs, 0);
            assert(segs.take(0) =~= Seq::<Segment>::empty());
        }
        while i < img.segments.len()
            invariant
                img.wf(),
                segs == img.segments@,
                i <= segs.len(),
                ms.wf(),
                fa.wf(),
                fa.cap == old(fa).cap,
                old(fa).free_frames() >= img.total_pages,
                fa.free_frames() == old(fa).free_frames() - seg_pages(segs.take(i as int)),
                forall|v: usize| #[trigger] ms@.contains_key(v) <==> covers(segs.take(i as int), v),
                forall|j: int, v: usize|
                    #![trigger segs[j], ms@.contains_key(v)]
                    0 <= j < i && segs[j].start_vpn <= v < segs[j].end_vpn
                        ==> ms@.contains_key(v) && ms@[v].flags == segs[j].flags,
            decreases segs.len() - i,
        {
            let seg = img.segments[i];
            proof {
                lemma_seg_pages_take_step(segs, i as int);
                lemma_seg_pages_split(segs, i as int + 1);
                assert(forall|k: int| 0 <= k < segs.skip(i as int + 1).len()
                    ==> (#[trigger] segs.skip(i as int + 1)[k]) == segs[k + i + 1]);
                lemma_seg_pages_nonneg(segs.skip(i as int + 1));
                assert(seg_pages(segs.take(i as int + 1)) <= img.total_pages);
                assert forall|v: usize| seg.start_vpn <= v < seg.end_vpn
                    implies !(#[trigger] ms@.contains_key(v)) by {
                    if ms@.contains_key(v) {
                        let j = choose|j: int|
                            0 <= j < i && (#[trigger] segs.take(i as int)[j]).start_vpn <= v
                                < segs.take(i as int)[j].end_vpn;
                        assert(segs[j].end_vpn <= segs[i as int].start_vpn);
                    }
                }
            }
            ms.insert_framed_area(seg.start_vpn, seg.end_vpn, seg.flags, fa);
            i = i + 1;
            proof {
                assert forall|v: usize| #[trigger] ms@.contains_key(v)
                    implies covers(segs.take(i as int), v) by {
                    if covers(segs.take(i as int - 1), v) {
                        let j = choose|j: int|
                            0 <= j < i - 1 && (#[trigger] segs.take(i as int - 1)[j]).start_vpn <= v
                                < segs.take(i as int - 1)[j].end_vpn;
                        assert(segs.take(i as int)[j] == segs[j]);
                    } else {
                        assert(seg.start_vpn <= v < seg.end_vpn);
                        assert(segs.take(i as int)[i - 1] == seg);
                    }
                }
                assert forall|v: usize| covers(segs.take(i as int), v)
                    implies #[trigger] ms@.contains_key(v) by {
                    let j = choose|j: int|
                        0 <= j < i && (#[trigger] segs.take(i as int)[j]).start_vpn <= v
                            < segs.take(i as int)[j].end_vpn;
                    assert(segs[j] == segs.take(i as int)[j]);
                }
            }
        }
        proof {
            assert(segs.take(segs.len() as int) =~= segs);
        }
    ms
}

/// A zeroed bank of per-syscall counters.
pub fn fresh_counters() -> (r: Vec<u32>)
    ensures
        r@.len() == MAX_SYSCALL_NUM,
        forall|i: int| 0 <= i < MAX_SYSCALL_NUM ==> (#[trigger] r@[i]) == 0,
{
    let mut r: Vec<u32> = Vec::new();
    let mut k: usize = 0;
    while k < MAX_SYSCALL_NUM
        invariant
            k <= MAX_SYSCALL_NUM,
            r@.len() == k,
            forall|j: int| 0 <= j < k ==> (#[trigger] r@[j]) == 0,
        decreases MAX_SYSCALL_NUM - k,
    {
        r.push(0);
        k = k + 1;
    }
    r
}

/// All fields except the address space and the heap bounds are equal.
pub open spec fn same_but_addrspace(a: TaskControlBlock, b: TaskControlBlock) -> bool {
    &&& a.pid == b.pid
    &&& a.status == b.status
    &&& a.exit_code == b.exit_code
    &&& a.parent == b.parent
    &&& a.children == b.children
    &&& a.syscall_times == b.syscall_times
    &&& a.start_time == b.start_time
    &&& a.started == b.started
    &&& a.prio == b.prio
    &&& a.trap_a0 == b.trap_a0
    &&& a.fd_table == b.fd_table
}

/// All fields except the address space are equal.
pub open spec fn same_but_mem(a: TaskControlBlock, b: TaskControlBlock) -> bool {
    &&& same_but_heap(a, b)
    &&& a.program_brk == b.program_brk
}

/// All fields except the syscall counters are equal.
pub open spec fn same_but_counters(a: TaskControlBlock, b: TaskControlBlock) -> bool {
    &&& a.pid == b.pid
    &&& a.status == b.status
    &&& a.exit_code == b.exit_code
    &&& a.parent == b.parent
    &&& a.children == b.children
    &&& a.memory_set@ == b.memory_set@
    &&& a.heap_bottom == b.heap_bottom
    &&& a.program_brk == b.program_brk
    &&& a.start_time == b.start_time
    &&& a.started == b.started
    &&& a.prio == b.prio
    &&& a.trap_a0 == b.trap_a0
    &&& a.fd_table == b.fd_table
}

/// When a break change of `size` bytes succeeds: the new break stays
/// between the heap bottom and the top of the user address range, and a
/// growing heap finds its new pages unmapped and enough free frames.
pub open spec fn sbrk_ok(t: TaskControlBlock, fa: FrameAllocator, size: i32) -> bool {
    let nb = t.program_brk + size as int;
    &&& t.heap_bottom <= nb
    &&& nb <= MAX_VA
    &&& (nb > t.program_brk ==> {
        &&& range_free(t.memory_set@, vpn_ceil(t.program_brk), vpn_ceil(nb as usize))
        &&& fa.free_frames() >= vpn_ceil(nb as usize) - vpn_ceil(t.program_brk)
    })
}

impl TaskControlBlock {
    /// Grows or shrinks the user heap by `size` bytes.  On success the
    /// previous break is returned, pages above the new break are unmapped
    /// (shrink) or freshly mapped heap pages appear below it (grow); on
    /// failure nothing changes.
    pub fn change_program_brk(&mut self, size: i32, fa: &mut FrameAllocator) -> (r: Option<
        usize,
    >)
        requires
            old(self).wf(),
            old(fa).wf(),
        ensures
            final(self).wf(),
            final(fa).wf(),
            final(fa).cap == old(fa).cap,
            r is Some <==> sbrk_ok(*old(self), *old(fa), size),
            r is None ==> *final(self) == *old(self) && *final(fa) == *old(fa),
            r is Some ==> {
                let nb = old(self).program_brk + size as int;
                let oc = vpn_ceil(old(self).program_brk);
                let nc = vpn_ceil(nb as usize);
                &&& r == Some(old(self).program_brk)
                &&& final(self).program_brk == nb
                &&& same_but_heap(*old(self), *final(self))
                &&& (nb >= old(self).program_brk ==> {
                    &&& forall|v: usize| oc <= v < nc
                        ==> #[trigger] final(self).memory_set@.contains_key(v)
                            && final(self).memory_set@[v].flags == HEAP_FLAGS
                    &&& forall|v: usize| !(oc <= v < nc)
                        ==> #[trigger] final(self).memory_set@.contains_key(v)
                            == old(self).memory_set@.contains_key(v)
                    &&& forall|v: usize| !(oc <= v < nc) && old(self).memory_set@.contains_key(v)
                        ==> #[trigger] final(self).memory_set@[v] == old(self).memory_set@[v]
                    &&& final(fa).free_frames() == old(fa).free_frames() - (nc - oc)
                })
                &&& (nb < old(self).program_brk ==> {
                    &&& forall|v: usize| nc <= v < oc
                        ==> !(#[trigger] final(self).memory_set@.contains_key(v))
                    &&& forall|v: usize| !(nc <= v < oc)
                        ==> #[trigger] final(self).memory_set@.contains_key(v)
                            == old(self).memory_set@.contains_key(v)
                    &&& forall|v: usize| !(nc <= v < oc) && old(self).memory_set@.contains_key(v)
                        ==> #[trigger] final(self).memory_set@[v] == old(self).memory_set@[v]
                    &&& final(fa).free_frames() >= old(fa).free_frames()
                })
            },
    {
        let nb_wide = self.program_brk as i64 + size as i64;
        if nb_wide < self.heap_bottom as i64 {
            return None;
        }
        if nb_wide > MAX_VA as i64 {
            return None;
        }
        let nb = nb_wide as usize;
        let old_brk = self.program_brk;
        let oc = page_ceil(old_brk);
        let nc = page_ceil(nb);
        if nb >= old_brk {
            proof {
                lemma_vpn_ceil_mono(old_brk, nb);
                lemma_vpn_ceil_bound(nb, MAX_VPN);
                assert(MAX_VA == MAX_VPN * PAGE_SIZE);
            }
            if !self.memory_set.range_is_free(oc, nc) {
                return None;
            }
            let need = nc - oc;
            if fa.free_count() < need {
                return None;
            }
            self.memory_set.insert_framed_area(oc, nc, HEAP_FLAGS, fa);
            self.program_brk = nb;
            Some(old_brk)
        } else {
            proof {
                lemma_vpn_ceil_mono(nb, old_brk);
            }
            self.memory_set.remove_range_lenient(nc, oc, fa);
            self.program_brk = nb;
            Some(old_brk)
        }
    }
}

} // verus!
