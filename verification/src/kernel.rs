//! The kernel's state: task arena, ready queue, running task, physical
//! frame pool, program catalogue and the millisecond clock — one value,
//! explicitly constructed and passed through the syscall layer.
//!
//! Tasks live in an arena indexed by pid.  The parent link is a weak
//! lookup by id; the children list is the owning side, so a task is
//! destroyed exactly when a `waitpid` removes it from its parent's list.

use vstd::prelude::*;
use crate::config::{IDLE_PID, MAX_CLOCK_MS, PAGE_SIZE, PID_LIMIT, page_aligned, page_ceil,
    page_floor, vpn_ceil, vpn_of, MAX_VA};
use crate::frame_alloc::FrameAllocator;
use crate::loader::ProgramImage;
use crate::memory_set::{range_free, range_mapped};
use crate::task::{TaskControlBlock, TaskStatus, same_but_counters, same_but_mem};

verus! {

/// Permission bits that `mmap` installs for `port` bits `rwx`:
/// the bits shifted into the hardware layout, plus the user bit.
pub open spec fn port_flags(port: usize) -> u8 {
    (port * 2 + 16) as u8
}

/// Executable form of [`port_flags`].
pub fn port_to_flags(port: usize) -> (r: u8)
    requires
        port <= 7,
    ensures
        r == port_flags(port),
{
    (port * 2 + 16) as u8
}

/// The whole machine state of the process- and memory-management core.
pub struct Kernel {
    /// Task arena: slot `p` holds the task with pid `p`, or nothing.
    pub tasks: Vec<Option<TaskControlBlock>>,
    /// Pids whose slot is empty and may be handed out again.
    pub recycled_pids: Vec<usize>,
    /// Pids of the runnable tasks, in arrival order.
    pub ready_queue: Vec<usize>,
    /// Pid of the task the core is executing, if any.
    pub current: Option<usize>,
    /// The physical frame pool.
    pub frame_allocator: FrameAllocator,
    /// Milliseconds since boot, fed in by the external time source.
    pub clock_ms: usize,
    /// The program images the loader can supply.
    pub programs: Vec<ProgramImage>,
}

impl Kernel {
    /// Pid `p` names a task that currently exists.
    pub open spec fn live(self, p: usize) -> bool {
        p < self.tasks@.len() && self.tasks@[p as int] is Some
    }

    /// The task with pid `p` (meaningful when it is live).
    pub open spec fn task_of(self, p: usize) -> TaskControlBlock {
        self.tasks@[p as int].unwrap()
    }

    /// A task is running.
    pub open spec fn has_current(self) -> bool {
        self.current is Some
    }

    /// Pid of the running task.
    pub open spec fn cur_pid(self) -> usize {
        self.current.unwrap()
    }

    /// The running task's control block.
    pub open spec fn cur_task(self) -> TaskControlBlock {
        self.task_of(self.cur_pid())
    }

    /// The pid the next task creation will receive.
    pub open spec fn next_pid(self) -> usize {
        if self.recycled_pids@.len() > 0 {
            self.recycled_pids@.last()
        } else {
            self.tasks@.len() as usize
        }
    }

    /// A pid is available for a new task.
    pub open spec fn can_alloc_pid(self) -> bool {
        self.recycled_pids@.len() > 0 || self.tasks@.len() < PID_LIMIT
    }

    /// Well-formedness of the whole kernel state.
    pub open spec fn wf(self) -> bool {
        &&& self.frame_allocator.wf()
        &&& self.tasks@.len() <= PID_LIMIT
        &&& forall|p: usize| #[trigger] self.live(p)
            ==> self.task_of(p).wf() && self.task_of(p).pid == p
        &&& self.recycled_pids@.no_duplicates()
        &&& forall|i: int| 0 <= i < self.recycled_pids@.len()
            ==> (#[trigger] self.recycled_pids@[i]) < self.tasks@.len()
                && self.tasks@[self.recycled_pids@[i] as int] is None
        &&& self.ready_queue@.no_duplicates()
        &&& forall|i: int| 0 <= i < self.ready_queue@.len()
            ==> self.live(#[trigger] self.ready_queue@[i])
                && self.task_of(self.ready_queue@[i]).status is Ready
        &&& (self.current is Some ==> self.live(self.cur_pid()))
        &&& forall|p: usize| #[trigger] self.live(p)
            ==> ((self.task_of(p).status is Running) <==> (self.current == Some(p)))
        &&& forall|p: usize, i: int|
            #![trigger self.task_of(p).children@[i]]
            self.live(p) && 0 <= i < self.task_of(p).children@.len() ==> {
                let c = self.task_of(p).children@[i];
                self.live(c) && c != p && self.task_of(c).parent == Some(p)
            }
        &&& forall|p: usize| #[trigger] self.live(p)
            ==> self.task_of(p).children@.no_duplicates()
        &&& (self.live(IDLE_PID) ==> self.task_of(IDLE_PID).parent is None)
        &&& (self.tasks@.len() > 0 ==> self.live(IDLE_PID))
        &&& self.clock_ms <= MAX_CLOCK_MS
        &&& forall|p: usize| #[trigger] self.live(p)
            ==> self.task_of(p).start_time <= self.clock_ms
        &&& forall|i: int| 0 <= i < self.programs@.len()
            ==> (#[trigger] self.programs@[i]).wf()
    }

    /// All fields except the task arena and the frame pool are equal.
    pub open spec fn same_but_tasks(self, o: Kernel) -> bool {
        &&& self.recycled_pids@ == o.recycled_pids@
        &&& self.ready_queue@ == o.ready_queue@
        &&& self.current == o.current
        &&& self.clock_ms == o.clock_ms
        &&& self.programs@ == o.programs@
    }

    /// The two states are observably identical.
    pub open spec fn same_state(self, o: Kernel) -> bool {
        &&& self.tasks@ == o.tasks@
        &&& self.same_but_tasks(o)
        &&& self.frame_allocator == o.frame_allocator
    }

    /// Index `j` names a best pick of queue `q`: no entry has a larger
    /// priority, and no earlier entry has the same one.
    pub open spec fn best_idx_in(self, q: Seq<usize>, j: int) -> bool {
        &&& 0 <= j < q.len()
        &&& forall|i: int| 0 <= i < q.len()
            ==> self.task_of(#[trigger] q[i]).prio <= self.task_of(q[j]).prio
        &&& forall|i: int| 0 <= i < j
            ==> self.task_of(#[trigger] q[i]).prio < self.task_of(q[j]).prio
    }

    /// A powered-on kernel with `frame_cap` physical frames, no tasks, no
    /// programs, and the clock at zero.
    pub fn new(frame_cap: usize) -> (r: Kernel)
        requires
            frame_cap <= crate::config::MAX_PPN,
        ensures
            r.wf(),
            r.tasks@.len() == 0,
            r.ready_queue@.len() == 0,
            r.current is None,
            r.clock_ms == 0,
            r.programs@.len() == 0,
            r.frame_allocator.free_frames() == frame_cap,
    {
        Kernel {
            tasks: Vec::new(),
            recycled_pids: Vec::new(),
            ready_queue: Vec::new(),
            current: None,
            frame_allocator: FrameAllocator::new(frame_cap),
            clock_ms: 0,
            programs: Vec::new(),
        }
    }

    /// Makes a program image available to `exec` and `spawn`.
    pub fn register_program(&mut self, img: ProgramImage)
        requires
            old(self).wf(),
            img.wf(),
        ensures
            final(self).wf(),
            final(self).programs@ == old(self).programs@.push(img),
            final(self).tasks@ == old(self).tasks@,
            final(self).ready_queue@ == old(self).ready_queue@,
            final(self).recycled_pids@ == old(self).recycled_pids@,
            final(self).current == old(self).current,
            final(self).clock_ms == old(self).clock_ms,
            final(self).frame_allocator == old(self).frame_allocator,
    {
        self.programs.push(img);
        proof {
            lemma_wf_frame(*old(self), *self);
        }
    }

    /// Feeds in a new reading of the external millisecond clock, which
    /// is monotonic since boot.
    pub fn advance_clock(&mut self, now_ms: usize)
        requires
            old(self).wf(),
            old(self).clock_ms <= now_ms,
            now_ms <= MAX_CLOCK_MS,
        ensures
            final(self).wf(),
            final(self).clock_ms == now_ms,
            final(self).tasks@ == old(self).tasks@,
            final(self).ready_queue@ == old(self).ready_queue@,
            final(self).recycled_pids@ == old(self).recycled_pids@,
            final(self).current == old(self).current,
            final(self).programs@ == old(self).programs@,
            final(self).frame_allocator == old(self).frame_allocator,
    {
        self.clock_ms = now_ms;
        proof {
            lemma_wf_frame(*old(self), *self);
        }
    }

    /// Removes the task with pid `p` from its arena slot.
    pub(crate) fn take_task(&mut self, p: usize) -> (t: TaskControlBlock)
        requires
            old(self).live(p),
        ensures
            t == old(self).task_of(p),
            final(self).tasks@ == old(self).tasks@.update(p as int, None),
            final(self).same_but_tasks(*old(self)),
            final(self).frame_allocator == old(self).frame_allocator,
    {
        let mut slot: Option<TaskControlBlock> = None;
        core::mem::swap(&mut self.tasks[p], &mut slot);
        slot.unwrap()
    }

    /// Puts a task back into arena slot `p`.
    pub(crate) fn put_task(&mut self, p: usize, t: TaskControlBlock)
        requires
            p < old(self).tasks@.len(),
        ensures
            final(self).tasks@ == old(self).tasks@.update(p as int, Some(t)),
            final(self).same_but_tasks(*old(self)),
            final(self).frame_allocator == old(self).frame_allocator,
    {
        self.tasks[p] = Some(t);
    }

    /// Priority of a live task.
    pub(crate) fn prio_of(&self, p: usize) -> (r: usize)
        requires
            self.live(p),
        ensures
            r == self.task_of(p).prio,
    {
        match &self.tasks[p] {
            Some(t) => t.prio,
            None => {
                proof {
                    assert(false);
                }
                0
            },
        }
    }

    /// Boots the initial process from its image: it receives the
    /// reserved pid and enters the ready queue.
    pub fn add_initproc(&mut self, img: &ProgramImage)
        requires
            old(self).wf(),
            old(self).tasks@.len() == 0,
            img.wf(),
            old(self).frame_allocator.free_frames() >= img.total_pages,
        ensures
            final(self).wf(),
            final(self).live(IDLE_PID),
            final(self).task_of(IDLE_PID).status is Ready,
            final(self).task_of(IDLE_PID).parent is None,
            final(self).ready_queue@ == seq![IDLE_PID],
            final(self).current is None,
            final(self).tasks@.len() == 1,
            final(self).clock_ms == old(self).clock_ms,
            final(self).programs@ == old(self).programs@,
    {
        proof {
            if old(self).ready_queue@.len() > 0 {
                assert(old(self).live(old(self).ready_queue@[0]));
            }
        }
        let t = TaskControlBlock::build_from_image(IDLE_PID, img, &mut self.frame_allocator);
        self.tasks.push(Some(t));
        self.ready_queue.push(IDLE_PID);
        proof {
            assert(self.ready_queue@ =~= seq![IDLE_PID]);
        }
    }

    /// Runs the scheduling loop once while the core is idle: the best
    /// ready task, if any, becomes the running task.
    pub fn run_tasks(&mut self)
        requires
            old(self).wf(),
            old(self).current is None,
        ensures
            final(self).wf(),
            old(self).ready_queue@.len() == 0 ==> final(self).same_state(*old(self)),
            old(self).ready_queue@.len() > 0 ==> final(self).has_current() && exists|j: int|
                #[trigger] old(self).best_idx_in(old(self).ready_queue@, j)
                    && dispatch_picked(*old(self), *final(self), j),
            final(self).recycled_pids@ == old(self).recycled_pids@,
            final(self).clock_ms == old(self).clock_ms,
            final(self).programs@ == old(self).programs@,
            final(self).frame_allocator == old(self).frame_allocator,
    {
        self.dispatch();
        proof {
            if old(self).ready_queue@.len() > 0 {
                let j = choose|j: int|
                    #[trigger] old(self).best_idx_in(old(self).ready_queue@, j)
                        && dispatch_picked(*old(self), *self, j);
                assert(self.current == Some(old(self).ready_queue@[j]));
            }
        }
    }

    /// Picks the highest-priority ready task — first arrival breaking
    /// ties — marks it running and dispatches it.  With an empty queue
    /// the core stays idle.
    pub(crate) fn dispatch(&mut self)
        requires
            old(self).wf(),
            old(self).current is None,
        ensures
            final(self).wf(),
            old(self).ready_queue@.len() == 0 ==> final(self).same_state(*old(self)),
            old(self).ready_queue@.len() > 0 ==> exists|j: int|
                #[trigger] old(self).best_idx_in(old(self).ready_queue@, j)
                    && dispatch_picked(*old(self), *final(self), j),
            final(self).recycled_pids@ == old(self).recycled_pids@,
            final(self).clock_ms == old(self).clock_ms,
            final(self).programs@ == old(self).programs@,
            final(self).frame_allocator == old(self).frame_allocator,
    {
        if self.ready_queue.len() == 0 {
            return ;
        }
        let mut best: usize = 0;
        let mut i: usize = 1;
        while i < self.ready_queue.len()
            invariant
                self.wf(),
                self.ready_queue@.len() > 0,
                best < i <= self.ready_queue@.len(),
                forall|k: int| 0 <= k < i
                    ==> self.task_of(#[trigger] self.ready_queue@[k]).prio
                        <= self.task_of(self.ready_queue@[best as int]).prio,
                forall|k: int| 0 <= k < best
                    ==> self.task_of(#[trigger] self.ready_queue@[k]).prio
                        < self.task_of(self.ready_queue@[best as int]).prio,
            decreases self.ready_queue@.len() - i,
        {
            let qi = self.ready_queue[i];
            let qb = self.ready_queue[best];
            if self.prio_of(qi) > self.prio_of(qb) {
                best = i;
            }
            i = i + 1;
        }
        let ghost j = best as int;
        let pid = self.ready_queue.remove(best);
        let mut t = self.take_task(pid);
        t.status = TaskStatus::Running;
        if !t.started {
            t.started = true;
            t.start_time = self.clock_ms;
        }
        self.put_task(pid, t);
        self.current = Some(pid);
        proof {
            let q = old(self).ready_queue@;
            assert(old(self).best_idx_in(q, j));
            assert(self.tasks@ =~= old(self).tasks@.update(
                pid as int,
                Some(self.task_of(pid)),
            ));
            assert forall|p: usize| #[trigger] self.live(p)
                implies self.task_of(p).wf() && self.task_of(p).pid == p by {
                assert(old(self).live(p));
            }
            assert forall|i2: int| 0 <= i2 < self.ready_queue@.len()
                implies self.live(#[trigger] self.ready_queue@[i2])
                    && self.task_of(self.ready_queue@[i2]).status is Ready by {
                let i0 = if i2 < j { i2 } else { i2 + 1 };
                assert(self.ready_queue@[i2] == q[i0]);
                assert(q[i0] != pid) by {
                    if q[i0] == pid {
                        assert(q[j] == pid);
                    }
                }
                assert(old(self).live(q[i0]));
            }
            assert forall|p: usize| #[trigger] self.live(p)
                implies ((self.task_of(p).status is Running) <==> (
            self.current == Some(p))) by {
                assert(old(self).live(p));
                if p != pid {
                    assert(old(self).task_of(p).status is Running
                        <==> old(self).current == Some(p));
                }
            }
            assert forall|p: usize, i2: int|
                #![trigger self.task_of(p).children@[i2]]
                self.live(p) && 0 <= i2 < self.task_of(p).children@.len()
                implies {
                let c = self.task_of(p).children@[i2];
                self.live(c) && c != p && self.task_of(c).parent == Some(p)
            } by {
                assert(old(self).live(p));
                assert(self.task_of(p).children@ == old(self).task_of(p).children@);
                let c = old(self).task_of(p).children@[i2];
                assert(old(self).live(c) && c != p && old(self).task_of(c).parent == Some(p));
            }
            assert forall|p: usize| #[trigger] self.live(p)
                implies self.task_of(p).children@.no_duplicates()
                    && self.task_of(p).start_time <= self.clock_ms by {
                assert(old(self).live(p));
            }
            assert forall|i2: int| 0 <= i2 < self.recycled_pids@.len()
                implies (#[trigger] self.recycled_pids@[i2]) < self.tasks@.len()
                    && self.tasks@[self.recycled_pids@[i2] as int] is None by {
                assert(old(self).recycled_pids@[i2] < old(self).tasks@.len());
                assert(old(self).live(pid));
            }
        }
    }
}

/// Well-formedness survives changes that leave the arena, the queues
/// and the running task alone: a clock advance or a new program image.
pub proof fn lemma_wf_frame(pre: Kernel, post: Kernel)
    requires
        pre.wf(),
        post.tasks@ == pre.tasks@,
        post.recycled_pids@ == pre.recycled_pids@,
        post.ready_queue@ == pre.ready_queue@,
        post.current == pre.current,
        post.frame_allocator.wf(),
        pre.clock_ms <= post.clock_ms <= MAX_CLOCK_MS,
        forall|i: int| 0 <= i < post.programs@.len() ==> (#[trigger] post.programs@[i]).wf(),
    ensures
        post.wf(),
{
    assert forall|p: usize| #[trigger] post.live(p)
        implies post.task_of(p).wf() && post.task_of(p).pid == p
            && ((post.task_of(p).status is Running) <==> (post.current == Some(p)))
            && post.task_of(p).children@.no_duplicates()
            && post.task_of(p).start_time <= post.clock_ms by {
        assert(pre.live(p));
    }
    assert forall|i: int| 0 <= i < post.recycled_pids@.len()
        implies (#[trigger] post.recycled_pids@[i]) < post.tasks@.len()
            && post.tasks@[post.recycled_pids@[i] as int] is None by {
        assert(pre.recycled_pids@[i] < pre.tasks@.len());
    }
    assert forall|i: int| 0 <= i < post.ready_queue@.len()
        implies post.live(#[trigger] post.ready_queue@[i])
            && post.task_of(post.ready_queue@[i]).status is Ready by {
        assert(pre.live(pre.ready_queue@[i]));
    }
    assert forall|p: usize, i: int|
        #![trigger post.task_of(p).children@[i]]
        post.live(p) && 0 <= i < post.task_of(p).children@.len() implies {
        let c = post.task_of(p).children@[i];
        post.live(c) && c != p && post.task_of(c).parent == Some(p)
    } by {
        assert(pre.live(p));
        let c = pre.task_of(p).children@[i];
        assert(pre.live(c) && c != p && pre.task_of(c).parent == Some(p));
    }
}

/// Well-formedness survives replacing one live task by a well-formed
/// task of the same pid, status, links and start time: only its memory,
/// heap, counters, priority, saved registers or files may differ.
pub proof fn lemma_wf_update_same_shape(pre: Kernel, post: Kernel, p: usize)
    requires
        pre.wf(),
        pre.live(p),
        post.tasks@ == pre.tasks@.update(p as int, Some(post.task_of(p))),
        post.task_of(p).wf(),
        post.task_of(p).pid == p,
        post.task_of(p).status == pre.task_of(p).status,
        post.task_of(p).children == pre.task_of(p).children,
        post.task_of(p).parent == pre.task_of(p).parent,
        post.task_of(p).start_time == pre.task_of(p).start_time,
        post.recycled_pids@ == pre.recycled_pids@,
        post.ready_queue@ == pre.ready_queue@,
        post.current == pre.current,
        post.frame_allocator.wf(),
        post.clock_ms == pre.clock_ms,
        post.programs@ == pre.programs@,
    ensures
        post.wf(),
{
    assert forall|q: usize| #[trigger] post.live(q)
        implies post.task_of(q).wf() && post.task_of(q).pid == q
            && ((post.task_of(q).status is Running) <==> (post.current == Some(q)))
            && post.task_of(q).children@.no_duplicates()
            && post.task_of(q).start_time <= post.clock_ms by {
        assert(pre.live(q));
    }
    assert forall|i: int| 0 <= i < post.recycled_pids@.len()
        implies (#[trigger] post.recycled_pids@[i]) < post.tasks@.len()
            && post.tasks@[post.recycled_pids@[i] as int] is None by {
        assert(pre.recycled_pids@[i] < pre.tasks@.len());
        assert(pre.tasks@[pre.recycled_pids@[i] as int] is None);
    }
    assert forall|i: int| 0 <= i < post.ready_queue@.len()
        implies post.live(#[trigger] post.ready_queue@[i])
            && post.task_of(post.ready_queue@[i]).status is Ready by {
        assert(pre.live(pre.ready_queue@[i]));
    }
    assert forall|q: usize, i: int|
        #![trigger post.task_of(q).children@[i]]
        post.live(q) && 0 <= i < post.task_of(q).children@.len() implies {
        let c = post.task_of(q).children@[i];
        post.live(c) && c != q && post.task_of(c).parent == Some(q)
    } by {
        assert(pre.live(q));
        assert(post.task_of(q).children@ == pre.task_of(q).children@);
        let c = pre.task_of(q).children@[i];
        assert(pre.live(c) && c != q && pre.task_of(c).parent == Some(q));
    }
}

/// After a dispatch that picked index `j` of the pre-state's ready
/// queue: that task left the queue, runs, and is otherwise unchanged;
/// its start time was recorded on its first dispatch.
pub open spec fn dispatch_picked(pre: Kernel, post: Kernel, j: int) -> bool {
    let q = pre.ready_queue@;
    &&& post.current == Some(q[j])
    &&& post.ready_queue@ == q.remove(j)
    &&& post.tasks@ == pre.tasks@.update(q[j] as int, Some(post.task_of(q[j])))
    &&& post.task_of(q[j]).status is Running
    &&& post.task_of(q[j]).started
    &&& post.task_of(q[j]).start_time == (if pre.task_of(q[j]).started {
        pre.task_of(q[j]).start_time
    } else {
        pre.clock_ms
    })
    &&& same_but_sched(pre.task_of(q[j]), post.task_of(q[j]))
}

/// `mmap` arguments that the kernel accepts: the start is page-aligned,
/// the permission bits are nonzero and only `rwx`, and no page of the
/// requested range is already mapped in the caller's address space.
pub open spec fn mmap_accepts(k: Kernel, start: usize, len: usize, port: usize) -> bool {
    &&& page_aligned(start)
    &&& 0 < port <= 7
    &&& range_free(k.cur_task().memory_set@, vpn_of(start), vpn_ceil((start + len) as usize))
}

/// A successful `mmap`: the requested pages appear in the caller's
/// address space with the requested bits, nothing else changes, and one
/// fresh frame per page left the pool.
pub open spec fn mmap_applied(pre: Kernel, post: Kernel, start: usize, len: usize,
    port: usize) -> bool {
    let c = pre.cur_pid();
    let svpn = vpn_of(start);
    let evpn = vpn_ceil((start + len) as usize);
    let m0 = pre.task_of(c).memory_set@;
    let m1 = post.task_of(c).memory_set@;
    &&& post.tasks@ == pre.tasks@.update(c as int, Some(post.task_of(c)))
    &&& same_but_mem(pre.task_of(c), post.task_of(c))
    &&& forall|v: usize| svpn <= v < evpn
        ==> #[trigger] m1.contains_key(v) && m1[v].flags == port_flags(port)
    &&& forall|v: usize| !(svpn <= v < evpn)
        ==> #[trigger] m1.contains_key(v) == m0.contains_key(v)
    &&& forall|v: usize| !(svpn <= v < evpn) && m0.contains_key(v)
        ==> #[trigger] m1[v] == m0[v]
    &&& post.same_but_tasks(pre)
    &&& post.frame_allocator.free_frames() == pre.frame_allocator.free_frames() - (evpn - svpn)
}

/// `munmap` arguments that the kernel accepts: an aligned start and a
/// range whose every page is currently mapped.
pub open spec fn munmap_accepts(k: Kernel, start: usize, len: usize) -> bool {
    &&& page_aligned(start)
    &&& range_mapped(k.cur_task().memory_set@, vpn_of(start), vpn_ceil((start + len) as usize))
}

/// A successful `munmap`: the requested pages are gone from the caller's
/// address space, nothing else changes, and the frames went back.
pub open spec fn munmap_applied(pre: Kernel, post: Kernel, svpn: usize, evpn: usize) -> bool {
    let c = pre.cur_pid();
    let m0 = pre.task_of(c).memory_set@;
    let m1 = post.task_of(c).memory_set@;
    &&& post.tasks@ == pre.tasks@.update(c as int, Some(post.task_of(c)))
    &&& same_but_mem(pre.task_of(c), post.task_of(c))
    &&& forall|v: usize| svpn <= v < evpn ==> !(#[trigger] m1.contains_key(v))
    &&& forall|v: usize| !(svpn <= v < evpn)
        ==> #[trigger] m1.contains_key(v) == m0.contains_key(v)
    &&& forall|v: usize| !(svpn <= v < evpn) && m0.contains_key(v)
        ==> #[trigger] m1[v] == m0[v]
    &&& post.same_but_tasks(pre)
    &&& post.frame_allocator.free_frames() >= pre.frame_allocator.free_frames()
}

impl Kernel {
    /// Maps `[start, start+len)` into the caller's address space with
    /// permission bits `port` (`rwx`, user-accessible).  Rejects a
    /// misaligned start, invalid bits, or any page already mapped, and
    /// then changes nothing.
    pub fn task_map(&mut self, start: usize, len: usize, port: usize) -> (r: isize)
        requires
            old(self).wf(),
            old(self).has_current(),
            page_aligned(start) && 0 < port <= 7 ==> start + len <= MAX_VA,
            mmap_accepts(*old(self), start, len, port)
                ==> old(self).frame_allocator.free_frames()
                    >= vpn_ceil((start + len) as usize) - vpn_of(start),
        ensures
            final(self).wf(),
            final(self).has_current() && final(self).cur_pid() == old(self).cur_pid(),
            r == 0 || r == -1,
            (r == 0) <==> mmap_accepts(*old(self), start, len, port),
            r == -1 ==> final(self).same_state(*old(self)),
            r == 0 ==> mmap_applied(*old(self), *final(self), start, len, port),
    {
        if start % PAGE_SIZE != 0 {
            return -1;
        }
        if port == 0 || port > 7 {
            return -1;
        }
        let svpn = page_floor(start);
        let evpn = page_ceil(start + len);
        let cur = match self.current {
            Some(c) => c,
            None => {
                proof {
                    assert(false);
                }
                0
            },
        };
        proof {
            assert(old(self).live(cur));
        }
        let mut t = self.take_task(cur);
        if !t.memory_set.range_is_free(svpn, evpn) {
            self.put_task(cur, t);
            proof {
                assert(self.tasks@ =~= old(self).tasks@);
                lemma_wf_frame(*old(self), *self);
            }
            return -1;
        }
        proof {
            crate::config::lemma_vpn_floor_le_ceil(start);
            crate::config::lemma_vpn_ceil_mono(start, (start + len) as usize);
            crate::config::lemma_vpn_ceil_bound((start + len) as usize, crate::config::MAX_VPN);
            assert(MAX_VA == crate::config::MAX_VPN * PAGE_SIZE);
        }
        let flags = port_to_flags(port);
        t.memory_set.insert_framed_area(svpn, evpn, flags, &mut self.frame_allocator);
        self.put_task(cur, t);
        proof {
            assert(self.tasks@ =~= old(self).tasks@.update(cur as int, Some(self.task_of(cur))));
            lemma_wf_update_same_shape(*old(self), *self, cur);
        }
        0
    }

    /// Unmaps `[start, start+len)` from the caller's address space.
    /// Rejects a misaligned start or any page in the range that is not
    /// mapped, and then changes nothing: the request is atomic.
    pub fn task_munmap(&mut self, start: usize, len: usize) -> (r: isize)
        requires
            old(self).wf(),
            old(self).has_current(),
            page_aligned(start) ==> start + len <= usize::MAX,
        ensures
            final(self).wf(),
            final(self).has_current() && final(self).cur_pid() == old(self).cur_pid(),
            r == 0 || r == -1,
            (r == 0) <==> munmap_accepts(*old(self), start, len),
            r == -1 ==> final(self).same_state(*old(self)),
            r == 0 ==> munmap_applied(*old(self), *final(self), vpn_of(start),
                vpn_ceil((start + len) as usize)),
    {
        if start % PAGE_SIZE != 0 {
            return -1;
        }
        let svpn = page_floor(start);
        let evpn = page_ceil(start + len);
        proof {
            crate::config::lemma_vpn_floor_le_ceil(start);
            crate::config::lemma_vpn_ceil_mono(start, (start + len) as usize);
        }
        self.munmap_pages(svpn, evpn)
    }

    /// Unmaps the page range `[svpn, evpn)` of the caller, atomically:
    /// if any page of it is unmapped, nothing changes and -1 comes back.
    pub fn munmap_pages(&mut self, svpn: usize, evpn: usize) -> (r: isize)
        requires
            old(self).wf(),
            old(self).has_current(),
            svpn <= evpn,
        ensures
            final(self).wf(),
            final(self).has_current() && final(self).cur_pid() == old(self).cur_pid(),
            r == 0 || r == -1,
            (r == 0) <==> range_mapped(old(self).cur_task().memory_set@, svpn, evpn),
            r == -1 ==> final(self).same_state(*old(self)),
            r == 0 ==> munmap_applied(*old(self), *final(self), svpn, evpn),
    {
        let cur = match self.current {
            Some(c) => c,
            None => {
                proof {
                    assert(false);
                }
                0
            },
        };
        proof {
            assert(old(self).live(cur));
        }
        let mut t = self.take_task(cur);
        if !t.memory_set.range_is_mapped(svpn, evpn) {
            self.put_task(cur, t);
            proof {
                assert(self.tasks@ =~= old(self).tasks@);
                lemma_wf_frame(*old(self), *self);
            }
            return -1;
        }
        t.memory_set.remove_range(svpn, evpn, &mut self.frame_allocator);
        self.put_task(cur, t);
        proof {
            assert(self.tasks@ =~= old(self).tasks@.update(cur as int, Some(self.task_of(cur))));
            lemma_wf_update_same_shape(*old(self), *self, cur);
        }
        0
    }

    /// Removes the mapped frames between two virtual addresses of the
    /// caller's address space; fails atomically if a page is unmapped.
    pub fn current_memory_set_munmap(&mut self, start_va: usize, end_va: usize) -> (r: isize)
        requires
            old(self).wf(),
            old(self).has_current(),
            start_va <= end_va,
        ensures
            final(self).wf(),
            final(self).has_current() && final(self).cur_pid() == old(self).cur_pid(),
            r == 0 || r == -1,
            (r == 0) <==> range_mapped(old(self).cur_task().memory_set@, vpn_of(start_va),
                vpn_ceil(end_va)),
            r == -1 ==> final(self).same_state(*old(self)),
            r == 0 ==> munmap_applied(*old(self), *final(self), vpn_of(start_va),
                vpn_ceil(end_va)),
    {
        let svpn = page_floor(start_va);
        let evpn = page_ceil(end_va);
        proof {
            crate::config::lemma_vpn_floor_le_ceil(end_va);
            assert(vpn_of(start_va) <= vpn_of(end_va)) by (nonlinear_arith)
                requires start_va <= end_va;
        }
        self.munmap_pages(svpn, evpn)
    }

    /// Counts one invocation of syscall `syscall_id` against the caller.
    pub fn set_syscall_times(&mut self, syscall_id: usize)
        requires
            old(self).wf(),
            old(self).has_current(),
            syscall_id < crate::config::MAX_SYSCALL_NUM,
            old(self).cur_task().syscall_times@[syscall_id as int] < u32::MAX,
        ensures
            final(self).wf(),
            final(self).has_current() && final(self).cur_pid() == old(self).cur_pid(),
            final(self).tasks@ == old(self).tasks@.update(old(self).cur_pid() as int,
                Some(final(self).cur_task())),
            same_but_counters(old(self).cur_task(), final(self).cur_task()),
            final(self).cur_task().syscall_times@ == old(self).cur_task().syscall_times@.update(
                syscall_id as int,
                (old(self).cur_task().syscall_times@[syscall_id as int] + 1) as u32,
            ),
            final(self).same_but_tasks(*old(self)),
            final(self).frame_allocator == old(self).frame_allocator,
    {
        let cur = match self.current {
            Some(c) => c,
            None => {
                proof {
                    assert(false);
                }
                0
            },
        };
        proof {
            assert(old(self).live(cur));
        }
        let mut t = self.take_task(cur);
        let n = t.syscall_times[syscall_id];
        t.syscall_times[syscall_id] = n + 1;
        self.put_task(cur, t);
        proof {
            assert(self.tasks@ =~= old(self).tasks@.update(cur as int, Some(self.task_of(cur))));
            lemma_wf_update_same_shape(*old(self), *self, cur);
        }
    }

    /// Suspends the running task: it re-enters the ready queue at the
    /// tail and the scheduler picks the best ready task — possibly the
    /// same one — as the new running task.
    pub fn suspend_current_and_run_next(&mut self)
        requires
            old(self).wf(),
            old(self).has_current(),
        ensures
            final(self).wf(),
            final(self).has_current(),
            exists|j: int|
                #[trigger] old(self).best_idx_in(
                    old(self).ready_queue@.push(old(self).cur_pid()),
                    j,
                ) && final(self).current == Some(
                    old(self).ready_queue@.push(old(self).cur_pid())[j],
                ) && final(self).ready_queue@ == old(self).ready_queue@.push(
                    old(self).cur_pid(),
                ).remove(j),
            final(self).tasks@.len() == old(self).tasks@.len(),
            forall|p: usize| #[trigger] final(self).live(p) == old(self).live(p),
            forall|p: usize| #[trigger] old(self).live(p)
                ==> same_but_sched(old(self).task_of(p), final(self).task_of(p)),
            forall|p: usize| old(self).live(p) && p != old(self).cur_pid()
                && final(self).current != Some(p)
                ==> (#[trigger] final(self).task_of(p)).status == old(self).task_of(p).status,
            final(self).recycled_pids@ == old(self).recycled_pids@,
            final(self).clock_ms == old(self).clock_ms,
            final(self).programs@ == old(self).programs@,
            final(self).frame_allocator == old(self).frame_allocator,
    {
        let cur = match self.current {
            Some(c) => c,
            None => {
                proof {
                    assert(false);
                }
                0
            },
        };
        proof {
            assert(old(self).live(cur));
            assert forall|i: int| 0 <= i < old(self).ready_queue@.len()
                implies (#[trigger] old(self).ready_queue@[i]) != cur by {
                assert(old(self).live(old(self).ready_queue@[i]));
                if old(self).ready_queue@[i] == cur {
                    assert(old(self).task_of(cur).status is Ready);
                }
            }
        }
        let mut t = self.take_task(cur);
        t.status = TaskStatus::Ready;
        self.put_task(cur, t);
        self.current = None;
        self.ready_queue.push(cur);
        let ghost mid = *self;
        proof {
            assert(mid.tasks@ =~= old(self).tasks@.update(cur as int, Some(mid.task_of(cur))));
            assert forall|p: usize| #[trigger] mid.live(p)
                implies mid.task_of(p).wf() && mid.task_of(p).pid == p
                    && ((mid.task_of(p).status is Running) <==> (mid.current == Some(p)))
                    && mid.task_of(p).children@.no_duplicates()
                    && mid.task_of(p).start_time <= mid.clock_ms by {
                assert(old(self).live(p));
            }
            assert forall|i: int| 0 <= i < mid.recycled_pids@.len()
                implies (#[trigger] mid.recycled_pids@[i]) < mid.tasks@.len()
                    && mid.tasks@[mid.recycled_pids@[i] as int] is None by {
                assert(old(self).recycled_pids@[i] < old(self).tasks@.len());
                assert(old(self).tasks@[old(self).recycled_pids@[i] as int] is None);
                assert(old(self).live(cur));
            }
            assert forall|i: int| 0 <= i < mid.ready_queue@.len()
                implies mid.live(#[trigger] mid.ready_queue@[i])
                    && mid.task_of(mid.ready_queue@[i]).status is Ready by {
                if i < old(self).ready_queue@.len() {
                    assert(old(self).live(old(self).ready_queue@[i]));
                }
            }
            assert forall|p: usize, i: int|
                #![trigger mid.task_of(p).children@[i]]
                mid.live(p) && 0 <= i < mid.task_of(p).children@.len() implies {
                let c = mid.task_of(p).children@[i];
                mid.live(c) && c != p && mid.task_of(c).parent == Some(p)
            } by {
                assert(old(self).live(p));
                assert(mid.task_of(p).children@ == old(self).task_of(p).children@);
                let c = old(self).task_of(p).children@[i];
                assert(old(self).live(c) && c != p && old(self).task_of(c).parent == Some(p));
            }
            assert(mid.wf());
        }
        self.dispatch();
        proof {
            let q1 = old(self).ready_queue@.push(cur);
            assert(mid.ready_queue@ == q1);
            assert(q1.len() > 0);
            let j = choose|j: int|
                #[trigger] mid.best_idx_in(q1, j) && dispatch_picked(mid, *self, j);
            assert forall|i: int| 0 <= i < q1.len()
                implies mid.task_of(#[trigger] q1[i]).prio == old(self).task_of(q1[i]).prio by {
                assert(mid.live(q1[i]));
            }
            assert(old(self).best_idx_in(q1, j));
            assert forall|p: usize| #[trigger] old(self).live(p)
                implies same_but_sched(old(self).task_of(p), self.task_of(p)) by {
                assert(mid.live(p));
                assert(same_but_sched(old(self).task_of(p), mid.task_of(p)));
                assert(same_but_sched(mid.task_of(p), self.task_of(p)));
            }
        }
    }

    /// Ends the running task: it becomes a zombie holding `exit_code`,
    /// its user memory is reclaimed, its children are handed to the
    /// initial process, and the scheduler picks the next ready task.
    /// The initial process itself must never exit.
    pub fn exit_current_and_run_next(&mut self, exit_code: i32)
        requires
            old(self).wf(),
            old(self).has_current(),
            old(self).cur_pid() != IDLE_PID,
        ensures
            final(self).wf(),
            final(self).tasks@.len() == old(self).tasks@.len(),
            forall|p: usize| #[trigger] final(self).live(p) == old(self).live(p),
            final(self).live(old(self).cur_pid()),
            final(self).task_of(old(self).cur_pid()).status is Zombie,
            final(self).task_of(old(self).cur_pid()).exit_code == exit_code,
            final(self).task_of(old(self).cur_pid()).children@.len() == 0,
            final(self).task_of(old(self).cur_pid()).memory_set@ == Map::<usize,
                crate::memory_set::PageTableEntry>::empty(),
            final(self).task_of(old(self).cur_pid()).fd_table@.len() == 0,
            final(self).task_of(IDLE_PID).children@ == old(self).task_of(
                IDLE_PID,
            ).children@ + old(self).cur_task().children@,
            forall|i: int| 0 <= i < old(self).cur_task().children@.len()
                ==> final(self).task_of(#[trigger] old(self).cur_task().children@[i]).parent
                    == Some(IDLE_PID),
            old(self).ready_queue@.len() == 0 ==> final(self).current is None
                && final(self).ready_queue@.len() == 0,
            old(self).ready_queue@.len() > 0 ==> exists|j: int|
                #[trigger] old(self).best_idx_in(old(self).ready_queue@, j)
                    && final(self).current == Some(old(self).ready_queue@[j])
                    && final(self).ready_queue@ == old(self).ready_queue@.remove(j),
            forall|p: usize| #[trigger] old(self).live(p) && p != old(self).cur_pid()
                ==> same_task_core(old(self).task_of(p), final(self).task_of(p)),
            forall|p: usize| #[trigger] old(self).live(p) && p != old(self).cur_pid()
                && p != IDLE_PID
                ==> final(self).task_of(p).children == old(self).task_of(p).children,
            forall|p: usize| #[trigger] old(self).live(p) && p != old(self).cur_pid()
                && !old(self).cur_task().children@.contains(p)
                ==> final(self).task_of(p).parent == old(self).task_of(p).parent,
            forall|p: usize| #[trigger] old(self).live(p) && p != old(self).cur_pid()
                && final(self).current != Some(p)
                ==> final(self).task_of(p).status == old(self).task_of(p).status,
            final(self).recycled_pids@ == old(self).recycled_pids@,
            final(self).clock_ms == old(self).clock_ms,
            final(self).programs@ == old(self).programs@,
            final(self).frame_allocator.free_frames()
                >= old(self).frame_allocator.free_frames(),
    {
        let cur = match self.current {
            Some(c) => c,
            None => {
                proof {
                    assert(false);
                }
                0
            },
        };
        proof {
            assert(old(self).live(cur));
            assert(old(self).tasks@.len() > 0);
            assert(old(self).live(IDLE_PID));
            assert forall|i: int| 0 <= i < old(self).ready_queue@.len()
                implies (#[trigger] old(self).ready_queue@[i]) != cur by {
                assert(old(self).live(old(self).ready_queue@[i]));
                if old(self).ready_queue@[i] == cur {
                    assert(old(self).task_of(cur).status is Ready);
                }
            }
        }
        self.current = None;
        let mut t = self.take_task(cur);
        t.status = TaskStatus::Zombie;
        t.exit_code = exit_code;
        t.memory_set.recycle_data_pages(&mut self.frame_allocator);
        t.fd_table = Vec::new();
        let mut kids: Vec<usize> = Vec::new();
        core::mem::swap(&mut t.children, &mut kids);
        self.put_task(cur, t);
        let ghost k0 = *self;
        let ghost kidseq = kids@;
        proof {
            assert(k0.tasks@ =~= old(self).tasks@.update(cur as int, Some(k0.task_of(cur))));
            assert(kidseq == old(self).cur_task().children@);
            lemma_exit_mid_wf(*old(self), k0, cur);
        }
        let mut i: usize = 0;
        while i < kids.len()
            invariant
                kids@ == kidseq,
                i <= kidseq.len(),
                self.wf(),
                self.current is None,
                cur != IDLE_PID,
                self.tasks@.len() == k0.tasks@.len(),
                forall|p: usize| #[trigger] self.live(p) == k0.live(p),
                self.live(cur),
                self.live(IDLE_PID),
                self.task_of(cur) == k0.task_of(cur),
                k0.task_of(cur).children@.len() == 0,
                self.task_of(IDLE_PID).children@ == k0.task_of(IDLE_PID).children@
                    + kidseq.take(i as int),
                same_but_children(k0.task_of(IDLE_PID), self.task_of(IDLE_PID)),
                forall|j: int| 0 <= j < i
                    ==> self.task_of(#[trigger] kidseq[j]).parent == Some(IDLE_PID)
                        && same_but_parent(k0.task_of(kidseq[j]), self.task_of(kidseq[j])),
                forall|j: int| i <= j < kidseq.len()
                    ==> self.task_of(#[trigger] kidseq[j]) == k0.task_of(kidseq[j])
                        && self.task_of(kidseq[j]).parent == Some(cur),
                forall|p: usize| #[trigger] self.live(p) && p != cur && p != IDLE_PID
                    && !kidseq.contains(p) ==> self.task_of(p) == k0.task_of(p),
                self.ready_queue@ == k0.ready_queue@,
                self.recycled_pids@ == k0.recycled_pids@,
                self.clock_ms == k0.clock_ms,
                self.programs@ == k0.programs@,
                self.frame_allocator == k0.frame_allocator,
                kidseq.no_duplicates(),
                forall|j: int| 0 <= j < kidseq.len()
                    ==> k0.live(#[trigger] kidseq[j]) && kidseq[j] != cur
                        && k0.task_of(kidseq[j]).parent == Some(cur),
            decreases kidseq.len() - i,
        {
            let c = kids[i];
            proof {
                assert(kidseq[i as int] == c);
                assert(self.live(c));
                assert(c != IDLE_PID) by {
                    if c == IDLE_PID {
                        assert(k0.task_of(IDLE_PID).parent is None);
                        assert(k0.task_of(kidseq[i as int]).parent == Some(cur));
                    }
                }
            }
            let ghost pre = *self;
            proof {
                assert(pre.task_of(cur).children@.len() == 0);
                assert forall|p: usize, i2: int|
                    #![trigger pre.task_of(p).children@[i2]]
                    pre.live(p) && 0 <= i2 < pre.task_of(p).children@.len()
                    implies pre.task_of(p).children@[i2] != c by {
                    let ch = pre.task_of(p).children@[i2];
                    assert(pre.live(ch) && pre.task_of(ch).parent == Some(p));
                    if ch == c {
                        assert(pre.task_of(c).parent == Some(cur));
                    }
                }
            }
            let mut ct = self.take_task(c);
            ct.parent = Some(IDLE_PID);
            self.put_task(c, ct);
            let mut it = self.take_task(IDLE_PID);
            it.children.push(c);
            self.put_task(IDLE_PID, it);
            proof {
                assert(self.tasks@ =~= pre.tasks@.update(c as int, Some(self.task_of(c))).update(
                    IDLE_PID as int,
                    Some(self.task_of(IDLE_PID)),
                ));
                lemma_reparent_step_wf(pre, *self, c, cur);
                assert(self.task_of(IDLE_PID).children@ =~= k0.task_of(IDLE_PID).children@
                    + kidseq.take(i as int + 1));
                assert forall|p: usize| (#[trigger] self.live(p)) == k0.live(p) by {
                    assert(pre.live(p) == k0.live(p));
                }
                assert forall|p: usize| #[trigger] self.live(p) && p != cur && p != IDLE_PID
                    && !kidseq.contains(p) implies self.task_of(p) == k0.task_of(p) by {
                    assert(pre.live(p));
                    if p == c {
                        assert(kidseq[i as int] == c);
                        assert(kidseq.contains(p));
                    } else {
                        assert(self.task_of(p) == pre.task_of(p));
                    }
                }
            }
            i = i + 1;
        }
        proof {
            assert(kidseq.take(kidseq.len() as int) =~= kidseq);
        }
        let ghost k1 = *self;
        self.dispatch();
        proof {
            let q = old(self).ready_queue@;
            assert(k1.ready_queue@ == q);
            if q.len() > 0 {
                let j = choose|j: int|
                    #[trigger] k1.best_idx_in(q, j) && dispatch_picked(k1, *self, j);
                let picked = q[j];
                assert forall|i2: int| 0 <= i2 < q.len()
                    implies k1.task_of(#[trigger] q[i2]).prio == old(self).task_of(q[i2]).prio by {
                    assert(old(self).live(q[i2]));
                    assert(k1.live(q[i2]));
                    assert(q[i2] != cur);
                    if kidseq.contains(q[i2]) {
                        let jj = choose|jj: int| 0 <= jj < kidseq.len() && kidseq[jj] == q[i2];
                        assert(same_but_parent(k0.task_of(q[i2]), k1.task_of(q[i2])));
                    } else if q[i2] != IDLE_PID {
                        assert(k1.task_of(q[i2]) == k0.task_of(q[i2]));
                    }
                }
                assert(old(self).best_idx_in(q, j));
                assert(k1.live(picked));
                assert(picked != cur);
                assert(self.task_of(cur) == k1.task_of(cur));
                assert(self.task_of(IDLE_PID).children@ == k1.task_of(IDLE_PID).children@);
                assert forall|i2: int| 0 <= i2 < kidseq.len()
                    implies self.task_of(#[trigger] kidseq[i2]).parent == Some(IDLE_PID) by {
                    assert(k1.task_of(kidseq[i2]).parent == Some(IDLE_PID));
                    if kidseq[i2] == picked {
                        assert(same_but_sched(k1.task_of(picked), self.task_of(picked)));
                    } else {
                        assert(self.task_of(kidseq[i2]) == k1.task_of(kidseq[i2]));
                    }
                }
                assert forall|p: usize| (#[trigger] self.live(p)) == old(self).live(p) by {
                    assert(k1.live(p) == k0.live(p));
                    assert(k0.live(p) == old(self).live(p));
                }
                assert forall|p: usize| #[trigger] old(self).live(p) && p != cur
                    implies same_task_core(old(self).task_of(p), k1.task_of(p)) by {
                    assert(k1.live(p));
                    if kidseq.contains(p) {
                        assert(same_but_parent(k0.task_of(p), k1.task_of(p)));
                    } else if p == IDLE_PID {
                        assert(same_but_children(k0.task_of(p), k1.task_of(p)));
                    } else {
                        assert(k1.task_of(p) == k0.task_of(p));
                    }
                }
                assert forall|p: usize| #[trigger] old(self).live(p) && p != cur
                    implies same_task_core(k1.task_of(p), self.task_of(p))
                        && (Some(p) != self.current ==> self.task_of(p) == k1.task_of(p)) by {
                    assert(k1.live(p));
                    if p == picked {
                        assert(same_but_sched(k1.task_of(p), self.task_of(p)));
                    } else {
                        assert(self.task_of(p) == k1.task_of(p));
                    }
                }
                assert forall|p: usize| #[trigger] old(self).live(p) && p != cur
                    && !old(self).cur_task().children@.contains(p)
                    implies k1.task_of(p).parent == old(self).task_of(p).parent by {
                    assert(k1.live(p));
                    if p == IDLE_PID {
                        assert(same_but_children(k0.task_of(p), k1.task_of(p)));
                    } else {
                        assert(k1.task_of(p) == k0.task_of(p));
                    }
                }
                assert forall|p: usize| #[trigger] old(self).live(p) && p != cur
                    && p != IDLE_PID
                    implies k1.task_of(p).children == old(self).task_of(p).children by {
                    assert(k1.live(p));
                    if kidseq.contains(p) {
                        assert(same_but_parent(k0.task_of(p), k1.task_of(p)));
                    } else {
                        assert(k1.task_of(p) == k0.task_of(p));
                    }
                }
                assert forall|p: usize| #[trigger] old(self).live(p) && p != cur
                    implies k1.task_of(p).status == old(self).task_of(p).status by {
                    assert(k1.live(p));
                    if kidseq.contains(p) {
                        assert(same_but_parent(k0.task_of(p), k1.task_of(p)));
                    } else if p == IDLE_PID {
                        assert(same_but_children(k0.task_of(p), k1.task_of(p)));
                    } else {
                        assert(k1.task_of(p) == k0.task_of(p));
                    }
                }
            } else {
                assert(self.same_state(k1));
                assert forall|i2: int| 0 <= i2 < kidseq.len()
                    implies self.task_of(#[trigger] kidseq[i2]).parent == Some(IDLE_PID) by {
                    assert(k1.task_of(kidseq[i2]).parent == Some(IDLE_PID));
                }
                assert forall|p: usize| (#[trigger] self.live(p)) == old(self).live(p) by {
                    assert(k1.live(p) == k0.live(p));
                    assert(k0.live(p) == old(self).live(p));
                }
                assert forall|p: usize| #[trigger] old(self).live(p) && p != cur
                    implies same_task_core(old(self).task_of(p), self.task_of(p))
                        && self.task_of(p).status == old(self).task_of(p).status
                        && (p != IDLE_PID ==> self.task_of(p).children
                            == old(self).task_of(p).children)
                        && (!old(self).cur_task().children@.contains(p)
                            ==> self.task_of(p).parent == old(self).task_of(p).parent) by {
                    assert(k1.live(p));
                    assert(self.task_of(p) == k1.task_of(p));
                    if kidseq.contains(p) {
                        assert(same_but_parent(k0.task_of(p), k1.task_of(p)));
                    } else if p == IDLE_PID {
                        assert(same_but_children(k0.task_of(p), k1.task_of(p)));
                    } else {
                        assert(k1.task_of(p) == k0.task_of(p));
                    }
                }
            }
        }
    }
}

/// A fresh child task was added under the running task: it took a dead
/// slot (or a brand-new one), entered the ready queue at the tail, and
/// the parent's children list grew by its pid.  The state stays well
/// formed.
pub(crate) proof fn lemma_wf_new_child(pre: Kernel, post: Kernel, cur: usize, np: usize)
    requires
        pre.wf(),
        pre.live(cur),
        pre.current == Some(cur),
        !pre.live(np),
        np < post.tasks@.len(),
        post.tasks@.len() <= PID_LIMIT,
        post.tasks@.len() == pre.tasks@.len() || (post.tasks@.len() == pre.tasks@.len() + 1
            && np == pre.tasks@.len()),
        forall|q: int| 0 <= q < pre.tasks@.len() && q != cur && q != np
            ==> post.tasks@[q] == pre.tasks@[q],
        post.live(cur),
        post.live(np),
        same_but_children(pre.task_of(cur), post.task_of(cur)),
        post.task_of(cur).children@ == pre.task_of(cur).children@.push(np),
        post.task_of(np).wf(),
        post.task_of(np).pid == np,
        post.task_of(np).status is Ready,
        post.task_of(np).parent == Some(cur),
        post.task_of(np).children@.len() == 0,
        post.task_of(np).start_time <= post.clock_ms,
        post.current == pre.current,
        post.ready_queue@ == pre.ready_queue@.push(np),
        (pre.recycled_pids@.len() > 0 && np == pre.recycled_pids@.last()
            && post.recycled_pids@ == pre.recycled_pids@.drop_last())
            || (pre.recycled_pids@.len() == 0 && np == pre.tasks@.len()
            && post.recycled_pids@ == pre.recycled_pids@),
        post.frame_allocator.wf(),
        post.clock_ms == pre.clock_ms,
        post.programs@ == pre.programs@,
    ensures
        post.wf(),
{
    assert(np != cur);
    assert(np != IDLE_PID) by {
        if np == IDLE_PID {
            assert(pre.tasks@.len() > 0);
            assert(pre.live(IDLE_PID));
        }
    }
    assert forall|q: usize| #[trigger] post.live(q)
        implies post.task_of(q).wf() && post.task_of(q).pid == q
            && ((post.task_of(q).status is Running) <==> (post.current == Some(q)))
            && post.task_of(q).children@.no_duplicates()
            && post.task_of(q).start_time <= post.clock_ms by {
        if q != np {
            assert(pre.live(q));
            if q == cur {
                assert forall|a: int, b: int|
                    0 <= a < b < post.task_of(cur).children@.len()
                    implies post.task_of(cur).children@[a] != post.task_of(cur).children@[b] by {
                    if b == post.task_of(cur).children@.len() - 1 {
                        assert(post.task_of(cur).children@[b] == np);
                        let ch = pre.task_of(cur).children@[a];
                        assert(pre.live(ch));
                    }
                }
            }
        }
    }
    assert forall|i: int| 0 <= i < post.recycled_pids@.len()
        implies (#[trigger] post.recycled_pids@[i]) < post.tasks@.len()
            && post.tasks@[post.recycled_pids@[i] as int] is None by {
        assert(pre.recycled_pids@[i] < pre.tasks@.len());
        assert(pre.tasks@[pre.recycled_pids@[i] as int] is None);
        assert(pre.recycled_pids@[i] != cur);
        assert(pre.recycled_pids@[i] != np) by {
            if pre.recycled_pids@[i] == np {
                assert(pre.recycled_pids@[pre.recycled_pids@.len() - 1] == np);
            }
        }
    }
    assert forall|i: int| 0 <= i < post.ready_queue@.len()
        implies post.live(#[trigger] post.ready_queue@[i])
            && post.task_of(post.ready_queue@[i]).status is Ready by {
        if i < pre.ready_queue@.len() {
            assert(pre.live(pre.ready_queue@[i]));
            assert(pre.ready_queue@[i] != np);
            assert(pre.ready_queue@[i] != cur) by {
                if pre.ready_queue@[i] == cur {
                    assert(pre.task_of(cur).status is Ready);
                    assert(pre.task_of(cur).status is Running);
                }
            }
        }
    }
    assert(post.ready_queue@.no_duplicates()) by {
        assert forall|i: int| 0 <= i < pre.ready_queue@.len()
            implies (#[trigger] pre.ready_queue@[i]) != np by {
            assert(pre.live(pre.ready_queue@[i]));
        }
    }
    assert forall|q: usize, i: int|
        #![trigger post.task_of(q).children@[i]]
        post.live(q) && 0 <= i < post.task_of(q).children@.len() implies {
        let c = post.task_of(q).children@[i];
        post.live(c) && c != q && post.task_of(c).parent == Some(q)
    } by {
        if q == np {
        } else {
            assert(pre.live(q));
            if q == cur && i == post.task_of(cur).children@.len() - 1 {
                assert(post.task_of(q).children@[i] == np);
            } else {
                assert(post.task_of(q).children@[i] == pre.task_of(q).children@[i]);
                let c = pre.task_of(q).children@[i];
                assert(pre.live(c) && c != q && pre.task_of(c).parent == Some(q));
                assert(c != np);
            }
        }
    }
}

/// A zombie child was reaped: it left its parent's children list, its
/// slot was emptied and its pid returned to the pool.  The state stays
/// well formed.
pub(crate) proof fn lemma_wf_after_reap(pre: Kernel, post: Kernel, cur: usize, c: usize, idx: int)
    requires
        pre.wf(),
        pre.live(cur),
        pre.current == Some(cur),
        pre.live(c),
        0 <= idx < pre.task_of(cur).children@.len(),
        c == pre.task_of(cur).children@[idx],
        pre.task_of(c).status is Zombie,
        post.tasks@ == pre.tasks@.update(cur as int, Some(post.task_of(cur))).update(
            c as int,
            None,
        ),
        c != cur,
        same_but_children(pre.task_of(cur), post.task_of(cur)),
        post.task_of(cur).children@ == pre.task_of(cur).children@.remove(idx),
        post.current == pre.current,
        post.ready_queue@ == pre.ready_queue@,
        post.recycled_pids@ == pre.recycled_pids@.push(c),
        post.frame_allocator.wf(),
        post.clock_ms == pre.clock_ms,
        post.programs@ == pre.programs@,
    ensures
        post.wf(),
{
    assert(pre.task_of(c).parent == Some(cur));
    assert(c != IDLE_PID) by {
        if c == IDLE_PID {
            assert(pre.task_of(IDLE_PID).parent is None);
        }
    }
    assert(post.live(cur));
    assert forall|q: usize| #[trigger] post.live(q)
        implies post.task_of(q).wf() && post.task_of(q).pid == q
            && ((post.task_of(q).status is Running) <==> (post.current == Some(q)))
            && post.task_of(q).start_time <= post.clock_ms by {
        assert(q != c);
        assert(pre.live(q));
    }
    assert forall|q: usize| #[trigger] post.live(q)
        implies post.task_of(q).children@.no_duplicates() by {
        assert(q != c);
        assert(pre.live(q));
        if q == cur {
            let s0 = pre.task_of(cur).children@;
            let s1 = post.task_of(cur).children@;
            assert forall|a: int, b: int| 0 <= a < b < s1.len() implies s1[a] != s1[b] by {
                let a0 = if a < idx { a } else { a + 1 };
                let b0 = if b < idx { b } else { b + 1 };
                assert(s1[a] == s0[a0]);
                assert(s1[b] == s0[b0]);
            }
        }
    }
    assert forall|i: int| 0 <= i < post.recycled_pids@.len()
        implies (#[trigger] post.recycled_pids@[i]) < post.tasks@.len()
            && post.tasks@[post.recycled_pids@[i] as int] is None by {
        if i < pre.recycled_pids@.len() {
            assert(pre.recycled_pids@[i] < pre.tasks@.len());
            assert(pre.tasks@[pre.recycled_pids@[i] as int] is None);
            assert(pre.recycled_pids@[i] != cur);
        } else {
            assert(post.recycled_pids@[i] == c);
        }
    }
    assert(post.recycled_pids@.no_duplicates()) by {
        assert forall|i: int| 0 <= i < pre.recycled_pids@.len()
            implies (#[trigger] pre.recycled_pids@[i]) != c by {
            if pre.recycled_pids@[i] == c {
                assert(pre.tasks@[c as int] is None);
            }
        }
    }
    assert forall|i: int| 0 <= i < post.ready_queue@.len()
        implies post.live(#[trigger] post.ready_queue@[i])
            && post.task_of(post.ready_queue@[i]).status is Ready by {
        assert(pre.live(pre.ready_queue@[i]));
        assert(pre.ready_queue@[i] != c) by {
            if pre.ready_queue@[i] == c {
                assert(pre.task_of(c).status is Ready);
            }
        }
        assert(pre.ready_queue@[i] != cur) by {
            if pre.ready_queue@[i] == cur {
                assert(pre.task_of(cur).status is Ready);
                assert(pre.task_of(cur).status is Running);
            }
        }
    }
    assert forall|q: usize, i: int|
        #![trigger post.task_of(q).children@[i]]
        post.live(q) && 0 <= i < post.task_of(q).children@.len() implies {
        let ch = post.task_of(q).children@[i];
        post.live(ch) && ch != q && post.task_of(ch).parent == Some(q)
    } by {
        assert(q != c);
        assert(pre.live(q));
        if q == cur {
            let s0 = pre.task_of(cur).children@;
            let i0 = if i < idx { i } else { i + 1 };
            assert(post.task_of(q).children@[i] == s0[i0]);
            let ch = s0[i0];
            assert(pre.live(ch) && ch != cur && pre.task_of(ch).parent == Some(cur));
            assert(ch != c) by {
                if ch == c {
                    assert(s0[i0] == c && s0[idx] == c);
                }
            }
        } else {
            let ch = pre.task_of(q).children@[i];
            assert(pre.live(ch) && ch != q && pre.task_of(ch).parent == Some(q));
            assert(ch != c) by {
                if ch == c {
                    assert(pre.task_of(c).parent == Some(q));
                }
            }
        }
    }
}

/// The fields that neither exiting, reparenting nor scheduling may
/// touch on a bystander task: everything but status, scheduling times,
/// parent and children.
pub open spec fn same_task_core(a: TaskControlBlock, b: TaskControlBlock) -> bool {
    &&& a.pid == b.pid
    &&& a.exit_code == b.exit_code
    &&& a.memory_set == b.memory_set
    &&& a.heap_bottom == b.heap_bottom
    &&& a.program_brk == b.program_brk
    &&& a.syscall_times == b.syscall_times
    &&& a.prio == b.prio
    &&& a.trap_a0 == b.trap_a0
    &&& a.fd_table == b.fd_table
}

/// All fields except the children list are equal.
pub open spec fn same_but_children(a: TaskControlBlock, b: TaskControlBlock) -> bool {
    &&& a.pid == b.pid
    &&& a.status == b.status
    &&& a.exit_code == b.exit_code
    &&& a.parent == b.parent
    &&& a.memory_set == b.memory_set
    &&& a.heap_bottom == b.heap_bottom
    &&& a.program_brk == b.program_brk
    &&& a.syscall_times == b.syscall_times
    &&& a.start_time == b.start_time
    &&& a.started == b.started
    &&& a.prio == b.prio
    &&& a.trap_a0 == b.trap_a0
    &&& a.fd_table == b.fd_table
}

/// All fields except the parent link are equal.
pub open spec fn same_but_parent(a: TaskControlBlock, b: TaskControlBlock) -> bool {
    &&& a.pid == b.pid
    &&& a.status == b.status
    &&& a.exit_code == b.exit_code
    &&& a.children == b.children
    &&& a.memory_set == b.memory_set
    &&& a.heap_bottom == b.heap_bottom
    &&& a.program_brk == b.program_brk
    &&& a.syscall_times == b.syscall_times
    &&& a.start_time == b.start_time
    &&& a.started == b.started
    &&& a.prio == b.prio
    &&& a.trap_a0 == b.trap_a0
    &&& a.fd_table == b.fd_table
}

/// After the exiting task is made a zombie with its children taken out,
/// the whole state is still well formed.
proof fn lemma_exit_mid_wf(pre: Kernel, post: Kernel, cur: usize)
    requires
        pre.wf(),
        pre.live(cur),
        pre.current == Some(cur),
        post.tasks@ == pre.tasks@.update(cur as int, Some(post.task_of(cur))),
        post.task_of(cur).wf(),
        post.task_of(cur).pid == cur,
        post.task_of(cur).status is Zombie,
        post.task_of(cur).children@.len() == 0,
        post.task_of(cur).parent == pre.task_of(cur).parent,
        post.task_of(cur).start_time == pre.task_of(cur).start_time,
        post.current is None,
        post.recycled_pids@ == pre.recycled_pids@,
        post.ready_queue@ == pre.ready_queue@,
        post.frame_allocator.wf(),
        post.clock_ms == pre.clock_ms,
        post.programs@ == pre.programs@,
        forall|i: int| 0 <= i < pre.ready_queue@.len()
            ==> (#[trigger] pre.ready_queue@[i]) != cur,
    ensures
        post.wf(),
{
    assert forall|q: usize| #[trigger] post.live(q)
        implies post.task_of(q).wf() && post.task_of(q).pid == q
            && ((post.task_of(q).status is Running) <==> (post.current == Some(q)))
            && post.task_of(q).children@.no_duplicates()
            && post.task_of(q).start_time <= post.clock_ms by {
        assert(pre.live(q));
    }
    assert forall|i: int| 0 <= i < post.recycled_pids@.len()
        implies (#[trigger] post.recycled_pids@[i]) < post.tasks@.len()
            && post.tasks@[post.recycled_pids@[i] as int] is None by {
        assert(pre.recycled_pids@[i] < pre.tasks@.len());
        assert(pre.tasks@[pre.recycled_pids@[i] as int] is None);
    }
    assert forall|i: int| 0 <= i < post.ready_queue@.len()
        implies post.live(#[trigger] post.ready_queue@[i])
            && post.task_of(post.ready_queue@[i]).status is Ready by {
        assert(pre.live(pre.ready_queue@[i]));
    }
    assert forall|q: usize, i: int|
        #![trigger post.task_of(q).children@[i]]
        post.live(q) && 0 <= i < post.task_of(q).children@.len() implies {
        let c = post.task_of(q).children@[i];
        post.live(c) && c != q && post.task_of(c).parent == Some(q)
    } by {
        assert(pre.live(q));
        assert(q != cur);
        assert(post.task_of(q).children@ == pre.task_of(q).children@);
        let c = pre.task_of(q).children@[i];
        assert(pre.live(c) && c != q && pre.task_of(c).parent == Some(q));
    }
}

/// Moving one orphan under the initial process keeps the state well
/// formed: its parent now names the initial process, whose children list
/// grew by exactly that pid.
proof fn lemma_reparent_step_wf(pre: Kernel, post: Kernel, c: usize, cur: usize)
    requires
        pre.wf(),
        pre.live(c),
        pre.live(IDLE_PID),
        c != IDLE_PID,
        cur != IDLE_PID,
        c != cur,
        pre.task_of(c).parent == Some(cur),
        forall|p: usize, i: int|
            #![trigger pre.task_of(p).children@[i]]
            pre.live(p) && 0 <= i < pre.task_of(p).children@.len()
                ==> pre.task_of(p).children@[i] != c,
        post.tasks@ == pre.tasks@.update(c as int, Some(post.task_of(c))).update(
            IDLE_PID as int,
            Some(post.task_of(IDLE_PID)),
        ),
        same_but_parent(pre.task_of(c), post.task_of(c)),
        post.task_of(c).parent == Some(IDLE_PID),
        same_but_children(pre.task_of(IDLE_PID), post.task_of(IDLE_PID)),
        post.task_of(IDLE_PID).children@ == pre.task_of(IDLE_PID).children@.push(c),
        post.current == pre.current,
        post.recycled_pids@ == pre.recycled_pids@,
        post.ready_queue@ == pre.ready_queue@,
        post.frame_allocator == pre.frame_allocator,
        post.clock_ms == pre.clock_ms,
        post.programs@ == pre.programs@,
    ensures
        post.wf(),
{
    assert forall|q: usize| #[trigger] post.live(q)
        implies post.task_of(q).wf() && post.task_of(q).pid == q
            && ((post.task_of(q).status is Running) <==> (post.current == Some(q)))
            && post.task_of(q).start_time <= post.clock_ms by {
        assert(pre.live(q));
    }
    assert forall|q: usize| #[trigger] post.live(q)
        implies post.task_of(q).children@.no_duplicates() by {
        assert(pre.live(q));
        if q == IDLE_PID {
            assert(forall|i: int| 0 <= i < pre.task_of(IDLE_PID).children@.len()
                ==> pre.task_of(IDLE_PID).children@[i] != c);
        }
    }
    assert forall|i: int| 0 <= i < post.recycled_pids@.len()
        implies (#[trigger] post.recycled_pids@[i]) < post.tasks@.len()
            && post.tasks@[post.recycled_pids@[i] as int] is None by {
        assert(pre.recycled_pids@[i] < pre.tasks@.len());
        assert(pre.tasks@[pre.recycled_pids@[i] as int] is None);
    }
    assert forall|i: int| 0 <= i < post.ready_queue@.len()
        implies post.live(#[trigger] post.ready_queue@[i])
            && post.task_of(post.ready_queue@[i]).status is Ready by {
        assert(pre.live(pre.ready_queue@[i]));
    }
    assert forall|q: usize, i: int|
        #![trigger post.task_of(q).children@[i]]
        post.live(q) && 0 <= i < post.task_of(q).children@.len() implies {
        let ch = post.task_of(q).children@[i];
        post.live(ch) && ch != q && post.task_of(ch).parent == Some(q)
    } by {
        assert(pre.live(q));
        if q == IDLE_PID && i == post.task_of(q).children@.len() - 1 {
            assert(post.task_of(q).children@[i] == c);
        } else {
            assert(post.task_of(q).children@[i] == pre.task_of(q).children@[i]);
            let ch = pre.task_of(q).children@[i];
            assert(pre.live(ch) && ch != q && pre.task_of(ch).parent == Some(q));
            assert(ch != c);
        }
    }
}

/// All fields except the scheduling ones (status, start time, started)
/// are equal.
pub open spec fn same_but_sched(a: TaskControlBlock, b: TaskControlBlock) -> bool {
    &&& a.pid == b.pid
    &&& a.exit_code == b.exit_code
    &&& a.parent == b.parent
    &&& a.children == b.children
    &&& a.memory_set == b.memory_set
    &&& a.heap_bottom == b.heap_bottom
    &&& a.program_brk == b.program_brk
    &&& a.syscall_times == b.syscall_times
    &&& a.prio == b.prio
    &&& a.trap_a0 == b.trap_a0
    &&& a.fd_table == b.fd_table
}

} // verus!
