//! Process-management syscalls.
//!
//! Every syscall validates its arguments against the calling task's
//! state before mutating anything; each user pointer goes through the
//! task's page table, never through raw arithmetic.  A syscall that
//! writes into user memory hands the value and leaves the physical
//! store — which this core cannot perform itself — to its caller, who
//! finds the destination with [`Kernel::virt2phys_addr`].

use vstd::prelude::*;
use crate::config::{IDLE_PID, MAX_PPN, MAX_SYSCALL_NUM, MAX_VA, PAGE_SIZE, PID_LIMIT,
    vpn_ceil, vpn_of};
use crate::kernel::{Kernel, lemma_wf_new_child, lemma_wf_after_reap,
    lemma_wf_update_same_shape, mmap_accepts, mmap_applied, munmap_accepts, munmap_applied,
    same_but_children, same_but_sched};
use crate::loader::{ProgramImage, bytes_eq, image_layout};
use crate::task::{TaskControlBlock, TaskStatus, fresh_counters, same_but_addrspace,
    same_but_heap, same_but_mem, sbrk_ok, HEAP_FLAGS};
use crate::util::{copy_u32_vec, copy_usize_vec};

verus! {

/// Time since boot as user programs receive it: whole seconds and the
/// milliseconds within the second.
#[derive(Clone, Copy, PartialEq, Eq, Structural, Debug)]
pub struct TimeVal {
    /// Whole seconds.
    pub sec: usize,
    /// Milliseconds within the second, offset by one as the established
    /// interface demands.
    pub msec: usize,
}

/// A task's self-description as `task_info` reports it.
pub struct TaskInfo {
    /// Life-cycle status of the queried (running) task.
    pub status: TaskStatus,
    /// Invocation count of each syscall id.
    pub syscall_times: Vec<u32>,
    /// Milliseconds since the task was first scheduled.
    pub time: usize,
}

/// Some registered program carries this name.
pub open spec fn has_program(progs: Seq<ProgramImage>, name: Seq<u8>) -> bool {
    exists|i: int| 0 <= i < progs.len() && (#[trigger] progs[i]).name@ == name
}

/// A child pid satisfies a `waitpid` filter: `-1` accepts any child.
pub open spec fn pid_matches(filter: isize, c: usize) -> bool {
    filter == -1 || c == filter as usize
}

impl Kernel {
    /// Some child of the running task satisfies the filter.
    pub open spec fn has_matching_child(self, filter: isize) -> bool {
        exists|i: int| 0 <= i < self.cur_task().children@.len() && pid_matches(
            filter,
            #[trigger] self.cur_task().children@[i],
        )
    }

    /// Some child satisfies the filter and has already exited.
    pub open spec fn has_matching_zombie(self, filter: isize) -> bool {
        exists|i: int| 0 <= i < self.cur_task().children@.len() && pid_matches(
            filter,
            #[trigger] self.cur_task().children@[i],
        ) && self.task_of(self.cur_task().children@[i]).status is Zombie
    }

    /// The running task's page table maps the page of address `va`.
    pub open spec fn cur_translates(self, va: usize) -> bool {
        self.cur_task().memory_set@.contains_key(vpn_of(va))
    }

    /// Resolves a user virtual address of the running task to a physical
    /// address: the mapped frame's base plus the offset within the page.
    pub fn virt2phys_addr(&self, virt_addr: usize) -> (r: Option<usize>)
        requires
            self.wf(),
            self.has_current(),
        ensures
            r is Some <==> self.cur_translates(virt_addr),
            r is Some ==> r == Some((self.cur_task().memory_set@[vpn_of(virt_addr)].ppn
                * PAGE_SIZE + virt_addr % PAGE_SIZE) as usize),
    {
        let offset = virt_addr % PAGE_SIZE;
        let vpn = virt_addr / PAGE_SIZE;
        let cur = match self.current {
            Some(c) => c,
            None => {
                proof {
                    assert(false);
                }
                0
            },
        };
        proof {
            assert(self.live(cur));
        }
        match &self.tasks[cur] {
            Some(t) => {
                match t.memory_set.translate(vpn) {
                    Some(pte) => {
                        proof {
                            assert(pte.ppn < MAX_PPN);
                            assert(pte.ppn * PAGE_SIZE + offset < usize::MAX) by (nonlinear_arith)
                                requires pte.ppn < MAX_PPN, offset < PAGE_SIZE;
                        }
                        Some(pte.get_ppn() * PAGE_SIZE + offset)
                    },
                    None => None,
                }
            },
            None => {
                proof {
                    assert(false);
                }
                None
            },
        }
    }

    /// Reports the running task's status, syscall counters and elapsed
    /// milliseconds since it was first scheduled.  Reading mutates
    /// nothing, so two consecutive reads agree.
    pub fn get_current_task_info(&self) -> (r: TaskInfo)
        requires
            self.wf(),
            self.has_current(),
        ensures
            r.status is Running,
            r.syscall_times@ == self.cur_task().syscall_times@,
            r.time == self.clock_ms - self.cur_task().start_time,
    {
        let cur = match self.current {
            Some(c) => c,
            None => {
                proof {
                    assert(false);
                }
                0
            },
        };
        proof {
            assert(self.live(cur));
        }
        match &self.tasks[cur] {
            Some(t) => TaskInfo {
                status: TaskStatus::Running,
                syscall_times: copy_u32_vec(&t.syscall_times),
                time: self.clock_ms - t.start_time,
            },
            None => {
                proof {
                    assert(false);
                }
                TaskInfo { status: TaskStatus::Running, syscall_times: Vec::new(), time: 0 }
            },
        }
    }

    /// First registered program of the given name.
    fn find_program(&self, path: &Vec<u8>) -> (r: Option<usize>)
        ensures
            r is Some <==> has_program(self.programs@, path@),
            r is Some ==> 0 <= r.unwrap() < self.programs@.len()
                && self.programs@[r.unwrap() as int].name@ == path@,
    {
        let mut i: usize = 0;
        while i < self.programs.len()
            invariant
                i <= self.programs@.len(),
                forall|j: int| 0 <= j < i ==> (#[trigger] self.programs@[j]).name@ != path@,
            decreases self.programs@.len() - i,
        {
            if bytes_eq(&self.programs[i].name, path) {
                return Some(i);
            }
            i = i + 1;
        }
        proof {
            if has_program(self.programs@, path@) {
                let j = choose|j: int|
                    0 <= j < self.programs@.len() && (#[trigger] self.programs@[j]).name@
                        == path@;
                assert(false);
            }
        }
        None
    }

    /// The task exits with `exit_code`: it becomes a zombie, its user
    /// memory and open files are released, its children pass to the
    /// initial process, and control passes to the next ready task (the
    /// hardware call never returns to the exiting task; here the caller
    /// continues as the newly dispatched one).  The bootstrap task never
    /// exits.
    pub fn sys_exit(&mut self, exit_code: i32)
        requires
            old(self).wf(),
            old(self).has_current(),
            old(self).cur_pid() != IDLE_PID,
        ensures
            final(self).wf(),
            final(self).live(old(self).cur_pid()),
            final(self).task_of(old(self).cur_pid()).status is Zombie,
            final(self).task_of(old(self).cur_pid()).exit_code == exit_code,
            final(self).task_of(old(self).cur_pid()).children@.len() == 0,
            final(self).task_of(old(self).cur_pid()).memory_set@ == Map::<usize,
                crate::memory_set::PageTableEntry>::empty(),
            final(self).task_of(old(self).cur_pid()).fd_table@.len() == 0,
            final(self).task_of(IDLE_PID).children@ == old(self).task_of(
                IDLE_PID,
            ).children@ + old(self).cur_task().children@,
            forall|i: int| 0 <= i < old(self).cur_task().children@.len()
                ==> final(self).task_of(#[trigger] old(self).cur_task().children@[i]).parent
                    == Some(IDLE_PID),
            old(self).ready_queue@.len() == 0 ==> final(self).current is None,
            old(self).ready_queue@.len() > 0 ==> exists|j: int|
                #[trigger] old(self).best_idx_in(old(self).ready_queue@, j)
                    && final(self).current == Some(old(self).ready_queue@[j])
                    && final(self).ready_queue@ == old(self).ready_queue@.remove(j),
            forall|p: usize| #[trigger] old(self).live(p) && p != old(self).cur_pid()
                ==> crate::kernel::same_task_core(old(self).task_of(p), final(self).task_of(p)),
            forall|p: usize| #[trigger] old(self).live(p) && p != old(self).cur_pid()
                && final(self).current != Some(p)
                ==> final(self).task_of(p).status == old(self).task_of(p).status,
            final(self).recycled_pids@ == old(self).recycled_pids@,
            final(self).clock_ms == old(self).clock_ms,
            final(self).programs@ == old(self).programs@,
    {
        self.exit_current_and_run_next(exit_code);
    }

    /// The task yields the core: it re-enters the ready queue and the
    /// best ready task runs next.  Always returns 0.
    pub fn sys_yield(&mut self) -> (r: isize)
        requires
            old(self).wf(),
            old(self).has_current(),
        ensures
            final(self).wf(),
            final(self).has_current(),
            r == 0,
            exists|j: int|
                #[trigger] old(self).best_idx_in(
                    old(self).ready_queue@.push(old(self).cur_pid()),
                    j,
                ) && final(self).current == Some(
                    old(self).ready_queue@.push(old(self).cur_pid())[j],
                ),
            forall|p: usize| #[trigger] old(self).live(p)
                ==> final(self).live(p) && same_but_sched(old(self).task_of(p),
                    final(self).task_of(p)),
    {
        self.suspend_current_and_run_next();
        0
    }

    /// Pid of the calling task.
    pub fn sys_getpid(&self) -> (r: isize)
        requires
            self.wf(),
            self.has_current(),
        ensures
            r == self.cur_pid() as int,
            0 <= r < PID_LIMIT,
    {
        let cur = match self.current {
            Some(c) => c,
            None => {
                proof {
                    assert(false);
                }
                0
            },
        };
        proof {
            assert(self.live(cur));
        }
        cur as isize
    }

    /// Duplicates the calling task: the child gets a deep copy of the
    /// address space, a fresh pid, zeroed counters, a cleared return
    /// register, and joins both the parent's children and the ready
    /// queue.  The parent receives the child's pid.
    ///
    /// The copy covers the same pages with the same permission bits,
    /// each backed by a frame that was free before the call and is
    /// distinct from every other frame of the copy.  Byte contents of
    /// frames are outside this model of physical memory.
    pub fn sys_fork(&mut self) -> (r: isize)
        requires
            old(self).wf(),
            old(self).has_current(),
            old(self).can_alloc_pid(),
            old(self).frame_allocator.free_frames()
                >= old(self).cur_task().memory_set@.dom().len(),
        ensures
            final(self).wf(),
            final(self).has_current() && final(self).cur_pid() == old(self).cur_pid(),
            r == old(self).next_pid() as int,
            r != old(self).cur_pid() as int,
            !old(self).live(old(self).next_pid()),
            final(self).live(old(self).next_pid()),
            ({
                let child = final(self).task_of(old(self).next_pid());
                &&& child.status is Ready
                &&& child.parent == Some(old(self).cur_pid())
                &&& child.children@.len() == 0
                &&& child.trap_a0 == 0
                &&& child.exit_code == 0
                &&& child.prio == old(self).cur_task().prio
                &&& child.heap_bottom == old(self).cur_task().heap_bottom
                &&& child.program_brk == old(self).cur_task().program_brk
                &&& child.fd_table@ == old(self).cur_task().fd_table@
                &&& forall|i: int| 0 <= i < MAX_SYSCALL_NUM
                    ==> (#[trigger] child.syscall_times@[i]) == 0
                &&& forall|v: usize| #[trigger] child.memory_set@.contains_key(v)
                    == old(self).cur_task().memory_set@.contains_key(v)
                &&& forall|v: usize| old(self).cur_task().memory_set@.contains_key(v)
                    ==> (#[trigger] child.memory_set@[v]).flags
                        == old(self).cur_task().memory_set@[v].flags
                &&& forall|v: usize| #[trigger] child.memory_set@.contains_key(v)
                    ==> final(self).frame_allocator.is_allocated(child.memory_set@[v].ppn)
                        && !old(self).frame_allocator.is_allocated(child.memory_set@[v].ppn)
                &&& forall|v: usize, w: usize| #[trigger] child.memory_set@.contains_key(v)
                    && #[trigger] child.memory_set@.contains_key(w) && v != w
                    ==> child.memory_set@[v].ppn != child.memory_set@[w].ppn
            }),
            same_but_children(old(self).cur_task(), final(self).cur_task()),
            final(self).cur_task().children@ == old(self).cur_task().children@.push(
                old(self).next_pid(),
            ),
            final(self).ready_queue@ == old(self).ready_queue@.push(old(self).next_pid()),
            final(self).frame_allocator.free_frames() == old(self).frame_allocator.free_frames()
                - old(self).cur_task().memory_set@.dom().len(),
            final(self).clock_ms == old(self).clock_ms,
            final(self).programs@ == old(self).programs@,
    {
        let cur = match self.current {
            Some(c) => c,
            None => {
                proof {
                    assert(false);
                }
                0
            },
        };
        proof {
            assert(old(self).live(cur));
        }
        let np = match self.recycled_pids.pop() {
            Some(p) => p,
            None => {
                self.tasks.push(None);
                self.tasks.len() - 1
            },
        };
        proof {
            assert(!old(self).live(np));
            assert(np != cur);
            assert(np < PID_LIMIT);
        }
        let mut t = self.take_task(cur);
        let child_ms = t.memory_set.clone_into(&mut self.frame_allocator);
        let child = TaskControlBlock {
            pid: np,
            status: TaskStatus::Ready,
            exit_code: 0,
            parent: Some(cur),
            children: Vec::new(),
            memory_set: child_ms,
            heap_bottom: t.heap_bottom,
            program_brk: t.program_brk,
            syscall_times: fresh_counters(),
            start_time: 0,
            started: false,
            prio: t.prio,
            trap_a0: 0,
            fd_table: copy_usize_vec(&t.fd_table),
        };
        t.children.push(np);
        self.put_task(cur, t);
        self.put_task(np, child);
        self.ready_queue.push(np);
        proof {
            assert(self.tasks@[np as int] == Some(child));
            assert forall|q: int| 0 <= q < old(self).tasks@.len() && q != cur && q != np
                implies self.tasks@[q] == old(self).tasks@[q] by {}
            lemma_wf_new_child(*old(self), *self, cur, np);
        }
        np as isize
    }

    /// Replaces the calling task's address space by one freshly built
    /// from the named program image; the task keeps its pid and links.
    /// Returns -1, changing nothing, when no image has that name.
    pub fn sys_exec(&mut self, path: &Vec<u8>) -> (r: isize)
        requires
            old(self).wf(),
            old(self).has_current(),
            forall|i: int| 0 <= i < old(self).programs@.len()
                && (#[trigger] old(self).programs@[i]).name@ == path@
                ==> old(self).frame_allocator.free_frames()
                    >= old(self).programs@[i].total_pages,
        ensures
            final(self).wf(),
            final(self).has_current() && final(self).cur_pid() == old(self).cur_pid(),
            r == 0 || r == -1,
            (r == 0) <==> has_program(old(self).programs@, path@),
            r == -1 ==> final(self).same_state(*old(self)),
            r == 0 ==> exists|i: int|
                0 <= i < old(self).programs@.len() && (#[trigger] old(
                    self,
                ).programs@[i]).name@ == path@ && {
                    let img = old(self).programs@[i];
                    let t1 = final(self).cur_task();
                    &&& image_layout(img.segments@, t1.memory_set@)
                    &&& t1.heap_bottom == img.heap_base_vpn * PAGE_SIZE
                    &&& t1.program_brk == t1.heap_bottom
                    &&& same_but_addrspace(old(self).cur_task(), t1)
                },
            r == 0 ==> final(self).same_but_tasks(*old(self)),
    {
        let idx = match self.find_program(path) {
            Some(i) => i,
            None => {
                return -1;
            },
        };
        let cur = match self.current {
            Some(c) => c,
            None => {
                proof {
                    assert(false);
                }
                0
            },
        };
        proof {
            assert(old(self).live(cur));
        }
        let mut t = self.take_task(cur);
        t.memory_set.recycle_data_pages(&mut self.frame_allocator);
        let ghost img = self.programs@[idx as int];
        let new_ms = crate::task::build_memory_set(&self.programs[idx], &mut self.frame_allocator);
        let heap_bottom = self.programs[idx].heap_base_vpn * PAGE_SIZE;
        t.memory_set = new_ms;
        t.heap_bottom = heap_bottom;
        t.program_brk = heap_bottom;
        self.put_task(cur, t);
        proof {
            assert((img.heap_base_vpn * PAGE_SIZE) % (PAGE_SIZE as int) == 0) by (nonlinear_arith);
            assert(img.heap_base_vpn * PAGE_SIZE <= MAX_VA) by (nonlinear_arith)
                requires img.heap_base_vpn < crate::config::MAX_VPN,
                    MAX_VA == crate::config::MAX_VPN * PAGE_SIZE;
            assert(MAX_VA == crate::config::MAX_VPN * PAGE_SIZE);
            assert(self.tasks@ =~= old(self).tasks@.update(cur as int, Some(self.task_of(cur))));
            lemma_wf_update_same_shape(*old(self), *self, cur);
        }
        0
    }

    /// Starts the named program as a fresh child of the calling task —
    /// without copying the parent's address space — and returns the new
    /// pid, or -1 when no image has that name.
    pub fn sys_spawn(&mut self, path: &Vec<u8>) -> (r: isize)
        requires
            old(self).wf(),
            old(self).has_current(),
            has_program(old(self).programs@, path@) ==> old(self).can_alloc_pid(),
            forall|i: int| 0 <= i < old(self).programs@.len()
                && (#[trigger] old(self).programs@[i]).name@ == path@
                ==> old(self).frame_allocator.free_frames()
                    >= old(self).programs@[i].total_pages,
        ensures
            final(self).wf(),
            final(self).has_current() && final(self).cur_pid() == old(self).cur_pid(),
            r == -1 <==> !has_program(old(self).programs@, path@),
            r == -1 ==> final(self).same_state(*old(self)),
            r != -1 ==> {
                let np = old(self).next_pid();
                &&& r == np as int
                &&& np != old(self).cur_pid()
                &&& !old(self).live(np)
                &&& final(self).live(np)
                &&& final(self).task_of(np).status is Ready
                &&& final(self).task_of(np).parent == Some(old(self).cur_pid())
                &&& final(self).task_of(np).children@.len() == 0
                &&& same_but_children(old(self).cur_task(), final(self).cur_task())
                &&& final(self).cur_task().children@ == old(self).cur_task().children@.push(np)
                &&& final(self).ready_queue@ == old(self).ready_queue@.push(np)
                &&& exists|i: int|
                    0 <= i < old(self).programs@.len() && (#[trigger] old(
                        self,
                    ).programs@[i]).name@ == path@ && image_layout(
                        old(self).programs@[i].segments@,
                        final(self).task_of(np).memory_set@,
                    ) && final(self).frame_allocator.free_frames()
                        == old(self).frame_allocator.free_frames()
                            - old(self).programs@[i].total_pages
            },
            final(self).clock_ms == old(self).clock_ms,
            final(self).programs@ == old(self).programs@,
    {
        let idx = match self.find_program(path) {
            Some(i) => i,
            None => {
                return -1;
            },
        };
        let cur = match self.current {
            Some(c) => c,
            None => {
                proof {
                    assert(false);
                }
                0
            },
        };
        proof {
            assert(old(self).live(cur));
        }
        let np = match self.recycled_pids.pop() {
            Some(p) => p,
            None => {
                self.tasks.push(None);
                self.tasks.len() - 1
            },
        };
        proof {
            assert(!old(self).live(np));
            assert(np != cur);
            assert(np < PID_LIMIT);
        }
        let mut child = TaskControlBlock::build_from_image(
            np,
            &self.programs[idx],
            &mut self.frame_allocator,
        );
        child.parent = Some(cur);
        let mut t = self.take_task(cur);
        t.children.push(np);
        self.put_task(cur, t);
        self.put_task(np, child);
        self.ready_queue.push(np);
        proof {
            assert forall|q: int| 0 <= q < old(self).tasks@.len() && q != cur && q != np
                implies self.tasks@[q] == old(self).tasks@[q] by {}
            lemma_wf_new_child(*old(self), *self, cur, np);
        }
        np as isize
    }

    /// Reaps one exited child.  With no child matching the filter the
    /// result is -1; with matching children none of which has exited it
    /// is -2; with an untranslatable result pointer it is -1 and nothing
    /// is reaped.  Otherwise the first matching zombie is destroyed, its
    /// pid returns to the pool, and its pid and exit code come back so
    /// the caller can store the code at the resolved address.
    #[verifier::rlimit(100)]
    pub fn sys_waitpid(&mut self, pid: isize, exit_code_ptr: usize) -> (r: (isize, Option<i32>))
        requires
            old(self).wf(),
            old(self).has_current(),
        ensures
            final(self).wf(),
            final(self).has_current() && final(self).cur_pid() == old(self).cur_pid(),
            r.0 == -1 <==> (!old(self).has_matching_child(pid) || (old(
                self,
            ).has_matching_zombie(pid) && !old(self).cur_translates(exit_code_ptr))),
            r.0 == -2 <==> (old(self).has_matching_child(pid) && !old(
                self,
            ).has_matching_zombie(pid)),
            (r.0 >= 0) <==> (old(self).has_matching_zombie(pid) && old(self).cur_translates(
                exit_code_ptr,
            )),
            r.0 == -1 || r.0 == -2 ==> r.1 is None && final(self).same_state(*old(self)),
            r.0 >= 0 ==> exists|j: int|
                0 <= j < old(self).cur_task().children@.len() && pid_matches(
                    pid,
                    #[trigger] old(self).cur_task().children@[j],
                ) && {
                    let c = old(self).cur_task().children@[j];
                    &&& old(self).task_of(c).status is Zombie
                    &&& forall|i: int| 0 <= i < j ==> !(pid_matches(
                        pid,
                        #[trigger] old(self).cur_task().children@[i],
                    ) && old(self).task_of(old(self).cur_task().children@[i]).status is Zombie)
                    &&& r.0 == c as int
                    &&& r.1 == Some(old(self).task_of(c).exit_code)
                    &&& !final(self).live(c)
                    &&& final(self).cur_task().children@ == old(
                        self,
                    ).cur_task().children@.remove(j)
                    &&& same_but_children(old(self).cur_task(), final(self).cur_task())
                    &&& final(self).recycled_pids@ == old(self).recycled_pids@.push(c)
                },
            r.0 >= 0 ==> final(self).ready_queue@ == old(self).ready_queue@
                && final(self).current == old(self).current
                && final(self).clock_ms == old(self).clock_ms
                && final(self).programs@ == old(self).programs@,
    {
        let cur = match self.current {
            Some(c) => c,
            None => {
                proof {
                    assert(false);
                }
                0
            },
        };
        proof {
            assert(old(self).live(cur));
        }
        let mut has_match = false;
        let mut zidx: Option<usize> = None;
        let n = match &self.tasks[cur] {
            Some(t) => t.children.len(),
            None => {
                proof {
                    assert(false);
                }
                0
            },
        };
        let mut i: usize = 0;
        while i < n
            invariant
                self == old(self),
                self.wf(),
                self.live(cur),
                self.current == Some(cur),
                n == self.task_of(cur).children@.len(),
                i <= n,
                has_match == exists|k: int| 0 <= k < i && pid_matches(
                    pid,
                    #[trigger] self.task_of(cur).children@[k],
                ),
                zidx is Some <==> exists|k: int| 0 <= k < i && pid_matches(
                    pid,
                    #[trigger] self.task_of(cur).children@[k],
                ) && self.task_of(self.task_of(cur).children@[k]).status is Zombie,
                zidx is Some ==> {
                    let z = zidx.unwrap() as int;
                    &&& 0 <= z < i
                    &&& pid_matches(pid, self.task_of(cur).children@[z])
                    &&& self.task_of(self.task_of(cur).children@[z]).status is Zombie
                    &&& forall|k: int| 0 <= k < z ==> !(pid_matches(
                        pid,
                        #[trigger] self.task_of(cur).children@[k],
                    ) && self.task_of(self.task_of(cur).children@[k]).status is Zombie)
                },
            decreases n - i,
        {
            let c = match &self.tasks[cur] {
                Some(t) => t.children[i],
                None => {
                    proof {
                        assert(false);
                    }
                    0
                },
            };
            let matches_filter = pid == -1 || c == pid as usize;
            if matches_filter {
                has_match = true;
                if zidx.is_none() {
                    proof {
                        assert(self.live(c));
                    }
                    let z = match &self.tasks[c] {
                        Some(ct) => ct.is_zombie(),
                        None => {
                            proof {
                                assert(false);
                            }
                            false
                        },
                    };
                    if z {
                        zidx = Some(i);
                    }
                }
            }
            i = i + 1;
        }
        if !has_match {
            return (-1, None);
        }
        let idx = match zidx {
            Some(z) => z,
            None => {
                return (-2, None);
            },
        };
        if self.virt2phys_addr(exit_code_ptr).is_none() {
            return (-1, None);
        }
        let mut t = self.take_task(cur);
        let c = t.children[idx];
        t.children.remove(idx);
        self.put_task(cur, t);
        proof {
            assert(old(self).live(c));
            assert(c != cur);
        }
        let mut ct = self.take_task(c);
        let exit_code = ct.exit_code;
        ct.memory_set.recycle_data_pages(&mut self.frame_allocator);
        self.recycled_pids.push(c);
        proof {
            assert(self.tasks@ =~= old(self).tasks@.update(cur as int,
                Some(self.task_of(cur))).update(c as int, None));
            lemma_wf_after_reap(*old(self), *self, cur, c, idx as int);
        }
        (c as isize, Some(exit_code))
    }

    /// Current time: whole seconds and milliseconds-within-second (the
    /// established interface adds a flat second and offsets the
    /// milliseconds by one).  The value to store at the user's `TimeVal`
    /// address comes back alongside the status; an address whose page is
    /// unmapped gives -1 and no value.
    pub fn sys_get_time(&self, ts: usize, _tz: usize) -> (r: (isize, Option<TimeVal>))
        requires
            self.wf(),
            self.has_current(),
        ensures
            r.0 == 0 || r.0 == -1,
            (r.0 == 0) <==> self.cur_translates(ts),
            r.0 == 0 ==> r.1 == Some(
                TimeVal {
                    sec: ((self.clock_ms + 1000) / 1000) as usize,
                    msec: (1 + (self.clock_ms + 1000) % 1000) as usize,
                },
            ),
            r.0 == -1 ==> r.1 is None,
    {
        if self.virt2phys_addr(ts).is_none() {
            return (-1, None);
        }
        let ms = self.clock_ms + 1000;
        (0, Some(TimeVal { sec: ms / 1000, msec: 1 + ms % 1000 }))
    }

    /// The running task's self-description, to be stored at the user's
    /// `TaskInfo` address; an address whose page is unmapped gives -1
    /// and no value.
    pub fn sys_task_info(&self, ti: usize) -> (r: (isize, Option<TaskInfo>))
        requires
            self.wf(),
            self.has_current(),
        ensures
            r.0 == 0 || r.0 == -1,
            (r.0 == 0) <==> self.cur_translates(ti),
            r.0 == 0 ==> r.1 is Some && {
                let info = r.1.unwrap();
                &&& info.status is Running
                &&& info.syscall_times@ == self.cur_task().syscall_times@
                &&& info.time == self.clock_ms - self.cur_task().start_time
            },
            r.0 == -1 ==> r.1 is None,
    {
        if self.virt2phys_addr(ti).is_none() {
            return (-1, None);
        }
        (0, Some(self.get_current_task_info()))
    }

    /// Maps anonymous memory; see [`Kernel::task_map`].
    pub fn sys_mmap(&mut self, start: usize, len: usize, port: usize) -> (r: isize)
        requires
            old(self).wf(),
            old(self).has_current(),
            crate::config::page_aligned(start) && 0 < port <= 7 ==> start + len <= MAX_VA,
            mmap_accepts(*old(self), start, len, port)
                ==> old(self).frame_allocator.free_frames()
                    >= vpn_ceil((start + len) as usize) - vpn_of(start),
        ensures
            final(self).wf(),
            final(self).has_current() && final(self).cur_pid() == old(self).cur_pid(),
            r == 0 || r == -1,
            (r == 0) <==> mmap_accepts(*old(self), start, len, port),
            r == -1 ==> final(self).same_state(*old(self)),
            r == 0 ==> mmap_applied(*old(self), *final(self), start, len, port),
    {
        self.task_map(start, len, port)
    }

    /// Unmaps memory; see [`Kernel::task_munmap`].
    pub fn sys_munmap(&mut self, start: usize, len: usize) -> (r: isize)
        requires
            old(self).wf(),
            old(self).has_current(),
            crate::config::page_aligned(start) ==> start + len <= usize::MAX,
        ensures
            final(self).wf(),
            final(self).has_current() && final(self).cur_pid() == old(self).cur_pid(),
            r == 0 || r == -1,
            (r == 0) <==> munmap_accepts(*old(self), start, len),
            r == -1 ==> final(self).same_state(*old(self)),
            r == 0 ==> munmap_applied(*old(self), *final(self), vpn_of(start),
                vpn_ceil((start + len) as usize)),
    {
        self.task_munmap(start, len)
    }

    /// Moves the program break by `size` bytes and returns the previous
    /// break, or -1 when the change is impossible.
    pub fn sys_sbrk(&mut self, size: i32) -> (r: isize)
        requires
            old(self).wf(),
            old(self).has_current(),
        ensures
            final(self).wf(),
            final(self).has_current() && final(self).cur_pid() == old(self).cur_pid(),
            (r == -1) <==> !sbrk_ok(old(self).cur_task(), old(self).frame_allocator, size),
            r == -1 ==> final(self).same_state(*old(self)),
            r != -1 ==> {
                let t0 = old(self).cur_task();
                let t1 = final(self).cur_task();
                let nb = t0.program_brk + size as int;
                let oc = vpn_ceil(t0.program_brk);
                let nc = vpn_ceil(nb as usize);
                &&& r == t0.program_brk as int
                &&& t1.program_brk == nb
                &&& same_but_heap(t0, t1)
                &&& (nb >= t0.program_brk ==> {
                    &&& forall|v: usize| oc <= v < nc
                        ==> #[trigger] t1.memory_set@.contains_key(v)
                            && t1.memory_set@[v].flags == HEAP_FLAGS
                    &&& forall|v: usize| !(oc <= v < nc)
                        ==> #[trigger] t1.memory_set@.contains_key(v)
                            == t0.memory_set@.contains_key(v)
                    &&& forall|v: usize| !(oc <= v < nc) && t0.memory_set@.contains_key(v)
                        ==> #[trigger] t1.memory_set@[v] == t0.memory_set@[v]
                    &&& final(self).frame_allocator.free_frames()
                        == old(self).frame_allocator.free_frames() - (nc - oc)
                })
                &&& (nb < t0.program_brk ==> {
                    &&& forall|v: usize| nc <= v < oc
                        ==> !(#[trigger] t1.memory_set@.contains_key(v))
                    &&& forall|v: usize| !(nc <= v < oc)
                        ==> #[trigger] t1.memory_set@.contains_key(v)
                            == t0.memory_set@.contains_key(v)
                    &&& forall|v: usize| !(nc <= v < oc) && t0.memory_set@.contains_key(v)
                        ==> #[trigger] t1.memory_set@[v] == t0.memory_set@[v]
                    &&& final(self).frame_allocator.free_frames()
                        >= old(self).frame_allocator.free_frames()
                })
                &&& final(self).tasks@ == old(self).tasks@.update(old(self).cur_pid() as int,
                    Some(t1))
                &&& final(self).same_but_tasks(*old(self))
            },
    {
        let cur = match self.current {
            Some(c) => c,
            None => {
                proof {
                    assert(false);
                }
                0
            },
        };
        proof {
            assert(old(self).live(cur));
        }
        let mut t = self.take_task(cur);
        let res = t.change_program_brk(size, &mut self.frame_allocator);
        self.put_task(cur, t);
        proof {
            assert(self.tasks@ =~= old(self).tasks@.update(cur as int, Some(self.task_of(cur))));
            lemma_wf_update_same_shape(*old(self), *self, cur);
            if res is None {
                assert(self.tasks@ =~= old(self).tasks@);
            }
        }
        match res {
            Some(old_brk) => old_brk as isize,
            None => -1,
        }
    }

    /// Sets the calling task's scheduling priority; values below 2 are
    /// invalid and rejected with -1, valid values are echoed back.
    pub fn sys_set_priority(&mut self, prio: isize) -> (r: isize)
        requires
            old(self).wf(),
            old(self).has_current(),
        ensures
            final(self).wf(),
            final(self).has_current() && final(self).cur_pid() == old(self).cur_pid(),
            prio >= 2 ==> r == prio && final(self).cur_task() == (TaskControlBlock {
                prio: prio as usize,
                ..old(self).cur_task()
            }) && final(self).tasks@ == old(self).tasks@.update(
                old(self).cur_pid() as int,
                Some(final(self).cur_task()),
            ) && final(self).same_but_tasks(*old(self))
                && final(self).frame_allocator == old(self).frame_allocator,
            prio < 2 ==> r == -1 && final(self).same_state(*old(self)),
    {
        if prio < 2 {
            return -1;
        }
        let cur = match self.current {
            Some(c) => c,
            None => {
                proof {
                    assert(false);
                }
                0
            },
        };
        proof {
            assert(old(self).live(cur));
        }
        let mut t = self.take_task(cur);
        t.prio = prio as usize;
        self.put_task(cur, t);
        proof {
            assert(self.tasks@ =~= old(self).tasks@.update(cur as int, Some(self.task_of(cur))));
            lemma_wf_update_same_shape(*old(self), *self, cur);
        }
        prio
    }
}

} // verus!
