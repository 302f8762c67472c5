//! Cross-syscall laws of the kernel, each proved from the syscalls'
//! contracts alone.

use vstd::prelude::*;
use crate::config::{PAGE_SIZE, MAX_VA, page_aligned, vpn_ceil, vpn_of};
use crate::kernel::{Kernel, mmap_accepts, mmap_applied, munmap_accepts, munmap_applied};
use crate::memory_set::{range_free, range_mapped};
use crate::syscall::TaskInfo;

verus! {

/// No double mapping: after `mmap` has mapped a range with a positive
/// length, an immediate second `mmap` of the same range is rejected —
/// its argument check fails on the already-mapped pages, so the syscall
/// returns -1.
pub proof fn lemma_mmap_no_double_map(
    pre: Kernel,
    mid: Kernel,
    start: usize,
    len: usize,
    port: usize,
)
    requires
        pre.wf(),
        pre.has_current(),
        len > 0,
        start + len <= MAX_VA,
        mmap_accepts(pre, start, len, port),
        mmap_applied(pre, mid, start, len, port),
        mid.has_current() && mid.cur_pid() == pre.cur_pid(),
    ensures
        !mmap_accepts(mid, start, len, port),
{
    let svpn = vpn_of(start);
    let evpn = vpn_ceil((start + len) as usize);
    let s1: usize = (start + len) as usize;
    assert(svpn < evpn) by {
        if s1 % PAGE_SIZE == 0 {
            assert(start / PAGE_SIZE < s1 / PAGE_SIZE) by (nonlinear_arith)
                requires
                    start % PAGE_SIZE == 0,
                    s1 % PAGE_SIZE == 0,
                    start < s1,
            ;
        } else {
            assert(start / PAGE_SIZE <= s1 / PAGE_SIZE) by (nonlinear_arith)
                requires
                    start < s1,
            ;
        }
    }
    assert(mid.cur_task().memory_set@.contains_key(svpn));
}

/// What `mmap` mapped, `munmap` over exactly that range takes back:
/// after a successful `mmap` the matching `munmap` request passes its
/// argument check, so the syscall returns 0.
pub proof fn lemma_mmap_then_munmap_accepted(
    pre: Kernel,
    mid: Kernel,
    start: usize,
    len: usize,
    port: usize,
)
    requires
        pre.wf(),
        pre.has_current(),
        mmap_accepts(pre, start, len, port),
        mmap_applied(pre, mid, start, len, port),
        mid.has_current() && mid.cur_pid() == pre.cur_pid(),
    ensures
        munmap_accepts(mid, start, len),
{
}

/// After a successful `munmap`, any aligned request whose page range
/// includes one of the pages just unmapped fails the `munmap` argument
/// check, so the syscall returns -1.
pub proof fn lemma_munmap_rejects_unmapped_page(
    pre: Kernel,
    post: Kernel,
    svpn: usize,
    evpn: usize,
    s2: usize,
    e2: usize,
    v: usize,
)
    requires
        pre.wf(),
        pre.has_current(),
        munmap_applied(pre, post, svpn, evpn),
        post.has_current() && post.cur_pid() == pre.cur_pid(),
        s2 <= v < e2,
        svpn <= v < evpn,
    ensures
        !range_mapped(post.cur_task().memory_set@, s2, e2),
{
    assert(!post.cur_task().memory_set@.contains_key(v));
}

/// Permission bits outside `rwx`, or none at all, are never accepted by
/// `mmap`, whatever the address and length: the syscall returns -1.
pub proof fn lemma_mmap_invalid_port(k: Kernel, start: usize, len: usize, port: usize)
    requires
        port == 0 || port > 7,
    ensures
        !mmap_accepts(k, start, len, port),
{
}

/// Growing the heap by `n` bytes and immediately shrinking it by `n`
/// is a no-op on the address space: the first successful `sbrk` maps
/// exactly the pages between the old and new break, the second unmaps
/// exactly those, and every other mapping rides through untouched.
/// The two calls' contracts force the states `k0 -> k1 -> k2` below.
pub proof fn lemma_sbrk_round_trip(k0: Kernel, k1: Kernel, k2: Kernel, n: i32)
    requires
        n >= 0,
        k0.wf() && k0.has_current(),
        k1.has_current() && k1.cur_pid() == k0.cur_pid(),
        k2.has_current() && k2.cur_pid() == k0.cur_pid(),
        ({
            let t0 = k0.cur_task();
            let t1 = k1.cur_task();
            let nb = t0.program_brk + n as int;
            let oc = vpn_ceil(t0.program_brk);
            let nc = vpn_ceil(nb as usize);
            &&& nb <= MAX_VA
            &&& range_free(t0.memory_set@, oc, nc)
            &&& t1.program_brk == nb
            &&& forall|v: usize| oc <= v < nc ==> #[trigger] t1.memory_set@.contains_key(v)
            &&& forall|v: usize| !(oc <= v < nc)
                ==> #[trigger] t1.memory_set@.contains_key(v)
                    == t0.memory_set@.contains_key(v)
            &&& forall|v: usize| !(oc <= v < nc) && t0.memory_set@.contains_key(v)
                ==> #[trigger] t1.memory_set@[v] == t0.memory_set@[v]
        }),
        ({
            let t1 = k1.cur_task();
            let t2 = k2.cur_task();
            let nb = t1.program_brk - n as int;
            let nc = vpn_ceil(nb as usize);
            let oc = vpn_ceil(t1.program_brk);
            &&& 0 <= nb
            &&& t2.program_brk == nb
            &&& (n > 0 ==> {
                &&& forall|v: usize| nc <= v < oc
                    ==> !(#[trigger] t2.memory_set@.contains_key(v))
                &&& forall|v: usize| !(nc <= v < oc)
                    ==> #[trigger] t2.memory_set@.contains_key(v)
                        == t1.memory_set@.contains_key(v)
                &&& forall|v: usize| !(nc <= v < oc) && t1.memory_set@.contains_key(v)
                    ==> #[trigger] t2.memory_set@[v] == t1.memory_set@[v]
            })
            &&& (n == 0 ==> t2.memory_set@ == t1.memory_set@)
        }),
    ensures
        k2.cur_task().program_brk == k0.cur_task().program_brk,
        forall|v: usize| #[trigger] k2.cur_task().memory_set@.contains_key(v)
            == k0.cur_task().memory_set@.contains_key(v),
        forall|v: usize| k0.cur_task().memory_set@.contains_key(v)
            ==> #[trigger] k2.cur_task().memory_set@[v] == k0.cur_task().memory_set@[v],
{
    let t0 = k0.cur_task();
    let t1 = k1.cur_task();
    let t2 = k2.cur_task();
    let oc = vpn_ceil(t0.program_brk);
    let nc = vpn_ceil((t0.program_brk + n as int) as usize);
    if n > 0 {
        assert forall|v: usize| #[trigger] t2.memory_set@.contains_key(v)
            == t0.memory_set@.contains_key(v) by {
            if oc <= v < nc {
                assert(!t0.memory_set@.contains_key(v));
                assert(!t2.memory_set@.contains_key(v));
            } else {
                assert(t2.memory_set@.contains_key(v) == t1.memory_set@.contains_key(v));
            }
        }
        assert forall|v: usize| t0.memory_set@.contains_key(v)
            implies #[trigger] t2.memory_set@[v] == t0.memory_set@[v] by {
            assert(!(oc <= v < nc));
            assert(t1.memory_set@[v] == t0.memory_set@[v]);
        }
    } else {
        assert forall|v: usize| #[trigger] t2.memory_set@.contains_key(v)
            == t0.memory_set@.contains_key(v) by {
            assert(!(oc <= v < nc));
        }
        assert forall|v: usize| t0.memory_set@.contains_key(v)
            implies #[trigger] t2.memory_set@[v] == t0.memory_set@[v] by {
            assert(!(oc <= v < nc));
        }
    }
}

/// Reading `task_info` mutates nothing, so when between two reads only
/// the external clock has advanced, the two reports carry identical
/// syscall-count banks and a non-decreasing elapsed-time field.
pub proof fn lemma_task_info_idempotent(
    pre: Kernel,
    post: Kernel,
    info1: TaskInfo,
    info2: TaskInfo,
)
    requires
        pre.wf(),
        pre.has_current(),
        post.wf(),
        post.has_current(),
        post.tasks@ == pre.tasks@,
        post.current == pre.current,
        pre.clock_ms <= post.clock_ms,
        info1.syscall_times@ == pre.cur_task().syscall_times@,
        info1.time == pre.clock_ms - pre.cur_task().start_time,
        info2.syscall_times@ == post.cur_task().syscall_times@,
        info2.time == post.clock_ms - post.cur_task().start_time,
    ensures
        info2.syscall_times@ == info1.syscall_times@,
        info1.time <= info2.time,
{
    assert(pre.live(pre.cur_pid()));
    assert(pre.cur_task().start_time <= pre.clock_ms);
}

} // verus!

