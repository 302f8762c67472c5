use oscore::config::PAGE_SIZE;
use oscore::kernel::Kernel;
use oscore::loader::{ProgramImage, Segment};
use oscore::syscall::TimeVal;

fn image(name: &[u8], heap_base_vpn: usize) -> ProgramImage {
    ProgramImage {
        name: name.to_vec(),
        segments: vec![
            Segment { start_vpn: 16, end_vpn: 18, flags: 0x1e },
            Segment { start_vpn: 20, end_vpn: 21, flags: 0x16 },
        ],
        heap_base_vpn,
        total_pages: 3,
    }
}

fn booted() -> Kernel {
    let mut k = Kernel::new(4096);
    k.register_program(image(b"init", 64));
    k.register_program(image(b"x", 96));
    k.register_program(image(b"other", 128));
    let img = image(b"init", 64);
    k.add_initproc(&img);
    k.run_tasks();
    k
}

// A user address that the boot image maps (first segment).
const MAPPED_VA: usize = 16 * PAGE_SIZE;
// A user address no boot-image segment or heap page covers.
const UNMAPPED_VA: usize = 70 * PAGE_SIZE;

#[test]
fn boot_runs_initproc() {
    let k = booted();
    assert_eq!(k.sys_getpid(), 0);
    assert!(k.virt2phys_addr(MAPPED_VA).is_some());
    assert!(k.virt2phys_addr(UNMAPPED_VA).is_none());
}

#[test]
fn mmap_maps_and_rejects_double_map() {
    let mut k = booted();
    assert_eq!(k.sys_mmap(0x80000, 2 * PAGE_SIZE, 3), 0);
    assert!(k.virt2phys_addr(0x80000).is_some());
    assert!(k.virt2phys_addr(0x80000 + PAGE_SIZE).is_some());
    // mapping the same range again must fail and change nothing
    assert_eq!(k.sys_mmap(0x80000, 2 * PAGE_SIZE, 3), -1);
    assert!(k.virt2phys_addr(0x80000).is_some());
}

#[test]
fn mmap_rejects_invalid_port_and_misalignment() {
    let mut k = booted();
    assert_eq!(k.sys_mmap(0x80000, PAGE_SIZE, 0), -1);
    assert_eq!(k.sys_mmap(0x80000, PAGE_SIZE, 8), -1);
    assert_eq!(k.sys_mmap(0x90000, PAGE_SIZE, 0), -1);
    assert_eq!(k.sys_mmap(0x80001, 10, 3), -1);
    // none of the rejected calls may have mapped anything
    assert!(k.virt2phys_addr(0x80000).is_none());
    assert!(k.virt2phys_addr(0x90000).is_none());
}

#[test]
fn munmap_round_trip_and_atomic_rejection() {
    let mut k = booted();
    assert_eq!(k.sys_mmap(0xa0000, 2 * PAGE_SIZE, 7), 0);
    // exactly the mapped range unmaps cleanly
    assert_eq!(k.sys_munmap(0xa0000, 2 * PAGE_SIZE), 0);
    assert!(k.virt2phys_addr(0xa0000).is_none());
    // a second unmap of the now-empty range fails
    assert_eq!(k.sys_munmap(0xa0000, 2 * PAGE_SIZE), -1);
    // a range reaching past the mapped pages is rejected atomically
    assert_eq!(k.sys_mmap(0xa0000, 2 * PAGE_SIZE, 7), 0);
    assert_eq!(k.sys_munmap(0xa0000, 3 * PAGE_SIZE), -1);
    assert!(k.virt2phys_addr(0xa0000).is_some());
    assert_eq!(k.sys_munmap(0xa0000, PAGE_SIZE), 0);
    assert_eq!(k.sys_munmap(0xa0000, 2 * PAGE_SIZE), -1);
    assert!(k.virt2phys_addr(0xa0000 + PAGE_SIZE).is_some());
}

#[test]
fn munmap_misaligned_start() {
    let mut k = booted();
    assert_eq!(k.sys_munmap(0xa0001, PAGE_SIZE), -1);
}

#[test]
fn sbrk_grow_then_shrink_restores_heap() {
    let mut k = booted();
    let bottom = 64 * PAGE_SIZE;
    let b = k.sys_sbrk(4096);
    assert_eq!(b, bottom as isize);
    assert!(k.virt2phys_addr(bottom).is_some());
    let b2 = k.sys_sbrk(-4096);
    assert_eq!(b2, (bottom + 4096) as isize);
    // the heap is back to its initial (empty) extent
    assert_eq!(k.sys_sbrk(0), bottom as isize);
    assert!(k.virt2phys_addr(bottom).is_none());
}

#[test]
fn sbrk_below_bottom_fails() {
    let mut k = booted();
    assert_eq!(k.sys_sbrk(-4096), -1);
    assert_eq!(k.sys_sbrk(0), (64 * PAGE_SIZE) as isize);
}

#[test]
fn fork_child_has_distinct_pid_and_zero_return_register() {
    let mut k = booted();
    let parent = k.sys_getpid();
    let child = k.sys_fork();
    assert!(child >= 0);
    assert_ne!(child, parent);
    let ct = k.tasks[child as usize].as_ref().unwrap();
    assert_eq!(ct.trap_a0, 0);
    // the child sees its own pid once it runs
    k.sys_yield();
    assert_eq!(k.sys_getpid(), child);
    assert_ne!(k.sys_getpid(), parent);
}

#[test]
fn fork_copies_address_space() {
    let mut k = booted();
    assert_eq!(k.sys_mmap(0xb0000, PAGE_SIZE, 3), 0);
    let child = k.sys_fork();
    k.sys_yield();
    assert_eq!(k.sys_getpid(), child);
    // the child's copy covers the same pages
    assert!(k.virt2phys_addr(0xb0000).is_some());
    assert!(k.virt2phys_addr(MAPPED_VA).is_some());
}

#[test]
fn waitpid_reports_each_stage() {
    let mut k = booted();
    // no children at all
    assert_eq!(k.sys_waitpid(-1, MAPPED_VA).0, -1);
    let child = k.sys_fork();
    // the child has not exited yet
    assert_eq!(k.sys_waitpid(-1, MAPPED_VA).0, -2);
    // a pid that is no child
    assert_eq!(k.sys_waitpid(55, MAPPED_VA).0, -1);
    // let the child run and exit
    k.sys_yield();
    assert_eq!(k.sys_getpid(), child);
    k.sys_exit(7);
    assert_eq!(k.sys_getpid(), 0);
    let (pid, code) = k.sys_waitpid(-1, MAPPED_VA);
    assert_eq!(pid, child);
    assert_eq!(code, Some(7));
    // the zombie is gone now
    assert_eq!(k.sys_waitpid(-1, MAPPED_VA).0, -1);
}

#[test]
fn waitpid_rejects_untranslatable_pointer() {
    let mut k = booted();
    let child = k.sys_fork();
    k.sys_yield();
    k.sys_exit(3);
    // zombie exists, but the out-pointer's page is unmapped
    assert_eq!(k.sys_waitpid(-1, UNMAPPED_VA), (-1, None));
    // the child was not reaped by the failed call
    let (pid, code) = k.sys_waitpid(child, MAPPED_VA);
    assert_eq!(pid, child);
    assert_eq!(code, Some(3));
}

#[test]
fn spawn_starts_fresh_child() {
    let mut k = booted();
    let me = k.sys_getpid();
    let pid = k.sys_spawn(&b"x".to_vec());
    assert!(pid >= 0);
    assert_ne!(pid, me);
    let child = k.tasks[pid as usize].as_ref().unwrap();
    assert_eq!(child.parent, Some(0));
    assert_eq!(child.heap_bottom, 96 * PAGE_SIZE);
    // the spawned child runs, exits, and can be awaited by pid
    k.sys_yield();
    assert_eq!(k.sys_getpid(), pid);
    k.sys_exit(0);
    let (got, code) = k.sys_waitpid(pid, MAPPED_VA);
    assert_eq!(got, pid);
    assert_eq!(code, Some(0));
}

#[test]
fn spawn_unknown_program_fails() {
    let mut k = booted();
    assert_eq!(k.sys_spawn(&b"nosuch".to_vec()), -1);
}

#[test]
fn exec_replaces_address_space() {
    let mut k = booted();
    assert_eq!(k.sys_exec(&b"nosuch".to_vec()), -1);
    assert_eq!(k.sys_exec(&b"other".to_vec()), 0);
    let t = k.tasks[0].as_ref().unwrap();
    assert_eq!(t.heap_bottom, 128 * PAGE_SIZE);
    assert_eq!(t.program_brk, 128 * PAGE_SIZE);
    assert_eq!(k.sys_getpid(), 0);
}

#[test]
fn get_time_writes_offset_split() {
    let mut k = booted();
    k.advance_clock(500);
    let (r, tv) = k.sys_get_time(MAPPED_VA, 0);
    assert_eq!(r, 0);
    assert_eq!(tv, Some(TimeVal { sec: 1, msec: 501 }));
    assert_eq!(k.sys_get_time(UNMAPPED_VA, 0), (-1, None));
}

#[test]
fn task_info_counts_and_is_idempotent() {
    let mut k = booted();
    k.set_syscall_times(64);
    k.set_syscall_times(64);
    k.set_syscall_times(169);
    let (r1, i1) = k.sys_task_info(MAPPED_VA);
    let (r2, i2) = k.sys_task_info(MAPPED_VA);
    assert_eq!(r1, 0);
    assert_eq!(r2, 0);
    let i1 = i1.unwrap();
    let i2 = i2.unwrap();
    assert_eq!(i1.syscall_times, i2.syscall_times);
    assert_eq!(i1.syscall_times[64], 2);
    assert_eq!(i1.syscall_times[169], 1);
    assert_eq!(i1.syscall_times[0], 0);
    assert!(i2.time >= i1.time);
    k.advance_clock(50);
    let (_, i3) = k.sys_task_info(MAPPED_VA);
    let i3 = i3.unwrap();
    assert_eq!(i3.syscall_times, i1.syscall_times);
    assert!(i3.time >= i2.time);
    assert_eq!(k.sys_task_info(UNMAPPED_VA).0, -1);
}

#[test]
fn set_priority_validates_and_schedules_preferred() {
    let mut k = booted();
    assert_eq!(k.sys_set_priority(1), -1);
    assert_eq!(k.sys_set_priority(0), -1);
    assert_eq!(k.sys_set_priority(-3), -1);
    let child = k.sys_fork();
    k.sys_yield();
    assert_eq!(k.sys_getpid(), child);
    assert_eq!(k.sys_set_priority(20), 20);
    // the higher-priority child keeps the core across a yield
    k.sys_yield();
    assert_eq!(k.sys_getpid(), child);
}

#[test]
fn exit_reparents_children_to_initproc() {
    let mut k = booted();
    let a = k.sys_fork();
    k.sys_yield();
    assert_eq!(k.sys_getpid(), a);
    let b = k.sys_fork();
    // A exits; its child B must now belong to the initial process
    k.sys_exit(9);
    assert_eq!(k.sys_getpid(), 0);
    assert_eq!(k.tasks[b as usize].as_ref().unwrap().parent, Some(0));
    let (pid, code) = k.sys_waitpid(a, MAPPED_VA);
    assert_eq!(pid, a);
    assert_eq!(code, Some(9));
    // B is awaitable by the initial process once it exits
    assert_eq!(k.sys_waitpid(b, MAPPED_VA).0, -2);
    k.sys_yield();
    assert_eq!(k.sys_getpid(), b);
    k.sys_exit(4);
    let (pid2, code2) = k.sys_waitpid(b, MAPPED_VA);
    assert_eq!(pid2, b);
    assert_eq!(code2, Some(4));
}

#[test]
fn reaped_pid_returns_to_the_pool() {
    let mut k = booted();
    let first = k.sys_fork();
    k.sys_yield();
    k.sys_exit(0);
    let (pid, _) = k.sys_waitpid(first, MAPPED_VA);
    assert_eq!(pid, first);
    // the freed pid is handed out again
    let second = k.sys_fork();
    assert_eq!(second, first);
}

#[test]
fn sbrk_fails_when_heap_page_is_taken() {
    let mut k = booted();
    let bottom = 64 * PAGE_SIZE;
    // a mapping sitting exactly where the heap would grow
    assert_eq!(k.sys_mmap(bottom, PAGE_SIZE, 3), 0);
    assert_eq!(k.sys_sbrk(4096), -1);
    assert_eq!(k.sys_sbrk(0), bottom as isize);
    assert_eq!(k.sys_munmap(bottom, PAGE_SIZE), 0);
    assert_eq!(k.sys_sbrk(4096), bottom as isize);
}

#[test]
fn fork_child_starts_with_fresh_counters_and_parent_priority() {
    let mut k = booted();
    assert_eq!(k.sys_set_priority(9), 9);
    k.set_syscall_times(64);
    let child = k.sys_fork();
    let ct = k.tasks[child as usize].as_ref().unwrap();
    assert_eq!(ct.prio, 9);
    assert!(ct.syscall_times.iter().all(|&c| c == 0));
    let pt = k.tasks[0].as_ref().unwrap();
    assert_eq!(pt.syscall_times[64], 1);
}

#[test]
fn fork_child_frames_are_distinct_from_parents() {
    let mut k = booted();
    let parent_paddr = k.virt2phys_addr(MAPPED_VA).unwrap();
    let child = k.sys_fork();
    k.sys_yield();
    assert_eq!(k.sys_getpid(), child);
    // same virtual page, but a freshly allocated physical frame
    let child_paddr = k.virt2phys_addr(MAPPED_VA).unwrap();
    assert_ne!(parent_paddr, child_paddr);
}
