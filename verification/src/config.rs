//! Kernel-wide constants and page-arithmetic helpers.

use vstd::prelude::*;

verus! {

/// Size of one page / physical frame, in bytes.
pub const PAGE_SIZE: usize = 4096;

/// Number of syscall ids for which each task keeps an invocation counter.
pub const MAX_SYSCALL_NUM: usize = 500;

/// Pid of the bootstrap/idle task; its exit is a fatal kernel condition.
pub const IDLE_PID: usize = 0;

/// Upper bound on the task arena, so that every pid fits an `isize`.
pub const PID_LIMIT: usize = 0x10000;

/// Scheduling priority given to every task at creation.
pub const DEFAULT_PRIORITY: usize = 16;

/// Exclusive upper bound on physical frame numbers handed out by the
/// allocator; keeps `ppn * PAGE_SIZE + offset` well below `usize::MAX`.
pub const MAX_PPN: usize = 0x4_0000;

/// Exclusive upper bound on virtual page numbers accepted by the mapping
/// syscalls; keeps `vpn * PAGE_SIZE` well below `usize::MAX`.
pub const MAX_VPN: usize = 0x4_0000;

/// Exclusive upper bound on the monotonic millisecond clock, so that the
/// time arithmetic of the syscall layer cannot overflow.
pub const MAX_CLOCK_MS: usize = 0x4000_0000;

/// Virtual page number holding a given virtual address.
pub open spec fn vpn_of(va: usize) -> usize {
    (va / PAGE_SIZE) as usize
}

/// Byte offset of a virtual address within its page.
pub open spec fn offset_of(va: usize) -> usize {
    (va % PAGE_SIZE) as usize
}

/// First page number at or above `va` (page number of the round-up).
pub open spec fn vpn_ceil(va: usize) -> usize {
    if va % PAGE_SIZE == 0 {
        (va / PAGE_SIZE) as usize
    } else {
        (va / PAGE_SIZE + 1) as usize
    }
}

/// Whether a virtual address sits on a page boundary.
pub open spec fn page_aligned(va: usize) -> bool {
    va % PAGE_SIZE == 0
}

/// Highest user virtual address bound: `MAX_VPN` whole pages.
pub const MAX_VA: usize = 0x4000_0000;

/// Rounding up never orders two addresses the other way round.
pub proof fn lemma_vpn_ceil_mono(a: usize, b: usize)
    requires
        a <= b,
    ensures
        vpn_ceil(a) <= vpn_ceil(b),
{
    assert(a / PAGE_SIZE <= b / PAGE_SIZE) by (nonlinear_arith)
        requires a <= b;
    if a % PAGE_SIZE != 0 && a / PAGE_SIZE == b / PAGE_SIZE {
        assert(b % PAGE_SIZE != 0) by (nonlinear_arith)
            requires a <= b, a / PAGE_SIZE == b / PAGE_SIZE, a % PAGE_SIZE != 0;
    }
}

/// The page of an address comes at or before its round-up page.
pub proof fn lemma_vpn_floor_le_ceil(a: usize)
    ensures
        vpn_of(a) <= vpn_ceil(a),
        vpn_ceil(a) <= vpn_of(a) + 1,
{
}

/// An address within `m` whole pages rounds up to at most page `m`.
pub proof fn lemma_vpn_ceil_bound(a: usize, m: usize)
    requires
        a <= m * PAGE_SIZE,
    ensures
        vpn_ceil(a) <= m,
{
    if a % PAGE_SIZE == 0 {
        assert(a / PAGE_SIZE <= m) by (nonlinear_arith)
            requires a <= m * PAGE_SIZE;
    } else {
        assert(a / PAGE_SIZE < m) by (nonlinear_arith)
            requires a <= m * PAGE_SIZE, a % PAGE_SIZE != 0;
    }
}

/// Executable form of [`vpn_of`].
pub fn page_floor(va: usize) -> (r: usize)
    ensures
        r == vpn_of(va),
{
    va / PAGE_SIZE
}

/// Executable form of [`vpn_ceil`]; never overflows.
pub fn page_ceil(va: usize) -> (r: usize)
    ensures
        r == vpn_ceil(va),
{
    if va % PAGE_SIZE == 0 {
        va / PAGE_SIZE
    } else {
        va / PAGE_SIZE + 1
    }
}

} // verus!
