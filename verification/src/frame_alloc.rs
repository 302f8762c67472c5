//! Physical frame allocator: a bump pointer over `[0, cap)` plus a recycle
//! list, standing in for the machine's pool of fixed-size physical pages.

use vstd::prelude::*;
use crate::config::MAX_PPN;
use crate::util::contains_usize;

verus! {

/// A duplicate-free sequence of numbers below `b` holds at most `b` of them.
proof fn lemma_distinct_below_bound(s: Seq<usize>, b: usize)
    requires
        s.no_duplicates(),
        forall|i: int| 0 <= i < s.len() ==> (#[trigger] s[i]) < b,
    ensures
        s.len() <= b,
{
    let f = |x: usize| x as int;
    assert(vstd::relations::injective(f)) by {
        assert(forall|x: usize, y: usize| #[trigger] f(x) == #[trigger] f(y) ==> x == y);
    }
    s.lemma_no_duplicates_injective(f);
    let si = s.map_values(f);
    si.unique_seq_to_set();
    let range = vstd::set_lib::set_int_range(0, b as int);
    vstd::set_lib::lemma_int_range(0, b as int);
    assert(si.to_set().subset_of(range)) by {
        assert forall|e: int| si.to_set().contains(e) implies range.contains(e) by {
            let i = choose|i: int| 0 <= i < si.len() && si[i] == e;
            assert(s[i] < b);
        }
    }
    vstd::set_lib::lemma_len_subset(si.to_set(), range);
}

/// Allocates and reclaims physical page frames, identified by their
/// physical page number (ppn).
pub struct FrameAllocator {
    /// Frames in `[0, next)` have been handed out at least once.
    pub next: usize,
    /// Exclusive upper bound on frame numbers this allocator may hand out.
    pub cap: usize,
    /// Frames handed back and available for reuse.
    pub recycled: Vec<usize>,
}

impl FrameAllocator {
    /// Internal consistency of the allocator's bookkeeping.
    pub open spec fn wf(self) -> bool {
        &&& self.next <= self.cap
        &&& self.cap <= MAX_PPN
        &&& forall|i: int| 0 <= i < self.recycled@.len() ==> (#[trigger] self.recycled@[i]) < self.next
        &&& self.recycled@.no_duplicates()
    }

    /// Whether frame `ppn` is currently handed out.
    pub open spec fn is_allocated(self, ppn: usize) -> bool {
        ppn < self.next && !self.recycled@.contains(ppn)
    }

    /// How many frames can still be handed out.
    pub open spec fn free_frames(self) -> int {
        self.cap - self.next + self.recycled@.len()
    }

    /// A fresh allocator owning frames `[0, cap)`, none handed out.
    pub fn new(cap: usize) -> (r: FrameAllocator)
        requires
            cap <= MAX_PPN,
        ensures
            r.wf(),
            r.free_frames() == cap,
            forall|p: usize| !r.is_allocated(p),
    {
        FrameAllocator { next: 0, cap, recycled: Vec::new() }
    }

    /// Executable form of [`Self::free_frames`].
    pub fn free_count(&self) -> (r: usize)
        requires
            self.wf(),
        ensures
            r == self.free_frames(),
    {
        proof {
            lemma_distinct_below_bound(self.recycled@, self.next);
        }
        self.cap - self.next + self.recycled.len()
    }

    /// Hands out a frame that is not currently allocated.
    pub fn alloc_frame(&mut self) -> (r: usize)
        requires
            old(self).wf(),
            old(self).free_frames() > 0,
        ensures
            final(self).wf(),
            r < final(self).cap,
            !old(self).is_allocated(r),
            final(self).is_allocated(r),
            forall|p: usize| p != r ==> final(self).is_allocated(p) == old(self).is_allocated(p),
            final(self).free_frames() == old(self).free_frames() - 1,
            final(self).cap == old(self).cap,
    {
        match self.recycled.pop() {
            Some(p) => {
                proof {
                    assert(old(self).recycled@.last() == p);
                    assert(old(self).recycled@.contains(p));
                    assert forall|q: usize| q != p implies
                        self.is_allocated(q) == old(self).is_allocated(q) by {
                        if old(self).recycled@.contains(q) {
                            let i = choose|i: int|
                                0 <= i < old(self).recycled@.len() && old(self).recycled@[i] == q;
                            assert(i < old(self).recycled@.len() - 1);
                            assert(self.recycled@[i] == q);
                        }
                        if self.recycled@.contains(q) {
                            let i = choose|i: int|
                                0 <= i < self.recycled@.len() && self.recycled@[i] == q;
                            assert(old(self).recycled@[i] == q);
                        }
                    }
                    assert(!self.recycled@.contains(p)) by {
                        if self.recycled@.contains(p) {
                            let i = choose|i: int|
                                0 <= i < self.recycled@.len() && self.recycled@[i] == p;
                            assert(old(self).recycled@[i] == p);
                            assert(old(self).recycled@[old(self).recycled@.len() - 1] == p);
                        }
                    }
                }
                p
            },
            None => {
                let p = self.next;
                self.next = self.next + 1;
                p
            },
        }
    }

    /// Takes a frame back.  Tolerant: a frame that is not currently
    /// allocated is left alone, so a double free cannot corrupt the pool.
    pub fn dealloc_frame(&mut self, ppn: usize) -> (freed: bool)
        requires
            old(self).wf(),
        ensures
            final(self).wf(),
            freed == old(self).is_allocated(ppn),
            !final(self).is_allocated(ppn),
            forall|p: usize| p != ppn ==> final(self).is_allocated(p) == old(self).is_allocated(p),
            final(self).free_frames() == old(self).free_frames() + (if freed { 1int } else { 0int }),
            final(self).cap == old(self).cap,
    {
        if ppn < self.next && !contains_usize(&self.recycled, ppn) {
            self.recycled.push(ppn);
            proof {
                assert forall|p: usize| p != ppn implies
                    self.is_allocated(p) == old(self).is_allocated(p) by {
                    if self.recycled@.contains(p) {
                        let i = choose|i: int|
                            0 <= i < self.recycled@.len() && self.recycled@[i] == p;
                        assert(old(self).recycled@[i] == p);
                    }
                    if old(self).recycled@.contains(p) {
                        let i = choose|i: int|
                            0 <= i < old(self).recycled@.len() && old(self).recycled@[i] == p;
                        assert(self.recycled@[i] == p);
                    }
                }
                assert(self.recycled@.contains(ppn)) by {
                    assert(self.recycled@.last() == ppn);
                }
            }
            true
        } else {
            false
        }
    }
}

} // verus!
