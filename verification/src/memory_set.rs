//! Per-task address space: a page table mapping virtual page numbers to
//! physical frames with permission bits, kept at page granularity.
//!
//! The page table is the authoritative record of the mapped regions: a
//! virtual page is part of the address space exactly when it has an entry,
//! and distinct regions can never overlap because the table is a map.

use vstd::prelude::*;
use std::collections::HashMap;
use crate::config::{MAX_PPN, MAX_VPN};
use crate::frame_alloc::FrameAllocator;
use crate::util::index_of_usize;

verus! {

/// One page-table entry: the physical frame backing a virtual page and the
/// permission bits it was mapped with.  An entry exists only for mapped
/// (valid) pages; absence from the table is the invalid state.
#[derive(Clone, Copy, PartialEq, Eq, Structural, Debug)]
pub struct PageTableEntry {
    /// Physical page number of the backing frame.
    pub ppn: usize,
    /// Permission bits, laid out as in a hardware entry:
    /// readable `0x2`, writable `0x4`, executable `0x8`, user `0x10`.
    pub flags: u8,
}

impl PageTableEntry {
    /// Physical page number of the backing frame.
    pub fn get_ppn(&self) -> (r: usize)
        ensures
            r == self.ppn,
    {
        self.ppn
    }
}

/// An address space: the page table plus the list of its mapped pages,
/// kept so the space can be walked, cloned and torn down.
pub struct MemorySet {
    /// Virtual page number to entry; the source of truth.
    pub pt: HashMap<usize, PageTableEntry>,
    /// Exactly the keys of `pt`, without duplicates, in insertion order.
    pub mapped: Vec<usize>,
}

impl View for MemorySet {
    type V = Map<usize, PageTableEntry>;

    open spec fn view(&self) -> Map<usize, PageTableEntry> {
        self.pt@
    }
}

/// All pages of `[svpn, evpn)` are absent from `m`.
pub open spec fn range_free(m: Map<usize, PageTableEntry>, svpn: usize, evpn: usize) -> bool {
    forall|v: usize| svpn <= v < evpn ==> !(#[trigger] m.contains_key(v))
}

/// All pages of `[svpn, evpn)` are present in `m`.
pub open spec fn range_mapped(m: Map<usize, PageTableEntry>, svpn: usize, evpn: usize) -> bool {
    forall|v: usize| svpn <= v < evpn ==> #[trigger] m.contains_key(v)
}

impl MemorySet {
    /// The mapped-page list mirrors the table, and all numbers are in range.
    pub open spec fn wf(self) -> bool {
        &&& self.mapped@.no_duplicates()
        &&& forall|i: int|
            0 <= i < self.mapped@.len() ==> self.pt@.contains_key(#[trigger] self.mapped@[i])
        &&& forall|k: usize| #[trigger] self.pt@.contains_key(k) ==> self.mapped@.contains(k)
        &&& forall|k: usize| #[trigger] self.pt@.contains_key(k) ==> k < MAX_VPN
        &&& forall|k: usize| #[trigger] self.pt@.contains_key(k) ==> self.pt@[k].ppn < MAX_PPN
    }

    /// An empty address space.
    pub fn new() -> (r: MemorySet)
        ensures
            r.wf(),
            r@ == Map::<usize, PageTableEntry>::empty(),
    {
        MemorySet { pt: HashMap::new(), mapped: Vec::new() }
    }

    /// Looks a virtual page up; `None` when the page is unmapped.
    pub fn translate(&self, vpn: usize) -> (r: Option<PageTableEntry>)
        ensures
            r is Some <==> self@.contains_key(vpn),
            r is Some ==> r.unwrap() == self@[vpn],
    {
        match self.pt.get(&vpn) {
            Some(pte) => Some(*pte),
            None => None,
        }
    }

    /// Installs an entry for an unmapped page.
    pub fn map_page(&mut self, vpn: usize, ppn: usize, flags: u8)
        requires
            old(self).wf(),
            !old(self)@.contains_key(vpn),
            vpn < MAX_VPN,
            ppn < MAX_PPN,
        ensures
            final(self).wf(),
            final(self)@ == old(self)@.insert(vpn, PageTableEntry { ppn, flags }),
    {
        self.pt.insert(vpn, PageTableEntry { ppn, flags });
        self.mapped.push(vpn);
        proof {
            assert(self.mapped@.no_duplicates()) by {
                assert(forall|i: int|
                    0 <= i < old(self).mapped@.len()
                        ==> (#[trigger] old(self).mapped@[i]) != vpn);
            }
            assert forall|k: usize| self.pt@.contains_key(k)
                implies self.mapped@.contains(k) by {
                if k == vpn {
                    assert(self.mapped@.last() == vpn);
                } else {
                    let i = choose|i: int|
                        0 <= i < old(self).mapped@.len() && old(self).mapped@[i] == k;
                    assert(self.mapped@[i] == k);
                }
            }
            assert forall|i: int| 0 <= i < self.mapped@.len()
                implies self.pt@.contains_key(#[trigger] self.mapped@[i]) by {
                if i < old(self).mapped@.len() {
                    assert(old(self).pt@.contains_key(old(self).mapped@[i]));
                }
            }
        }
    }

    /// Clears the entry of a mapped page and hands back its frame number.
    pub fn unmap_page(&mut self, vpn: usize) -> (ppn: usize)
        requires
            old(self).wf(),
            old(self)@.contains_key(vpn),
        ensures
            final(self).wf(),
            final(self)@ == old(self)@.remove(vpn),
            ppn == old(self)@[vpn].ppn,
    {
        proof {
            assert(old(self).mapped@.contains(vpn));
        }
        let removed = self.pt.remove(&vpn);
        let i = index_of_usize(&self.mapped, vpn);
        let ghost pre = self.mapped@;
        self.mapped.remove(i);
        proof {
            let post = self.mapped@;
            assert(post == pre.remove(i as int));
            assert forall|a: int, b: int| 0 <= a < b < post.len() implies post[a] != post[b] by {
                let a0 = if a < i { a } else { a + 1 };
                let b0 = if b < i { b } else { b + 1 };
                assert(pre[a0] == post[a]);
                assert(pre[b0] == post[b]);
            }
            assert forall|j: int| 0 <= j < post.len()
                implies self.pt@.contains_key(#[trigger] post[j]) by {
                let j0 = if j < i { j } else { j + 1 };
                assert(pre[j0] == post[j]);
                assert(j0 != i);
                assert(pre[j0] != vpn) by {
                    if pre[j0] == vpn {
                        assert(pre[i as int] == vpn);
                    }
                }
                assert(old(self).pt@.contains_key(post[j]));
            }
            assert forall|k: usize| self.pt@.contains_key(k)
                implies post.contains(k) by {
                assert(old(self).pt@.contains_key(k));
                let j = choose|j: int| 0 <= j < pre.len() && pre[j] == k;
                assert(k != vpn);
                assert(j != i);
                if j < i {
                    assert(post[j] == k);
                } else {
                    assert(post[j - 1] == k);
                }
            }
        }
        match removed {
            Some(pte) => pte.ppn,
            None => {
                proof {
                    assert(false);
                }
                0
            },
        }
    }

    /// True when no page of `[svpn, evpn)` is mapped.
    pub fn range_is_free(&self, svpn: usize, evpn: usize) -> (r: bool)
        ensures
            r == range_free(self@, svpn, evpn),
    {
        let mut v: usize = svpn;
        while v < evpn
            invariant
                svpn <= v,
                v <= evpn || svpn >= evpn,
                forall|w: usize| svpn <= w < v ==> !(#[trigger] self@.contains_key(w)),
            decreases evpn - v,
        {
            if self.pt.get(&v).is_some() {
                proof {
                    assert(self@.contains_key(v));
                }
                return false;
            }
            v = v + 1;
        }
        true
    }

    /// True when every page of `[svpn, evpn)` is mapped.
    pub fn range_is_mapped(&self, svpn: usize, evpn: usize) -> (r: bool)
        ensures
            r == range_mapped(self@, svpn, evpn),
    {
        let mut v: usize = svpn;
        while v < evpn
            invariant
                svpn <= v,
                v <= evpn || svpn >= evpn,
                forall|w: usize| svpn <= w < v ==> #[trigger] self@.contains_key(w),
            decreases evpn - v,
        {
            if self.pt.get(&v).is_none() {
                proof {
                    assert(!self@.contains_key(v));
                }
                return false;
            }
            v = v + 1;
        }
        true
    }

    /// Allocates a frame for every page of `[svpn, evpn)` and installs the
    /// mappings, recording a new region of uniform permissions.
    pub fn insert_framed_area(
        &mut self,
        svpn: usize,
        evpn: usize,
        flags: u8,
        fa: &mut FrameAllocator,
    )
        requires
            old(self).wf(),
            old(fa).wf(),
            svpn <= evpn,
            evpn <= MAX_VPN,
            range_free(old(self)@, svpn, evpn),
            old(fa).free_frames() >= evpn - svpn,
        ensures
            final(self).wf(),
            final(fa).wf(),
            final(fa).cap == old(fa).cap,
            final(fa).free_frames() == old(fa).free_frames() - (evpn - svpn),
            forall|v: usize| svpn <= v < evpn
                ==> #[trigger] final(self)@.contains_key(v) && final(self)@[v].flags == flags,
            forall|v: usize| !(svpn <= v < evpn)
                ==> #[trigger] final(self)@.contains_key(v) == old(self)@.contains_key(v),
            forall|v: usize| !(svpn <= v < evpn) && old(self)@.contains_key(v)
                ==> #[trigger] final(self)@[v] == old(self)@[v],
    {
        let mut v: usize = svpn;
        while v < evpn
            invariant
                svpn <= v <= evpn,
                evpn <= MAX_VPN,
                self.wf(),
                fa.wf(),
                fa.cap == old(fa).cap,
                fa.free_frames() == old(fa).free_frames() - (v - svpn),
                old(fa).free_frames() >= evpn - svpn,
                range_free(old(self)@, svpn, evpn),
                forall|w: usize| svpn <= w < v
                    ==> #[trigger] self@.contains_key(w) && self@[w].flags == flags,
                forall|w: usize| !(svpn <= w < v)
                    ==> #[trigger] self@.contains_key(w) == old(self)@.contains_key(w),
                forall|w: usize| !(svpn <= w < v) && old(self)@.contains_key(w)
                    ==> #[trigger] self@[w] == old(self)@[w],
            decreases evpn - v,
        {
            let ppn = fa.alloc_frame();
            self.map_page(v, ppn, flags);
            v = v + 1;
        }
    }

    /// Clears the mapping of every page of `[svpn, evpn)` and returns the
    /// backing frames to the allocator.
    pub fn remove_range(&mut self, svpn: usize, evpn: usize, fa: &mut FrameAllocator)
        requires
            old(self).wf(),
            old(fa).wf(),
            svpn <= evpn,
            range_mapped(old(self)@, svpn, evpn),
        ensures
            final(self).wf(),
            final(fa).wf(),
            final(fa).cap == old(fa).cap,
            final(fa).free_frames() >= old(fa).free_frames(),
            forall|v: usize| svpn <= v < evpn ==> !(#[trigger] final(self)@.contains_key(v)),
            forall|v: usize| !(svpn <= v < evpn)
                ==> #[trigger] final(self)@.contains_key(v) == old(self)@.contains_key(v),
            forall|v: usize| !(svpn <= v < evpn) && old(self)@.contains_key(v)
                ==> #[trigger] final(self)@[v] == old(self)@[v],
    {
        let mut v: usize = svpn;
        while v < evpn
            invariant
                svpn <= v <= evpn,
                self.wf(),
                fa.wf(),
                fa.cap == old(fa).cap,
                fa.free_frames() >= old(fa).free_frames(),
                range_mapped(old(self)@, svpn, evpn),
                forall|w: usize| svpn <= w < v ==> !(#[trigger] self@.contains_key(w)),
                forall|w: usize| !(svpn <= w < v)
                    ==> #[trigger] self@.contains_key(w) == old(self)@.contains_key(w),
                forall|w: usize| !(svpn <= w < v) && old(self)@.contains_key(w)
                    ==> #[trigger] self@[w] == old(self)@[w],
            decreases evpn - v,
        {
            let ppn = self.unmap_page(v);
            fa.dealloc_frame(ppn);
            v = v + 1;
        }
    }

    /// Clears whatever mappings exist in `[svpn, evpn)`, skipping pages
    /// that are already unmapped, and returns the cleared frames.
    pub fn remove_range_lenient(&mut self, svpn: usize, evpn: usize, fa: &mut FrameAllocator)
        requires
            old(self).wf(),
            old(fa).wf(),
            svpn <= evpn,
        ensures
            final(self).wf(),
            final(fa).wf(),
            final(fa).cap == old(fa).cap,
            final(fa).free_frames() >= old(fa).free_frames(),
            forall|v: usize| svpn <= v < evpn ==> !(#[trigger] final(self)@.contains_key(v)),
            forall|v: usize| !(svpn <= v < evpn)
                ==> #[trigger] final(self)@.contains_key(v) == old(self)@.contains_key(v),
            forall|v: usize| !(svpn <= v < evpn) && old(self)@.contains_key(v)
                ==> #[trigger] final(self)@[v] == old(self)@[v],
    {
        let mut v: usize = svpn;
        while v < evpn
            invariant
                svpn <= v <= evpn,
                self.wf(),
                fa.wf(),
                fa.cap == old(fa).cap,
                fa.free_frames() >= old(fa).free_frames(),
                forall|w: usize| svpn <= w < v ==> !(#[trigger] self@.contains_key(w)),
                forall|w: usize| !(svpn <= w < v)
                    ==> #[trigger] self@.contains_key(w) == old(self)@.contains_key(w),
                forall|w: usize| !(svpn <= w < v) && old(self)@.contains_key(w)
                    ==> #[trigger] self@[w] == old(self)@[w],
            decreases evpn - v,
        {
            if self.pt.get(&v).is_some() {
                proof {
                    assert(self@.contains_key(v));
                }
                let ppn = self.unmap_page(v);
                fa.dealloc_frame(ppn);
            }
            v = v + 1;
        }
    }

    /// Deep copy for `fork`: the clone covers the same pages with the same
    /// permissions, each backed by a freshly allocated frame.
    pub fn clone_into(&self, fa: &mut FrameAllocator) -> (r: MemorySet)
        requires
            self.wf(),
            old(fa).wf(),
            old(fa).free_frames() >= self@.dom().len(),
        ensures
            r.wf(),
            final(fa).wf(),
            final(fa).cap == old(fa).cap,
            final(fa).free_frames() == old(fa).free_frames() - self@.dom().len(),
            forall|v: usize| #[trigger] r@.contains_key(v) == self@.contains_key(v),
            forall|v: usize| self@.contains_key(v) ==> (#[trigger] r@[v]).flags == self@[v].flags,
            forall|v: usize| #[trigger] r@.contains_key(v)
                ==> final(fa).is_allocated(r@[v].ppn) && !old(fa).is_allocated(r@[v].ppn),
            forall|v: usize, w: usize| #[trigger] r@.contains_key(v) && #[trigger] r@.contains_key(
                w,
            ) && v != w ==> r@[v].ppn != r@[w].ppn,
    {
        let mut r = MemorySet::new();
        let mut i: usize = 0;
        proof {
            self.mapped@.unique_seq_to_set();
            lemma_mapped_set_is_dom(*self);
        }
        while i < self.mapped.len()
            invariant
                self.wf(),
                r.wf(),
                fa.wf(),
                fa.cap == old(fa).cap,
                i <= self.mapped@.len(),
                self.mapped@.len() == self@.dom().len(),
                old(fa).free_frames() >= self@.dom().len(),
                fa.free_frames() == old(fa).free_frames() - i,
                forall|v: usize| #[trigger] r@.contains_key(v)
                    ==> self@.contains_key(v) && r@[v].flags == self@[v].flags,
                forall|j: int| 0 <= j < i ==> r@.contains_key(#[trigger] self.mapped@[j]),
                forall|v: usize| #[trigger] r@.contains_key(v)
                    ==> exists|j: int| 0 <= j < i && self.mapped@[j] == v,
                forall|p: usize| old(fa).is_allocated(p) ==> #[trigger] fa.is_allocated(p),
                forall|v: usize| #[trigger] r@.contains_key(v)
                    ==> fa.is_allocated(r@[v].ppn) && !old(fa).is_allocated(r@[v].ppn),
                forall|v: usize, w: usize| #[trigger] r@.contains_key(v)
                    && #[trigger] r@.contains_key(w) && v != w ==> r@[v].ppn != r@[w].ppn,
            decreases self.mapped@.len() - i,
        {
            let vpn = self.mapped[i];
            proof {
                if r@.contains_key(vpn) {
                    let j = choose|j: int| 0 <= j < i && self.mapped@[j] == vpn;
                    assert(false);
                }
            }
            let pte = match self.translate(vpn) {
                Some(p) => p,
                None => {
                    proof {
                        assert(false);
                    }
                    PageTableEntry { ppn: 0, flags: 0 }
                },
            };
            let ghost fa_pre = *fa;
            let ghost r_pre = r@;
            let ppn = fa.alloc_frame();
            r.map_page(vpn, ppn, pte.flags);
            proof {
                assert forall|v: usize| #[trigger] r@.contains_key(v)
                    implies fa.is_allocated(r@[v].ppn) && !old(fa).is_allocated(r@[v].ppn) by {
                    if v != vpn {
                        assert(r_pre.contains_key(v));
                        assert(fa_pre.is_allocated(r_pre[v].ppn));
                        assert(r_pre[v].ppn != ppn);
                    }
                }
                assert forall|v: usize, w: usize| #[trigger] r@.contains_key(v)
                    && #[trigger] r@.contains_key(w) && v != w
                    implies r@[v].ppn != r@[w].ppn by {
                    if v == vpn {
                        assert(fa_pre.is_allocated(r_pre[w].ppn));
                    } else if w == vpn {
                        assert(fa_pre.is_allocated(r_pre[v].ppn));
                    }
                }
            }
            i = i + 1;
        }
        proof {
            assert forall|v: usize| self@.contains_key(v) implies r@.contains_key(v) by {
                let j = choose|j: int|
                    0 <= j < self.mapped@.len() && self.mapped@[j] == v;
            }
        }
        r
    }

    /// Tears the address space down: every mapping is cleared and every
    /// backing frame is returned to the allocator.
    pub fn recycle_data_pages(&mut self, fa: &mut FrameAllocator)
        requires
            old(self).wf(),
            old(fa).wf(),
        ensures
            final(self).wf(),
            final(fa).wf(),
            final(fa).cap == old(fa).cap,
            final(fa).free_frames() >= old(fa).free_frames(),
            final(self)@ == Map::<usize, PageTableEntry>::empty(),
    {
        while self.mapped.len() > 0
            invariant
                self.wf(),
                fa.wf(),
                fa.cap == old(fa).cap,
                fa.free_frames() >= old(fa).free_frames(),
            decreases self.mapped@.len(),
        {
            let vpn = self.mapped[self.mapped.len() - 1];
            let ghost pre = *self;
            let ppn = self.unmap_page(vpn);
            fa.dealloc_frame(ppn);
            proof {
                lemma_remove_key_shrinks(pre, *self, pre.mapped@.len() as int);
            }
        }
        proof {
            assert forall|k: usize| !self@.contains_key(k) by {
                if self@.contains_key(k) {
                    assert(self.mapped@.contains(k));
                }
            }
            assert(self@ =~= Map::<usize, PageTableEntry>::empty());
        }
    }
}

/// In a well-formed address space the mapped-page list and the table's
/// key set have the same size.
proof fn lemma_mapped_set_is_dom(m: MemorySet)
    requires
        m.wf(),
    ensures
        m.mapped@.len() == m@.dom().len(),
{
    m.mapped@.unique_seq_to_set();
    assert forall|k: usize| m.mapped@.to_set().contains(k) implies m@.dom().contains(k) by {
        let j = choose|j: int| 0 <= j < m.mapped@.len() && m.mapped@[j] == k;
    }
    assert forall|k: usize| m@.dom().contains(k) implies m.mapped@.to_set().contains(k) by {
        assert(m.mapped@.contains(k));
    }
    assert(m.mapped@.to_set() =~= m@.dom());
}

/// Removing a mapped page shortens the mapped-page list by exactly one.
proof fn lemma_remove_key_shrinks(before: MemorySet, after: MemorySet, len0: int)
    requires
        before.wf(),
        after.wf(),
        len0 == before.mapped@.len(),
        len0 > 0,
        after@ == before@.remove(before.mapped@[len0 - 1]),
    ensures
        after.mapped@.len() < len0,
{
    lemma_mapped_set_is_dom(before);
    lemma_mapped_set_is_dom(after);
    let k = before.mapped@[len0 - 1];
    assert(before@.contains_key(k));
    assert(before@.dom().remove(k) =~= after@.dom());
}

} // verus!
