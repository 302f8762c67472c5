//! Program images, as the external loader hands them to the kernel.
//!
//! The file system and the image parser are outside this crate: callers
//! register each available program as a name plus its already-parsed
//! layout — the virtual ranges of its segments with their permission
//! bits and the page where the user heap begins.

use vstd::prelude::*;
use crate::config::MAX_VPN;

verus! {

/// One loadable segment: a right-open range of virtual pages mapped with
/// uniform permission bits.
#[derive(Clone, Copy, PartialEq, Eq, Structural, Debug)]
pub struct Segment {
    /// First virtual page of the segment.
    pub start_vpn: usize,
    /// One past the last virtual page of the segment.
    pub end_vpn: usize,
    /// Permission bits, as in a page-table entry.
    pub flags: u8,
}

/// A parsed program image: its name in the program catalogue, its
/// segments in ascending disjoint order, the first page of the user heap
/// and the total number of pages its segments need.
pub struct ProgramImage {
    /// Name under which the loader finds the image.
    pub name: Vec<u8>,
    /// Loadable segments, ascending and pairwise disjoint.
    pub segments: Vec<Segment>,
    /// First virtual page of the user heap; above every segment.
    pub heap_base_vpn: usize,
    /// Sum of the segments' page counts.
    pub total_pages: usize,
}

/// Total number of pages covered by a sequence of segments.
pub open spec fn seg_pages(s: Seq<Segment>) -> int
    decreases s.len(),
{
    if s.len() == 0 {
        0
    } else {
        (s[0].end_vpn - s[0].start_vpn) + seg_pages(s.drop_first())
    }
}

/// Some segment of `s` covers virtual page `v`.
pub open spec fn covers(s: Seq<Segment>, v: usize) -> bool {
    exists|j: int| 0 <= j < s.len() && (#[trigger] s[j]).start_vpn <= v < s[j].end_vpn
}

/// `m` is exactly the page table that loading these segments produces:
/// a page is present iff a segment covers it, with that segment's bits.
pub open spec fn image_layout(s: Seq<Segment>, m: Map<usize, crate::memory_set::PageTableEntry>) -> bool {
    &&& forall|v: usize| #[trigger] m.contains_key(v) <==> covers(s, v)
    &&& forall|j: int, v: usize|
        #![trigger s[j], m.contains_key(v)]
        0 <= j < s.len() && s[j].start_vpn <= v < s[j].end_vpn
            ==> m.contains_key(v) && m[v].flags == s[j].flags
}

impl ProgramImage {
    /// Segments are within bounds, ascending and disjoint; the heap sits
    /// above them; the page total matches.
    pub open spec fn wf(self) -> bool {
        &&& forall|i: int| 0 <= i < self.segments@.len()
            ==> (#[trigger] self.segments@[i]).start_vpn <= self.segments@[i].end_vpn
                && self.segments@[i].end_vpn <= self.heap_base_vpn
        &&& forall|i: int, j: int| 0 <= i < j < self.segments@.len()
            ==> (#[trigger] self.segments@[i]).end_vpn <= (#[trigger] self.segments@[j]).start_vpn
        &&& self.heap_base_vpn < MAX_VPN
        &&& self.total_pages == seg_pages(self.segments@)
    }
}

/// Splitting a segment list at `i` splits its page total.
pub proof fn lemma_seg_pages_split(s: Seq<Segment>, i: int)
    requires
        0 <= i <= s.len(),
    ensures
        seg_pages(s) == seg_pages(s.take(i)) + seg_pages(s.skip(i)),
    decreases i,
{
    if i == 0 {
        assert(s.take(0) =~= Seq::<Segment>::empty());
        assert(s.skip(0) =~= s);
    } else {
        assert(s.len() > 0);
        lemma_seg_pages_split(s.drop_first(), i - 1);
        assert(s.take(i).drop_first() =~= s.drop_first().take(i - 1));
        assert(s.skip(i) =~= s.drop_first().skip(i - 1));
        assert(s.take(i).len() > 0);
        assert(s.take(i)[0] == s[0]);
    }
}

/// Every segment spanning a nonnegative range makes the total nonnegative.
pub proof fn lemma_seg_pages_nonneg(s: Seq<Segment>)
    requires
        forall|i: int| 0 <= i < s.len()
            ==> (#[trigger] s[i]).start_vpn <= s[i].end_vpn,
    ensures
        seg_pages(s) >= 0,
    decreases s.len(),
{
    if s.len() > 0 {
        assert(forall|i: int| 0 <= i < s.drop_first().len()
            ==> (#[trigger] s.drop_first()[i]) == s[i + 1]);
        lemma_seg_pages_nonneg(s.drop_first());
    }
}

/// The page total of a one-longer prefix grows by that segment's pages.
pub proof fn lemma_seg_pages_take_step(s: Seq<Segment>, i: int)
    requires
        0 <= i < s.len(),
    ensures
        seg_pages(s.take(i + 1)) == seg_pages(s.take(i)) + (s[i].end_vpn - s[i].start_vpn),
{
    lemma_seg_pages_split(s, i);
    lemma_seg_pages_split(s, i + 1);
    assert(s.skip(i).len() > 0);
    assert(s.skip(i)[0] == s[i]);
    assert(s.skip(i).drop_first() =~= s.skip(i + 1));
}

/// Compares two byte strings for equality.
pub fn bytes_eq(a: &Vec<u8>, b: &Vec<u8>) -> (r: bool)
    ensures
        r == (a@ == b@),
{
    if a.len() != b.len() {
        proof {
            assert(a@ != b@);
        }
        return false;
    }
    let mut i: usize = 0;
    while i < a.len()
        invariant
            a@.len() == b@.len(),
            i <= a@.len(),
            forall|j: int| 0 <= j < i ==> a@[j] == b@[j],
        decreases a@.len() - i,
    {
        if a[i] != b[i] {
            proof {
                assert(a@ != b@);
            }
            return false;
        }
        i = i + 1;
    }
    proof {
        assert(a@ =~= b@);
    }
    true
}

} // verus!
