//! An explicit arena standing for physical page frames.
//!
//! The kernel proper reads and writes physical memory directly; here every
//! access goes through a bounds-checked accessor over an explicit store, so
//! the page-table walker and the data-copy paths can be verified.  A frame
//! offers two views of its contents: 512 page-table-entry slots (used when
//! the frame backs a page-table node) and 4096 raw bytes (used when it backs
//! data).  A frame is only ever used under one of the two views at a time.

use vstd::prelude::*;
use vstd::pervasive::VecAdditionalExecFns;
use super::address::PhysPageNum;

verus! {

/// Number of page-table-entry slots in one frame.
pub const PTES_PER_FRAME: u64 = 512;
/// Number of bytes in one frame.
pub const BYTES_PER_FRAME: u64 = 4096;

/// The contents of one physical page frame, under both of its views.
pub struct FramePage {
    /// The frame read as 512 page-table entries.
    pub ptes: Vec<u64>,
    /// The frame read as 4096 raw bytes.
    pub bytes: Vec<u8>,
}

impl FramePage {
    pub open spec fn wf(self) -> bool {
        self.ptes@.len() == 512 && self.bytes@.len() == 4096
    }

    /// Whether every slot and every byte of the frame is zero.
    pub open spec fn is_zeroed(self) -> bool {
        (forall|i: int| 0 <= i < self.ptes@.len() ==> self.ptes@[i] == 0)
            && (forall|i: int| 0 <= i < self.bytes@.len() ==> self.bytes@[i] == 0u8)
    }
}

/// The physical frames `[base, base + pages.len())`, indexed by physical
/// page number.
pub struct PhysMem {
    /// Physical page number of the first frame of the arena.
    pub base: u64,
    /// One entry per frame, in page-number order.
    pub pages: Vec<FramePage>,
}

impl PhysMem {
    pub open spec fn wf(self) -> bool {
        &&& self.base + self.pages@.len() <= 0x1000_0000_0000
        &&& forall|i: int| 0 <= i < self.pages@.len() ==> (#[trigger] self.pages@[i]).wf()
    }

    /// Whether physical page number `ppn` lies in the arena.
    pub open spec fn contains(self, ppn: u64) -> bool {
        self.base <= ppn < self.base + self.pages@.len()
    }

    /// The frame with physical page number `ppn`.
    pub open spec fn page_of(self, ppn: u64) -> FramePage {
        self.pages@[ppn - self.base]
    }

    /// The page-table entry in slot `i` of frame `ppn`.
    pub open spec fn pte_at(self, ppn: u64, i: u64) -> u64 {
        self.page_of(ppn).ptes@[i as int]
    }

    /// The byte at offset `i` of frame `ppn`.
    pub open spec fn byte_at(self, ppn: u64, i: u64) -> u8 {
        self.page_of(ppn).bytes@[i as int]
    }

    /// An arena of `count` zeroed frames starting at page number `base`.
    pub fn new(base: u64, count: usize) -> (m: Self)
        requires
            base + count <= 0x1000_0000_0000,
        ensures
            m.wf(),
            m.base == base,
            m.pages@.len() == count,
            forall|i: int| 0 <= i < count ==> (#[trigger] m.pages@[i]).is_zeroed(),
    {
        let mut pages: Vec<FramePage> = Vec::new();
        let mut k: usize = 0;
        while k < count
            invariant
                k <= count,
                pages@.len() == k,
                forall|i: int| 0 <= i < k ==> (#[trigger] pages@[i]).wf(),
                forall|i: int| 0 <= i < k ==> (#[trigger] pages@[i]).is_zeroed(),
            decreases count - k,
        {
            pages.push(Self::zero_frame());
            k = k + 1;
        }
        PhysMem { base, pages }
    }

    /// One frame with every slot and byte zero.
    fn zero_frame() -> (p: FramePage)
        ensures
            p.wf(),
            p.is_zeroed(),
    {
        let mut ptes: Vec<u64> = Vec::new();
        let mut i: usize = 0;
        while i < 512
            invariant
                i <= 512,
                ptes@.len() == i,
                forall|j: int| 0 <= j < i ==> ptes@[j] == 0,
            decreases 512 - i,
        {
            ptes.push(0);
            i = i + 1;
        }
        let mut bytes: Vec<u8> = Vec::new();
        let mut b: usize = 0;
        while b < 4096
            invariant
                b <= 4096,
                bytes@.len() == b,
                forall|j: int| 0 <= j < b ==> bytes@[j] == 0u8,
            decreases 4096 - b,
        {
            bytes.push(0);
            b = b + 1;
        }
        FramePage { ptes, bytes }
    }

    /// Read page-table-entry slot `idx` of frame `ppn`.
    pub fn read_pte(&self, ppn: u64, idx: u64) -> (r: u64)
        requires
            self.wf(),
            self.contains(ppn),
            idx < 512,
        ensures
            r == self.pte_at(ppn, idx),
    {
        let n: usize = self.pages.len();
        proof {
            assert(ppn - self.base < n);
        }
        let i = (ppn - self.base) as usize;
        self.pages[i].ptes[idx as usize]
    }

    /// Write page-table-entry slot `idx` of frame `ppn`.
    pub fn write_pte(&mut self, ppn: u64, idx: u64, v: u64)
        requires
            old(self).wf(),
            old(self).contains(ppn),
            idx < 512,
        ensures
            final(self).wf(),
            final(self).base == old(self).base,
            final(self).pages@.len() == old(self).pages@.len(),
            final(self).page_of(ppn).ptes@ == old(self).page_of(ppn).ptes@.update(
                idx as int, v),
            final(self).page_of(ppn).bytes@ == old(self).page_of(ppn).bytes@,
            forall|q: u64|
                old(self).contains(q) && q != ppn ==> #[trigger] final(self).page_of(q)
                    == old(self).page_of(q),
    {
        let n: usize = self.pages.len();
        proof {
            assert(ppn - self.base < n);
        }
        let i = (ppn - self.base) as usize;
        let page = &mut self.pages[i];
        page.ptes.set(idx as usize, v);
    }

    /// Read the byte at offset `idx` of frame `ppn`.
    pub fn read_byte(&self, ppn: u64, idx: u64) -> (r: u8)
        requires
            self.wf(),
            self.contains(ppn),
            idx < 4096,
        ensures
            r == self.byte_at(ppn, idx),
    {
        let n: usize = self.pages.len();
        proof {
            assert(ppn - self.base < n);
        }
        let i = (ppn - self.base) as usize;
        self.pages[i].bytes[idx as usize]
    }

    /// Write the byte at offset `idx` of frame `ppn`.
    pub fn write_byte(&mut self, ppn: u64, idx: u64, v: u8)
        requires
            old(self).wf(),
            old(self).contains(ppn),
            idx < 4096,
        ensures
            final(self).wf(),
            final(self).base == old(self).base,
            final(self).pages@.len() == old(self).pages@.len(),
            final(self).page_of(ppn).bytes@ == old(self).page_of(ppn).bytes@.update(
                idx as int, v),
            final(self).page_of(ppn).ptes@ == old(self).page_of(ppn).ptes@,
            forall|q: u64|
                old(self).contains(q) && q != ppn ==> #[trigger] final(self).page_of(q)
                    == old(self).page_of(q),
    {
        let n: usize = self.pages.len();
        proof {
            assert(ppn - self.base < n);
        }
        let i = (ppn - self.base) as usize;
        let page = &mut self.pages[i];
        page.bytes.set(idx as usize, v);
    }

    /// Zero every slot and byte of frame `ppn`.
    pub fn zero_page(&mut self, ppn: u64)
        requires
            old(self).wf(),
            old(self).contains(ppn),
        ensures
            final(self).wf(),
            final(self).base == old(self).base,
            final(self).pages@.len() == old(self).pages@.len(),
            final(self).page_of(ppn).wf(),
            final(self).page_of(ppn).is_zeroed(),
            forall|q: u64|
                old(self).contains(q) && q != ppn ==> #[trigger] final(self).page_of(q)
                    == old(self).page_of(q),
    {
        let n: usize = self.pages.len();
        proof {
            assert(ppn - self.base < n);
        }
        let i = (ppn - self.base) as usize;
        let page = &mut self.pages[i];
        let fresh = Self::zero_frame();
        *page = fresh;
    }
}

} // verus!
