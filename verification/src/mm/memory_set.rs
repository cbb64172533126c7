//! Logical memory areas and address spaces.
//!
//! A [`MapArea`] is a contiguous range of virtual pages mapped either
//! identically (page number unchanged) or onto freshly allocated frames it
//! owns.  A [`MemorySet`] composes non-overlapping areas over one page
//! table and stands for one address space.

use vstd::prelude::*;
use vstd::pervasive::VecAdditionalExecFns;
use vstd::arithmetic::div_mod::lemma_div_is_ordered;
use crate::config::PAGE_SIZE;
use super::address::{PhysPageNum, VirtAddr, VirtPageNum, VPNRange};
use super::frame_allocator::{frame_alloc, FrameTracker, StackFrameAllocator};
use super::page_table::{make_pte, lemma_pte_fields, lemma_wf_preserved_nonnode_change, PageTable, PTEFlags};
use super::phys_mem::PhysMem;

verus! {

/// How an area's pages are backed.
#[derive(Debug, Copy, Clone, PartialEq, Eq, Structural)]
pub enum MapType {
    /// The physical page number equals the virtual page number.
    Identical,
    /// Every virtual page owns a freshly allocated physical frame.
    Framed,
}

/// Area permission: readable.
pub const MAP_R: u8 = 0x02;
/// Area permission: writable.
pub const MAP_W: u8 = 0x04;
/// Area permission: executable.
pub const MAP_X: u8 = 0x08;
/// Area permission: accessible from user mode.
pub const MAP_U: u8 = 0x10;

/// The permission bits of an area, a subset of the page-table entry flag
/// byte.
#[derive(Debug, Copy, Clone, PartialEq, Eq, Structural)]
pub struct MapPermission {
    pub bits: u8,
}

impl MapPermission {
    pub fn empty() -> (r: Self)
        ensures
            r.bits == 0,
    {
        MapPermission { bits: 0 }
    }

    /// The permission with exactly the bits of `b` set.
    pub fn from_bits(b: u8) -> (r: Self)
        ensures
            r.bits == b,
    {
        MapPermission { bits: b }
    }

    pub fn bits(&self) -> (r: u8)
        ensures
            r == self.bits,
    {
        self.bits
    }

    /// The permission with the bits of both `self` and `other` set.
    pub fn union(self, other: Self) -> (r: Self)
        ensures
            r.bits == self.bits | other.bits,
    {
        MapPermission { bits: self.bits | other.bits }
    }

    /// Whether every bit of `other` is set in `self`.
    pub fn contains(self, other: Self) -> (r: bool)
        ensures
            r <==> self.bits & other.bits == other.bits,
    {
        self.bits & other.bits == other.bits
    }
}

/// A contiguous range of virtual pages with one backing mode and one
/// permission mask.  For a framed area, `data_frames[k]` owns the frame of
/// the `k`-th page once that page is mapped.
pub struct MapArea {
    pub vpn_range: VPNRange,
    pub data_frames: Vec<Option<FrameTracker>>,
    pub map_type: MapType,
    pub map_perm: MapPermission,
}

impl MapArea {
    /// First virtual page number of the area.
    pub open spec fn start(self) -> u64 {
        self.vpn_range.l.0
    }

    /// One past the last virtual page number of the area.
    pub open spec fn end_vpn(self) -> u64 {
        self.vpn_range.r.0
    }

    /// Number of pages in the area.
    pub open spec fn page_count(self) -> int {
        self.end_vpn() - self.start()
    }

    pub open spec fn wf(self) -> bool {
        &&& self.start() <= self.end_vpn()
        &&& self.end_vpn() <= 0x800_0000
        &&& self.data_frames@.len() == self.page_count()
        &&& self.map_perm.bits & 1 == 0
        &&& self.map_type == MapType::Identical ==> forall|k: int|
            0 <= k < self.page_count() ==> self.data_frames@[k] is None
    }

    /// The frame owned by the `k`-th page of a framed area.
    pub open spec fn frame_ppn(self, k: int) -> u64 {
        self.data_frames@[k]->Some_0.ppn.0
    }

    /// The `k`-th page of the area is mapped as the area prescribes.
    pub open spec fn page_mapped_at(self, pt: PageTable, mem: PhysMem, k: int) -> bool {
        if self.map_type == MapType::Framed {
            &&& self.data_frames@[k] is Some
            &&& mem.contains(self.frame_ppn(k))
            &&& pt.translate_spec(mem, (self.start() + k) as u64) == Some(
                make_pte(self.frame_ppn(k), self.map_perm.bits | 1),
            )
        } else {
            &&& self.data_frames@[k] is None
            &&& pt.translate_spec(mem, (self.start() + k) as u64) == Some(
                make_pte((self.start() + k) as u64, self.map_perm.bits | 1),
            )
        }
    }

    /// The first `n` pages of the area are mapped.
    pub open spec fn mapped_prefix(self, pt: PageTable, mem: PhysMem, n: int) -> bool {
        forall|k: int| 0 <= k < n ==> self.page_mapped_at(pt, mem, k)
    }

    /// Every page of the area is mapped.
    pub open spec fn fully_mapped(self, pt: PageTable, mem: PhysMem) -> bool {
        self.mapped_prefix(pt, mem, self.page_count())
    }

    /// No two of the first `n` pages own the same frame.
    pub open spec fn frames_distinct(self, n: int) -> bool {
        forall|k: int, k2: int|
            0 <= k < k2 < n && self.data_frames@[k] is Some && self.data_frames@[k2] is
                Some ==> self.frame_ppn(k) != self.frame_ppn(k2)
    }

    /// The frames owned by the first `n` pages are live: no longer
    /// available in the allocator, below its never-used mark, and not tree
    /// nodes of the page table.
    pub open spec fn frames_owned(
        self,
        pt: PageTable,
        allocator: StackFrameAllocator,
        n: int,
    ) -> bool {
        forall|k: int|
            0 <= k < n && self.data_frames@[k] is Some ==> !allocator.available().contains(
                #[trigger] self.frame_ppn(k),
            ) && !pt.is_node(self.frame_ppn(k)) && self.frame_ppn(k) < allocator.current
    }

    /// The frames owned by the first `n` pages still hold only zeroes.
    pub open spec fn frames_zeroed(self, mem: PhysMem, n: int) -> bool {
        forall|k: int|
            0 <= k < n && self.data_frames@[k] is Some ==> (#[trigger] mem.page_of(
                self.frame_ppn(k),
            )).is_zeroed()
    }

    /// A new, still unmapped area spanning the pages that cover
    /// `[start_va, end_va)`.
    pub fn new(
        start_va: VirtAddr,
        end_va: VirtAddr,
        map_type: MapType,
        map_perm: MapPermission,
    ) -> (r: Self)
        requires
            start_va.0 <= end_va.0,
            end_va.0 <= 0x80_0000_0000,
            map_perm.bits & 1 == 0,
        ensures
            r.wf(),
            r.start() == start_va.0 / PAGE_SIZE,
            r.end_vpn() == (end_va.0 + (PAGE_SIZE - 1)) / (PAGE_SIZE as int),
            r.map_type == map_type,
            r.map_perm == map_perm,
            forall|k: int| 0 <= k < r.page_count() ==> r.data_frames@[k] is None,
    {
        let start_vpn = start_va.floor();
        let end_vpn = end_va.ceil();
        proof {
            lemma_div_is_ordered(start_va.0 as int, end_va.0 as int, PAGE_SIZE as int);
            lemma_div_is_ordered(
                end_va.0 as int,
                end_va.0 + (PAGE_SIZE - 1),
                PAGE_SIZE as int,
            );
            assert(end_vpn.0 <= 0x800_0000) by {
                lemma_div_is_ordered(
                    end_va.0 + (PAGE_SIZE - 1),
                    0x80_0000_0000 + (PAGE_SIZE - 1),
                    PAGE_SIZE as int,
                );
            }
        }
        let count = (end_vpn.0 - start_vpn.0) as usize;
        let mut data_frames: Vec<Option<FrameTracker>> = Vec::new();
        let mut k: usize = 0;
        while k < count
            invariant
                k <= count,
                data_frames@.len() == k,
                forall|i: int| 0 <= i < k ==> data_frames@[i] is None,
            decreases count - k,
        {
            data_frames.push(None);
            k = k + 1;
        }
        MapArea {
            vpn_range: VPNRange::new(start_vpn, end_vpn),
            data_frames,
            map_type,
            map_perm,
        }
    }

    /// Map the single page `vpn` of this area: identity for an identical
    /// area, onto a freshly allocated zeroed frame for a framed one.
    pub fn map_one(
        &mut self,
        page_table: &mut PageTable,
        mem: &mut PhysMem,
        allocator: &mut StackFrameAllocator,
        vpn: VirtPageNum,
    )
        requires
            old(self).wf(),
            old(page_table).wf(*old(mem)),
            old(allocator).wf(),
            old(page_table).disjoint_from(*old(allocator)),
            old(allocator).available().subset_of(
                Set::new(|p: u64| old(mem).contains(p)),
            ),
            old(allocator).avail_count() >= 3,
            old(self).start() <= vpn.0 < old(self).end_vpn(),
            !old(page_table).is_mapped(*old(mem), vpn.0),
            old(self).data_frames@[vpn.0 - old(self).start()] is None,
        ensures
            final(self).wf(),
            final(self).vpn_range == old(self).vpn_range,
            final(self).map_type == old(self).map_type,
            final(self).map_perm == old(self).map_perm,
            final(self).data_frames@.len() == old(self).data_frames@.len(),
            forall|k: int|
                0 <= k < old(self).page_count() && k != vpn.0 - old(self).start()
                    ==> final(self).data_frames@[k] == old(self).data_frames@[k],
            final(self).page_mapped_at(*final(page_table), *final(mem), vpn.0 - old(
            self).start()),
            old(self).map_type == MapType::Framed ==> final(self).data_frames@[vpn.0
                - old(self).start()] is Some && old(allocator).available().contains(
                final(self).frame_ppn(vpn.0 - old(self).start()),
            ) && !final(allocator).available().contains(
                final(self).frame_ppn(vpn.0 - old(self).start()),
            ) && !final(page_table).is_node(
                final(self).frame_ppn(vpn.0 - old(self).start()),
            ) && final(self).frame_ppn(vpn.0 - old(self).start()) < final(
            allocator).current && final(mem).page_of(
                final(self).frame_ppn(vpn.0 - old(self).start()),
            ).is_zeroed(),
            old(self).map_type == MapType::Identical ==> final(self).data_frames@ == old(
            self).data_frames@,
            final(page_table).wf(*final(mem)),
            final(page_table).root_ppn == old(page_table).root_ppn,
            final(allocator).wf(),
            final(allocator).end == old(allocator).end,
            final(page_table).disjoint_from(*final(allocator)),
            final(allocator).available().subset_of(
                Set::new(|p: u64| final(mem).contains(p)),
            ),
            final(allocator).avail_count() >= old(allocator).avail_count() - 3,
            final(allocator).current >= old(allocator).current,
            final(mem).base == old(mem).base,
            final(mem).pages@.len() == old(mem).pages@.len(),
            forall|w: u64|
                w < 0x800_0000 && w != vpn.0 ==> #[trigger] final(
                page_table).translate_spec(*final(mem), w) == old(
                page_table).translate_spec(*old(mem), w),
            forall|p: u64|
                #[trigger] final(page_table).is_node(p) ==> old(page_table).is_node(p)
                    || old(allocator).available().contains(p),
            forall|p: u64|
                #[trigger] old(page_table).is_node(p) ==> final(page_table).is_node(p),
            forall|p: u64|
                #[trigger] final(allocator).available().contains(p) ==> old(
                allocator).available().contains(p),
            forall|p: u64|
                old(mem).contains(p) && !old(allocator).available().contains(p) && !old(
                page_table).is_node(p) ==> #[trigger] final(mem).page_of(p) == old(
                mem).page_of(p),
            forall|p: u64|
                old(mem).contains(p) && !old(allocator).available().contains(p)
                    ==> #[trigger] final(mem).page_of(p).bytes@ == old(mem).page_of(
                p).bytes@,
    {
        let ghost k = vpn.0 - old(self).start();
        match self.map_type {
            MapType::Identical => {
                let ppn = PhysPageNum(vpn.0);
                let flags = PTEFlags::from_bits(self.map_perm.bits);
                let r = page_table.map(mem, allocator, vpn, ppn, flags);
                proof {
                    assert(r is Ok);
                }
            },
            MapType::Framed => {
                let f_opt = frame_alloc(allocator, mem);
                proof {
                    assert(f_opt is Some);
                }
                let f = f_opt.unwrap();
                let ppn = f.ppn;
                let ghost m1 = *mem;
                let ghost a1 = *allocator;
                proof {
                    // zeroing a page that is no tree node leaves the table
                    // intact and every translation unchanged
                    assert(!page_table.is_node(ppn.0));
                    assert forall|p: u64|
                        old(mem).contains(p) && page_table.is_node(p) implies #[trigger]
                        m1.page_of(p) == old(mem).page_of(p) by {
                        assert(p != ppn.0);
                    }
                    super::page_table::lemma_wf_preserved_nonnode_change(
                        *page_table,
                        *old(mem),
                        m1,
                    );
                }
                let flags = PTEFlags::from_bits(self.map_perm.bits);
                let ghost pt1 = *page_table;
                let r = page_table.map(mem, allocator, vpn, ppn, flags);
                proof {
                    assert(r is Ok);
                    assert(!page_table.is_node(ppn.0)) by {
                        if page_table.is_node(ppn.0) {
                            assert(pt1.is_node(ppn.0) || a1.available().contains(ppn.0));
                        }
                    }
                    assert(!allocator.available().contains(ppn.0));
                    assert(mem.page_of(ppn.0).is_zeroed()) by {
                        assert(m1.contains(ppn.0));
                        assert(!a1.available().contains(ppn.0));
                        assert(!pt1.is_node(ppn.0));
                        assert(mem.page_of(ppn.0) == m1.page_of(ppn.0));
                    }
                }
                let idx = (vpn.0 - self.vpn_range.l.0) as usize;
                proof {
                    assert(vpn.0 - self.vpn_range.l.0 < self.data_frames@.len());
                }
                self.data_frames.set(idx, Some(f));
            },
        }
    }
    /// Map every page of the area, in ascending page order.
    pub fn map(
        &mut self,
        page_table: &mut PageTable,
        mem: &mut PhysMem,
        allocator: &mut StackFrameAllocator,
    )
        requires
            old(self).wf(),
            old(page_table).wf(*old(mem)),
            old(allocator).wf(),
            old(page_table).disjoint_from(*old(allocator)),
            old(allocator).available().subset_of(
                Set::new(|p: u64| old(mem).contains(p)),
            ),
            old(allocator).avail_count() >= 3 * old(self).page_count(),
            forall|k: int|
                0 <= k < old(self).page_count() ==> !old(page_table).is_mapped(
                    *old(mem),
                    #[trigger] ((old(self).start() + k) as u64),
                ),
            forall|k: int| 0 <= k < old(self).page_count() ==> old(self).data_frames@[k] is None,
        ensures
            final(self).wf(),
            final(self).vpn_range == old(self).vpn_range,
            final(self).map_type == old(self).map_type,
            final(self).map_perm == old(self).map_perm,
            final(self).fully_mapped(*final(page_table), *final(mem)),
            final(self).frames_distinct(final(self).page_count()),
            final(self).frames_owned(
                *final(page_table),
                *final(allocator),
                final(self).page_count(),
            ),
            final(self).frames_zeroed(*final(mem), final(self).page_count()),
            final(page_table).wf(*final(mem)),
            final(page_table).root_ppn == old(page_table).root_ppn,
            final(allocator).wf(),
            final(allocator).end == old(allocator).end,
            final(allocator).current >= old(allocator).current,
            final(allocator).avail_count() >= old(allocator).avail_count() - 3 * old(
            self).page_count(),
            final(page_table).disjoint_from(*final(allocator)),
            final(allocator).available().subset_of(
                Set::new(|p: u64| final(mem).contains(p)),
            ),
            final(mem).base == old(mem).base,
            final(mem).pages@.len() == old(mem).pages@.len(),
            forall|w: u64|
                w < 0x800_0000 && !(old(self).start() <= w < old(self).end_vpn())
                    ==> #[trigger] final(page_table).translate_spec(*final(mem), w)
                    == old(page_table).translate_spec(*old(mem), w),
            forall|p: u64|
                #[trigger] final(page_table).is_node(p) ==> old(page_table).is_node(p)
                    || old(allocator).available().contains(p),
            forall|p: u64|
                #[trigger] old(page_table).is_node(p) ==> final(page_table).is_node(p),
            forall|p: u64|
                #[trigger] final(allocator).available().contains(p) ==> old(
                allocator).available().contains(p),
            forall|p: u64|
                old(mem).contains(p) && !old(allocator).available().contains(p) && !old(
                page_table).is_node(p) ==> #[trigger] final(mem).page_of(p) == old(
                mem).page_of(p),
            forall|p: u64|
                old(mem).contains(p) && !old(allocator).available().contains(p)
                    ==> #[trigger] final(mem).page_of(p).bytes@ == old(mem).page_of(
                p).bytes@,
            forall|k: int|
                0 <= k < final(self).page_count() && final(self).data_frames@[k] is Some
                    ==> old(allocator).available().contains(
                    #[trigger] final(self).frame_ppn(k),
                ),
    {
        let start = self.vpn_range.l.0;
        let end = self.vpn_range.r.0;
        let mut v = start;
        while v < end
            invariant
                self.wf(),
                self.vpn_range == old(self).vpn_range,
                self.map_type == old(self).map_type,
                self.map_perm == old(self).map_perm,
                start == old(self).start(),
                end == old(self).end_vpn(),
                start <= v <= end,
                page_table.wf(*mem),
                page_table.root_ppn == old(page_table).root_ppn,
                allocator.wf(),
                allocator.end == old(allocator).end,
                allocator.current >= old(allocator).current,
                page_table.disjoint_from(*allocator),
                allocator.available().subset_of(
                    Set::new(|p: u64| mem.contains(p)),
                ),
                allocator.avail_count() >= 3 * (end - v),
                allocator.avail_count() >= old(allocator).avail_count() - 3 * (v
                    - start),
                mem.base == old(mem).base,
                mem.pages@.len() == old(mem).pages@.len(),
                self.mapped_prefix(*page_table, *mem, v - start),
                self.frames_distinct(v - start),
                self.frames_owned(*page_table, *allocator, v - start),
                self.frames_zeroed(*mem, v - start),
                forall|k: int|
                    v - start <= k < self.page_count() ==> self.data_frames@[k] is None,
                forall|w: u64|
                    w < 0x800_0000 && !(start <= w < v) ==> #[trigger] page_table
                        .translate_spec(*mem, w) == old(page_table).translate_spec(
                        *old(mem), w),
                forall|p: u64|
                    #[trigger] page_table.is_node(p) ==> old(page_table).is_node(p)
                        || old(allocator).available().contains(p),
                forall|p: u64|
                    #[trigger] old(page_table).is_node(p) ==> page_table.is_node(p),
                forall|p: u64|
                    #[trigger] allocator.available().contains(p) ==> old(
                    allocator).available().contains(p),
                forall|p: u64|
                    old(mem).contains(p) && !old(allocator).available().contains(p)
                        && !old(page_table).is_node(p) ==> #[trigger] mem.page_of(p)
                        == old(mem).page_of(p),
                forall|p: u64|
                    old(mem).contains(p) && !old(allocator).available().contains(p)
                        ==> #[trigger] mem.page_of(p).bytes@ == old(mem).page_of(
                    p).bytes@,
                forall|k: int|
                    0 <= k < v - start && self.data_frames@[k] is Some ==> old(
                    allocator).available().contains(#[trigger] self.frame_ppn(k)),
                forall|k: int|
                    0 <= k < old(self).page_count() ==> !old(page_table).is_mapped(
                        *old(mem),
                        #[trigger] ((start + k) as u64),
                    ),
            decreases end - v,
        {
            let ghost s_i = *self;
            let ghost pt_i = *page_table;
            let ghost m_i = *mem;
            let ghost a_i = *allocator;
            let ghost j = v - start;
            proof {
                assert(!page_table.is_mapped(*mem, v)) by {
                    assert(page_table.translate_spec(*mem, v) == old(
                        page_table,
                    ).translate_spec(*old(mem), v));
                    assert(!old(page_table).is_mapped(*old(mem), ((start + j) as u64)));
                }
            }
            self.map_one(page_table, mem, allocator, VirtPageNum(v));
            v = v + 1;
            proof {
                assert forall|k: int| 0 <= k < v - start implies self.page_mapped_at(
                    *page_table, *mem, k) by {
                    if k < j {
                        assert(s_i.page_mapped_at(pt_i, m_i, k));
                        assert(self.data_frames@[k] == s_i.data_frames@[k]);
                        assert(page_table.translate_spec(*mem, ((start + k) as u64))
                            == pt_i.translate_spec(m_i, ((start + k) as u64)));
                        if self.map_type == MapType::Framed {
                            assert(mem.contains(self.frame_ppn(k)));
                        }
                    } else {
                        assert(self.page_mapped_at(*page_table, *mem, j));
                    }
                }
                assert forall|k: int, k2: int|
                    0 <= k < k2 < v - start && self.data_frames@[k] is Some
                        && self.data_frames@[k2] is Some implies self.frame_ppn(k)
                    != self.frame_ppn(k2) by {
                    if k2 == j {
                        assert(self.data_frames@[k] == s_i.data_frames@[k]);
                        if self.map_type == MapType::Framed {
                            assert(s_i.frames_owned(pt_i, a_i, j));
                            assert(s_i.data_frames@[k] is Some);
                            assert(!a_i.available().contains(s_i.frame_ppn(k)));
                            assert(a_i.available().contains(self.frame_ppn(j)));
                            assert(self.frame_ppn(k) == s_i.frame_ppn(k));
                            assert(self.frame_ppn(k) != self.frame_ppn(k2));
                        } else {
                            assert(self.data_frames@ == s_i.data_frames@);
                            assert(s_i.data_frames@[k2] is None);
                        }
                    } else {
                        assert(self.data_frames@[k] == s_i.data_frames@[k]);
                        assert(self.data_frames@[k2] == s_i.data_frames@[k2]);
                        assert(s_i.frames_distinct(j));
                        assert(self.frame_ppn(k) == s_i.frame_ppn(k));
                        assert(self.frame_ppn(k2) == s_i.frame_ppn(k2));
                        assert(s_i.frame_ppn(k) != s_i.frame_ppn(k2));
                    }
                }
                assert forall|k: int|
                    0 <= k < v - start && self.data_frames@[k] is Some implies !allocator
                    .available().contains(#[trigger] self.frame_ppn(k)) && !page_table
                    .is_node(self.frame_ppn(k)) && self.frame_ppn(k)
                    < allocator.current by {
                    if k < j {
                        assert(!a_i.available().contains(s_i.frame_ppn(k)));
                        assert(!pt_i.is_node(s_i.frame_ppn(k)));
                        if page_table.is_node(self.frame_ppn(k)) {
                            assert(pt_i.is_node(self.frame_ppn(k)) || a_i
                                .available().contains(self.frame_ppn(k)));
                        }
                    }
                }
                assert forall|k: int|
                    0 <= k < v - start && self.data_frames@[k] is Some implies (
                #[trigger] mem.page_of(self.frame_ppn(k))).is_zeroed() by {
                    if k < j {
                        assert(self.data_frames@[k] == s_i.data_frames@[k]);
                        if self.map_type == MapType::Framed {
                            assert(s_i.page_mapped_at(pt_i, m_i, k));
                            assert(m_i.page_of(s_i.frame_ppn(k)).is_zeroed());
                            assert(m_i.contains(s_i.frame_ppn(k)));
                            assert(s_i.frames_owned(pt_i, a_i, j));
                            assert(s_i.data_frames@[k] is Some);
                            assert(!a_i.available().contains(s_i.frame_ppn(k)));
                            assert(!pt_i.is_node(s_i.frame_ppn(k)));
                            assert(mem.page_of(self.frame_ppn(k)) == m_i.page_of(
                                s_i.frame_ppn(k)));
                        } else {
                            assert(self.data_frames@ == s_i.data_frames@);
                            assert(s_i.data_frames@[k] is None);
                        }
                    }
                }
                assert forall|w: u64|
                    w < 0x800_0000 && !(start <= w < v) implies #[trigger] page_table
                    .translate_spec(*mem, w) == old(page_table).translate_spec(
                    *old(mem), w) by {
                    assert(page_table.translate_spec(*mem, w) == pt_i.translate_spec(
                        m_i, w));
                }
                assert forall|p: u64|
                    old(mem).contains(p) && !old(allocator).available().contains(p)
                        && !old(page_table).is_node(p) implies #[trigger] mem.page_of(
                    p) == old(mem).page_of(p) by {
                    assert(!a_i.available().contains(p));
                    assert(!pt_i.is_node(p));
                    assert(m_i.contains(p));
                }
                assert forall|p: u64|
                    old(mem).contains(p) && !old(allocator).available().contains(
                    p) implies #[trigger] mem.page_of(p).bytes@ == old(mem).page_of(
                    p).bytes@ by {
                    assert(!a_i.available().contains(p));
                    assert(m_i.contains(p));
                }
                assert forall|k: int|
                    0 <= k < v - start && self.data_frames@[k] is Some implies old(
                    allocator).available().contains(#[trigger] self.frame_ppn(k)) by {
                    if k == j {
                        assert(a_i.available().contains(self.frame_ppn(j)));
                    } else {
                        assert(self.data_frames@[k] == s_i.data_frames@[k]);
                        assert(old(allocator).available().contains(s_i.frame_ppn(k)));
                    }
                }
            }
        }
    }
    /// Whether `p` is a frame owned by one of the area's pages.
    pub open spec fn owns_frame(self, p: u64) -> bool {
        exists|k: int|
            0 <= k < self.page_count() && self.data_frames@[k] is Some
                && #[trigger] self.frame_ppn(k) == p
    }

    /// Copy `data` into the frames of this fully mapped framed area, page
    /// chunk by page chunk, locating each frame through the page table.
    /// Afterwards the area's frames hold exactly `data` followed by the
    /// zeroes the frames were filled with on allocation.
    pub fn copy_data(&self, page_table: &PageTable, mem: &mut PhysMem, data: &Vec<u8>)
        requires
            self.wf(),
            self.map_type == MapType::Framed,
            page_table.wf(*old(mem)),
            self.fully_mapped(*page_table, *old(mem)),
            self.frames_distinct(self.page_count()),
            forall|k: int|
                0 <= k < self.page_count() && self.data_frames@[k] is Some
                    ==> !page_table.is_node(#[trigger] self.frame_ppn(k)),
            self.frames_zeroed(*old(mem), self.page_count()),
            data@.len() <= self.page_count() * 4096,
            data@.len() + PAGE_SIZE <= usize::MAX,
        ensures
            final(mem).wf(),
            final(mem).base == old(mem).base,
            final(mem).pages@.len() == old(mem).pages@.len(),
            page_table.wf(*final(mem)),
            self.fully_mapped(*page_table, *final(mem)),
            forall|j: int|
                0 <= j < data@.len() ==> final(mem).byte_at(
                    self.frame_ppn(j / 4096),
                    (j % 4096) as u64,
                ) == data@[j],
            forall|k: int, o: int|
                0 <= k < self.page_count() && 0 <= o < 4096 && k * 4096 + o >= data@.len()
                    ==> #[trigger] final(mem).byte_at(self.frame_ppn(k), o as u64) == 0,
            forall|p: u64|
                old(mem).contains(p) && !self.owns_frame(p) ==> #[trigger] final(
                mem).page_of(p) == old(mem).page_of(p),
            forall|p: u64|
                old(mem).contains(p) ==> #[trigger] final(mem).page_of(p).ptes@ == old(
                mem).page_of(p).ptes@,
            forall|w: u64|
                #[trigger] page_table.translate_spec(*final(mem), w)
                    == page_table.translate_spec(*old(mem), w),
    {
        let ghost old_mem = *old(mem);
        let len: usize = data.len();
        let mut start: usize = 0;
        let mut k: usize = 0;
        while start < len
            invariant
                self.wf(),
                self.map_type == MapType::Framed,
                page_table.wf(old_mem),
                self.fully_mapped(*page_table, old_mem),
                self.frames_distinct(self.page_count()),
                forall|k2: int|
                    0 <= k2 < self.page_count() && self.data_frames@[k2] is Some
                        ==> !page_table.is_node(#[trigger] self.frame_ppn(k2)),
                len == data@.len(),
                len <= self.page_count() * 4096,
                len + PAGE_SIZE <= usize::MAX,
                start == k * 4096,
                mem.wf(),
                mem.base == old_mem.base,
                mem.pages@.len() == old_mem.pages@.len(),
                forall|p: u64|
                    old_mem.contains(p) && !self.owns_frame(p) ==> #[trigger] mem.page_of(
                    p) == old_mem.page_of(p),
                forall|p: u64|
                    old_mem.contains(p) ==> #[trigger] mem.page_of(p).ptes@
                        == old_mem.page_of(p).ptes@,
                forall|j: int|
                    0 <= j < len && j < start ==> mem.byte_at(
                        self.frame_ppn(j / 4096),
                        (j % 4096) as u64,
                    ) == data@[j],
                forall|k2: int, o: int|
                    0 <= k2 < k && 0 <= o < 4096 && k2 * 4096 + o >= len ==> #[trigger] mem.byte_at(
                        self.frame_ppn(k2),
                        o as u64,
                    ) == 0,
                forall|k2: int|
                    k <= k2 < self.page_count() && self.data_frames@[k2] is Some ==> (
                    #[trigger] mem.page_of(self.frame_ppn(k2))).is_zeroed(),
            decreases len + 4096 - start,
        {
            proof {
                assert(k < self.page_count()) by (nonlinear_arith)
                    requires
                        start == k * 4096,
                        start < len,
                        len <= self.page_count() * 4096,
                ;
                assert(self.start() + k < 0x800_0000);
                // the table is intact in the current memory: no frame of
                // the area is one of its tree nodes
                assert forall|p: u64|
                    old_mem.contains(p) && page_table.is_node(p) implies #[trigger] mem
                    .page_of(p) == old_mem.page_of(p) by {
                    if self.owns_frame(p) {
                        let kw = choose|kw: int|
                            0 <= kw < self.page_count() && self.data_frames@[kw] is Some
                                && self.frame_ppn(kw) == p;
                        assert(!page_table.is_node(self.frame_ppn(kw)));
                    }
                }
                lemma_wf_preserved_nonnode_change(*page_table, old_mem, *mem);
            }
            let vpn = VirtPageNum(self.vpn_range.l.0 + k as u64);
            let pte_opt = page_table.translate(mem, vpn);
            proof {
                assert(self.page_mapped_at(*page_table, old_mem, k as int));
                assert(page_table.translate_spec(*mem, vpn.0) == page_table
                    .translate_spec(old_mem, vpn.0));
                assert(pte_opt is Some);
                assert(mem.contains(self.frame_ppn(k as int)));
                assert(self.frame_ppn(k as int) < 0x1000_0000_0000);
                lemma_pte_fields(self.frame_ppn(k as int), self.map_perm.bits | 1);
            }
            let ppn = pte_opt.unwrap().ppn();
            proof {
                assert(ppn.0 == self.frame_ppn(k as int));
            }
            let remaining = len - start;
            let chunk = if remaining < 4096 {
                remaining
            } else {
                4096
            };
            proof {
                assert(self.data_frames@[k as int] is Some);
                assert(mem.page_of(self.frame_ppn(k as int)).is_zeroed());
            }
            let ghost m_k = *mem;
            let mut o: usize = 0;
            while o < chunk
                invariant
                    o <= chunk,
                    chunk <= 4096,
                    chunk <= len - start,
                    len == data@.len(),
                    start + chunk <= len,
                    ppn.0 == self.frame_ppn(k as int),
                    m_k.contains(ppn.0),
                    m_k.wf(),
                    m_k.page_of(ppn.0).is_zeroed(),
                    mem.wf(),
                    mem.base == m_k.base,
                    mem.pages@.len() == m_k.pages@.len(),
                    forall|p: u64|
                        m_k.contains(p) && p != ppn.0 ==> #[trigger] mem.page_of(p)
                            == m_k.page_of(p),
                    forall|p: u64|
                        m_k.contains(p) ==> #[trigger] mem.page_of(p).ptes@
                            == m_k.page_of(p).ptes@,
                    forall|oo: int|
                        0 <= oo < o ==> #[trigger] mem.byte_at(ppn.0, oo as u64)
                            == data@[start + oo],
                    forall|oo: int|
                        o <= oo < 4096 ==> #[trigger] mem.byte_at(ppn.0, oo as u64) == 0,
                decreases chunk - o,
            {
                proof {
                    assert(mem.contains(ppn.0));
                    assert(mem.page_of(ppn.0).wf());
                }
                let ghost m_o = *mem;
                mem.write_byte(ppn.0, o as u64, data[start + o]);
                o = o + 1;
                proof {
                    assert(mem.contains(ppn.0));
                    assert(mem.page_of(ppn.0).wf());
                    assert(m_o.page_of(ppn.0).bytes@.len() == 4096);
                    assert(mem.page_of(ppn.0).bytes@ == m_o.page_of(ppn.0).bytes@.update(
                        (o - 1) as int,
                        data@[start + (o - 1)],
                    ));
                    assert forall|oo: int| 0 <= oo < o implies #[trigger] mem.byte_at(
                        ppn.0, oo as u64) == data@[start + oo] by {
                        if oo < o - 1 {
                            assert(m_o.byte_at(ppn.0, oo as u64) == data@[start + oo]);
                        }
                    }
                    assert forall|oo: int| o <= oo < 4096 implies #[trigger] mem.byte_at(
                        ppn.0, oo as u64) == 0 by {
                        assert(m_o.byte_at(ppn.0, oo as u64) == 0);
                    }
                }
            }
            let ghost k_old = k as int;
            let ghost start_old = start as int;
            start = start + 4096;
            k = k + 1;
            proof {
                // a page other than the one just filled kept its contents
                assert forall|p: u64|
                    old_mem.contains(p) && !self.owns_frame(p) implies #[trigger] mem
                    .page_of(p) == old_mem.page_of(p) by {
                    assert(p != ppn.0) by {
                        if p == ppn.0 {
                            assert(self.data_frames@[k_old] is Some);
                            assert(self.frame_ppn(k_old) == p);
                        }
                    }
                    assert(m_k.page_of(p) == old_mem.page_of(p));
                }
                assert forall|p: u64| old_mem.contains(p) implies #[trigger] mem.page_of(
                    p).ptes@ == old_mem.page_of(p).ptes@ by {
                    assert(m_k.contains(p));
                }
                assert forall|j: int| 0 <= j < len && j < start implies mem.byte_at(
                    self.frame_ppn(j / 4096),
                    (j % 4096) as u64,
                ) == data@[j] by {
                    if j < start_old {
                        assert(self.frame_ppn(j / 4096) != ppn.0) by {
                            assert(0 <= j / 4096 < k_old) by (nonlinear_arith)
                                requires
                                    0 <= j < start_old,
                                    start_old == k_old * 4096,
                            ;
                            assert(self.page_mapped_at(*page_table, old_mem, j / 4096));
                            assert(self.page_mapped_at(*page_table, old_mem, k_old));
                        }
                        assert(m_k.byte_at(self.frame_ppn(j / 4096), (j % 4096) as u64)
                            == data@[j]);
                        assert(m_k.contains(self.frame_ppn(j / 4096))) by {
                            assert(self.page_mapped_at(*page_table, old_mem, j / 4096));
                        }
                        assert(mem.page_of(self.frame_ppn(j / 4096)) == m_k.page_of(
                            self.frame_ppn(j / 4096)));
                    } else {
                        assert(j / 4096 == k_old && j % 4096 == j - start_old)
                            by (nonlinear_arith)
                            requires
                                start_old <= j < start_old + 4096,
                                start_old == k_old * 4096,
                        ;
                        assert(mem.byte_at(ppn.0, (j - start_old) as u64) == data@[
                        start_old + (j - start_old)]);
                    }
                }
                assert forall|k2: int, o2: int|
                    0 <= k2 < k && 0 <= o2 < 4096 && k2 * 4096 + o2 >= len implies #[trigger] mem
                    .byte_at(self.frame_ppn(k2), o2 as u64) == 0 by {
                    if k2 == k_old {
                        assert(o2 >= chunk) by (nonlinear_arith)
                            requires
                                k2 * 4096 + o2 >= len,
                                k2 == k_old,
                                start_old == k_old * 4096,
                                chunk == if len - start_old < 4096 {
                                    len - start_old
                                } else {
                                    4096
                                },
                                0 <= o2 < 4096,
                        ;
                        assert(mem.byte_at(ppn.0, o2 as u64) == 0);
                    } else {
                        assert(self.frame_ppn(k2) != ppn.0) by {
                            assert(self.page_mapped_at(*page_table, old_mem, k2));
                            assert(self.page_mapped_at(*page_table, old_mem, k_old));
                        }
                        assert(m_k.contains(self.frame_ppn(k2))) by {
                            assert(self.page_mapped_at(*page_table, old_mem, k2));
                        }
                        assert(mem.page_of(self.frame_ppn(k2)) == m_k.page_of(
                            self.frame_ppn(k2)));
                        assert(m_k.byte_at(self.frame_ppn(k2), o2 as u64) == 0);
                    }
                }
                assert forall|k2: int|
                    k <= k2 < self.page_count() && self.data_frames@[k2] is Some implies (
                #[trigger] mem.page_of(self.frame_ppn(k2))).is_zeroed() by {
                    assert(self.frame_ppn(k2) != ppn.0) by {
                        assert(self.page_mapped_at(*page_table, old_mem, k2));
                        assert(self.page_mapped_at(*page_table, old_mem, k_old));
                    }
                    assert(m_k.contains(self.frame_ppn(k2))) by {
                        assert(self.page_mapped_at(*page_table, old_mem, k2));
                    }
                    assert(mem.page_of(self.frame_ppn(k2)) == m_k.page_of(
                        self.frame_ppn(k2)));
                }
            }
        }
        proof {
            assert forall|p: u64|
                old_mem.contains(p) && page_table.is_node(p) implies #[trigger] mem
                .page_of(p) == old_mem.page_of(p) by {
                if self.owns_frame(p) {
                    let kw = choose|kw: int|
                        0 <= kw < self.page_count() && self.data_frames@[kw] is Some
                            && self.frame_ppn(kw) == p;
                    assert(!page_table.is_node(self.frame_ppn(kw)));
                }
            }
            lemma_wf_preserved_nonnode_change(*page_table, old_mem, *mem);
            assert forall|k2: int, o: int|
                0 <= k2 < self.page_count() && 0 <= o < 4096 && k2 * 4096 + o
                    >= data@.len() implies #[trigger] mem.byte_at(
                self.frame_ppn(k2),
                o as u64,
            ) == 0 by {
                if k2 >= k {
                    assert(self.page_mapped_at(*page_table, old_mem, k2));
                    assert(self.data_frames@[k2] is Some);
                    assert(mem.page_of(self.frame_ppn(k2)).is_zeroed());
                    assert(old_mem.contains(self.frame_ppn(k2)));
                    assert(mem.page_of(self.frame_ppn(k2)).bytes@.len() == 4096) by {
                        assert(mem.contains(self.frame_ppn(k2)));
                        assert(mem.page_of(self.frame_ppn(k2)).wf());
                    }
                }
            }
            assert forall|k2: int|
                0 <= k2 < self.page_count() implies self.page_mapped_at(
                *page_table, *mem, k2) by {
                assert(self.page_mapped_at(*page_table, old_mem, k2));
                assert(page_table.translate_spec(*mem, ((self.start() + k2) as u64))
                    == page_table.translate_spec(old_mem, ((self.start() + k2) as u64)));
            }
        }
    }
    /// Unmap the single page `vpn` of this area, returning its frame to
    /// the pool if the area is framed.
    pub fn unmap_one(
        &mut self,
        page_table: &mut PageTable,
        mem: &mut PhysMem,
        allocator: &mut StackFrameAllocator,
        vpn: VirtPageNum,
    )
        requires
            old(self).wf(),
            old(page_table).wf(*old(mem)),
            old(allocator).wf(),
            old(page_table).disjoint_from(*old(allocator)),
            old(allocator).available().subset_of(
                Set::new(|p: u64| old(mem).contains(p)),
            ),
            old(self).start() <= vpn.0 < old(self).end_vpn(),
            old(self).page_mapped_at(*old(page_table), *old(mem), vpn.0 - old(
            self).start()),
            old(self).map_type == MapType::Framed ==> !old(allocator).available().contains(
                old(self).frame_ppn(vpn.0 - old(self).start()),
            ) && !old(page_table).is_node(old(self).frame_ppn(vpn.0 - old(self).start()))
                && old(self).frame_ppn(vpn.0 - old(self).start()) < old(
            allocator).current,
        ensures
            final(self).wf(),
            final(self).vpn_range == old(self).vpn_range,
            final(self).map_type == old(self).map_type,
            final(self).map_perm == old(self).map_perm,
            final(self).data_frames@[vpn.0 - old(self).start()] is None,
            forall|k: int|
                0 <= k < old(self).page_count() && k != vpn.0 - old(self).start()
                    ==> final(self).data_frames@[k] == old(self).data_frames@[k],
            final(page_table).wf(*final(mem)),
            final(page_table).root_ppn == old(page_table).root_ppn,
            final(page_table).l1() == old(page_table).l1(),
            final(page_table).l2() == old(page_table).l2(),
            final(allocator).wf(),
            final(allocator).end == old(allocator).end,
            final(allocator).current == old(allocator).current,
            final(page_table).disjoint_from(*final(allocator)),
            final(allocator).available().subset_of(
                Set::new(|p: u64| final(mem).contains(p)),
            ),
            final(mem).base == old(mem).base,
            final(mem).pages@.len() == old(mem).pages@.len(),
            final(page_table).translate_spec(*final(mem), vpn.0) is None,
            forall|w: u64|
                w < 0x800_0000 && w != vpn.0 ==> #[trigger] final(
                page_table).translate_spec(*final(mem), w) == old(
                page_table).translate_spec(*old(mem), w),
            old(self).map_type == MapType::Framed ==> final(allocator).available()
                == old(allocator).available().insert(
                old(self).frame_ppn(vpn.0 - old(self).start()),
            ),
            old(self).map_type == MapType::Identical ==> final(allocator).recycled@
                == old(allocator).recycled@,
    {
        let ghost k = vpn.0 - old(self).start();
        let idx = (vpn.0 - self.vpn_range.l.0) as usize;
        proof {
            assert(vpn.0 - self.vpn_range.l.0 < self.data_frames@.len());
        }
        match self.map_type {
            MapType::Framed => {
                let mut taken: Option<FrameTracker> = None;
                self.data_frames.set_and_swap(idx, &mut taken);
                proof {
                    assert(taken is Some);
                }
                let f = taken.unwrap();
                let r = allocator.dealloc(f.ppn);
                proof {
                    assert(!old(allocator).recycled@.contains(f.ppn.0)) by {
                        if old(allocator).recycled@.contains(f.ppn.0) {
                            assert(old(allocator).available().contains(f.ppn.0));
                        }
                    }
                    assert(r is Ok);
                }
            },
            MapType::Identical => {},
        }
        let r = page_table.unmap(mem, vpn);
        proof {
            assert(old(page_table).is_mapped(*old(mem), vpn.0));
            assert(r is Ok);
            assert forall|p: u64| #[trigger] allocator.available().contains(
                p) implies !page_table.is_node(p) by {
                if old(self).map_type == MapType::Framed && p == old(self).frame_ppn(k) {
                } else {
                    assert(old(allocator).available().contains(p));
                }
            }
        }
    }

    /// Unmap every page of the area, in ascending page order, returning
    /// every owned frame to the pool.
    pub fn unmap(
        &mut self,
        page_table: &mut PageTable,
        mem: &mut PhysMem,
        allocator: &mut StackFrameAllocator,
    )
        requires
            old(self).wf(),
            old(page_table).wf(*old(mem)),
            old(allocator).wf(),
            old(page_table).disjoint_from(*old(allocator)),
            old(allocator).available().subset_of(
                Set::new(|p: u64| old(mem).contains(p)),
            ),
            old(self).fully_mapped(*old(page_table), *old(mem)),
            old(self).frames_distinct(old(self).page_count()),
            old(self).frames_owned(
                *old(page_table),
                *old(allocator),
                old(self).page_count(),
            ),
        ensures
            final(self).wf(),
            final(self).vpn_range == old(self).vpn_range,
            final(self).map_type == old(self).map_type,
            final(self).map_perm == old(self).map_perm,
            forall|k: int|
                0 <= k < old(self).page_count() ==> final(self).data_frames@[k] is None,
            final(page_table).wf(*final(mem)),
            final(page_table).root_ppn == old(page_table).root_ppn,
            final(page_table).l1() == old(page_table).l1(),
            final(page_table).l2() == old(page_table).l2(),
            final(allocator).wf(),
            final(allocator).end == old(allocator).end,
            final(allocator).current == old(allocator).current,
            final(page_table).disjoint_from(*final(allocator)),
            final(allocator).available().subset_of(
                Set::new(|p: u64| final(mem).contains(p)),
            ),
            final(mem).base == old(mem).base,
            final(mem).pages@.len() == old(mem).pages@.len(),
            forall|w: u64|
                old(self).start() <= w < old(self).end_vpn() ==> #[trigger] final(
                page_table).translate_spec(*final(mem), w) is None,
            forall|w: u64|
                w < 0x800_0000 && !(old(self).start() <= w < old(self).end_vpn())
                    ==> #[trigger] final(page_table).translate_spec(*final(mem), w)
                    == old(page_table).translate_spec(*old(mem), w),
    {
        let start = self.vpn_range.l.0;
        let end = self.vpn_range.r.0;
        let mut v = start;
        while v < end
            invariant
                self.wf(),
                self.vpn_range == old(self).vpn_range,
                self.map_type == old(self).map_type,
                self.map_perm == old(self).map_perm,
                start == old(self).start(),
                end == old(self).end_vpn(),
                start <= v <= end,
                page_table.wf(*mem),
                page_table.root_ppn == old(page_table).root_ppn,
                page_table.l1() == old(page_table).l1(),
                page_table.l2() == old(page_table).l2(),
                allocator.wf(),
                allocator.end == old(allocator).end,
                allocator.current == old(allocator).current,
                page_table.disjoint_from(*allocator),
                allocator.available().subset_of(
                    Set::new(|p: u64| mem.contains(p)),
                ),
                mem.base == old(mem).base,
                mem.pages@.len() == old(mem).pages@.len(),
                self.frames_distinct(self.page_count()),
                forall|k: int| 0 <= k < v - start ==> self.data_frames@[k] is None,
                forall|k: int|
                    v - start <= k < self.page_count() ==> self.data_frames@[k] == old(
                    self).data_frames@[k],
                forall|k: int|
                    v - start <= k < self.page_count() ==> self.page_mapped_at(
                        *page_table,
                        *mem,
                        k,
                    ),
                forall|k: int|
                    v - start <= k < self.page_count() && self.data_frames@[k] is Some
                        ==> !allocator.available().contains(#[trigger] self.frame_ppn(k))
                        && !page_table.is_node(self.frame_ppn(k)) && self.frame_ppn(k)
                        < allocator.current,
                forall|w: u64|
                    start <= w < v ==> #[trigger] page_table.translate_spec(
                        *mem,
                        w,
                    ) is None,
                forall|w: u64|
                    w < 0x800_0000 && !(start <= w < end) ==> #[trigger] page_table
                        .translate_spec(*mem, w) == old(page_table).translate_spec(
                        *old(mem), w),
            decreases end - v,
        {
            let ghost s_i = *self;
            let ghost pt_i = *page_table;
            let ghost m_i = *mem;
            let ghost a_i = *allocator;
            let ghost j = v - start;
            proof {
                assert(self.page_mapped_at(*page_table, *mem, j));
            }
            self.unmap_one(page_table, mem, allocator, VirtPageNum(v));
            v = v + 1;
            proof {
                assert forall|k: int, k2: int|
                    0 <= k < k2 < self.page_count() && self.data_frames@[k] is Some
                        && self.data_frames@[k2] is Some implies self.frame_ppn(k)
                    != self.frame_ppn(k2) by {
                    assert(k != j && k2 != j);
                    assert(self.data_frames@[k] == s_i.data_frames@[k]);
                    assert(self.data_frames@[k2] == s_i.data_frames@[k2]);
                    assert(s_i.frames_distinct(s_i.page_count()));
                    assert(s_i.frame_ppn(k) != s_i.frame_ppn(k2));
                }
                assert forall|k: int|
                    v - start <= k < self.page_count() implies self.page_mapped_at(
                    *page_table, *mem, k) by {
                    assert(self.data_frames@[k] == s_i.data_frames@[k]);
                    assert(s_i.page_mapped_at(pt_i, m_i, k));
                    assert(page_table.translate_spec(*mem, ((start + k) as u64)) == pt_i
                        .translate_spec(m_i, ((start + k) as u64)));
                }
                assert forall|k: int|
                    v - start <= k < self.page_count() && self.data_frames@[k] is
                    Some implies !allocator.available().contains(
                    #[trigger] self.frame_ppn(k),
                ) && !page_table.is_node(self.frame_ppn(k)) && self.frame_ppn(k)
                    < allocator.current by {
                    assert(self.data_frames@[k] == s_i.data_frames@[k]);
                    assert(!a_i.available().contains(s_i.frame_ppn(k)));
                    if s_i.map_type == MapType::Framed {
                        assert(s_i.data_frames@[j] is Some) by {
                            assert(s_i.page_mapped_at(pt_i, m_i, j));
                        }
                        assert(s_i.frame_ppn(k) != s_i.frame_ppn(j));
                    }
                }
                assert forall|w: u64| start <= w < v implies #[trigger] page_table
                    .translate_spec(*mem, w) is None by {
                    if w < v - 1 {
                        assert(pt_i.translate_spec(m_i, w) is None);
                        assert(page_table.translate_spec(*mem, w) == pt_i.translate_spec(
                            m_i, w));
                    }
                }
                assert forall|w: u64|
                    w < 0x800_0000 && !(start <= w < end) implies #[trigger] page_table
                    .translate_spec(*mem, w) == old(page_table).translate_spec(
                    *old(mem), w) by {
                    assert(page_table.translate_spec(*mem, w) == pt_i.translate_spec(
                        m_i, w));
                }
            }
        }
    }
}

/// The section boundaries of the loaded kernel image, as the linker laid
/// them out: page-aligned and in ascending order.
#[derive(Debug, Copy, Clone, PartialEq, Eq, Structural)]
pub struct KernelLayout {
    pub stext: u64,
    pub etext: u64,
    pub srodata: u64,
    pub erodata: u64,
    pub sdata: u64,
    pub edata: u64,
    pub sbss_with_stack: u64,
    pub ebss: u64,
    pub ekernel: u64,
    pub memory_end: u64,
}

impl KernelLayout {
    /// Every boundary is page-aligned, the sections ascend, and the whole
    /// span stays below the trampoline page.
    pub open spec fn wf(self) -> bool {
        &&& self.stext % PAGE_SIZE == 0
        &&& self.etext % PAGE_SIZE == 0
        &&& self.srodata % PAGE_SIZE == 0
        &&& self.erodata % PAGE_SIZE == 0
        &&& self.sdata % PAGE_SIZE == 0
        &&& self.edata % PAGE_SIZE == 0
        &&& self.sbss_with_stack % PAGE_SIZE == 0
        &&& self.ebss % PAGE_SIZE == 0
        &&& self.ekernel % PAGE_SIZE == 0
        &&& self.memory_end % PAGE_SIZE == 0
        &&& self.stext <= self.etext
        &&& self.etext <= self.srodata
        &&& self.srodata <= self.erodata
        &&& self.erodata <= self.sdata
        &&& self.sdata <= self.edata
        &&& self.edata <= self.sbss_with_stack
        &&& self.sbss_with_stack <= self.ebss
        &&& self.ebss <= self.ekernel
        &&& self.ekernel <= self.memory_end
        &&& self.memory_end <= 0x7f_ffff_f000
    }

    /// How many pages the five kernel sections cover together.
    pub open spec fn total_pages(self) -> int {
        (self.etext / PAGE_SIZE - self.stext / PAGE_SIZE) + (self.erodata / PAGE_SIZE
            - self.srodata / PAGE_SIZE) + (self.edata / PAGE_SIZE - self.sdata
            / PAGE_SIZE) + (self.ebss / PAGE_SIZE - self.sbss_with_stack / PAGE_SIZE) + (
        self.memory_end / PAGE_SIZE - self.ekernel / PAGE_SIZE)
    }
}

/// One address space: a page table plus the logical areas mapped through
/// it.  Areas must not overlap; each caller picks disjoint ranges.
pub struct MemorySet {
    pub page_table: PageTable,
    pub areas: Vec<MapArea>,
}

impl MemorySet {
    /// The page table, allocator and every area agree: the table is
    /// well-formed, tree frames are not available, and every area is fully
    /// mapped with distinct owned frames.
    pub open spec fn wf_with(self, mem: PhysMem, allocator: StackFrameAllocator) -> bool {
        &&& self.page_table.wf(mem)
        &&& allocator.wf()
        &&& self.page_table.disjoint_from(allocator)
        &&& allocator.available().subset_of(Set::new(|p: u64| mem.contains(p)))
        &&& forall|a: int|
            0 <= a < self.areas@.len() ==> (#[trigger] self.areas@[a]).wf()
                && self.areas@[a].fully_mapped(self.page_table, mem)
                && self.areas@[a].frames_distinct(self.areas@[a].page_count())
                && self.areas@[a].frames_owned(
                self.page_table,
                allocator,
                self.areas@[a].page_count(),
            )
    }

    /// An empty address space over a fresh page table.
    pub fn new_bare(mem: &mut PhysMem, allocator: &mut StackFrameAllocator) -> (ms: Self)
        requires
            old(mem).wf(),
            old(allocator).wf(),
            old(allocator).available().subset_of(
                Set::new(|p: u64| old(mem).contains(p)),
            ),
            old(allocator).avail_count() > 0,
        ensures
            ms.wf_with(*final(mem), *final(allocator)),
            ms.areas@.len() == 0,
            forall|w: u64| ms.page_table.translate_spec(*final(mem), w) is None,
            forall|p: u64| ms.page_table.is_node(p) ==> p == ms.page_table.root_ppn.0,
            final(allocator).wf(),
            final(allocator).end == old(allocator).end,
            final(allocator).avail_count() == old(allocator).avail_count() - 1,
            forall|p: u64|
                #[trigger] final(allocator).available().contains(p) ==> old(
                allocator).available().contains(p),
            final(mem).wf(),
            final(mem).base == old(mem).base,
            final(mem).pages@.len() == old(mem).pages@.len(),
            forall|q: u64|
                old(mem).contains(q) && q != ms.page_table.root_ppn.0 ==> #[trigger]
                final(mem).page_of(q) == old(mem).page_of(q),
    {
        let pt = PageTable::new(mem, allocator);
        MemorySet { page_table: pt, areas: Vec::new() }
    }

    /// The control-register value selecting SV39 mode over this space's
    /// page table.
    pub fn token(&self) -> (r: u64)
        ensures
            r == (8u64 << 60) | self.page_table.root_ppn.0,
    {
        self.page_table.token()
    }

    /// Map a new area into this space and, when initial data is supplied,
    /// copy it into the area's fresh frames.  The area's pages must not
    /// overlap anything already mapped.
    pub fn push(
        &mut self,
        mem: &mut PhysMem,
        allocator: &mut StackFrameAllocator,
        map_area: MapArea,
        data: Option<&Vec<u8>>,
    )
        requires
            old(self).wf_with(*old(mem), *old(allocator)),
            map_area.wf(),
            forall|k: int|
                0 <= k < map_area.page_count() ==> !old(self).page_table.is_mapped(
                    *old(mem),
                    #[trigger] ((map_area.start() + k) as u64),
                ),
            forall|k: int| 0 <= k < map_area.page_count() ==> map_area.data_frames@[k] is None,
            old(allocator).avail_count() >= 3 * map_area.page_count(),
            data is Some ==> map_area.map_type == MapType::Framed && data->Some_0@.len()
                <= map_area.page_count() * 4096 && data->Some_0@.len() + PAGE_SIZE
                <= usize::MAX,
        ensures
            final(self).wf_with(*final(mem), *final(allocator)),
            final(self).page_table.root_ppn == old(self).page_table.root_ppn,
            final(self).areas@.len() == old(self).areas@.len() + 1,
            forall|a: int|
                0 <= a < old(self).areas@.len() ==> final(self).areas@[a] == old(
                self).areas@[a],
            final(self).areas@.last().vpn_range == map_area.vpn_range,
            final(self).areas@.last().map_type == map_area.map_type,
            final(self).areas@.last().map_perm == map_area.map_perm,
            final(self).areas@.last().fully_mapped(
                final(self).page_table,
                *final(mem),
            ),
            forall|w: u64|
                w < 0x800_0000 && !(map_area.start() <= w < map_area.end_vpn())
                    ==> #[trigger] final(self).page_table.translate_spec(*final(mem), w)
                    == old(self).page_table.translate_spec(*old(mem), w),
            final(allocator).wf(),
            final(allocator).end == old(allocator).end,
            final(allocator).current >= old(allocator).current,
            final(allocator).avail_count() >= old(allocator).avail_count() - 3
                * map_area.page_count(),
            forall|p: u64|
                #[trigger] final(allocator).available().contains(p) ==> old(
                allocator).available().contains(p),
            final(mem).wf(),
            final(mem).base == old(mem).base,
            final(mem).pages@.len() == old(mem).pages@.len(),
            forall|p: u64|
                old(mem).contains(p) && !old(allocator).available().contains(p)
                    ==> #[trigger] final(mem).page_of(p).bytes@ == old(mem).page_of(
                p).bytes@,
            data is Some ==> forall|j: int|
                0 <= j < data->Some_0@.len() ==> final(mem).byte_at(
                    #[trigger] final(self).areas@.last().frame_ppn(j / 4096),
                    (j % 4096) as u64,
                ) == data->Some_0@[j],
            data is Some ==> forall|k: int, o: int|
                0 <= k < map_area.page_count() && 0 <= o < 4096 && k * 4096 + o >= data->Some_0@.len()
                    ==> #[trigger] final(mem).byte_at(
                    final(self).areas@.last().frame_ppn(k),
                    o as u64,
                ) == 0,
    {
        let mut area = map_area;
        let ghost s0 = *self;
        let ghost m0 = *mem;
        let ghost a0 = *allocator;
        area.map(&mut self.page_table, mem, allocator);
        let ghost m1 = *mem;
        if let Some(d) = data {
            area.copy_data(&self.page_table, mem, d);
        }
        proof {
            assert forall|w: u64|
                w < 0x800_0000 && !(map_area.start() <= w < map_area.end_vpn()) implies
                #[trigger] self.page_table.translate_spec(*mem, w) == s0
                .page_table.translate_spec(m0, w) by {}
            // areas already present stay mapped with their owned frames
            assert forall|a: int| 0 <= a < s0.areas@.len() implies (
            #[trigger] s0.areas@[a]).fully_mapped(self.page_table, *mem) && s0.areas@[
            a].frames_owned(self.page_table, *allocator, s0.areas@[a].page_count()) by {
                let ar = s0.areas@[a];
                assert forall|k: int| 0 <= k < ar.page_count() implies ar.page_mapped_at(
                    self.page_table, *mem, k) by {
                    assert(ar.page_mapped_at(s0.page_table, m0, k));
                    let w = (ar.start() + k) as u64;
                    assert(s0.page_table.is_mapped(m0, w));
                    assert(!(map_area.start() <= w < map_area.end_vpn())) by {
                        if map_area.start() <= w < map_area.end_vpn() {
                            assert(!s0.page_table.is_mapped(
                                m0,
                                ((map_area.start() + (w - map_area.start())) as u64),
                            ));
                        }
                    }
                    assert(self.page_table.translate_spec(*mem, w) == s0
                        .page_table.translate_spec(m0, w));
                }
                assert forall|k: int|
                    0 <= k < ar.page_count() && ar.data_frames@[k] is Some implies
                    !allocator.available().contains(#[trigger] ar.frame_ppn(k))
                    && !self.page_table.is_node(ar.frame_ppn(k)) && ar.frame_ppn(k)
                    < allocator.current by {
                    assert(ar.frames_owned(s0.page_table, a0, ar.page_count()));
                    assert(!a0.available().contains(ar.frame_ppn(k)));
                    assert(!s0.page_table.is_node(ar.frame_ppn(k)));
                    if allocator.available().contains(ar.frame_ppn(k)) {
                        assert(a0.available().contains(ar.frame_ppn(k)));
                    }
                    if self.page_table.is_node(ar.frame_ppn(k)) {
                        assert(s0.page_table.is_node(ar.frame_ppn(k)) || a0
                            .available().contains(ar.frame_ppn(k)));
                    }
                }
            }
        }
        self.areas.push(area);
        proof {
            assert(self.areas@.last() == area);
            assert forall|a: int| 0 <= a < self.areas@.len() implies (
            #[trigger] self.areas@[a]).wf() && self.areas@[a].fully_mapped(
                self.page_table, *mem) && self.areas@[a].frames_distinct(
                self.areas@[a].page_count()) && self.areas@[a].frames_owned(
                self.page_table, *allocator, self.areas@[a].page_count()) by {
                if a < s0.areas@.len() {
                    assert(self.areas@[a] == s0.areas@[a]);
                }
            }
        }
    }

    /// Map an ad-hoc framed area with the given permissions.
    pub fn insert_framed_area(
        &mut self,
        mem: &mut PhysMem,
        allocator: &mut StackFrameAllocator,
        start_va: VirtAddr,
        end_va: VirtAddr,
        permission: MapPermission,
    )
        requires
            old(self).wf_with(*old(mem), *old(allocator)),
            start_va.0 <= end_va.0,
            end_va.0 <= 0x80_0000_0000,
            permission.bits & 1 == 0,
            forall|w: u64|
                start_va.0 / PAGE_SIZE <= w < (end_va.0 + (PAGE_SIZE - 1)) / (
                PAGE_SIZE as int) ==> !old(self).page_table.is_mapped(*old(mem), w),
            old(allocator).avail_count() >= 3 * ((end_va.0 + (PAGE_SIZE - 1)) / (
            PAGE_SIZE as int) - start_va.0 / PAGE_SIZE),
        ensures
            final(self).wf_with(*final(mem), *final(allocator)),
            final(self).areas@.len() == old(self).areas@.len() + 1,
            final(self).areas@.last().map_type == MapType::Framed,
            final(self).areas@.last().map_perm == permission,
            final(self).areas@.last().start() == start_va.0 / PAGE_SIZE,
            final(self).areas@.last().end_vpn() == (end_va.0 + (PAGE_SIZE - 1)) / (
            PAGE_SIZE as int),
            final(self).areas@.last().fully_mapped(
                final(self).page_table,
                *final(mem),
            ),
            forall|w: u64|
                w < 0x800_0000 && !(start_va.0 / PAGE_SIZE <= w < (end_va.0 + (PAGE_SIZE
                    - 1)) / (PAGE_SIZE as int)) ==> #[trigger] final(
                self).page_table.translate_spec(*final(mem), w) == old(
                self).page_table.translate_spec(*old(mem), w),
    {
        let area = MapArea::new(start_va, end_va, MapType::Framed, permission);
        proof {
            assert forall|k: int| 0 <= k < area.page_count() implies !old(
                self,
            ).page_table.is_mapped(*old(mem), #[trigger] ((area.start() + k) as u64)) by {
                assert(area.start() <= ((area.start() + k) as u64) < area.end_vpn());
            }
        }
        self.push(mem, allocator, area, None);
    }

    /// Install the single fixed trampoline mapping: the top page of the
    /// address space, readable and executable, onto the frame holding the
    /// transition code.  Kept outside the tracked areas so that area
    /// lifecycles never unmap it.
    pub fn map_trampoline(
        &mut self,
        mem: &mut PhysMem,
        allocator: &mut StackFrameAllocator,
        trampoline_ppn: PhysPageNum,
    )
        requires
            old(self).wf_with(*old(mem), *old(allocator)),
            trampoline_ppn.0 < 0x1000_0000_0000,
            !old(self).page_table.is_mapped(*old(mem), 0x7ff_ffff),
            old(allocator).avail_count() >= 2,
        ensures
            final(self).wf_with(*final(mem), *final(allocator)),
            final(self).areas@ == old(self).areas@,
            final(self).page_table.translate_spec(*final(mem), 0x7ff_ffff) == Some(
                make_pte(trampoline_ppn.0, (MAP_R | MAP_X) | 1),
            ),
            forall|w: u64|
                w < 0x800_0000 && w != 0x7ff_ffff ==> #[trigger] final(
                self).page_table.translate_spec(*final(mem), w) == old(
                self).page_table.translate_spec(*old(mem), w),
            final(allocator).wf(),
            final(allocator).end == old(allocator).end,
            final(allocator).avail_count() >= old(allocator).avail_count() - 2,
            forall|p: u64|
                #[trigger] final(allocator).available().contains(p) ==> old(
                allocator).available().contains(p),
            final(mem).base == old(mem).base,
            final(mem).pages@.len() == old(mem).pages@.len(),
            forall|p: u64|
                old(mem).contains(p) && !old(allocator).available().contains(p)
                    ==> #[trigger] final(mem).page_of(p).bytes@ == old(mem).page_of(
                p).bytes@,
    {
        let ghost s0 = *self;
        let ghost m0 = *mem;
        let ghost a0 = *allocator;
        let vpn = VirtPageNum(0x7ff_ffff);
        let flags = PTEFlags::from_bits(MAP_R | MAP_X);
        let r = self.page_table.map(mem, allocator, vpn, trampoline_ppn, flags);
        proof {
            assert(r is Ok);
            assert forall|a: int| 0 <= a < s0.areas@.len() implies (
            #[trigger] s0.areas@[a]).fully_mapped(self.page_table, *mem) && s0.areas@[
            a].frames_owned(self.page_table, *allocator, s0.areas@[a].page_count()) by {
                let ar = s0.areas@[a];
                assert forall|k: int| 0 <= k < ar.page_count() implies ar.page_mapped_at(
                    self.page_table, *mem, k) by {
                    assert(ar.page_mapped_at(s0.page_table, m0, k));
                    let w = (ar.start() + k) as u64;
                    assert(w != 0x7ff_ffff) by {
                        if w == 0x7ff_ffff {
                            assert(s0.page_table.is_mapped(m0, w));
                        }
                    }
                    assert(self.page_table.translate_spec(*mem, w) == s0
                        .page_table.translate_spec(m0, w));
                }
                assert forall|k: int|
                    0 <= k < ar.page_count() && ar.data_frames@[k] is Some implies
                    !allocator.available().contains(#[trigger] ar.frame_ppn(k))
                    && !self.page_table.is_node(ar.frame_ppn(k)) && ar.frame_ppn(k)
                    < allocator.current by {
                    assert(ar.frames_owned(s0.page_table, a0, ar.page_count()));
                    assert(!a0.available().contains(ar.frame_ppn(k)));
                    assert(!s0.page_table.is_node(ar.frame_ppn(k)));
                    if allocator.available().contains(ar.frame_ppn(k)) {
                        assert(a0.available().contains(ar.frame_ppn(k)));
                    }
                    if self.page_table.is_node(ar.frame_ppn(k)) {
                        assert(s0.page_table.is_node(ar.frame_ppn(k)) || a0
                            .available().contains(ar.frame_ppn(k)));
                    }
                }
            }
        }
    }
    /// Whether none of the pages `[start, end)` currently has a valid
    /// translation.
    pub fn range_unmapped(&self, mem: &PhysMem, start: u64, end: u64) -> (r: bool)
        requires
            self.page_table.wf(*mem),
            start <= end,
            end <= 0x800_0000,
        ensures
            r <==> (forall|w: u64|
                start <= w < end ==> !self.page_table.is_mapped(*mem, w)),
    {
        let mut w = start;
        while w < end
            invariant
                start <= w <= end,
                end <= 0x800_0000,
                self.page_table.wf(*mem),
                forall|x: u64| start <= x < w ==> !self.page_table.is_mapped(*mem, x),
            decreases end - w,
        {
            if self.page_table.translate(mem, VirtPageNum(w)).is_some() {
                proof {
                    assert(self.page_table.is_mapped(*mem, w));
                }
                return false;
            }
            w = w + 1;
        }
        true
    }
}

/// Why building an address space from an executable image failed.
#[derive(Debug, Copy, Clone, PartialEq, Eq, Structural)]
pub enum LoadError {
    /// The image itself was rejected.
    Elf(super::elf::ElfError),
    /// A segment's addresses or sizes are out of range.
    BadSegment,
    /// A segment, the user stack or the trap-context page would overlap
    /// an existing mapping.
    Overlap,
    /// The frame pool cannot back the required pages.
    OutOfFrames,
}

/// The area permission a loadable segment's flag bits prescribe: always
/// user-accessible, plus read, write, execute as flagged.
pub open spec fn seg_perm_bits(flags: u64) -> u8 {
    MAP_U | (if flags & 4 == 4 {
        MAP_R
    } else {
        0
    }) | (if flags & 2 == 2 {
        MAP_W
    } else {
        0
    }) | (if flags & 1 == 1 {
        MAP_X
    } else {
        0
    })
}

/// The permission for a segment's flag bits.
fn seg_perm(flags: u64) -> (r: MapPermission)
    ensures
        r.bits == seg_perm_bits(flags),
        r.bits & 1 == 0,
{
    let rb: u8 = if flags & 4 == 4 {
        MAP_R
    } else {
        0
    };
    let wb: u8 = if flags & 2 == 2 {
        MAP_W
    } else {
        0
    };
    let xb: u8 = if flags & 1 == 1 {
        MAP_X
    } else {
        0
    };
    let bits = MAP_U | rb | wb | xb;
    proof {
        assert(((0x10u8 | rb | wb | xb) & 1 == 0)) by (bit_vector)
            requires
                (rb == 0 || rb == 2) && (wb == 0 || wb == 4) && (xb == 0 || xb == 8),
        ;
    }
    MapPermission { bits }
}

/// First virtual page of segment `sg`.
pub open spec fn seg_start_vpn(sg: super::elf::LoadSegment) -> int {
    sg.vaddr as int / (PAGE_SIZE as int)
}

/// One past the last virtual page of segment `sg`.
pub open spec fn seg_end_vpn(sg: super::elf::LoadSegment) -> int {
    (sg.vaddr + sg.mem_size + (PAGE_SIZE - 1)) / (PAGE_SIZE as int)
}

/// Pages covered by the first `n` segments together.
pub open spec fn seg_pages_upto(segments: Seq<super::elf::LoadSegment>, n: int) -> int
    decreases n,
{
    if n <= 0 {
        0
    } else {
        seg_pages_upto(segments, n - 1) + (seg_end_vpn(segments[n - 1]) - seg_start_vpn(
            segments[n - 1],
        ))
    }
}

/// Pages covered by all segments together.
pub open spec fn total_seg_pages(segments: Seq<super::elf::LoadSegment>) -> int {
    seg_pages_upto(segments, segments.len() as int)
}

/// One past the last page of the final segment; zero when there is none.
/// The user stack is placed one guard page above this.
pub open spec fn last_end_vpn(segments: Seq<super::elf::LoadSegment>) -> int {
    if segments.len() == 0 {
        0
    } else {
        seg_end_vpn(segments.last())
    }
}

/// Every segment's addresses and sizes are in range and its file window
/// lies inside the image.
pub open spec fn segments_well_formed(
    segments: Seq<super::elf::LoadSegment>,
    data_len: int,
) -> bool {
    forall|s: int|
        0 <= s < segments.len() ==> {
            let sg = #[trigger] segments[s];
            &&& sg.vaddr <= 0x80_0000_0000
            &&& sg.mem_size <= 0x80_0000_0000 - sg.vaddr
            &&& sg.file_size <= sg.mem_size
            &&& sg.offset + sg.file_size <= data_len
        }
}

/// The segments' page ranges are pairwise disjoint, stay below the
/// trap-context page, and leave the user-stack pages above the final
/// segment free.
pub open spec fn segments_placeable(segments: Seq<super::elf::LoadSegment>) -> bool {
    &&& forall|s: int, t: int|
        0 <= s < t < segments.len() ==> (seg_end_vpn(#[trigger] segments[s])
            <= seg_start_vpn(#[trigger] segments[t]) || seg_end_vpn(segments[t])
            <= seg_start_vpn(segments[s]))
    &&& forall|s: int|
        0 <= s < segments.len() ==> seg_end_vpn(#[trigger] segments[s]) <= 0x7ff_fffe
    &&& forall|s: int|
        0 <= s < segments.len() ==> (seg_end_vpn(#[trigger] segments[s]) <= last_end_vpn(
            segments,
        ) + 1 || seg_start_vpn(segments[s]) >= last_end_vpn(segments) + 3)
    &&& last_end_vpn(segments) + 3 <= 0x7ff_fffe
}

/// Whether some area of `areas` spans page `w`.
pub open spec fn in_some_area(areas: Seq<MapArea>, w: u64) -> bool {
    exists|a: int|
        0 <= a < areas.len() && (#[trigger] areas[a]).start() <= w < areas[a].end_vpn()
}

/// A segment covers at least no pages, and the per-prefix page counts
/// grow monotonically.
pub proof fn lemma_seg_pages_mono(segments: Seq<super::elf::LoadSegment>, a: int, b: int)
    requires
        0 <= a <= b,
    ensures
        seg_pages_upto(segments, a) <= seg_pages_upto(segments, b),
    decreases b - a,
{
    if a < b {
        lemma_seg_pages_mono(segments, a, b - 1);
        lemma_div_is_ordered(
            segments[b - 1].vaddr as int,
            segments[b - 1].vaddr + segments[b - 1].mem_size + (PAGE_SIZE - 1),
            PAGE_SIZE as int,
        );
    }
}

/// A segment list the loader is bound to accept: the image fits in
/// memory, every segment is well formed, the page ranges are placeable,
/// and the allocator holds enough frames for the worst case (three per
/// mapped page, plus the root, trampoline, stack and trap-context nodes).
pub open spec fn load_guaranteed(
    segments: Seq<super::elf::LoadSegment>,
    data_len: int,
    avail: int,
) -> bool {
    &&& data_len + PAGE_SIZE <= usize::MAX
    &&& segments_well_formed(segments, data_len)
    &&& segments_placeable(segments)
    &&& avail >= 12 + 3 * total_seg_pages(segments)
}

impl MemorySet {
    /// Build one application's address space from its loadable segments:
    /// the trampoline, one framed user-accessible area per segment with
    /// the segment's bytes copied in, a user stack behind a guard page,
    /// and the trap-context page just below the trampoline.  Returns the
    /// space, the initial stack top and the entry point.
    pub fn from_segments(
        mem: &mut PhysMem,
        allocator: &mut StackFrameAllocator,
        segments: &Vec<super::elf::LoadSegment>,
        data: &Vec<u8>,
        entry_point: u64,
        trampoline_ppn: PhysPageNum,
    ) -> (r: Result<(Self, u64, u64), LoadError>)
        requires
            old(mem).wf(),
            old(allocator).wf(),
            old(allocator).available().subset_of(
                Set::new(|p: u64| old(mem).contains(p)),
            ),
            trampoline_ppn.0 < 0x1000_0000_0000,
        ensures
            final(mem).wf(),
            final(mem).base == old(mem).base,
            final(mem).pages@.len() == old(mem).pages@.len(),
            final(allocator).wf(),
            final(allocator).end == old(allocator).end,
            r matches Err(e) ==> !(e matches LoadError::Elf(_)),
            load_guaranteed(segments@, data@.len() as int, old(allocator).avail_count())
                ==> r is Ok,
            r matches Ok(out) ==> {
                let ms = out.0;
                &&& ms.wf_with(*final(mem), *final(allocator))
                &&& out.2 == entry_point
                &&& out.1 == (last_end_vpn(segments@) + 3) * (PAGE_SIZE as int)
                &&& ms.areas@.len() == segments@.len() + 2
                &&& (forall|s: int|
                    0 <= s < segments@.len() ==> {
                        let ar = #[trigger] ms.areas@[s];
                        &&& ar.map_type == MapType::Framed
                        &&& ar.map_perm.bits == seg_perm_bits(segments@[s].flags)
                        &&& ar.start() == segments@[s].vaddr / PAGE_SIZE
                        &&& ar.end_vpn() == (segments@[s].vaddr + segments@[s].mem_size
                            + (PAGE_SIZE - 1)) / (PAGE_SIZE as int)
                        &&& ar.fully_mapped(ms.page_table, *final(mem))
                    })
                &&& (forall|s: int, j: int|
                    0 <= s < segments@.len() && 0 <= j < segments@[s].file_size
                        ==> #[trigger] final(mem).byte_at(
                        ms.areas@[s].frame_ppn(j / 4096),
                        (j % 4096) as u64,
                    ) == data@[segments@[s].offset + j])
                &&& ms.areas@[segments@.len() as int].map_type == MapType::Framed
                &&& ms.areas@[segments@.len() as int].map_perm.bits == (MAP_R | MAP_W
                    | MAP_U)
                &&& ms.areas@[segments@.len() as int].start() == last_end_vpn(segments@)
                    + 1
                &&& ms.areas@[segments@.len() as int].end_vpn() == last_end_vpn(
                    segments@,
                ) + 3
                &&& ms.areas@.last().map_type == MapType::Framed
                &&& ms.areas@.last().map_perm.bits == (MAP_R | MAP_W)
                &&& ms.areas@.last().start() == 0x7ff_fffe
                &&& ms.areas@.last().end_vpn() == 0x7ff_ffff
                &&& ms.page_table.translate_spec(*final(mem), 0x7ff_ffff) == Some(
                    make_pte(trampoline_ppn.0, (MAP_R | MAP_X) | 1),
                )
                // nothing is mapped outside the tracked areas and the
                // trampoline; in particular the guard page below the stack
                &&& (forall|w: u64|
                    w < 0x800_0000 && !in_some_area(ms.areas@, w) && w != 0x7ff_ffff
                        ==> #[trigger] ms.page_table.translate_spec(
                        *final(mem),
                        w,
                    ) is None)
            },
    {
        let ghost guaranteed = load_guaranteed(
            segments@,
            data@.len() as int,
            old(allocator).avail_count(),
        );
        let n_data = data.len();
        if n_data > usize::MAX - 4096 {
            proof {
                assert(!guaranteed);
            }
            return Err(LoadError::BadSegment);
        }
        if !allocator.has_frames(3) {
            proof {
                lemma_seg_pages_mono(segments@, 0, segments@.len() as int);
                assert(!guaranteed);
            }
            return Err(LoadError::OutOfFrames);
        }
        let mut ms = MemorySet::new_bare(mem, allocator);
        ms.map_trampoline(mem, allocator, trampoline_ppn);
        proof {
            assert forall|w: u64|
                w < 0x800_0000 && !in_some_area(ms.areas@, w) && w
                    != 0x7ff_ffff implies #[trigger] ms.page_table.translate_spec(
                *mem,
                w,
            ) is None by {}
        }
        let n_segs = segments.len();
        let mut s: usize = 0;
        let mut max_end_vpn: u64 = 0;
        while s < n_segs
            invariant
                n_segs == segments@.len(),
                s <= n_segs,
                n_data == data@.len(),
                n_data <= usize::MAX - 4096,
                ms.wf_with(*mem, *allocator),
                ms.areas@.len() == s,
                mem.base == old(mem).base,
                mem.pages@.len() == old(mem).pages@.len(),
                allocator.end == old(allocator).end,
                trampoline_ppn.0 < 0x1000_0000_0000,
                ms.page_table.translate_spec(*mem, 0x7ff_ffff) == Some(
                    make_pte(trampoline_ppn.0, (MAP_R | MAP_X) | 1),
                ),
                forall|a: int|
                    0 <= a < s ==> {
                        let ar = #[trigger] ms.areas@[a];
                        &&& ar.map_type == MapType::Framed
                        &&& ar.map_perm.bits == seg_perm_bits(segments@[a].flags)
                        &&& ar.start() == segments@[a].vaddr / PAGE_SIZE
                        &&& ar.end_vpn() == (segments@[a].vaddr + segments@[a].mem_size
                            + (PAGE_SIZE - 1)) / (PAGE_SIZE as int)
                        &&& segments@[a].offset + segments@[a].file_size <= n_data
                        &&& segments@[a].file_size <= ar.page_count() * 4096
                    },
                forall|a: int, j: int|
                    0 <= a < s && 0 <= j < segments@[a].file_size ==> #[trigger] mem
                        .byte_at(ms.areas@[a].frame_ppn(j / 4096), (j % 4096) as u64)
                        == data@[segments@[a].offset + j],
                s == 0 ==> max_end_vpn == 0,
                s > 0 ==> max_end_vpn as int == seg_end_vpn(segments@[s - 1]),
                max_end_vpn <= 0x800_0000,
                forall|w: u64|
                    w < 0x800_0000 && !in_some_area(ms.areas@, w) && w != 0x7ff_ffff
                        ==> #[trigger] ms.page_table.translate_spec(*mem, w) is None,
                guaranteed == load_guaranteed(
                    segments@,
                    data@.len() as int,
                    old(allocator).avail_count(),
                ),
                guaranteed ==> allocator.avail_count() >= 9 + 3 * (total_seg_pages(
                    segments@,
                ) - seg_pages_upto(segments@, s as int)),
            decreases n_segs - s,
        {
            proof {
                if guaranteed {
                    let sg = segments@[s as int];
                    assert(sg.vaddr <= 0x80_0000_0000 && sg.mem_size <= 0x80_0000_0000
                        - sg.vaddr && sg.file_size <= sg.mem_size && sg.offset
                        + sg.file_size <= data@.len());
                }
            }
            let seg = segments[s];
            if seg.vaddr > 0x80_0000_0000 || seg.mem_size > 0x80_0000_0000 - seg.vaddr {
                return Err(LoadError::BadSegment);
            }
            if seg.file_size > seg.mem_size {
                return Err(LoadError::BadSegment);
            }
            if seg.offset > n_data as u64 || seg.file_size > n_data as u64 - seg.offset {
                return Err(LoadError::BadSegment);
            }
            let start_va = VirtAddr(seg.vaddr);
            let end_va = VirtAddr(seg.vaddr + seg.mem_size);
            let perm = seg_perm(seg.flags);
            let area = MapArea::new(start_va, end_va, MapType::Framed, perm);
            let pages = area.vpn_range.r.0 - area.vpn_range.l.0;
            proof {
                if guaranteed {
                    assert(seg_pages_upto(segments@, s + 1) == seg_pages_upto(
                        segments@,
                        s as int,
                    ) + (seg_end_vpn(segments@[s as int]) - seg_start_vpn(
                        segments@[s as int],
                    )));
                    lemma_seg_pages_mono(segments@, s + 1, segments@.len() as int);
                    assert(pages as int == seg_end_vpn(segments@[s as int])
                        - seg_start_vpn(segments@[s as int]));
                    assert(allocator.avail_count() >= 3 * pages);
                }
            }
            if !allocator.has_frames(3 * pages) {
                proof {
                    assert(!guaranteed);
                }
                return Err(LoadError::OutOfFrames);
            }
            proof {
                if guaranteed {
                    assert forall|w: u64|
                        area.vpn_range.l.0 <= w < area.vpn_range.r.0 implies !ms
                        .page_table.is_mapped(*mem, w) by {
                        assert(seg_end_vpn(segments@[s as int]) <= 0x7ff_fffe);
                        assert(w < 0x800_0000 && w != 0x7ff_ffff);
                        assert(!in_some_area(ms.areas@, w)) by {
                            if in_some_area(ms.areas@, w) {
                                let a = choose|a: int|
                                    0 <= a < ms.areas@.len() && (
                                    #[trigger] ms.areas@[a]).start() <= w
                                        < ms.areas@[a].end_vpn();
                                assert(seg_end_vpn(#[trigger] segments@[a])
                                    <= seg_start_vpn(segments@[s as int]) || seg_end_vpn(
                                    segments@[s as int],
                                ) <= seg_start_vpn(segments@[a]));
                            }
                        }
                    }
                }
            }
            if !ms.range_unmapped(mem, area.vpn_range.l.0, area.vpn_range.r.0) {
                proof {
                    assert(!guaranteed);
                }
                return Err(LoadError::Overlap);
            }
            // the segment's own bytes; the rest of the area stays zero
            let mut seg_data: Vec<u8> = Vec::new();
            let off = seg.offset as usize;
            let fsz = seg.file_size as usize;
            let mut j: usize = 0;
            while j < fsz
                invariant
                    off + fsz <= n_data,
                    n_data == data@.len(),
                    j <= fsz,
                    seg_data@.len() == j,
                    forall|x: int| 0 <= x < j ==> seg_data@[x] == data@[off + x],
                decreases fsz - j,
            {
                seg_data.push(data[off + j]);
                j = j + 1;
            }
            proof {
                // a segment's bytes fit in its pages
                let a = seg.vaddr as int;
                let m = seg.mem_size as int;
                vstd::arithmetic::div_mod::lemma_fundamental_div_mod(a, 4096);
                vstd::arithmetic::div_mod::lemma_fundamental_div_mod(a + m + 4095, 4096);
                assert(area.page_count() * 4096 >= m) by (nonlinear_arith)
                    requires
                        area.page_count() == (a + m + 4095) / 4096 - a / 4096,
                        a == 4096 * (a / 4096) + a % 4096,
                        a + m + 4095 == 4096 * ((a + m + 4095) / 4096) + (a + m + 4095)
                            % 4096,
                        0 <= a % 4096 < 4096,
                        0 <= (a + m + 4095) % 4096 < 4096,
                        m >= 0,
                ;
            }
            let ghost ms0 = ms;
            let ghost m0 = *mem;
            let ghost a0 = *allocator;
            ms.push(mem, allocator, area, Some(&seg_data));
            max_end_vpn = ms.areas[s].vpn_range.r.0;
            s = s + 1;
            proof {
                assert(ms.areas@.last() == ms.areas@[s - 1]);
                // earlier areas' bytes are untouched: their frames are
                // owned, hence not available at this push
                assert forall|a2: int, j2: int|
                    0 <= a2 < s && 0 <= j2 < segments@[a2].file_size implies #[trigger]
                    mem.byte_at(ms.areas@[a2].frame_ppn(j2 / 4096), (j2 % 4096) as u64)
                        == data@[segments@[a2].offset + j2] by {
                    if a2 < s - 1 {
                        let ar = ms0.areas@[a2];
                        assert(ms.areas@[a2] == ar);
                        assert(ar.page_mapped_at(ms0.page_table, m0, j2 / 4096)) by {
                            assert(0 <= j2 / 4096 < ar.page_count()) by (nonlinear_arith)
                                requires
                                    0 <= j2 < segments@[a2].file_size,
                                    segments@[a2].file_size <= ar.page_count() * 4096,
                                ;
                        }
                        assert(m0.byte_at(
                            ms0.areas@[a2].frame_ppn(j2 / 4096),
                            (j2 % 4096) as u64,
                        ) == data@[segments@[a2].offset + j2]);
                        assert(ar.frames_owned(ms0.page_table, a0, ar.page_count()));
                        assert(!a0.available().contains(ar.frame_ppn(j2 / 4096)));
                        assert(m0.contains(ar.frame_ppn(j2 / 4096)));
                        assert(mem.page_of(ar.frame_ppn(j2 / 4096)).bytes@ == m0.page_of(
                            ar.frame_ppn(j2 / 4096)).bytes@);
                    } else {
                        assert(seg_data@.len() == segments@[a2].file_size);
                        assert(0 <= j2 < seg_data@.len());
                        assert(mem.byte_at(
                            ms.areas@.last().frame_ppn(j2 / 4096),
                            (j2 % 4096) as u64,
                        ) == seg_data@[j2]);
                        assert(seg_data@[j2] == data@[segments@[a2].offset + j2]);
                    }
                }
                assert(ms.page_table.translate_spec(*mem, 0x7ff_ffff) == ms0
                    .page_table.translate_spec(m0, 0x7ff_ffff)) by {
                    assert(!(ms.areas@[s - 1].start() <= 0x7ff_ffff < ms.areas@[s
                        - 1].end_vpn())) by {
                        if ms.areas@[s - 1].start() <= 0x7ff_ffff < ms.areas@[s
                            - 1].end_vpn() {
                            assert(!ms0.page_table.is_mapped(m0, 0x7ff_ffff));
                        }
                    }
                }
                // outside the areas everything is still unmapped
                assert forall|w: u64|
                    w < 0x800_0000 && !in_some_area(ms.areas@, w) && w
                        != 0x7ff_ffff implies #[trigger] ms.page_table.translate_spec(
                    *mem,
                    w,
                ) is None by {
                    assert(!(ms.areas@[s - 1].start() <= w < ms.areas@[s - 1].end_vpn()));
                    assert(!in_some_area(ms0.areas@, w)) by {
                        if in_some_area(ms0.areas@, w) {
                            let a = choose|a: int|
                                0 <= a < ms0.areas@.len() && (
                                #[trigger] ms0.areas@[a]).start() <= w
                                    < ms0.areas@[a].end_vpn();
                            assert(ms.areas@[a].start() <= w < ms.areas@[a].end_vpn());
                        }
                    }
                    assert(ms.page_table.translate_spec(*mem, w) == ms0
                        .page_table.translate_spec(m0, w));
                }
                if guaranteed {
                    assert(seg_pages_upto(segments@, s as int) == seg_pages_upto(
                        segments@,
                        s - 1,
                    ) + (seg_end_vpn(segments@[s - 1]) - seg_start_vpn(
                        segments@[s - 1],
                    )));
                }
                assert(max_end_vpn as int == seg_end_vpn(segments@[s - 1]));
            }
        }
        // the user stack sits one guard page above the highest segment
        let max_end_va: u64 = max_end_vpn << 12;
        proof {
            let v = max_end_vpn;
            assert(v <= 0x800_0000 ==> (v << 12) == v * 4096) by (bit_vector);
            if n_segs > 0 {
                assert(segments@.last() == segments@[n_segs - 1]);
            }
            assert(max_end_vpn as int == last_end_vpn(segments@));
            if guaranteed {
                assert(last_end_vpn(segments@) + 3 <= 0x7ff_fffe);
            }
        }
        if max_end_va > 0x80_0000_0000 - 4096 - (4096 * 2) {
            proof {
                assert(!guaranteed);
            }
            return Err(LoadError::BadSegment);
        }
        let user_stack_bottom = max_end_va + 4096;
        let user_stack_top = user_stack_bottom + 4096 * 2;
        proof {
            assert((MAP_R | MAP_W | MAP_U) & 1 == 0) by (bit_vector);
        }
        let stack_area = MapArea::new(
            VirtAddr(user_stack_bottom),
            VirtAddr(user_stack_top),
            MapType::Framed,
            MapPermission::from_bits(MAP_R | MAP_W | MAP_U),
        );
        proof {
            // the stack spans exactly the two pages above the guard page
            let lv = max_end_vpn as int;
            assert(user_stack_bottom == (lv + 1) * 4096 && user_stack_top == (lv + 3)
                * 4096);
            assert(stack_area.start() == lv + 1) by (nonlinear_arith)
                requires
                    stack_area.start() == user_stack_bottom as int / 4096,
                    user_stack_bottom == (lv + 1) * 4096,
                    0 <= lv,
            ;
            assert(stack_area.end_vpn() == lv + 3) by (nonlinear_arith)
                requires
                    stack_area.end_vpn() == (user_stack_top + 4095) as int / 4096,
                    user_stack_top == (lv + 3) * 4096,
                    0 <= lv,
            ;
        }
        let stack_pages = stack_area.vpn_range.r.0 - stack_area.vpn_range.l.0;
        proof {
            assert(stack_pages == 2);
            if guaranteed {
                assert(allocator.avail_count() >= 9);
            }
        }
        if !allocator.has_frames(3 * stack_pages) {
            proof {
                assert(!guaranteed);
            }
            return Err(LoadError::OutOfFrames);
        }
        proof {
            if guaranteed {
                let lv = max_end_vpn as int;
                assert forall|w: u64|
                    stack_area.vpn_range.l.0 <= w < stack_area.vpn_range.r.0 implies !ms
                    .page_table.is_mapped(*mem, w) by {
                    assert(w < 0x800_0000 && w != 0x7ff_ffff);
                    assert(!in_some_area(ms.areas@, w)) by {
                        if in_some_area(ms.areas@, w) {
                            let a = choose|a: int|
                                0 <= a < ms.areas@.len() && (
                                #[trigger] ms.areas@[a]).start() <= w
                                    < ms.areas@[a].end_vpn();
                            assert(seg_end_vpn(#[trigger] segments@[a]) <= last_end_vpn(
                                segments@,
                            ) + 1 || seg_start_vpn(segments@[a]) >= last_end_vpn(
                                segments@,
                            ) + 3);
                        }
                    }
                }
            }
        }
        if !ms.range_unmapped(mem, stack_area.vpn_range.l.0, stack_area.vpn_range.r.0) {
            proof {
                assert(!guaranteed);
            }
            return Err(LoadError::Overlap);
        }
        let ghost ms1 = ms;
        let ghost m1 = *mem;
        let ghost a1 = *allocator;
        ms.push(mem, allocator, stack_area, None);
        proof {
            assert(ms.page_table.translate_spec(*mem, 0x7ff_ffff) == ms1
                .page_table.translate_spec(m1, 0x7ff_ffff)) by {
                assert(!(ms.areas@.last().start() <= 0x7ff_ffff
                    < ms.areas@.last().end_vpn())) by {
                    if ms.areas@.last().start() <= 0x7ff_ffff
                        < ms.areas@.last().end_vpn() {
                        assert(!ms1.page_table.is_mapped(m1, 0x7ff_ffff));
                    }
                }
            }
            assert forall|w: u64|
                w < 0x800_0000 && !in_some_area(ms.areas@, w) && w
                    != 0x7ff_ffff implies #[trigger] ms.page_table.translate_spec(
                *mem,
                w,
            ) is None by {
                let last = ms.areas@.len() - 1;
                assert(!(ms.areas@[last].start() <= w < ms.areas@[last].end_vpn()));
                assert(!in_some_area(ms1.areas@, w)) by {
                    if in_some_area(ms1.areas@, w) {
                        let a = choose|a: int|
                            0 <= a < ms1.areas@.len() && (
                            #[trigger] ms1.areas@[a]).start() <= w
                                < ms1.areas@[a].end_vpn();
                        assert(ms.areas@[a].start() <= w < ms.areas@[a].end_vpn());
                    }
                }
                assert(ms.page_table.translate_spec(*mem, w) == ms1
                    .page_table.translate_spec(m1, w));
            }
            if guaranteed {
                assert(allocator.avail_count() >= 3);
            }
        }
        // the trap-context page, just below the trampoline
        proof {
            assert((MAP_R | MAP_W) & 1 == 0) by (bit_vector);
        }
        let trap_area = MapArea::new(
            VirtAddr(0x7f_ffff_e000),
            VirtAddr(0x7f_ffff_f000),
            MapType::Framed,
            MapPermission::from_bits(MAP_R | MAP_W),
        );
        if !allocator.has_frames(3) {
            proof {
                assert(!guaranteed);
            }
            return Err(LoadError::OutOfFrames);
        }
        proof {
            if guaranteed {
                assert forall|w: u64|
                    trap_area.vpn_range.l.0 <= w < trap_area.vpn_range.r.0 implies !ms
                    .page_table.is_mapped(*mem, w) by {
                    assert(w == 0x7ff_fffe);
                    assert(!in_some_area(ms.areas@, w)) by {
                        if in_some_area(ms.areas@, w) {
                            let a = choose|a: int|
                                0 <= a < ms.areas@.len() && (
                                #[trigger] ms.areas@[a]).start() <= w
                                    < ms.areas@[a].end_vpn();
                            if a < segments@.len() {
                                assert(seg_end_vpn(#[trigger] segments@[a])
                                    <= 0x7ff_fffe);
                            } else {
                                assert(ms.areas@[a].end_vpn() == last_end_vpn(segments@)
                                    + 3);
                            }
                        }
                    }
                }
            }
        }
        if !ms.range_unmapped(mem, trap_area.vpn_range.l.0, trap_area.vpn_range.r.0) {
            proof {
                assert(!guaranteed);
            }
            return Err(LoadError::Overlap);
        }
        let ghost ms2 = ms;
        let ghost m2 = *mem;
        let ghost a2 = *allocator;
        ms.push(mem, allocator, trap_area, None);
        proof {
            assert(ms.page_table.translate_spec(*mem, 0x7ff_ffff) == ms2
                .page_table.translate_spec(m2, 0x7ff_ffff)) by {
                assert(!(ms.areas@.last().start() <= 0x7ff_ffff
                    < ms.areas@.last().end_vpn()));
            }
            // the segment areas and their bytes survived the two extra
            // pushes: their frames were owned before each push
            assert forall|a: int, j: int|
                0 <= a < segments@.len() && 0 <= j < segments@[a].file_size implies
                #[trigger] mem.byte_at(
                ms.areas@[a].frame_ppn(j / 4096),
                (j % 4096) as u64,
            ) == data@[segments@[a].offset + j] by {
                let ar = ms1.areas@[a];
                assert(ms.areas@[a] == ar && ms2.areas@[a] == ar);
                assert(0 <= j / 4096 < ar.page_count()) by (nonlinear_arith)
                    requires
                        0 <= j < segments@[a].file_size,
                        segments@[a].file_size <= ar.page_count() * 4096,
                ;
                assert(m1.byte_at(
                    ms1.areas@[a].frame_ppn(j / 4096),
                    (j % 4096) as u64,
                ) == data@[segments@[a].offset + j]);
                assert(ar.page_mapped_at(ms1.page_table, m1, j / 4096));
                assert(ar.frames_owned(ms1.page_table, a1, ar.page_count()));
                assert(!a1.available().contains(ar.frame_ppn(j / 4096)));
                assert(m1.contains(ar.frame_ppn(j / 4096)));
                assert(m2.page_of(ar.frame_ppn(j / 4096)).bytes@ == m1.page_of(
                    ar.frame_ppn(j / 4096)).bytes@);
                assert(ar.page_mapped_at(ms2.page_table, m2, j / 4096));
                assert(ar.frames_owned(ms2.page_table, a2, ar.page_count()));
                assert(!a2.available().contains(ar.frame_ppn(j / 4096)));
                assert(m2.contains(ar.frame_ppn(j / 4096)));
                assert(mem.page_of(ar.frame_ppn(j / 4096)).bytes@ == m2.page_of(
                    ar.frame_ppn(j / 4096)).bytes@);
            }
            assert forall|w: u64|
                w < 0x800_0000 && !in_some_area(ms.areas@, w) && w
                    != 0x7ff_ffff implies #[trigger] ms.page_table.translate_spec(
                *mem,
                w,
            ) is None by {
                let last = ms.areas@.len() - 1;
                assert(!(ms.areas@[last].start() <= w < ms.areas@[last].end_vpn()));
                assert(!in_some_area(ms2.areas@, w)) by {
                    if in_some_area(ms2.areas@, w) {
                        let a = choose|a: int|
                            0 <= a < ms2.areas@.len() && (
                            #[trigger] ms2.areas@[a]).start() <= w
                                < ms2.areas@[a].end_vpn();
                        assert(ms.areas@[a].start() <= w < ms.areas@[a].end_vpn());
                    }
                }
                assert(ms.page_table.translate_spec(*mem, w) == ms2
                    .page_table.translate_spec(m2, w));
            }
            assert(user_stack_top as int == (last_end_vpn(segments@) + 3) * (
            PAGE_SIZE as int));
        }
        Ok((ms, user_stack_top, entry_point))
    }

    /// Map one identity section of the kernel: page-aligned
    /// `[s_addr, e_addr)` with the given permission.
    fn push_kernel_area(
        &mut self,
        mem: &mut PhysMem,
        allocator: &mut StackFrameAllocator,
        s_addr: u64,
        e_addr: u64,
        perm: MapPermission,
    )
        requires
            old(self).wf_with(*old(mem), *old(allocator)),
            s_addr <= e_addr,
            e_addr <= 0x80_0000_0000,
            s_addr % PAGE_SIZE == 0,
            e_addr % PAGE_SIZE == 0,
            perm.bits & 1 == 0,
            forall|w: u64|
                s_addr / PAGE_SIZE <= w < e_addr / PAGE_SIZE ==> !old(
                self).page_table.is_mapped(*old(mem), w),
            old(allocator).avail_count() >= 3 * (e_addr / PAGE_SIZE - s_addr
                / PAGE_SIZE),
        ensures
            final(self).wf_with(*final(mem), *final(allocator)),
            final(self).areas@.len() == old(self).areas@.len() + 1,
            forall|a: int|
                0 <= a < old(self).areas@.len() ==> final(self).areas@[a] == old(
                self).areas@[a],
            forall|w: u64|
                s_addr / PAGE_SIZE <= w < e_addr / PAGE_SIZE ==> #[trigger] final(
                self).page_table.translate_spec(*final(mem), w) == Some(
                    make_pte(w, perm.bits | 1),
                ),
            forall|w: u64|
                w < 0x800_0000 && !(s_addr / PAGE_SIZE <= w < e_addr / PAGE_SIZE)
                    ==> #[trigger] final(self).page_table.translate_spec(*final(mem), w)
                    == old(self).page_table.translate_spec(*old(mem), w),
            final(allocator).wf(),
            final(allocator).end == old(allocator).end,
            final(allocator).avail_count() >= old(allocator).avail_count() - 3 * (e_addr
                / PAGE_SIZE - s_addr / PAGE_SIZE),
            final(mem).wf(),
            final(mem).base == old(mem).base,
            final(mem).pages@.len() == old(mem).pages@.len(),
    {
        proof {
            lemma_div_is_ordered(s_addr as int, e_addr as int, PAGE_SIZE as int);
            vstd::arithmetic::div_mod::lemma_fundamental_div_mod(e_addr as int, 4096);
            assert((e_addr + (PAGE_SIZE - 1)) / (PAGE_SIZE as int) == e_addr / PAGE_SIZE)
                by (nonlinear_arith)
                requires
                    e_addr % 4096 == 0,
                    PAGE_SIZE == 4096,
                    e_addr == 4096 * ((e_addr as int) / 4096),
            ;
        }
        let area = MapArea::new(
            VirtAddr(s_addr),
            VirtAddr(e_addr),
            MapType::Identical,
            perm,
        );
        proof {
            assert forall|k: int| 0 <= k < area.page_count() implies !old(
                self,
            ).page_table.is_mapped(*old(mem), #[trigger] ((area.start() + k) as u64)) by {
                assert(s_addr / PAGE_SIZE <= ((area.start() + k) as u64) < e_addr
                    / PAGE_SIZE);
            }
        }
        self.push(mem, allocator, area, None);
        proof {
            assert forall|w: u64|
                s_addr / PAGE_SIZE <= w < e_addr / PAGE_SIZE implies #[trigger] self
                .page_table.translate_spec(*mem, w) == Some(make_pte(w, perm.bits | 1)) by {
                let ar = self.areas@.last();
                let k = w - ar.start();
                assert(ar.page_mapped_at(self.page_table, *mem, k));
            }
        }
    }

    /// Build the kernel's identity-mapped address space: the trampoline,
    /// then text (read, execute), rodata (read), data and bss (read,
    /// write), and all remaining physical memory up to the configured end
    /// (read, write), every one an identical mapping.
    pub fn new_kernel(
        mem: &mut PhysMem,
        allocator: &mut StackFrameAllocator,
        layout: &KernelLayout,
        trampoline_ppn: PhysPageNum,
    ) -> (ms: Self)
        requires
            old(mem).wf(),
            old(allocator).wf(),
            old(allocator).available().subset_of(
                Set::new(|p: u64| old(mem).contains(p)),
            ),
            trampoline_ppn.0 < 0x1000_0000_0000,
            layout.wf(),
            old(allocator).avail_count() >= 3 + 3 * layout.total_pages(),
        ensures
            ms.wf_with(*final(mem), *final(allocator)),
            ms.areas@.len() == 5,
            ms.page_table.translate_spec(*final(mem), 0x7ff_ffff) == Some(
                make_pte(trampoline_ppn.0, (MAP_R | MAP_X) | 1),
            ),
            forall|w: u64|
                layout.stext / PAGE_SIZE <= w < layout.etext / PAGE_SIZE
                    ==> #[trigger] ms.page_table.translate_spec(*final(mem), w) == Some(
                    make_pte(w, (MAP_R | MAP_X) | 1),
                ),
            forall|w: u64|
                layout.srodata / PAGE_SIZE <= w < layout.erodata / PAGE_SIZE
                    ==> #[trigger] ms.page_table.translate_spec(*final(mem), w) == Some(
                    make_pte(w, MAP_R | 1),
                ),
            forall|w: u64|
                layout.sdata / PAGE_SIZE <= w < layout.edata / PAGE_SIZE
                    ==> #[trigger] ms.page_table.translate_spec(*final(mem), w) == Some(
                    make_pte(w, (MAP_R | MAP_W) | 1),
                ),
            forall|w: u64|
                layout.sbss_with_stack / PAGE_SIZE <= w < layout.ebss / PAGE_SIZE
                    ==> #[trigger] ms.page_table.translate_spec(*final(mem), w) == Some(
                    make_pte(w, (MAP_R | MAP_W) | 1),
                ),
            forall|w: u64|
                layout.ekernel / PAGE_SIZE <= w < layout.memory_end / PAGE_SIZE
                    ==> #[trigger] ms.page_table.translate_spec(*final(mem), w) == Some(
                    make_pte(w, (MAP_R | MAP_W) | 1),
                ),
    {
        proof {
            assert((MAP_R | MAP_X) & 1 == 0) by (bit_vector);
            assert(MAP_R & 1 == 0) by (bit_vector);
            assert((MAP_R | MAP_W) & 1 == 0) by (bit_vector);
            lemma_div_is_ordered(
                layout.memory_end as int,
                0x7f_ffff_f000,
                PAGE_SIZE as int,
            );
            lemma_div_is_ordered(
                layout.etext as int,
                layout.srodata as int,
                PAGE_SIZE as int,
            );
            lemma_div_is_ordered(
                layout.erodata as int,
                layout.sdata as int,
                PAGE_SIZE as int,
            );
            lemma_div_is_ordered(
                layout.edata as int,
                layout.sbss_with_stack as int,
                PAGE_SIZE as int,
            );
            lemma_div_is_ordered(
                layout.ebss as int,
                layout.ekernel as int,
                PAGE_SIZE as int,
            );
        }
        let mut ms = MemorySet::new_bare(mem, allocator);
        ms.map_trampoline(mem, allocator, trampoline_ppn);
        ms.push_kernel_area(
            mem,
            allocator,
            layout.stext,
            layout.etext,
            MapPermission::from_bits(MAP_R | MAP_X),
        );
        ms.push_kernel_area(
            mem,
            allocator,
            layout.srodata,
            layout.erodata,
            MapPermission::from_bits(MAP_R),
        );
        ms.push_kernel_area(
            mem,
            allocator,
            layout.sdata,
            layout.edata,
            MapPermission::from_bits(MAP_R | MAP_W),
        );
        ms.push_kernel_area(
            mem,
            allocator,
            layout.sbss_with_stack,
            layout.ebss,
            MapPermission::from_bits(MAP_R | MAP_W),
        );
        ms.push_kernel_area(
            mem,
            allocator,
            layout.ekernel,
            layout.memory_end,
            MapPermission::from_bits(MAP_R | MAP_W),
        );
        ms
    }

    /// Build one application's address space from a structured executable
    /// image, as [`Self::from_segments`] does for its loadable segments.
    pub fn from_elf(
        mem: &mut PhysMem,
        allocator: &mut StackFrameAllocator,
        elf_data: &Vec<u8>,
        trampoline_ppn: PhysPageNum,
    ) -> (r: Result<(Self, u64, u64), LoadError>)
        requires
            old(mem).wf(),
            old(allocator).wf(),
            old(allocator).available().subset_of(
                Set::new(|p: u64| old(mem).contains(p)),
            ),
            trampoline_ppn.0 < 0x1000_0000_0000,
        ensures
            final(mem).wf(),
            final(mem).base == old(mem).base,
            final(mem).pages@.len() == old(mem).pages@.len(),
            final(allocator).wf(),
            final(allocator).end == old(allocator).end,
            r matches Err(LoadError::Elf(e)) <==> !(super::elf::elf_header_ok(elf_data@)
                && (forall|i: int|
                0 <= i < super::elf::elf_ph_count(elf_data@)
                    ==> super::elf::ph_in_bounds(elf_data@, i))),
            // a well-formed, placeable image with enough frames behind it
            // always loads
            super::elf::elf_header_ok(elf_data@) && (forall|i: int|
                0 <= i < super::elf::elf_ph_count(elf_data@)
                    ==> super::elf::ph_in_bounds(elf_data@, i)) && load_guaranteed(
                super::elf::load_segs_upto(
                    elf_data@,
                    super::elf::elf_ph_count(elf_data@) as int,
                ),
                elf_data@.len() as int,
                old(allocator).avail_count(),
            ) ==> r is Ok,
            r matches Ok(out) ==> {
                let segs = super::elf::load_segs_upto(
                    elf_data@,
                    super::elf::elf_ph_count(elf_data@) as int,
                );
                let ms = out.0;
                &&& ms.wf_with(*final(mem), *final(allocator))
                &&& out.2 == super::elf::elf_entry(elf_data@)
                &&& out.1 == (last_end_vpn(segs) + 3) * (PAGE_SIZE as int)
                &&& ms.areas@.len() == segs.len() + 2
                // one framed area per loadable segment, in table order,
                // with the segment's own permissions over its pages
                &&& (forall|s: int|
                    0 <= s < segs.len() ==> {
                        let ar = #[trigger] ms.areas@[s];
                        &&& ar.map_type == MapType::Framed
                        &&& ar.map_perm.bits == seg_perm_bits(segs[s].flags)
                        &&& ar.start() == segs[s].vaddr / PAGE_SIZE
                        &&& ar.end_vpn() == (segs[s].vaddr + segs[s].mem_size
                            + (PAGE_SIZE - 1)) / (PAGE_SIZE as int)
                        &&& ar.fully_mapped(ms.page_table, *final(mem))
                    })
                // the segment's file bytes land exactly in its frames
                &&& (forall|s: int, j: int|
                    0 <= s < segs.len() && 0 <= j < segs[s].file_size ==> #[trigger]
                    final(mem).byte_at(
                        ms.areas@[s].frame_ppn(j / 4096),
                        (j % 4096) as u64,
                    ) == elf_data@[segs[s].offset + j])
                // the guarded user stack above the highest segment, and the
                // trap-context page just below the trampoline
                &&& ms.areas@[segs.len() as int].map_type == MapType::Framed
                &&& ms.areas@[segs.len() as int].map_perm.bits == (MAP_R | MAP_W
                    | MAP_U)
                &&& ms.areas@[segs.len() as int].start() == last_end_vpn(segs) + 1
                &&& ms.areas@[segs.len() as int].end_vpn() == last_end_vpn(segs) + 3
                &&& ms.areas@.last().map_type == MapType::Framed
                &&& ms.areas@.last().map_perm.bits == (MAP_R | MAP_W)
                &&& ms.areas@.last().start() == 0x7ff_fffe
                &&& ms.areas@.last().end_vpn() == 0x7ff_ffff
                &&& ms.page_table.translate_spec(*final(mem), 0x7ff_ffff) == Some(
                    make_pte(trampoline_ppn.0, (MAP_R | MAP_X) | 1),
                )
                &&& (forall|w: u64|
                    w < 0x800_0000 && !in_some_area(ms.areas@, w) && w != 0x7ff_ffff
                        ==> #[trigger] ms.page_table.translate_spec(
                        *final(mem),
                        w,
                    ) is None)
            },
    {
        let img = match super::elf::parse_elf(elf_data) {
            Ok(img) => img,
            Err(e) => {
                return Err(LoadError::Elf(e));
            },
        };
        match Self::from_segments(
            mem,
            allocator,
            &img.segments,
            elf_data,
            img.entry_point,
            trampoline_ppn,
        ) {
            Ok(out) => Ok(out),
            Err(e) => {
                proof {
                    assert(!(e matches LoadError::Elf(_)));
                }
                Err(e)
            },
        }
    }
}

} // verus!
