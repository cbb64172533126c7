//! The three-level SV39 page table.
//!
//! A table is a tree of frames: the root frame, level-1 frames reached from
//! valid root entries, and level-2 (leaf-table) frames reached from valid
//! level-1 entries.  Leaf-table slots hold the actual translations.  A
//! ghost map per level records which frame backs each tree position; the
//! well-formedness invariant ties the ghost maps to the arena contents and
//! keeps all tree frames pairwise distinct, so a write through one path
//! cannot disturb another.

use vstd::prelude::*;
use super::address::{PhysPageNum, VirtPageNum};
use super::phys_mem::PhysMem;
use super::frame_allocator::{frame_alloc, FrameTracker, StackFrameAllocator};

verus! {

/// Entry flag: the entry is valid.
pub const PTE_V: u8 = 0x01;
/// Entry flag: the page is readable.
pub const PTE_R: u8 = 0x02;
/// Entry flag: the page is writable.
pub const PTE_W: u8 = 0x04;
/// Entry flag: the page is executable.
pub const PTE_X: u8 = 0x08;
/// Entry flag: the page is accessible in user mode.
pub const PTE_U: u8 = 0x10;
/// Entry flag: the mapping is global.
pub const PTE_G: u8 = 0x20;
/// Entry flag: the page has been accessed.
pub const PTE_A: u8 = 0x40;
/// Entry flag: the page has been written.
pub const PTE_D: u8 = 0x80;

/// The flag byte of a page-table entry.
#[derive(Debug, Copy, Clone, PartialEq, Eq, Structural)]
pub struct PTEFlags {
    pub bits: u8,
}

impl PTEFlags {
    pub fn empty() -> (r: Self)
        ensures
            r.bits == 0,
    {
        PTEFlags { bits: 0 }
    }

    /// The flags with exactly the bits of `b` set; every bit of the byte is
    /// a defined flag.
    pub fn from_bits(b: u8) -> (r: Self)
        ensures
            r.bits == b,
    {
        PTEFlags { bits: b }
    }

    pub fn bits(&self) -> (r: u8)
        ensures
            r == self.bits,
    {
        self.bits
    }

    /// The flags with the bits of both `self` and `other` set.
    pub fn union(self, other: Self) -> (r: Self)
        ensures
            r.bits == self.bits | other.bits,
    {
        PTEFlags { bits: self.bits | other.bits }
    }

    /// Whether every bit of `other` is set in `self`.
    pub fn contains(self, other: Self) -> (r: bool)
        ensures
            r <==> self.bits & other.bits == other.bits,
    {
        self.bits & other.bits == other.bits
    }
}

/// Physical page number stored in entry bits `e`.
pub open spec fn pte_ppn_spec(e: u64) -> u64 {
    (e >> 10) & 0xfff_ffff_ffff
}

/// Flag byte stored in entry bits `e`.
pub open spec fn pte_flags_spec(e: u64) -> u8 {
    (e & 0xff) as u8
}

/// Whether entry bits `e` carry the valid flag.
pub open spec fn pte_is_valid_spec(e: u64) -> bool {
    e & 1 == 1
}

/// The entry bits for page number `ppn` with flag byte `flags`.
pub open spec fn make_pte(ppn: u64, flags: u8) -> u64 {
    (ppn << 10) | flags as u64
}

/// An entry built from a page number below 2^44 stores that page number,
/// those flags, and is valid exactly when the valid flag byte bit is set.
pub proof fn lemma_pte_fields(ppn: u64, flags: u8)
    requires
        ppn < 0x1000_0000_0000,
    ensures
        pte_ppn_spec(make_pte(ppn, flags)) == ppn,
        pte_flags_spec(make_pte(ppn, flags)) == flags,
        pte_is_valid_spec(make_pte(ppn, flags)) <==> flags & 1 == 1,
{
    assert(ppn < 0x1000_0000_0000 ==> ((ppn << 10) | flags as u64) >> 10
        & 0xfff_ffff_ffff == ppn) by (bit_vector);
    assert((((ppn << 10) | flags as u64) & 0xff) as u8 == flags) by (bit_vector);
    assert((((ppn << 10) | flags as u64) & 1 == 1) <==> flags & 1 == 1) by (bit_vector);
}

/// A 64-bit page-table entry: `(ppn << 10) | flags`.
#[derive(Debug, Copy, Clone, PartialEq, Eq, Structural)]
pub struct PageTableEntry {
    pub bits: u64,
}

impl PageTableEntry {
    pub fn new(ppn: PhysPageNum, flags: PTEFlags) -> (r: Self)
        requires
            ppn.0 < 0x1000_0000_0000,
        ensures
            r.bits == make_pte(ppn.0, flags.bits),
            pte_ppn_spec(r.bits) == ppn.0,
            pte_flags_spec(r.bits) == flags.bits,
            pte_is_valid_spec(r.bits) <==> flags.bits & 1 == 1,
    {
        proof {
            lemma_pte_fields(ppn.0, flags.bits);
        }
        PageTableEntry { bits: (ppn.0 << 10) | flags.bits as u64 }
    }

    pub fn empty() -> (r: Self)
        ensures
            r.bits == 0,
            !pte_is_valid_spec(r.bits),
    {
        proof {
            assert(0u64 & 1 == 0) by (bit_vector);
        }
        PageTableEntry { bits: 0 }
    }

    pub fn ppn(&self) -> (r: PhysPageNum)
        ensures
            r.0 == pte_ppn_spec(self.bits),
            r.0 < 0x1000_0000_0000,
    {
        proof {
            let e = self.bits;
            assert((e >> 10) & 0xfff_ffff_ffff < 0x1000_0000_0000) by (bit_vector);
        }
        PhysPageNum((self.bits >> 10) & 0xfff_ffff_ffff)
    }

    pub fn flags(&self) -> (r: PTEFlags)
        ensures
            r.bits == pte_flags_spec(self.bits),
    {
        proof {
            let e = self.bits;
            assert(e & 0xff <= 0xff) by (bit_vector);
        }
        PTEFlags { bits: (self.bits & 0xff) as u8 }
    }

    pub fn is_valid(&self) -> (r: bool)
        ensures
            r <==> pte_is_valid_spec(self.bits),
    {
        self.bits & 1 == 1
    }
}

/// Level-0 index of virtual page number `vpn` (most significant).
pub open spec fn idx0(vpn: u64) -> int {
    ((vpn >> 18) & 511) as int
}

/// Level-1 index of virtual page number `vpn`.
pub open spec fn idx1(vpn: u64) -> int {
    ((vpn >> 9) & 511) as int
}

/// Level-2 (leaf) index of virtual page number `vpn`.
pub open spec fn idx2(vpn: u64) -> u64 {
    vpn & 511
}

/// Two virtual page numbers below 2^27 with the same three indices are the
/// same page number, and every index is below 512.
pub proof fn lemma_idx_injective(v: u64, w: u64)
    requires
        v < 0x800_0000,
        w < 0x800_0000,
    ensures
        idx0(v) == idx0(w) && idx1(v) == idx1(w) && idx2(v) == idx2(w) ==> v == w,
        0 <= idx0(v) < 512,
        0 <= idx1(v) < 512,
        idx2(v) < 512,
{
    assert((v < 0x800_0000 && w < 0x800_0000 && (v >> 18) & 511 == (w >> 18) & 511 && (v
        >> 9) & 511 == (w >> 9) & 511 && v & 511 == w & 511) ==> v == w) by (bit_vector);
    assert((v >> 18) & 511 < 512 && (v >> 9) & 511 < 512 && v & 511 < 512) by (bit_vector);
}

/// Why a mapping operation was rejected.
#[derive(Debug, Copy, Clone, PartialEq, Eq, Structural)]
pub enum MapError {
    /// The virtual page already has a valid leaf entry.
    AlreadyMapped,
    /// The virtual page has no valid leaf entry.
    NotMapped,
}

/// Ghost record of which frame backs each tree position.
pub struct PtNodes {
    /// Root slot `i` with a valid entry points to the level-1 frame `l1[i]`.
    pub l1: Map<int, u64>,
    /// Path `(i, j)` with valid entries points to the leaf-table frame
    /// `l2[(i, j)]`.
    pub l2: Map<(int, int), u64>,
}

/// A three-level page table rooted at `root_ppn`, owning the frames of all
/// its tree nodes.
pub struct PageTable {
    pub root_ppn: PhysPageNum,
    pub frames: Vec<FrameTracker>,
    pub nodes: Ghost<PtNodes>,
}

impl PageTable {
    pub open spec fn l1(self) -> Map<int, u64> {
        self.nodes@.l1
    }

    pub open spec fn l2(self) -> Map<(int, int), u64> {
        self.nodes@.l2
    }

    /// Whether `p` backs a level-1 tree node.
    pub open spec fn is_l1_node(self, p: u64) -> bool {
        exists|i: int| self.l1().dom().contains(i) && self.l1()[i] == p
    }

    /// Whether `p` backs a leaf-table tree node.
    pub open spec fn is_l2_node(self, p: u64) -> bool {
        exists|q: (int, int)| self.l2().dom().contains(q) && self.l2()[q] == p
    }

    /// Whether `p` backs any node of this table's tree.
    pub open spec fn is_node(self, p: u64) -> bool {
        p == self.root_ppn.0 || self.is_l1_node(p) || self.is_l2_node(p)
    }

    /// The tree structure is realised exactly in the arena and all tree
    /// frames are pairwise distinct.
    pub open spec fn wf(self, mem: PhysMem) -> bool {
        &&& mem.wf()
        &&& mem.contains(self.root_ppn.0)
        // root entries encode the level-1 map
        &&& forall|i: int|
            0 <= i < 512 ==> (pte_is_valid_spec(
                #[trigger] mem.pte_at(self.root_ppn.0, i as u64),
            ) <==> self.l1().dom().contains(i))
        &&& forall|i: int|
            #[trigger] self.l1().dom().contains(i) ==> 0 <= i < 512 && mem.contains(
                self.l1()[i]) && mem.pte_at(self.root_ppn.0, i as u64) == make_pte(
                self.l1()[i], 1)
        // level-1 entries encode the level-2 map
        &&& forall|i: int, j: int|
            self.l1().dom().contains(i) && 0 <= j < 512 ==> (pte_is_valid_spec(
                #[trigger] mem.pte_at(self.l1()[i], j as u64),
            ) <==> self.l2().dom().contains((i, j)))
        &&& forall|q: (int, int)|
            #[trigger] self.l2().dom().contains(q) ==> self.l1().dom().contains(q.0) && 0
                <= q.1 < 512 && mem.contains(self.l2()[q]) && mem.pte_at(
                self.l1()[q.0], q.1 as u64) == make_pte(self.l2()[q], 1)
        // all tree frames pairwise distinct
        &&& forall|i: int|
            #[trigger] self.l1().dom().contains(i) ==> self.l1()[i] != self.root_ppn.0
        &&& forall|q: (int, int)|
            #[trigger] self.l2().dom().contains(q) ==> self.l2()[q] != self.root_ppn.0
        &&& forall|i: int, k: int|
            self.l1().dom().contains(i) && self.l1().dom().contains(k) && #[trigger] self
                .l1()[i] == #[trigger] self.l1()[k] ==> i == k
        &&& forall|q: (int, int), s: (int, int)|
            self.l2().dom().contains(q) && self.l2().dom().contains(s) && #[trigger] self
                .l2()[q] == #[trigger] self.l2()[s] ==> q == s
        &&& forall|i: int, q: (int, int)|
            self.l1().dom().contains(i) && self.l2().dom().contains(q) ==> #[trigger] self
                .l1()[i] != #[trigger] self.l2()[q]
    }

    /// The leaf-table frame on the path of `vpn`, if both intermediate
    /// entries exist.
    pub open spec fn leaf_ppn(self, vpn: u64) -> Option<u64> {
        if self.l2().dom().contains((idx0(vpn), idx1(vpn))) {
            Some(self.l2()[(idx0(vpn), idx1(vpn))])
        } else {
            None
        }
    }

    /// The raw leaf-entry bits of `vpn`, if the walk reaches a leaf table.
    pub open spec fn leaf_bits(self, mem: PhysMem, vpn: u64) -> Option<u64> {
        match self.leaf_ppn(vpn) {
            Some(t) => Some(mem.pte_at(t, idx2(vpn))),
            None => None,
        }
    }

    /// What a non-mutating walk finds for `vpn`: the leaf entry if the path
    /// exists and the leaf entry is valid, nothing otherwise.
    pub open spec fn translate_spec(self, mem: PhysMem, vpn: u64) -> Option<u64> {
        match self.leaf_bits(mem, vpn) {
            Some(e) => if pte_is_valid_spec(e) {
                Some(e)
            } else {
                None
            },
            None => None,
        }
    }

    /// Whether `vpn` currently has a valid translation.
    pub open spec fn is_mapped(self, mem: PhysMem, vpn: u64) -> bool {
        self.translate_spec(mem, vpn) is Some
    }

    /// No frame of this table's tree is still available in the allocator.
    pub open spec fn disjoint_from(self, allocator: StackFrameAllocator) -> bool {
        forall|p: u64| #[trigger] allocator.available().contains(p) ==> !self.is_node(p)
    }

    /// A new table owning one fresh zeroed frame as its root; nothing is
    /// mapped.
    pub fn new(mem: &mut PhysMem, allocator: &mut StackFrameAllocator) -> (pt: Self)
        requires
            old(mem).wf(),
            old(allocator).wf(),
            old(allocator).available().subset_of(
                Set::new(|p: u64| old(mem).contains(p)),
            ),
            old(allocator).avail_count() > 0,
        ensures
            pt.wf(*final(mem)),
            pt.l1() == Map::<int, u64>::empty(),
            pt.l2() == Map::<(int, int), u64>::empty(),
            forall|w: u64| pt.translate_spec(*final(mem), w) is None,
            forall|p: u64| pt.is_node(p) ==> p == pt.root_ppn.0,
            old(allocator).available().contains(pt.root_ppn.0),
            final(allocator).available() == old(allocator).available().remove(
                pt.root_ppn.0,
            ),
            final(allocator).avail_count() == old(allocator).avail_count() - 1,
            final(allocator).wf(),
            final(allocator).end == old(allocator).end,
            pt.disjoint_from(*final(allocator)),
            final(allocator).available().subset_of(
                Set::new(|p: u64| final(mem).contains(p)),
            ),
            final(mem).wf(),
            final(mem).base == old(mem).base,
            final(mem).pages@.len() == old(mem).pages@.len(),
            forall|q: u64|
                old(mem).contains(q) && q != pt.root_ppn.0 ==> #[trigger] final(
                mem).page_of(q) == old(mem).page_of(q),
            final(mem).contains(pt.root_ppn.0),
    {
        let f_opt = frame_alloc(allocator, mem);
        proof {
            assert(f_opt is Some);
        }
        let f = f_opt.unwrap();
        let root = f.ppn;
        let mut frames: Vec<FrameTracker> = Vec::new();
        frames.push(f);
        let pt = PageTable {
            root_ppn: root,
            frames,
            nodes: Ghost(PtNodes { l1: Map::empty(), l2: Map::empty() }),
        };
        proof {
            assert forall|w: u64| #[trigger] pt.translate_spec(*mem, w) is None by {}
            assert forall|i: int| 0 <= i < 512 implies !pte_is_valid_spec(
                #[trigger] mem.pte_at(root.0, i as u64),
            ) by {
                assert(mem.page_of(root.0).ptes@[i] == 0);
                assert(!pte_is_valid_spec(0)) by (bit_vector);
            }
            assert forall|p: u64| #[trigger] pt.is_node(p) implies p == root.0 by {}
        }
        pt
    }

    /// Make sure root slot `i0` points at a level-1 node, allocating a
    /// fresh zeroed frame for it if the slot is invalid.
    fn ensure_l1(
        &mut self,
        mem: &mut PhysMem,
        allocator: &mut StackFrameAllocator,
        i0: u64,
    ) -> (t1: u64)
        requires
            old(self).wf(*old(mem)),
            old(allocator).wf(),
            old(self).disjoint_from(*old(allocator)),
            old(allocator).available().subset_of(
                Set::new(|p: u64| old(mem).contains(p)),
            ),
            old(allocator).avail_count() >= 1,
            i0 < 512,
        ensures
            final(self).wf(*final(mem)),
            final(self).root_ppn == old(self).root_ppn,
            final(allocator).wf(),
            final(allocator).end == old(allocator).end,
            final(self).disjoint_from(*final(allocator)),
            final(allocator).available().subset_of(
                Set::new(|p: u64| final(mem).contains(p)),
            ),
            final(allocator).avail_count() >= old(allocator).avail_count() - 1,
            final(allocator).current >= old(allocator).current,
            final(mem).base == old(mem).base,
            final(mem).pages@.len() == old(mem).pages@.len(),
            final(self).l1().dom().contains(i0 as int),
            t1 == final(self).l1()[i0 as int],
            final(self).l2() == old(self).l2(),
            old(self).l1().dom().contains(i0 as int) ==> final(self).l1() == old(
            self).l1() && final(mem).pages@ == old(mem).pages@ && final(allocator).current
                == old(allocator).current && final(allocator).recycled@ == old(
            allocator).recycled@,
            !old(self).l1().dom().contains(i0 as int) ==> final(self).l1() == old(
            self).l1().insert(i0 as int, t1) && old(allocator).available().contains(t1)
                && final(allocator).available() == old(allocator).available().remove(t1)
                && (forall|k: u64|
                k < 512 ==> #[trigger] final(mem).pte_at(t1, k) == 0),
            forall|w: u64|
                w < 0x800_0000 ==> #[trigger] final(self).translate_spec(*final(mem), w)
                    == old(self).translate_spec(*old(mem), w),
            forall|p: u64|
                #[trigger] final(self).is_node(p) ==> old(self).is_node(p) || old(
                allocator).available().contains(p),
            forall|p: u64|
                #[trigger] old(self).is_node(p) ==> final(self).is_node(p),
            forall|p: u64|
                #[trigger] final(allocator).available().contains(p) ==> old(
                allocator).available().contains(p),
            forall|p: u64|
                #[trigger] old(allocator).available().contains(p) && !final(
                allocator).available().contains(p) ==> final(self).is_node(p),
            forall|p: u64|
                old(mem).contains(p) && !old(allocator).available().contains(p) && !old(
                self).is_node(p) ==> #[trigger] final(mem).page_of(p) == old(
                mem).page_of(p),
            forall|p: u64|
                old(mem).contains(p) && !old(allocator).available().contains(p)
                    ==> #[trigger] final(mem).page_of(p).bytes@ == old(mem).page_of(
                p).bytes@,
    {
        let root = self.root_ppn.0;
        let e0 = mem.read_pte(root, i0);
        if e0 & 1 == 1 {
            proof {
                assert(pte_is_valid_spec(e0));
                let ii = i0 as int;
                assert(ii as u64 == i0);
                assert(pte_is_valid_spec(mem.pte_at(self.root_ppn.0, ii as u64)));
                assert(self.l1().dom().contains(ii));
                assert(e0 == make_pte(self.l1()[ii], 1));
                lemma_pte_fields(self.l1()[ii], 1);
            }
            let t1 = (e0 >> 10) & 0xfff_ffff_ffff;
            proof {
                assert(t1 == self.l1()[i0 as int]);
                assert forall|w: u64| w < 0x800_0000 implies #[trigger] self
                    .translate_spec(*mem, w) == old(self).translate_spec(*old(mem), w) by {}
            }
            t1
        } else {
            proof {
                assert(!pte_is_valid_spec(e0));
                let ii = i0 as int;
                assert(ii as u64 == i0);
                assert(!pte_is_valid_spec(mem.pte_at(self.root_ppn.0, ii as u64)));
                assert(!self.l1().dom().contains(ii));
            }
            let f_opt = frame_alloc(allocator, mem);
            proof {
                assert(f_opt is Some);
            }
            let f = f_opt.unwrap();
            let t1 = f.ppn.0;
            let ghost pre_self = *old(self);
            let ghost mem1 = *mem;
            proof {
                assert(!pre_self.is_node(t1));
                assert(t1 != root);
                assert(mem.contains(root));
                lemma_pte_fields(t1, 1);
            }
            mem.write_pte(root, i0, (t1 << 10) | 1);
            self.frames.push(f);
            proof {
                let ghost n = self.nodes@;
                self.nodes = Ghost(
                    PtNodes { l1: n.l1.insert(i0 as int, t1), l2: n.l2 },
                );
                assert((t1 << 10) | 1 == make_pte(t1, 1));
                assert((i0 as int) as u64 == i0);
                assert(1u8 & 1 == 1) by (bit_vector);
                assert(pte_is_valid_spec(make_pte(t1, 1)));
                let s0 = pre_self;
                let s1 = *self;
                let m0 = *old(mem);
                let m2 = *mem;
                // pages other than root and t1 are untouched
                assert forall|p: u64|
                    m0.contains(p) && p != root && p != t1 implies #[trigger] m2.page_of(
                    p) == m0.page_of(p) by {}
                assert(m2.page_of(root).ptes@ == mem1.page_of(root).ptes@.update(
                    i0 as int, make_pte(t1, 1)));
                assert(mem1.page_of(root) == m0.page_of(root));
                assert(m2.pte_at(root, i0) == make_pte(t1, 1));
                // each well-formedness clause of the grown tree
                assert forall|i: int| 0 <= i < 512 implies (pte_is_valid_spec(
                    #[trigger] m2.pte_at(root, i as u64),
                ) <==> s1.l1().dom().contains(i)) by {
                    if i == i0 as int {
                        assert(i as u64 == i0);
                        assert(m2.pte_at(root, i0) == make_pte(t1, 1));
                        assert(pte_is_valid_spec(make_pte(t1, 1)));
                    } else {
                        assert(m2.pte_at(root, i as u64) == m0.pte_at(root, i as u64));
                    }
                }
                assert forall|i: int| #[trigger] s1.l1().dom().contains(i) implies 0 <= i
                    < 512 && m2.contains(s1.l1()[i]) && m2.pte_at(root, i as u64)
                    == make_pte(s1.l1()[i], 1) by {
                    if i == i0 as int {
                        assert(i as u64 == i0);
                        assert(m2.pte_at(root, i0) == make_pte(t1, 1));
                    } else {
                        assert(s0.l1().dom().contains(i));
                        assert(s0.l1()[i] != t1);
                        assert(m2.pte_at(root, i as u64) == m0.pte_at(root, i as u64));
                    }
                }
                assert forall|i: int, j: int|
                    s1.l1().dom().contains(i) && 0 <= j < 512 implies (pte_is_valid_spec(
                    #[trigger] m2.pte_at(s1.l1()[i], j as u64),
                ) <==> s1.l2().dom().contains((i, j))) by {
                    if i == i0 as int {
                        assert(s1.l1()[i] == t1);
                        assert(m2.page_of(t1).is_zeroed());
                        assert(m2.page_of(t1).ptes@.len() == 512);
                        assert(m2.pte_at(t1, j as u64) == 0);
                        assert(!pte_is_valid_spec(0)) by (bit_vector);
                        if s1.l2().dom().contains((i, j)) {
                            assert(s0.l2().dom().contains((i, j)));
                            assert(s0.l1().dom().contains(i));
                            assert(false);
                        }
                    } else {
                        assert(s0.l1().dom().contains(i));
                        let lp = s0.l1()[i];
                        assert(lp != t1 && lp != root);
                        assert(m2.page_of(lp) == m0.page_of(lp));
                        assert(m2.pte_at(lp, j as u64) == m0.pte_at(lp, j as u64));
                        assert(pte_is_valid_spec(m0.pte_at(s0.l1()[i], j as u64))
                            <==> s0.l2().dom().contains((i, j)));
                    }
                }
                assert forall|q: (int, int)| #[trigger] s1.l2().dom().contains(q) implies
                    s1.l1().dom().contains(q.0) && 0 <= q.1 < 512 && m2.contains(
                    s1.l2()[q]) && m2.pte_at(s1.l1()[q.0], q.1 as u64) == make_pte(
                    s1.l2()[q], 1) by {
                    assert(s0.l2().dom().contains(q));
                    assert(s0.l1().dom().contains(q.0));
                    assert(q.0 != i0 as int);
                    let lp = s0.l1()[q.0];
                    assert(lp != t1 && lp != root);
                    assert(m2.page_of(lp) == m0.page_of(lp));
                }
                assert(s1.wf(m2));
                // the old translations are untouched: the leaf tables are
                // neither the root nor the fresh frame
                assert forall|w: u64| w < 0x800_0000 implies #[trigger] s1.translate_spec(
                    m2, w) == s0.translate_spec(m0, w) by {
                    if s0.l2().dom().contains((idx0(w), idx1(w))) {
                        let lt = s0.l2()[(idx0(w), idx1(w))];
                        assert(lt != t1 && lt != root);
                        assert(m2.page_of(lt) == m0.page_of(lt));
                    }
                }
                // node bookkeeping
                assert forall|p: u64| #[trigger] s1.is_node(p) implies s0.is_node(p) || p
                    == t1 by {
                    if s1.is_l1_node(p) {
                        let i = choose|i: int|
                            s1.l1().dom().contains(i) && s1.l1()[i] == p;
                        if i != i0 as int {
                            assert(s0.l1().dom().contains(i) && s0.l1()[i] == p);
                        }
                    }
                }
                assert forall|p: u64| #[trigger] s0.is_node(p) implies s1.is_node(p) by {
                    if s0.is_l1_node(p) {
                        let i = choose|i: int|
                            s0.l1().dom().contains(i) && s0.l1()[i] == p;
                        assert(s1.l1().dom().contains(i) && s1.l1()[i] == p);
                    }
                }
                assert(s1.is_l1_node(t1)) by {
                    assert(s1.l1().dom().contains(i0 as int) && s1.l1()[i0 as int] == t1);
                }
                assert forall|p: u64| #[trigger] final(allocator).available().contains(
                    p) implies !s1.is_node(p) by {}
            }
            t1
        }
    }

    /// Make sure slot `i1` of the level-1 node `t1` points at a leaf
    /// table, allocating a fresh zeroed frame for it if the slot is
    /// invalid.
    fn ensure_l2(
        &mut self,
        mem: &mut PhysMem,
        allocator: &mut StackFrameAllocator,
        t1: u64,
        i0: u64,
        i1: u64,
    ) -> (leaf: u64)
        requires
            old(self).wf(*old(mem)),
            old(allocator).wf(),
            old(self).disjoint_from(*old(allocator)),
            old(allocator).available().subset_of(
                Set::new(|p: u64| old(mem).contains(p)),
            ),
            old(allocator).avail_count() >= 1,
            i0 < 512,
            i1 < 512,
            old(self).l1().dom().contains(i0 as int),
            t1 == old(self).l1()[i0 as int],
        ensures
            final(self).wf(*final(mem)),
            final(self).root_ppn == old(self).root_ppn,
            final(allocator).wf(),
            final(allocator).end == old(allocator).end,
            final(self).disjoint_from(*final(allocator)),
            final(allocator).available().subset_of(
                Set::new(|p: u64| final(mem).contains(p)),
            ),
            final(allocator).avail_count() >= old(allocator).avail_count() - 1,
            final(allocator).current >= old(allocator).current,
            final(mem).base == old(mem).base,
            final(mem).pages@.len() == old(mem).pages@.len(),
            final(self).l1() == old(self).l1(),
            final(self).l2().dom().contains((i0 as int, i1 as int)),
            leaf == final(self).l2()[(i0 as int, i1 as int)],
            final(mem).contains(leaf),
            old(self).l2().dom().contains((i0 as int, i1 as int)) ==> final(self).l2()
                == old(self).l2() && final(mem).pages@ == old(mem).pages@ && final(
            allocator).current == old(allocator).current && final(allocator).recycled@
                == old(allocator).recycled@,
            !old(self).l2().dom().contains((i0 as int, i1 as int)) ==> final(self).l2()
                == old(self).l2().insert((i0 as int, i1 as int), leaf) && old(
            allocator).available().contains(leaf) && final(allocator).available() == old(
            allocator).available().remove(leaf) && (forall|k: u64|
                k < 512 ==> #[trigger] final(mem).pte_at(leaf, k) == 0),
            forall|w: u64|
                w < 0x800_0000 ==> #[trigger] final(self).translate_spec(*final(mem), w)
                    == old(self).translate_spec(*old(mem), w),
            forall|p: u64|
                #[trigger] final(self).is_node(p) ==> old(self).is_node(p) || old(
                allocator).available().contains(p),
            forall|p: u64|
                #[trigger] old(self).is_node(p) ==> final(self).is_node(p),
            forall|p: u64|
                #[trigger] final(allocator).available().contains(p) ==> old(
                allocator).available().contains(p),
            forall|p: u64|
                #[trigger] old(allocator).available().contains(p) && !final(
                allocator).available().contains(p) ==> final(self).is_node(p),
            forall|p: u64|
                old(mem).contains(p) && !old(allocator).available().contains(p) && !old(
                self).is_node(p) ==> #[trigger] final(mem).page_of(p) == old(
                mem).page_of(p),
            forall|p: u64|
                old(mem).contains(p) && !old(allocator).available().contains(p)
                    ==> #[trigger] final(mem).page_of(p).bytes@ == old(mem).page_of(
                p).bytes@,
    {
        let root = self.root_ppn.0;
        proof {
            assert(mem.contains(t1));
        }
        let e1 = mem.read_pte(t1, i1);
        if e1 & 1 == 1 {
            proof {
                assert(pte_is_valid_spec(e1));
                let ii = i0 as int;
                let jj = i1 as int;
                assert(jj as u64 == i1);
                assert(pte_is_valid_spec(mem.pte_at(self.l1()[ii], jj as u64)));
                assert(self.l2().dom().contains((ii, jj)));
                assert(e1 == make_pte(self.l2()[(ii, jj)], 1));
                lemma_pte_fields(self.l2()[(ii, jj)], 1);
            }
            let leaf = (e1 >> 10) & 0xfff_ffff_ffff;
            proof {
                assert(leaf == self.l2()[(i0 as int, i1 as int)]);
                assert forall|w: u64| w < 0x800_0000 implies #[trigger] self
                    .translate_spec(*mem, w) == old(self).translate_spec(*old(mem), w) by {}
            }
            leaf
        } else {
            proof {
                assert(!pte_is_valid_spec(e1));
                let ii = i0 as int;
                let jj = i1 as int;
                assert(jj as u64 == i1);
                assert(!pte_is_valid_spec(mem.pte_at(self.l1()[ii], jj as u64)));
                assert(!self.l2().dom().contains((ii, jj)));
            }
            let f_opt = frame_alloc(allocator, mem);
            proof {
                assert(f_opt is Some);
            }
            let f = f_opt.unwrap();
            let t2 = f.ppn.0;
            let ghost pre_self = *old(self);
            let ghost mem1 = *mem;
            proof {
                assert(!pre_self.is_node(t2));
                assert(t2 != root && t2 != t1);
                assert(pre_self.is_l1_node(t1)) by {
                    assert(pre_self.l1().dom().contains(i0 as int) && pre_self.l1()[
                        i0 as int] == t1);
                }
                lemma_pte_fields(t2, 1);
            }
            mem.write_pte(t1, i1, (t2 << 10) | 1);
            self.frames.push(f);
            proof {
                let ghost n = self.nodes@;
                self.nodes = Ghost(
                    PtNodes { l1: n.l1, l2: n.l2.insert((i0 as int, i1 as int), t2) },
                );
                assert((t2 << 10) | 1 == make_pte(t2, 1));
                assert((i0 as int) as u64 == i0);
                assert((i1 as int) as u64 == i1);
                assert(1u8 & 1 == 1) by (bit_vector);
                assert(pte_is_valid_spec(make_pte(t2, 1)));
                let s0 = pre_self;
                let s1 = *self;
                let m0 = *old(mem);
                let m2 = *mem;
                assert forall|p: u64|
                    m0.contains(p) && p != t1 && p != t2 implies #[trigger] m2.page_of(
                    p) == m0.page_of(p) by {}
                assert(m2.page_of(t1).ptes@ == mem1.page_of(t1).ptes@.update(
                    i1 as int, make_pte(t2, 1)));
                assert(mem1.page_of(t1) == m0.page_of(t1));
                assert(m2.pte_at(t1, i1) == make_pte(t2, 1));
                assert(t1 != root);
                // root entries are untouched
                assert forall|i: int| 0 <= i < 512 implies (pte_is_valid_spec(
                    #[trigger] m2.pte_at(root, i as u64),
                ) <==> s1.l1().dom().contains(i)) by {
                    assert(m2.page_of(root) == m0.page_of(root));
                    assert(m2.pte_at(root, i as u64) == m0.pte_at(root, i as u64));
                    assert(pte_is_valid_spec(m0.pte_at(root, i as u64)) <==> s0.l1(
                    ).dom().contains(i));
                }
                assert forall|i: int| #[trigger] s1.l1().dom().contains(i) implies 0 <= i
                    < 512 && m2.contains(s1.l1()[i]) && m2.pte_at(root, i as u64)
                    == make_pte(s1.l1()[i], 1) by {
                    assert(m2.page_of(root) == m0.page_of(root));
                    assert(m2.pte_at(root, i as u64) == m0.pte_at(root, i as u64));
                }
                // level-1 entries encode the grown leaf map
                assert forall|i: int, j: int|
                    s1.l1().dom().contains(i) && 0 <= j < 512 implies (pte_is_valid_spec(
                    #[trigger] m2.pte_at(s1.l1()[i], j as u64),
                ) <==> s1.l2().dom().contains((i, j))) by {
                    if i == i0 as int {
                        assert(s1.l1()[i] == t1);
                        if j == i1 as int {
                            assert(j as u64 == i1);
                            assert(m2.pte_at(t1, i1) == make_pte(t2, 1));
                        } else {
                            assert(m2.pte_at(t1, j as u64) == m0.pte_at(t1, j as u64));
                            assert(pte_is_valid_spec(m0.pte_at(s0.l1()[i], j as u64))
                                <==> s0.l2().dom().contains((i, j)));
                        }
                    } else {
                        let lp = s0.l1()[i];
                        assert(lp != t1) by {
                            assert(s0.l1().dom().contains(i) && s0.l1().dom().contains(
                                i0 as int));
                        }
                        assert(lp != t2);
                        assert(m2.page_of(lp) == m0.page_of(lp));
                        assert(m2.pte_at(lp, j as u64) == m0.pte_at(lp, j as u64));
                        assert(pte_is_valid_spec(m0.pte_at(s0.l1()[i], j as u64))
                            <==> s0.l2().dom().contains((i, j)));
                    }
                }
                assert forall|q: (int, int)| #[trigger] s1.l2().dom().contains(q) implies
                    s1.l1().dom().contains(q.0) && 0 <= q.1 < 512 && m2.contains(
                    s1.l2()[q]) && m2.pte_at(s1.l1()[q.0], q.1 as u64) == make_pte(
                    s1.l2()[q], 1) by {
                    if q == (i0 as int, i1 as int) {
                        assert(s1.l2()[q] == t2);
                        assert(m2.pte_at(t1, i1) == make_pte(t2, 1));
                    } else {
                        assert(s0.l2().dom().contains(q));
                        assert(s0.l2()[q] != t2);
                        if q.0 == i0 as int {
                            assert(q.1 != i1 as int);
                            assert(s1.l1()[q.0] == t1);
                            assert(m2.pte_at(t1, q.1 as u64) == m0.pte_at(
                                t1, q.1 as u64));
                        } else {
                            let lp = s0.l1()[q.0];
                            assert(lp != t1) by {
                                assert(s0.l1().dom().contains(q.0) && s0.l1(
                                ).dom().contains(i0 as int));
                            }
                            assert(lp != t2);
                            assert(m2.page_of(lp) == m0.page_of(lp));
                            assert(m2.pte_at(lp, q.1 as u64) == m0.pte_at(
                                lp, q.1 as u64));
                        }
                    }
                }
                assert(s1.wf(m2));
                // old translations see the same leaf entries
                assert forall|w: u64| w < 0x800_0000 implies #[trigger] s1.translate_spec(
                    m2, w) == s0.translate_spec(m0, w) by {
                    if idx0(w) == i0 as int && idx1(w) == i1 as int {
                        assert(!s0.l2().dom().contains((idx0(w), idx1(w))));
                        assert(s1.leaf_ppn(w) == Some(t2));
                        assert(m2.page_of(t2).is_zeroed());
                        assert(m2.page_of(t2).ptes@.len() == 512);
                        assert(idx2(w) < 512) by {
                            let x = w;
                            assert(x & 511 < 512) by (bit_vector);
                        }
                        assert(m2.pte_at(t2, idx2(w)) == 0);
                        assert(!pte_is_valid_spec(0)) by (bit_vector);
                    } else if s0.l2().dom().contains((idx0(w), idx1(w))) {
                        let lt = s0.l2()[(idx0(w), idx1(w))];
                        assert(lt != t2);
                        assert(lt != t1) by {
                            assert(s0.l1().dom().contains(i0 as int));
                        }
                        assert(m2.page_of(lt) == m0.page_of(lt));
                    }
                }
                // node bookkeeping
                assert forall|p: u64| #[trigger] s1.is_node(p) implies s0.is_node(p) || p
                    == t2 by {
                    if s1.is_l2_node(p) {
                        let q = choose|q: (int, int)|
                            s1.l2().dom().contains(q) && s1.l2()[q] == p;
                        if q != (i0 as int, i1 as int) {
                            assert(s0.l2().dom().contains(q) && s0.l2()[q] == p);
                        }
                    }
                }
                assert forall|p: u64| #[trigger] s0.is_node(p) implies s1.is_node(p) by {
                    if s0.is_l1_node(p) {
                        let i = choose|i: int|
                            s0.l1().dom().contains(i) && s0.l1()[i] == p;
                        assert(s1.l1().dom().contains(i) && s1.l1()[i] == p);
                    } else if s0.is_l2_node(p) {
                        let q = choose|q: (int, int)|
                            s0.l2().dom().contains(q) && s0.l2()[q] == p;
                        assert(s1.l2().dom().contains(q) && s1.l2()[q] == p);
                    }
                }
                assert(s1.is_l2_node(t2)) by {
                    assert(s1.l2().dom().contains((i0 as int, i1 as int)) && s1.l2()[(
                    i0 as int, i1 as int)] == t2);
                }
                assert forall|p: u64| #[trigger] final(allocator).available().contains(
                    p) implies !s1.is_node(p) by {}
                assert forall|k: u64| k < 512 implies #[trigger] m2.pte_at(t2, k)
                    == 0 by {
                    assert(m2.page_of(t2).is_zeroed());
                    assert(m2.page_of(t2).ptes@.len() == 512);
                }
            }
            t2
        }
    }

    /// Walk to the leaf table of `vpn`, creating any missing intermediate
    /// node from a freshly allocated zeroed frame.
    fn find_pte_create(
        &mut self,
        mem: &mut PhysMem,
        allocator: &mut StackFrameAllocator,
        vpn: VirtPageNum,
    ) -> (leaf: u64)
        requires
            old(self).wf(*old(mem)),
            old(allocator).wf(),
            old(self).disjoint_from(*old(allocator)),
            old(allocator).available().subset_of(
                Set::new(|p: u64| old(mem).contains(p)),
            ),
            old(allocator).avail_count() >= 2,
            vpn.0 < 0x800_0000,
        ensures
            final(self).wf(*final(mem)),
            final(self).root_ppn == old(self).root_ppn,
            final(allocator).wf(),
            final(allocator).end == old(allocator).end,
            final(self).disjoint_from(*final(allocator)),
            final(allocator).available().subset_of(
                Set::new(|p: u64| final(mem).contains(p)),
            ),
            final(allocator).avail_count() >= old(allocator).avail_count() - 2,
            final(allocator).current >= old(allocator).current,
            final(mem).base == old(mem).base,
            final(mem).pages@.len() == old(mem).pages@.len(),
            final(self).l2().dom().contains((idx0(vpn.0), idx1(vpn.0))),
            leaf == final(self).l2()[(idx0(vpn.0), idx1(vpn.0))],
            final(mem).contains(leaf),
            old(self).l2().dom().contains((idx0(vpn.0), idx1(vpn.0))) ==> final(
            self).l2() == old(self).l2() && final(self).l1() == old(self).l1() && final(
            mem).pages@ == old(mem).pages@ && final(allocator).current == old(
            allocator).current && final(allocator).recycled@ == old(allocator).recycled@,
            !old(self).l2().dom().contains((idx0(vpn.0), idx1(vpn.0))) ==> (forall|
                k: u64,
            |
                k < 512 ==> #[trigger] final(mem).pte_at(leaf, k) == 0),
            forall|w: u64|
                w < 0x800_0000 ==> #[trigger] final(self).translate_spec(*final(mem), w)
                    == old(self).translate_spec(*old(mem), w),
            forall|p: u64|
                #[trigger] final(self).is_node(p) ==> old(self).is_node(p) || old(
                allocator).available().contains(p),
            forall|p: u64|
                #[trigger] old(self).is_node(p) ==> final(self).is_node(p),
            forall|p: u64|
                #[trigger] final(allocator).available().contains(p) ==> old(
                allocator).available().contains(p),
            forall|p: u64|
                old(mem).contains(p) && !old(allocator).available().contains(p) && !old(
                self).is_node(p) ==> #[trigger] final(mem).page_of(p) == old(
                mem).page_of(p),
            forall|p: u64|
                old(mem).contains(p) && !old(allocator).available().contains(p)
                    ==> #[trigger] final(mem).page_of(p).bytes@ == old(mem).page_of(
                p).bytes@,
    {
        let idxs = vpn.indexes();
        proof {
            lemma_idx_injective(vpn.0, vpn.0);
            assert(idxs@[0] == idx0(vpn.0) as u64);
            assert(idxs@[1] == idx1(vpn.0) as u64);
            if old(self).l2().dom().contains((idx0(vpn.0), idx1(vpn.0))) {
                assert(old(self).l1().dom().contains(idx0(vpn.0)));
            }
        }
        let i0 = idxs[0];
        let i1 = idxs[1];
        let ghost s0 = *self;
        let ghost m0 = *mem;
        let ghost a0 = *allocator;
        let t1 = self.ensure_l1(mem, allocator, i0);
        let ghost s1 = *self;
        let ghost m1 = *mem;
        let ghost a1 = *allocator;
        let leaf = self.ensure_l2(mem, allocator, t1, i0, i1);
        proof {
            let s2 = *self;
            let m2 = *mem;
            let a2 = *allocator;
            assert forall|w: u64| w < 0x800_0000 implies #[trigger] s2.translate_spec(
                m2, w) == s0.translate_spec(m0, w) by {
                assert(s2.translate_spec(m2, w) == s1.translate_spec(m1, w));
                assert(s1.translate_spec(m1, w) == s0.translate_spec(m0, w));
            }
            assert forall|p: u64| #[trigger] s2.is_node(p) implies s0.is_node(p)
                || a0.available().contains(p) by {
                if s1.is_node(p) {
                } else {
                    assert(a1.available().contains(p));
                }
            }
            assert forall|p: u64|
                m0.contains(p) && !a0.available().contains(p) && !s0.is_node(
                p) implies #[trigger] m2.page_of(p) == m0.page_of(p) by {
                assert(!a1.available().contains(p));
                assert(!s1.is_node(p));
            }
            assert forall|p: u64|
                m0.contains(p) && !a0.available().contains(p) implies #[trigger] m2
                .page_of(p).bytes@ == m0.page_of(p).bytes@ by {
                assert(!a1.available().contains(p));
            }
            if !s0.l2().dom().contains((idx0(vpn.0), idx1(vpn.0))) {
                assert(!s1.l2().dom().contains((i0 as int, i1 as int)));
            }
        }
        leaf
    }

    /// Install a leaf entry translating `vpn` to `ppn` with `flags` plus
    /// the valid bit, creating intermediate nodes as needed.  Rejected when
    /// `vpn` already has a valid translation; nothing changes then.
    pub fn map(
        &mut self,
        mem: &mut PhysMem,
        allocator: &mut StackFrameAllocator,
        vpn: VirtPageNum,
        ppn: PhysPageNum,
        flags: PTEFlags,
    ) -> (r: Result<(), MapError>)
        requires
            old(self).wf(*old(mem)),
            old(allocator).wf(),
            old(self).disjoint_from(*old(allocator)),
            old(allocator).available().subset_of(
                Set::new(|p: u64| old(mem).contains(p)),
            ),
            old(allocator).avail_count() >= 2,
            vpn.0 < 0x800_0000,
            ppn.0 < 0x1000_0000_0000,
        ensures
            final(self).wf(*final(mem)),
            final(self).root_ppn == old(self).root_ppn,
            final(allocator).wf(),
            final(allocator).end == old(allocator).end,
            final(self).disjoint_from(*final(allocator)),
            final(allocator).available().subset_of(
                Set::new(|p: u64| final(mem).contains(p)),
            ),
            final(allocator).avail_count() >= old(allocator).avail_count() - 2,
            final(allocator).current >= old(allocator).current,
            final(mem).base == old(mem).base,
            final(mem).pages@.len() == old(mem).pages@.len(),
            r is Err <==> old(self).is_mapped(*old(mem), vpn.0),
            r is Err ==> r == Err::<(), MapError>(MapError::AlreadyMapped) && final(
            mem).pages@ == old(mem).pages@ && final(self).l1() == old(self).l1() && final(
            self).l2() == old(self).l2() && final(allocator).current == old(
            allocator).current && final(allocator).recycled@ == old(allocator).recycled@,
            r is Ok ==> final(self).translate_spec(*final(mem), vpn.0) == Some(
                make_pte(ppn.0, flags.bits | 1),
            ),
            r is Ok ==> forall|w: u64|
                w < 0x800_0000 && w != vpn.0 ==> #[trigger] final(self).translate_spec(
                    *final(mem), w) == old(self).translate_spec(*old(mem), w),
            forall|p: u64|
                #[trigger] final(self).is_node(p) ==> old(self).is_node(p) || old(
                allocator).available().contains(p),
            forall|p: u64|
                #[trigger] old(self).is_node(p) ==> final(self).is_node(p),
            forall|p: u64|
                #[trigger] final(allocator).available().contains(p) ==> old(
                allocator).available().contains(p),
            forall|p: u64|
                old(mem).contains(p) && !old(allocator).available().contains(p) && !old(
                self).is_node(p) ==> #[trigger] final(mem).page_of(p) == old(
                mem).page_of(p),
            forall|p: u64|
                old(mem).contains(p) && !old(allocator).available().contains(p)
                    ==> #[trigger] final(mem).page_of(p).bytes@ == old(mem).page_of(
                p).bytes@,
    {
        let ghost s0 = *self;
        let ghost m0 = *mem;
        let ghost a0 = *allocator;
        let leaf = self.find_pte_create(mem, allocator, vpn);
        let idxs = vpn.indexes();
        proof {
            lemma_idx_injective(vpn.0, vpn.0);
            assert(idxs@[2] == idx2(vpn.0));
        }
        let i2 = idxs[2];
        let e = mem.read_pte(leaf, i2);
        if e & 1 == 1 {
            proof {
                assert(pte_is_valid_spec(e));
                assert(self.leaf_bits(*mem, vpn.0) == Some(e));
                assert(self.translate_spec(*mem, vpn.0) == Some(e));
                assert(s0.is_mapped(m0, vpn.0));
                assert(s0.l2().dom().contains((idx0(vpn.0), idx1(vpn.0))));
            }
            Err(MapError::AlreadyMapped)
        } else {
            proof {
                assert(!pte_is_valid_spec(e));
                assert(self.translate_spec(*mem, vpn.0) is None);
                assert(!s0.is_mapped(m0, vpn.0));
                let f = flags.bits;
                assert(((f | 1) as u64) == (f as u64) | 1) by (bit_vector);
                assert((f | 1) & 1 == 1) by (bit_vector);
            }
            let bits = (ppn.0 << 10) | ((flags.bits | 1) as u64);
            let ghost s1 = *self;
            let ghost m1 = *mem;
            mem.write_pte(leaf, i2, bits);
            proof {
                let s2 = *self;
                let m2 = *mem;
                assert(bits == make_pte(ppn.0, (flags.bits | 1) as u8));
                lemma_pte_fields(ppn.0, (flags.bits | 1) as u8);
                assert(pte_is_valid_spec(bits));
                assert(m2.pte_at(leaf, idx2(vpn.0)) == bits);
                // the leaf table is no intermediate node, so the tree
                // structure is untouched
                assert(s1.is_l2_node(leaf)) by {
                    assert(s1.l2().dom().contains((idx0(vpn.0), idx1(vpn.0))) && s1.l2()[
                        (idx0(vpn.0), idx1(vpn.0))] == leaf);
                }
                assert(leaf != s1.root_ppn.0);
                assert forall|i: int| 0 <= i < 512 implies (pte_is_valid_spec(
                    #[trigger] m2.pte_at(s1.root_ppn.0, i as u64),
                ) <==> s1.l1().dom().contains(i)) by {
                    assert(m2.page_of(s1.root_ppn.0) == m1.page_of(s1.root_ppn.0));
                    assert(m2.pte_at(s1.root_ppn.0, i as u64) == m1.pte_at(
                        s1.root_ppn.0, i as u64));
                }
                assert forall|i: int| #[trigger] s1.l1().dom().contains(i) implies 0 <= i
                    < 512 && m2.contains(s1.l1()[i]) && m2.pte_at(
                    s1.root_ppn.0, i as u64) == make_pte(s1.l1()[i], 1) by {
                    assert(m2.page_of(s1.root_ppn.0) == m1.page_of(s1.root_ppn.0));
                }
                assert forall|i: int, j: int|
                    s1.l1().dom().contains(i) && 0 <= j < 512 implies (pte_is_valid_spec(
                    #[trigger] m2.pte_at(s1.l1()[i], j as u64),
                ) <==> s1.l2().dom().contains((i, j))) by {
                    assert(s1.l1()[i] != leaf);
                    assert(m2.page_of(s1.l1()[i]) == m1.page_of(s1.l1()[i]));
                    assert(m2.pte_at(s1.l1()[i], j as u64) == m1.pte_at(
                        s1.l1()[i], j as u64));
                }
                assert forall|q: (int, int)| #[trigger] s1.l2().dom().contains(q) implies
                    s1.l1().dom().contains(q.0) && 0 <= q.1 < 512 && m2.contains(
                    s1.l2()[q]) && m2.pte_at(s1.l1()[q.0], q.1 as u64) == make_pte(
                    s1.l2()[q], 1) by {
                    assert(s1.l1()[q.0] != leaf);
                    assert(m2.page_of(s1.l1()[q.0]) == m1.page_of(s1.l1()[q.0]));
                }
                assert(s2.wf(m2));
                assert(s2.translate_spec(m2, vpn.0) == Some(bits));
                // every other page number still translates as before
                assert forall|w: u64| w < 0x800_0000 && w != vpn.0 implies #[trigger] s2
                    .translate_spec(m2, w) == s0.translate_spec(m0, w) by {
                    assert(s1.translate_spec(m1, w) == s0.translate_spec(m0, w));
                    lemma_idx_injective(vpn.0, w);
                    if s1.l2().dom().contains((idx0(w), idx1(w))) {
                        let lt = s1.l2()[(idx0(w), idx1(w))];
                        if lt == leaf {
                            assert((idx0(w), idx1(w)) == (idx0(vpn.0), idx1(vpn.0)));
                            assert(idx2(w) != idx2(vpn.0));
                            lemma_idx_injective(w, vpn.0);
                            assert(m1.page_of(leaf).wf());
                            assert(m2.pte_at(leaf, idx2(w)) == m1.pte_at(
                                leaf, idx2(w)));
                        } else {
                            assert(m2.page_of(lt) == m1.page_of(lt));
                        }
                    }
                }
                // pages that are neither tree nodes nor fresh frames keep
                // their contents
                assert forall|p: u64|
                    m0.contains(p) && !a0.available().contains(p) && !s0.is_node(
                    p) implies #[trigger] m2.page_of(p) == m0.page_of(p) by {
                    assert(m1.page_of(p) == m0.page_of(p));
                    assert(!s1.is_node(p));
                    assert(p != leaf);
                    assert(m1.contains(p));
                }
                assert forall|p: u64|
                    m0.contains(p) && !a0.available().contains(p) implies #[trigger] m2
                    .page_of(p).bytes@ == m0.page_of(p).bytes@ by {
                    assert(m1.page_of(p).bytes@ == m0.page_of(p).bytes@);
                    assert(m1.contains(p));
                    if p != leaf {
                        assert(m2.page_of(p) == m1.page_of(p));
                    }
                }
            }
            Ok(())
        }
    }

    /// Clear the leaf entry of `vpn`.  Rejected when the walk meets an
    /// invalid entry at any level, so also when `vpn` has no valid
    /// translation; nothing changes then.
    pub fn unmap(&mut self, mem: &mut PhysMem, vpn: VirtPageNum) -> (r: Result<
        (),
        MapError,
    >)
        requires
            old(self).wf(*old(mem)),
            vpn.0 < 0x800_0000,
        ensures
            final(self).wf(*final(mem)),
            final(self).root_ppn == old(self).root_ppn,
            final(self).l1() == old(self).l1(),
            final(self).l2() == old(self).l2(),
            final(mem).base == old(mem).base,
            final(mem).pages@.len() == old(mem).pages@.len(),
            r is Err <==> !old(self).is_mapped(*old(mem), vpn.0),
            r is Err ==> r == Err::<(), MapError>(MapError::NotMapped) && final(
            mem).pages@ == old(mem).pages@,
            r is Ok ==> final(self).translate_spec(*final(mem), vpn.0) is None,
            forall|w: u64|
                w < 0x800_0000 && w != vpn.0 ==> #[trigger] final(self).translate_spec(
                    *final(mem), w) == old(self).translate_spec(*old(mem), w),
            forall|p: u64|
                old(mem).contains(p) && !old(self).is_node(p) ==> #[trigger] final(
                mem).page_of(p) == old(mem).page_of(p),
            forall|p: u64|
                old(mem).contains(p) ==> #[trigger] final(mem).page_of(p).bytes@ == old(
                mem).page_of(p).bytes@,
    {
        let idxs = vpn.indexes();
        proof {
            lemma_idx_injective(vpn.0, vpn.0);
            assert(idxs@[0] == idx0(vpn.0) as u64);
            assert(idxs@[1] == idx1(vpn.0) as u64);
            assert(idxs@[2] == idx2(vpn.0));
        }
        let root = self.root_ppn.0;
        let e0 = mem.read_pte(root, idxs[0]);
        if e0 & 1 != 1 {
            proof {
                assert(!pte_is_valid_spec(e0));
                let ii = idx0(vpn.0);
                assert(ii as u64 == idxs@[0]);
                assert(!pte_is_valid_spec(mem.pte_at(root, ii as u64)));
                assert(!self.l1().dom().contains(ii));
                if self.l2().dom().contains((idx0(vpn.0), idx1(vpn.0))) {
                    assert(self.l1().dom().contains(idx0(vpn.0)));
                }
                assert(self.translate_spec(*mem, vpn.0) is None);
            }
            return Err(MapError::NotMapped);
        }
        proof {
            let ii = idx0(vpn.0);
            assert(ii as u64 == idxs@[0]);
            assert(pte_is_valid_spec(mem.pte_at(root, ii as u64)));
            assert(self.l1().dom().contains(ii));
            assert(e0 == make_pte(self.l1()[ii], 1));
            lemma_pte_fields(self.l1()[ii], 1);
        }
        let t1 = (e0 >> 10) & 0xfff_ffff_ffff;
        let e1 = mem.read_pte(t1, idxs[1]);
        if e1 & 1 != 1 {
            proof {
                assert(!pte_is_valid_spec(e1));
                let ii = idx0(vpn.0);
                let jj = idx1(vpn.0);
                assert(jj as u64 == idxs@[1]);
                assert(!pte_is_valid_spec(mem.pte_at(self.l1()[ii], jj as u64)));
                assert(!self.l2().dom().contains((ii, jj)));
                assert(self.translate_spec(*mem, vpn.0) is None);
            }
            return Err(MapError::NotMapped);
        }
        proof {
            let ii = idx0(vpn.0);
            let jj = idx1(vpn.0);
            assert(jj as u64 == idxs@[1]);
            assert(pte_is_valid_spec(mem.pte_at(self.l1()[ii], jj as u64)));
            assert(self.l2().dom().contains((ii, jj)));
            assert(e1 == make_pte(self.l2()[(ii, jj)], 1));
            lemma_pte_fields(self.l2()[(ii, jj)], 1);
        }
        let leaf = (e1 >> 10) & 0xfff_ffff_ffff;
        let e = mem.read_pte(leaf, idxs[2]);
        if e & 1 != 1 {
            proof {
                assert(!pte_is_valid_spec(e));
                assert(self.leaf_bits(*mem, vpn.0) == Some(e));
                assert(self.translate_spec(*mem, vpn.0) is None);
            }
            return Err(MapError::NotMapped);
        }
        proof {
            assert(pte_is_valid_spec(e));
            assert(self.leaf_bits(*mem, vpn.0) == Some(e));
            assert(self.is_mapped(*mem, vpn.0));
        }
        let ghost s1 = *self;
        let ghost m1 = *mem;
        mem.write_pte(leaf, idxs[2], 0);
        proof {
            let s2 = *self;
            let m2 = *mem;
            assert(!pte_is_valid_spec(0)) by (bit_vector);
            assert(m2.pte_at(leaf, idx2(vpn.0)) == 0);
            assert(s1.is_l2_node(leaf)) by {
                assert(s1.l2().dom().contains((idx0(vpn.0), idx1(vpn.0))) && s1.l2()[(
                idx0(vpn.0), idx1(vpn.0))] == leaf);
            }
            assert(leaf != s1.root_ppn.0);
            assert forall|i: int| 0 <= i < 512 implies (pte_is_valid_spec(
                #[trigger] m2.pte_at(s1.root_ppn.0, i as u64),
            ) <==> s1.l1().dom().contains(i)) by {
                assert(m2.page_of(s1.root_ppn.0) == m1.page_of(s1.root_ppn.0));
                assert(m2.pte_at(s1.root_ppn.0, i as u64) == m1.pte_at(
                    s1.root_ppn.0, i as u64));
            }
            assert forall|i: int| #[trigger] s1.l1().dom().contains(i) implies 0 <= i
                < 512 && m2.contains(s1.l1()[i]) && m2.pte_at(s1.root_ppn.0, i as u64)
                == make_pte(s1.l1()[i], 1) by {
                assert(m2.page_of(s1.root_ppn.0) == m1.page_of(s1.root_ppn.0));
            }
            assert forall|i: int, j: int|
                s1.l1().dom().contains(i) && 0 <= j < 512 implies (pte_is_valid_spec(
                #[trigger] m2.pte_at(s1.l1()[i], j as u64),
            ) <==> s1.l2().dom().contains((i, j))) by {
                assert(s1.l1()[i] != leaf);
                assert(m2.page_of(s1.l1()[i]) == m1.page_of(s1.l1()[i]));
                assert(m2.pte_at(s1.l1()[i], j as u64) == m1.pte_at(
                    s1.l1()[i], j as u64));
            }
            assert forall|q: (int, int)| #[trigger] s1.l2().dom().contains(q) implies
                s1.l1().dom().contains(q.0) && 0 <= q.1 < 512 && m2.contains(s1.l2()[q])
                && m2.pte_at(s1.l1()[q.0], q.1 as u64) == make_pte(s1.l2()[q], 1) by {
                assert(s1.l1()[q.0] != leaf);
                assert(m2.page_of(s1.l1()[q.0]) == m1.page_of(s1.l1()[q.0]));
            }
            assert(s2.wf(m2));
            assert(s2.translate_spec(m2, vpn.0) is None);
            assert forall|w: u64| w < 0x800_0000 && w != vpn.0 implies #[trigger] s2
                .translate_spec(m2, w) == s1.translate_spec(m1, w) by {
                lemma_idx_injective(vpn.0, w);
                if s1.l2().dom().contains((idx0(w), idx1(w))) {
                    let lt = s1.l2()[(idx0(w), idx1(w))];
                    if lt == leaf {
                        assert((idx0(w), idx1(w)) == (idx0(vpn.0), idx1(vpn.0)));
                        assert(idx2(w) != idx2(vpn.0));
                        lemma_idx_injective(w, vpn.0);
                        assert(m1.page_of(leaf).wf());
                        assert(m2.pte_at(leaf, idx2(w)) == m1.pte_at(leaf, idx2(w)));
                    } else {
                        assert(m2.page_of(lt) == m1.page_of(lt));
                    }
                }
            }
        }
        Ok(())
    }

    /// Walk for `vpn` without allocating: the found leaf entry, or nothing
    /// the first time the walk meets an invalid entry.
    pub fn translate(&self, mem: &PhysMem, vpn: VirtPageNum) -> (r: Option<
        PageTableEntry,
    >)
        requires
            self.wf(*mem),
            vpn.0 < 0x800_0000,
        ensures
            r is Some <==> self.translate_spec(*mem, vpn.0) is Some,
            r is Some ==> r->Some_0.bits == self.translate_spec(*mem, vpn.0)->Some_0,
    {
        let idxs = vpn.indexes();
        proof {
            lemma_idx_injective(vpn.0, vpn.0);
            assert(idxs@[0] == idx0(vpn.0) as u64);
            assert(idxs@[1] == idx1(vpn.0) as u64);
            assert(idxs@[2] == idx2(vpn.0));
        }
        let root = self.root_ppn.0;
        let e0 = mem.read_pte(root, idxs[0]);
        if e0 & 1 != 1 {
            proof {
                assert(!pte_is_valid_spec(e0));
                let ii = idx0(vpn.0);
                assert(ii as u64 == idxs@[0]);
                assert(!pte_is_valid_spec(mem.pte_at(root, ii as u64)));
                assert(!self.l1().dom().contains(ii));
                if self.l2().dom().contains((idx0(vpn.0), idx1(vpn.0))) {
                    assert(self.l1().dom().contains(idx0(vpn.0)));
                }
            }
            return None;
        }
        proof {
            let ii = idx0(vpn.0);
            assert(ii as u64 == idxs@[0]);
            assert(pte_is_valid_spec(mem.pte_at(root, ii as u64)));
            assert(self.l1().dom().contains(ii));
            assert(e0 == make_pte(self.l1()[ii], 1));
            lemma_pte_fields(self.l1()[ii], 1);
        }
        let t1 = (e0 >> 10) & 0xfff_ffff_ffff;
        let e1 = mem.read_pte(t1, idxs[1]);
        if e1 & 1 != 1 {
            proof {
                assert(!pte_is_valid_spec(e1));
                let ii = idx0(vpn.0);
                let jj = idx1(vpn.0);
                assert(jj as u64 == idxs@[1]);
                assert(!pte_is_valid_spec(mem.pte_at(self.l1()[ii], jj as u64)));
                assert(!self.l2().dom().contains((ii, jj)));
            }
            return None;
        }
        proof {
            let ii = idx0(vpn.0);
            let jj = idx1(vpn.0);
            assert(jj as u64 == idxs@[1]);
            assert(pte_is_valid_spec(mem.pte_at(self.l1()[ii], jj as u64)));
            assert(self.l2().dom().contains((ii, jj)));
            assert(e1 == make_pte(self.l2()[(ii, jj)], 1));
            lemma_pte_fields(self.l2()[(ii, jj)], 1);
        }
        let leaf = (e1 >> 10) & 0xfff_ffff_ffff;
        let e = mem.read_pte(leaf, idxs[2]);
        proof {
            assert(self.leaf_bits(*mem, vpn.0) == Some(e));
        }
        if e & 1 == 1 {
            Some(PageTableEntry { bits: e })
        } else {
            None
        }
    }

    /// The control-register value selecting SV39 mode over this table.
    pub fn token(&self) -> (r: u64)
        ensures
            r == (8u64 << 60) | self.root_ppn.0,
    {
        (8u64 << 60) | self.root_ppn.0
    }

    /// A translation-only table rooted at the frame named by an SV39
    /// control-register value; it owns no frames.
    pub fn from_token(satp: u64) -> (pt: Self)
        ensures
            pt.root_ppn.0 == satp & 0xfff_ffff_ffff,
            pt.frames@.len() == 0,
    {
        PageTable {
            root_ppn: PhysPageNum(satp & 0xfff_ffff_ffff),
            frames: Vec::new(),
            nodes: Ghost(PtNodes { l1: Map::empty(), l2: Map::empty() }),
        }
    }
}

/// A memory change that leaves every tree-node page untouched preserves
/// the table's well-formedness and every translation.
pub proof fn lemma_wf_preserved_nonnode_change(pt: PageTable, m0: PhysMem, m1: PhysMem)
    requires
        pt.wf(m0),
        m1.wf(),
        m1.base == m0.base,
        m1.pages@.len() == m0.pages@.len(),
        forall|p: u64|
            m0.contains(p) && pt.is_node(p) ==> #[trigger] m1.page_of(p) == m0.page_of(
                p,
            ),
    ensures
        pt.wf(m1),
        forall|w: u64| #[trigger] pt.translate_spec(m1, w) == pt.translate_spec(m0, w),
{
    let root = pt.root_ppn.0;
    assert(pt.is_node(root));
    assert(m1.page_of(root) == m0.page_of(root));
    assert forall|i: int| 0 <= i < 512 implies (pte_is_valid_spec(
        #[trigger] m1.pte_at(root, i as u64),
    ) <==> pt.l1().dom().contains(i)) by {
        assert(m1.pte_at(root, i as u64) == m0.pte_at(root, i as u64));
        assert(pte_is_valid_spec(m0.pte_at(root, i as u64)) <==> pt.l1().dom().contains(
            i,
        ));
    }
    assert forall|i: int| #[trigger] pt.l1().dom().contains(i) implies 0 <= i < 512
        && m1.contains(pt.l1()[i]) && m1.pte_at(root, i as u64) == make_pte(
        pt.l1()[i], 1) by {
        assert(m1.pte_at(root, i as u64) == m0.pte_at(root, i as u64));
    }
    assert forall|i: int, j: int|
        pt.l1().dom().contains(i) && 0 <= j < 512 implies (pte_is_valid_spec(
        #[trigger] m1.pte_at(pt.l1()[i], j as u64),
    ) <==> pt.l2().dom().contains((i, j))) by {
        assert(pt.is_node(pt.l1()[i])) by {
            assert(pt.is_l1_node(pt.l1()[i]));
        }
        assert(m1.page_of(pt.l1()[i]) == m0.page_of(pt.l1()[i]));
        assert(m1.pte_at(pt.l1()[i], j as u64) == m0.pte_at(pt.l1()[i], j as u64));
        assert(pte_is_valid_spec(m0.pte_at(pt.l1()[i], j as u64)) <==> pt.l2(
        ).dom().contains((i, j)));
    }
    assert forall|q: (int, int)| #[trigger] pt.l2().dom().contains(q) implies pt.l1(
    ).dom().contains(q.0) && 0 <= q.1 < 512 && m1.contains(pt.l2()[q]) && m1.pte_at(
        pt.l1()[q.0], q.1 as u64) == make_pte(pt.l2()[q], 1) by {
        assert(pt.is_node(pt.l1()[q.0])) by {
            assert(pt.is_l1_node(pt.l1()[q.0]));
        }
        assert(m1.page_of(pt.l1()[q.0]) == m0.page_of(pt.l1()[q.0]));
    }
    assert forall|w: u64| #[trigger] pt.translate_spec(m1, w) == pt.translate_spec(
        m0, w) by {
        if pt.l2().dom().contains((idx0(w), idx1(w))) {
            let lt = pt.l2()[(idx0(w), idx1(w))];
            assert(pt.is_node(lt)) by {
                assert(pt.is_l2_node(lt));
            }
            assert(m1.page_of(lt) == m0.page_of(lt));
        }
    }
}

/// Mapping a page then immediately translating it sees exactly what was
/// supplied: a successful `map` of `vpn` to frame `ppn` with flag byte
/// `flags` leaves `translate` returning a valid entry whose page number is
/// `ppn` and whose flag byte is `flags` with the valid bit set; a
/// successful `unmap` leaves `translate` returning nothing, which is the
/// second half of `unmap`'s own contract.
pub proof fn lemma_map_then_translate(pt: PageTable, mem: PhysMem, vpn: u64, ppn: u64, flags: u8)
    requires
        ppn < 0x1000_0000_0000,
        pt.translate_spec(mem, vpn) == Some(make_pte(ppn, flags | 1)),
    ensures
        pt.is_mapped(mem, vpn),
        pte_ppn_spec(pt.translate_spec(mem, vpn)->Some_0) == ppn,
        pte_flags_spec(pt.translate_spec(mem, vpn)->Some_0) == (flags | 1),
        pte_is_valid_spec(pt.translate_spec(mem, vpn)->Some_0),
{
    lemma_pte_fields(ppn, flags | 1);
    assert((flags | 1) & 1 == 1) by (bit_vector);
}

} // verus!
