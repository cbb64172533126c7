//! SV39 address and page-number types.
//!
//! A physical address has 56 significant bits, a virtual address 39; pages
//! are 4 KiB, so page numbers have 44 (physical) and 27 (virtual) bits.
//! Construction from a raw integer masks to the valid width; out-of-range
//! bits are silently discarded.

use vstd::prelude::*;
use crate::config::{PAGE_SIZE, PAGE_SIZE_BITS};

verus! {

/// Bit width of a physical address.
pub const PA_WIDTH_SV39: u64 = 56;
/// Bit width of a virtual address.
pub const VA_WIDTH_SV39: u64 = 39;
/// Bit width of a physical page number.
pub const PPN_WIDTH_SV39: u64 = 44;
/// Bit width of a virtual page number.
pub const VPN_WIDTH_SV39: u64 = 27;

/// Mask keeping the low 56 bits of a physical address.
pub const PA_MASK: u64 = 0x00ff_ffff_ffff_ffff;
/// Mask keeping the low 39 bits of a virtual address.
pub const VA_MASK: u64 = 0x7f_ffff_ffff;
/// Mask keeping the low 44 bits of a physical page number.
pub const PPN_MASK: u64 = 0xfff_ffff_ffff;
/// Mask keeping the low 27 bits of a virtual page number.
pub const VPN_MASK: u64 = 0x7ff_ffff;

#[derive(Debug, Copy, Clone, PartialEq, Eq, Structural)]
pub struct PhysAddr(pub u64);

#[derive(Debug, Copy, Clone, PartialEq, Eq, Structural)]
pub struct VirtAddr(pub u64);

#[derive(Debug, Copy, Clone, PartialEq, Eq, Structural)]
pub struct PhysPageNum(pub u64);

#[derive(Debug, Copy, Clone, PartialEq, Eq, Structural)]
pub struct VirtPageNum(pub u64);

impl From<u64> for PhysAddr {
    fn from(value: u64) -> Self {
        PhysAddr(value & PA_MASK)
    }
}

impl vstd::std_specs::convert::FromSpecImpl<u64> for PhysAddr {
    open spec fn obeys_from_spec() -> bool {
        true
    }

    open spec fn from_spec(value: u64) -> Self {
        PhysAddr(value & PA_MASK)
    }
}

impl From<u64> for VirtAddr {
    fn from(v: u64) -> Self {
        VirtAddr(v & VA_MASK)
    }
}

impl vstd::std_specs::convert::FromSpecImpl<u64> for VirtAddr {
    open spec fn obeys_from_spec() -> bool {
        true
    }

    open spec fn from_spec(v: u64) -> Self {
        VirtAddr(v & VA_MASK)
    }
}

impl From<u64> for PhysPageNum {
    fn from(value: u64) -> Self {
        PhysPageNum(value & PPN_MASK)
    }
}

impl vstd::std_specs::convert::FromSpecImpl<u64> for PhysPageNum {
    open spec fn obeys_from_spec() -> bool {
        true
    }

    open spec fn from_spec(value: u64) -> Self {
        PhysPageNum(value & PPN_MASK)
    }
}

impl From<u64> for VirtPageNum {
    fn from(v: u64) -> Self {
        VirtPageNum(v & VPN_MASK)
    }
}

impl vstd::std_specs::convert::FromSpecImpl<u64> for VirtPageNum {
    open spec fn obeys_from_spec() -> bool {
        true
    }

    open spec fn from_spec(v: u64) -> Self {
        VirtPageNum(v & VPN_MASK)
    }
}

impl From<PhysAddr> for u64 {
    fn from(value: PhysAddr) -> Self {
        value.0
    }
}

impl vstd::std_specs::convert::FromSpecImpl<PhysAddr> for u64 {
    open spec fn obeys_from_spec() -> bool {
        true
    }

    open spec fn from_spec(value: PhysAddr) -> Self {
        value.0
    }
}

impl From<PhysPageNum> for u64 {
    fn from(value: PhysPageNum) -> Self {
        value.0
    }
}

impl vstd::std_specs::convert::FromSpecImpl<PhysPageNum> for u64 {
    open spec fn obeys_from_spec() -> bool {
        true
    }

    open spec fn from_spec(value: PhysPageNum) -> Self {
        value.0
    }
}

impl VirtAddr {
    /// Page number of the page this address lies in.
    pub fn floor(&self) -> (r: VirtPageNum)
        ensures
            r.0 == self.0 / PAGE_SIZE,
    {
        VirtPageNum(self.0 / PAGE_SIZE)
    }

    /// Page number of the first page boundary at or above this address.
    pub fn ceil(&self) -> (r: VirtPageNum)
        requires
            self.0 <= u64::MAX - (PAGE_SIZE - 1),
        ensures
            r.0 == (self.0 + (PAGE_SIZE - 1)) / (PAGE_SIZE as int),
    {
        if self.0 == 0 {
            VirtPageNum(0)
        } else {
            VirtPageNum((self.0 - 1 + PAGE_SIZE) / PAGE_SIZE)
        }
    }

    /// Offset of this address within its page.
    pub fn page_offset(&self) -> (r: u64)
        ensures
            r == self.0 % PAGE_SIZE,
    {
        proof {
            let x = self.0;
            assert(x & 0xfff == x % 0x1000) by (bit_vector);
        }
        self.0 & (PAGE_SIZE - 1)
    }

    /// Whether this address lies exactly on a page boundary.
    pub fn aligned(&self) -> (r: bool)
        ensures
            r <==> self.0 % PAGE_SIZE == 0,
    {
        self.page_offset() == 0
    }

    /// The page number of a page-aligned address.  Only an aligned address
    /// may be converted this way; a misaligned one is a kernel bug, so the
    /// input is excluded rather than rounded.
    pub fn page_num(&self) -> (r: VirtPageNum)
        requires
            self.0 % PAGE_SIZE == 0,
        ensures
            r.0 == self.0 / PAGE_SIZE,
    {
        self.floor()
    }
}

impl From<VirtPageNum> for VirtAddr {
    fn from(v: VirtPageNum) -> Self {
        VirtAddr(v.0 << PAGE_SIZE_BITS)
    }
}

impl vstd::std_specs::convert::FromSpecImpl<VirtPageNum> for VirtAddr {
    open spec fn obeys_from_spec() -> bool {
        true
    }

    open spec fn from_spec(v: VirtPageNum) -> Self {
        VirtAddr(v.0 << PAGE_SIZE_BITS)
    }
}

impl PhysAddr {
    /// Offset of this address within its page.
    pub fn page_offset(&self) -> (r: u64)
        ensures
            r == self.0 % PAGE_SIZE,
    {
        proof {
            let x = self.0;
            assert(x & 0xfff == x % 0x1000) by (bit_vector);
        }
        self.0 & (PAGE_SIZE - 1)
    }

    /// Page number of the page this address lies in.
    pub fn floor(&self) -> (r: PhysPageNum)
        ensures
            r.0 == self.0 / PAGE_SIZE,
    {
        PhysPageNum(self.0 / PAGE_SIZE)
    }

    /// Page number of the first page boundary at or above this address.
    pub fn ceil(&self) -> (r: PhysPageNum)
        requires
            self.0 <= u64::MAX - (PAGE_SIZE - 1),
        ensures
            r.0 == (self.0 + (PAGE_SIZE - 1)) / (PAGE_SIZE as int),
    {
        if self.0 == 0 {
            PhysPageNum(0)
        } else {
            PhysPageNum((self.0 - 1 + PAGE_SIZE) / PAGE_SIZE)
        }
    }

    /// The page number of a page-aligned address.  Only an aligned address
    /// may be converted this way; a misaligned one is a kernel bug, so the
    /// input is excluded rather than rounded.
    pub fn page_num(&self) -> (r: PhysPageNum)
        requires
            self.0 % PAGE_SIZE == 0,
        ensures
            r.0 == self.0 / PAGE_SIZE,
    {
        self.floor()
    }
}

impl From<PhysPageNum> for PhysAddr {
    fn from(value: PhysPageNum) -> Self {
        PhysAddr(value.0 << PAGE_SIZE_BITS)
    }
}

impl vstd::std_specs::convert::FromSpecImpl<PhysPageNum> for PhysAddr {
    open spec fn obeys_from_spec() -> bool {
        true
    }

    open spec fn from_spec(value: PhysPageNum) -> Self {
        PhysAddr(value.0 << PAGE_SIZE_BITS)
    }
}

impl VirtPageNum {
    /// The three page-table indices of this page number, most significant
    /// level first, each in `[0, 512)`.
    pub fn indexes(&self) -> (r: [u64; 3])
        ensures
            r@[0] == (self.0 >> 18) & 511,
            r@[1] == (self.0 >> 9) & 511,
            r@[2] == self.0 & 511,
            r@[0] < 512 && r@[1] < 512 && r@[2] < 512,
    {
        let i0 = (self.0 >> 18) & 511;
        let i1 = (self.0 >> 9) & 511;
        let i2 = self.0 & 511;
        proof {
            let v = self.0;
            assert((v >> 18) & 511 < 512 && (v >> 9) & 511 < 512 && v & 511 < 512)
                by (bit_vector);
        }
        [i0, i1, i2]
    }
}

/// The three page-table indices decompose a 27-bit virtual page number
/// losslessly: recombining them most-significant-first yields the page
/// number back, and each index is below 512.
pub proof fn lemma_vpn_indexes_roundtrip(v: VirtPageNum)
    requires
        v.0 < 0x800_0000,
    ensures
        ((v.0 >> 18) & 511) * 0x40000 + ((v.0 >> 9) & 511) * 0x200 + (v.0 & 511) == v.0,
        (v.0 >> 18) & 511 < 512,
        (v.0 >> 9) & 511 < 512,
        v.0 & 511 < 512,
{
    let x = v.0;
    assert(x < 0x800_0000 ==> ((x >> 18) & 511) * 0x40000 + ((x >> 9) & 511) * 0x200 + (
    x & 511) == x) by (bit_vector);
    assert((x >> 18) & 511 < 512 && (x >> 9) & 511 < 512 && x & 511 < 512) by (bit_vector);
}

/// Page-aligned physical addresses round-trip through their page number:
/// `floor` (which equals `ceil` there) followed by the conversion back to an
/// address recovers the address, and a physical page number sent to an
/// address and back is unchanged.
pub proof fn lemma_phys_page_roundtrip(a: PhysAddr, p: PhysPageNum)
    requires
        a.0 % PAGE_SIZE == 0,
        p.0 <= PPN_MASK,
    ensures
        (a.0 / PAGE_SIZE) << PAGE_SIZE_BITS == a.0,
        (a.0 + (PAGE_SIZE - 1)) / (PAGE_SIZE as int) == a.0 / PAGE_SIZE,
        (p.0 << PAGE_SIZE_BITS) / PAGE_SIZE == p.0,
        (p.0 << PAGE_SIZE_BITS) % PAGE_SIZE == 0,
{
    let x = a.0;
    let q = p.0;
    assert(x % 0x1000 == 0 ==> (x / 0x1000) << 12 == x) by (bit_vector);
    assert(q <= 0xfff_ffff_ffff ==> ((q << 12) / 0x1000 == q && (q << 12) % 0x1000 == 0))
        by (bit_vector);
    assert(x % 0x1000 == 0 ==> (x + 0xfff) / 0x1000 == x / 0x1000) by (bit_vector);
}

pub trait StepByOne: Sized {
    /// Whether one more step stays in range.
    spec fn can_step(&self) -> bool;

    /// The value one step further on.
    spec fn step_spec(&self) -> Self;

    /// Advance to the next value.
    fn step(&mut self)
        requires
            old(self).can_step(),
        ensures
            *final(self) == old(self).step_spec(),
    ;
}

impl StepByOne for VirtPageNum {
    open spec fn can_step(&self) -> bool {
        self.0 < u64::MAX
    }

    open spec fn step_spec(&self) -> Self {
        VirtPageNum((self.0 + 1) as u64)
    }

    fn step(&mut self) {
        self.0 = self.0 + 1;
    }
}

/// A half-open range `[l, r)` of virtual page numbers.
#[derive(Copy, Clone)]
pub struct SimpleRange {
    pub l: VirtPageNum,
    pub r: VirtPageNum,
}

impl SimpleRange {
    pub fn new(start: VirtPageNum, end: VirtPageNum) -> (rng: Self)
        requires
            start.0 <= end.0,
        ensures
            rng.l == start,
            rng.r == end,
    {
        SimpleRange { l: start, r: end }
    }

    pub fn get_start(&self) -> (r: VirtPageNum)
        ensures
            r == self.l,
    {
        self.l
    }

    pub fn get_end(&self) -> (res: VirtPageNum)
        ensures
            res == self.r,
    {
        self.r
    }
}

/// Iterator over a [`SimpleRange`], yielding each page number in order.
pub struct SimpleRangeIterator {
    pub current: VirtPageNum,
    pub end: VirtPageNum,
}

impl SimpleRangeIterator {
    pub fn new(l: VirtPageNum, r: VirtPageNum) -> (it: Self)
        ensures
            it.current == l,
            it.end == r,
    {
        SimpleRangeIterator { current: l, end: r }
    }

    /// The next page number, or `None` once the range is exhausted.
    pub fn next(&mut self) -> (r: Option<VirtPageNum>)
        requires
            old(self).current.0 <= old(self).end.0,
        ensures
            old(self).current.0 == old(self).end.0 ==> r is None && *final(self) == *old(
            self),
            old(self).current.0 < old(self).end.0 ==> r == Some(old(self).current)
                && final(self).current.0 == old(self).current.0 + 1 && final(self).end
                == old(self).end,
    {
        if self.current.0 == self.end.0 {
            None
        } else {
            let t = self.current;
            self.current.step();
            Some(t)
        }
    }
}

/// A range of virtual page numbers.
pub type VPNRange = SimpleRange;

} // verus!
