//! Stack-based physical frame allocator.
//!
//! The pool is the page range `[current, end)` of never-used frames plus a
//! LIFO recycle list.  `alloc` prefers the most recently freed frame;
//! `dealloc` rejects a page that was never handed out or that is already in
//! the recycle list, which guards against double-free.

use vstd::prelude::*;
use super::address::PhysPageNum;
use super::phys_mem::PhysMem;

verus! {

/// Why a deallocation was rejected.
#[derive(Debug, Copy, Clone, PartialEq, Eq, Structural)]
pub enum FrameDeallocError {
    /// The page number was never allocated, or is already free.
    NotAllocated,
}

/// Owner of exactly one allocated physical page frame.  The frame's
/// contents are zeroed when the tracker is created; releasing the frame back
/// to the pool goes through [`frame_dealloc`] exactly once.
pub struct FrameTracker {
    pub ppn: PhysPageNum,
}

impl FrameTracker {
    /// Take ownership of frame `ppn` and zero its contents.
    pub fn new(ppn: PhysPageNum, mem: &mut PhysMem) -> (f: Self)
        requires
            old(mem).wf(),
            old(mem).contains(ppn.0),
        ensures
            f.ppn == ppn,
            final(mem).wf(),
            final(mem).base == old(mem).base,
            final(mem).pages@.len() == old(mem).pages@.len(),
            final(mem).page_of(ppn.0).wf(),
            final(mem).page_of(ppn.0).is_zeroed(),
            forall|q: u64|
                old(mem).contains(q) && q != ppn.0 ==> #[trigger] final(mem).page_of(q)
                    == old(mem).page_of(q),
    {
        mem.zero_page(ppn.0);
        FrameTracker { ppn }
    }
}

/// The stack-based allocator over the pool `[current, end)` plus the
/// recycle list.
pub struct StackFrameAllocator {
    /// First never-used page number of the pool.
    pub current: u64,
    /// One past the last page number of the pool.
    pub end: u64,
    /// Recycled page numbers, most recently freed last.
    pub recycled: Vec<u64>,
}

impl StackFrameAllocator {
    pub open spec fn wf(self) -> bool {
        &&& self.current <= self.end
        &&& forall|i: int| 0 <= i < self.recycled@.len() ==> #[trigger] self.recycled@[i]
            < self.current
        &&& forall|i: int, j: int|
            0 <= i < j < self.recycled@.len() ==> self.recycled@[i] != self.recycled@[j]
    }

    /// How many frames the allocator can still hand out.
    pub open spec fn avail_count(self) -> int {
        self.recycled@.len() + self.end - self.current
    }

    /// The set of page numbers the allocator may still hand out.
    pub open spec fn available(self) -> Set<u64> {
        Set::new(
            |p: u64|
                (self.current <= p < self.end) || self.recycled@.contains(p),
        )
    }

    /// An empty allocator; the pool is set later by [`Self::init`].
    pub fn new() -> (a: Self)
        ensures
            a.wf(),
            a.current == 0,
            a.end == 0,
            a.recycled@.len() == 0,
    {
        StackFrameAllocator { current: 0, end: 0, recycled: Vec::new() }
    }

    /// Set the free pool to the page range `[l, r)`.  Called once, before
    /// any allocation.
    pub fn init(&mut self, l: PhysPageNum, r: PhysPageNum)
        requires
            old(self).recycled@.len() == 0,
            l.0 <= r.0,
        ensures
            final(self).wf(),
            final(self).current == l.0,
            final(self).end == r.0,
            final(self).recycled@.len() == 0,
    {
        self.current = l.0;
        self.end = r.0;
    }

    /// Whether at least `need` frames can still be handed out.
    pub fn has_frames(&self, need: u64) -> (r: bool)
        requires
            self.wf(),
        ensures
            r <==> self.avail_count() >= need,
    {
        let pool = self.end - self.current;
        if pool >= need {
            true
        } else {
            self.recycled.len() as u64 >= need - pool
        }
    }

    /// Allocate one frame: the most recently freed one if any exist, else
    /// the next never-used one, else nothing once the pool is exhausted.
    pub fn alloc_page(&mut self) -> (r: Option<PhysPageNum>)
        requires
            old(self).wf(),
        ensures
            final(self).wf(),
            final(self).end == old(self).end,
            old(self).recycled@.len() > 0 ==> r == Some(
                PhysPageNum(old(self).recycled@.last()),
            ) && final(self).recycled@ == old(self).recycled@.drop_last() && final(
            self).current == old(self).current,
            old(self).recycled@.len() == 0 && old(self).current < old(self).end ==> r
                == Some(PhysPageNum(old(self).current)) && final(self).current == old(
            self).current + 1 && final(self).recycled@ == old(self).recycled@,
            old(self).recycled@.len() == 0 && old(self).current == old(self).end ==> r
                is None && final(self).current == old(self).current && final(
            self).recycled@ == old(self).recycled@,
            r is Some ==> old(self).available().contains(r->Some_0.0) && final(
            self).available() == old(self).available().remove(r->Some_0.0) && r->Some_0.0
                < final(self).current,
            r is Some ==> final(self).avail_count() == old(self).avail_count() - 1,
            r is None <==> old(self).avail_count() == 0,
            r is None ==> final(self).available() == old(self).available(),
    {
        let ghost pre = *self;
        let r = if let Some(ppn) = self.recycled.pop() {
            Some(PhysPageNum(ppn))
        } else if self.current == self.end {
            None
        } else {
            self.current = self.current + 1;
            Some(PhysPageNum(self.current - 1))
        };
        proof {
            if pre.recycled@.len() > 0 {
                let p = pre.recycled@.last();
                assert(pre.recycled@.contains(p));
                assert forall|q: u64| final(self).available().contains(q) implies pre
                    .available().remove(p).contains(q) by {
                    if self.recycled@.contains(q) {
                        let i = choose|i: int|
                            0 <= i < self.recycled@.len() && self.recycled@[i] == q;
                        assert(pre.recycled@[i] == q);
                        assert(q != p) by {
                            assert(pre.recycled@[pre.recycled@.len() - 1] == p);
                        }
                    }
                }
                assert forall|q: u64| pre.available().remove(p).contains(q) implies final(
                    self).available().contains(q) by {
                    if pre.recycled@.contains(q) && q != p {
                        let i = choose|i: int|
                            0 <= i < pre.recycled@.len() && pre.recycled@[i] == q;
                        assert(i < pre.recycled@.len() - 1);
                        assert(self.recycled@[i] == q);
                    }
                }
                assert(final(self).available() =~= pre.available().remove(p));
            } else if pre.current < pre.end {
                assert(final(self).available() =~= pre.available().remove(pre.current));
            } else {
                assert(final(self).available() =~= pre.available());
            }
        }
        r
    }

    /// Return frame `ppn` to the recycle list.  Rejected if the page was
    /// never allocated (at or above the never-used mark) or is already in
    /// the recycle list.
    pub fn dealloc(&mut self, ppn: PhysPageNum) -> (r: Result<(), FrameDeallocError>)
        requires
            old(self).wf(),
        ensures
            final(self).wf(),
            final(self).current == old(self).current,
            final(self).end == old(self).end,
            r is Ok <==> ppn.0 < old(self).current && !old(self).recycled@.contains(ppn.0),
            r is Ok ==> final(self).recycled@ == old(self).recycled@.push(ppn.0) && final(
            self).available() == old(self).available().insert(ppn.0),
            r is Err ==> final(self).recycled@ == old(self).recycled@,
    {
        let p = ppn.0;
        if p >= self.current {
            return Err(FrameDeallocError::NotAllocated);
        }
        let n = self.recycled.len();
        let mut i: usize = 0;
        while i < n
            invariant
                self.current == old(self).current,
                self.end == old(self).end,
                self.recycled@ == old(self).recycled@,
                old(self).wf(),
                p == ppn.0,
                p < self.current,
                n == self.recycled@.len(),
                i <= n,
                forall|j: int| 0 <= j < i ==> self.recycled@[j] != p,
            decreases n - i,
        {
            if self.recycled[i] == p {
                proof {
                    assert(self.recycled@.contains(p));
                }
                return Err(FrameDeallocError::NotAllocated);
            }
            i = i + 1;
        }
        let ghost pre = *self;
        self.recycled.push(p);
        proof {
            assert(!pre.recycled@.contains(p));
            assert forall|q: u64| final(self).available().contains(q) implies pre
                .available().insert(p).contains(q) by {
                if self.recycled@.contains(q) && q != p {
                    let k = choose|k: int|
                        0 <= k < self.recycled@.len() && self.recycled@[k] == q;
                    assert(k < pre.recycled@.len());
                    assert(pre.recycled@[k] == q);
                }
            }
            assert forall|q: u64| pre.available().insert(p).contains(q) implies final(
                self).available().contains(q) by {
                if q == p {
                    assert(self.recycled@[self.recycled@.len() - 1] == p);
                } else if pre.recycled@.contains(q) {
                    let k = choose|k: int|
                        0 <= k < pre.recycled@.len() && pre.recycled@[k] == q;
                    assert(self.recycled@[k] == q);
                }
            }
            assert(final(self).available() =~= pre.available().insert(p));
        }
        Ok(())
    }
}

/// Initialise `allocator` so that its pool covers the whole arena `mem`.
pub fn init_frame_allocator(allocator: &mut StackFrameAllocator, mem: &PhysMem)
    requires
        old(allocator).recycled@.len() == 0,
        mem.wf(),
    ensures
        final(allocator).wf(),
        final(allocator).current == mem.base,
        final(allocator).end == mem.base + mem.pages@.len(),
        final(allocator).recycled@.len() == 0,
        final(allocator).available().subset_of(
            Set::new(|p: u64| mem.contains(p)),
        ),
{
    let n: usize = mem.pages.len();
    allocator.init(PhysPageNum(mem.base), PhysPageNum(mem.base + n as u64));
    proof {
        assert forall|p: u64| final(allocator).available().contains(p) implies mem.contains(
            p) by {}
    }
}

/// Allocate a frame and zero it, taking ownership through a tracker.
pub fn frame_alloc(allocator: &mut StackFrameAllocator, mem: &mut PhysMem) -> (r: Option<
    FrameTracker,
>)
    requires
        old(allocator).wf(),
        old(mem).wf(),
        old(allocator).available().subset_of(Set::new(|p: u64| old(mem).contains(p))),
    ensures
        final(allocator).wf(),
        final(mem).wf(),
        final(mem).base == old(mem).base,
        final(mem).pages@.len() == old(mem).pages@.len(),
        final(allocator).end == old(allocator).end,
        final(allocator).current >= old(allocator).current,
        r is Some <==> !old(allocator).available().is_empty(),
        r is Some <==> old(allocator).avail_count() > 0,
        r is Some ==> final(allocator).avail_count() == old(allocator).avail_count() - 1,
        r is Some ==> {
            let p = r->Some_0.ppn.0;
            &&& old(allocator).available().contains(p)
            &&& final(allocator).available() == old(allocator).available().remove(p)
            &&& old(mem).contains(p)
            &&& final(mem).page_of(p).wf()
            &&& final(mem).page_of(p).is_zeroed()
            &&& forall|q: u64|
                old(mem).contains(q) && q != p ==> #[trigger] final(mem).page_of(q)
                    == old(mem).page_of(q)
        },
        r is None ==> final(allocator).current == old(allocator).current && final(
            allocator).recycled@ == old(allocator).recycled@ && final(mem).pages@ == old(
            mem).pages@,
{
    proof {
        if old(allocator).recycled@.len() > 0 {
            assert(old(allocator).available().contains(old(allocator).recycled@.last()));
        } else if old(allocator).current < old(allocator).end {
            assert(old(allocator).available().contains(old(allocator).current));
        } else {
            assert forall|p: u64| !old(allocator).available().contains(p) by {}
            assert(old(allocator).available() =~= Set::empty());
        }
    }
    match allocator.alloc_page() {
        Some(ppn) => {
            proof {
                assert(!old(allocator).available().is_empty()) by {
                    assert(old(allocator).available().contains(ppn.0));
                }
            }
            Some(FrameTracker::new(ppn, mem))
        },
        None => None,
    }
}

/// Release the frame owned by `f` back to the pool.
pub fn frame_dealloc(allocator: &mut StackFrameAllocator, f: FrameTracker) -> (r: Result<
    (),
    FrameDeallocError,
>)
    requires
        old(allocator).wf(),
    ensures
        final(allocator).wf(),
        final(allocator).current == old(allocator).current,
        final(allocator).end == old(allocator).end,
        r is Ok <==> f.ppn.0 < old(allocator).current && !old(allocator).recycled@.contains(
            f.ppn.0,
        ),
        r is Ok ==> final(allocator).available() == old(allocator).available().insert(f.ppn.0),
        r is Err ==> final(allocator).recycled@ == old(allocator).recycled@,
{
    allocator.dealloc(f.ppn)
}

/// A frame the allocator hands out is never one that is still live: any
/// page number outside the available pool - in particular one backing a
/// live [`FrameTracker`] - differs from every freshly allocated page
/// number, and every allocation stays inside the configured pool.
pub proof fn lemma_alloc_no_alias(pre: StackFrameAllocator, post: StackFrameAllocator, got: u64, live: u64)
    requires
        pre.wf(),
        pre.available().contains(got),
        post.available() == pre.available().remove(got),
        !pre.available().contains(live),
    ensures
        got != live,
        got < pre.end,
        !post.available().contains(got),
{
    assert(pre.available().contains(got));
    if pre.recycled@.contains(got) {
        let i = choose|i: int| 0 <= i < pre.recycled@.len() && pre.recycled@[i] == got;
        assert(pre.recycled@[i] < pre.current);
    }
}

} // verus!
