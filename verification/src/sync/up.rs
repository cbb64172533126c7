//! Exclusive access on a uniprocessor.
//!
//! On the single core nothing runs concurrently with the kernel path that
//! holds the wrapped value, so exclusivity is enforced by ownership: the
//! holder of the unique mutable borrow is the exclusive accessor, and a
//! second access while one is live is impossible rather than a runtime
//! fault.

use vstd::prelude::*;

verus! {

/// Container of a value only ever touched by one execution path at a
/// time.
pub struct UPSafeCell<T> {
    inner: T,
}

impl<T> UPSafeCell<T> {
    /// Wrap `val`.  The caller vouches that only a single core will ever
    /// reach the value.
    pub fn new(val: T) -> (r: Self)
        ensures
            r.view() == val,
    {
        UPSafeCell { inner: val }
    }

    /// The wrapped value.
    pub closed spec fn view(&self) -> T {
        self.inner
    }

    /// Exclusive access to the wrapped value.
    pub fn exclusive_access(&mut self) -> (r: &mut T)
        ensures
            *r == old(self).view(),
            final(self).view() == *final(r),
    {
        &mut self.inner
    }
}

} // verus!
