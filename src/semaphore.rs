//! Counting semaphore with a FIFO queue of blocked thread ids.
use vstd::prelude::*;

verus! {

/// Count and wait queue. A negative count is the number of waiters owed a unit.
pub struct SemaphoreInner {
    pub count: isize,
    pub wait_queue: Vec<usize>,
}

/// A counting semaphore of one process; waiters are thread ids of that process.
pub struct Semaphore {
    pub inner: SemaphoreInner,
}

impl Semaphore {
    /// A semaphore holding `res_count` units and no waiter.
    pub fn new(res_count: usize) -> (r: Semaphore)
        requires
            res_count <= isize::MAX,
        ensures
            r.inner.count == res_count,
            r.inner.wait_queue@ == Seq::<usize>::empty(),
    {
        Semaphore { inner: SemaphoreInner { count: res_count as isize, wait_queue: Vec::new() } }
    }

    /// Gives back one unit. When the count was negative a waiter exists: the
    /// head of the queue leaves it and is returned, to be woken.
    pub fn up(&mut self) -> (woken: Option<usize>)
        requires
            old(self).inner.count < isize::MAX,
        ensures
            final(self).inner.count == old(self).inner.count + 1,
            old(self).inner.count < 0 && old(self).inner.wait_queue@.len() > 0 ==> woken == Some(
                old(self).inner.wait_queue@[0],
            ) && final(self).inner.wait_queue@ == old(self).inner.wait_queue@.drop_first(),
            !(old(self).inner.count < 0 && old(self).inner.wait_queue@.len() > 0) ==> woken.is_none()
                && final(self).inner.wait_queue@ == old(self).inner.wait_queue@,
    {
        self.inner.count = self.inner.count + 1;
        if self.inner.count <= 0 && self.inner.wait_queue.len() > 0 {
            let t = self.inner.wait_queue.remove(0);
            Some(t)
        } else {
            None
        }
    }

    /// Takes one unit for thread `tid`. When the count drops below zero the
    /// thread joins the tail of the queue and `true` says it must block.
    pub fn down(&mut self, tid: usize) -> (blocked: bool)
        requires
            old(self).inner.count > isize::MIN,
        ensures
            final(self).inner.count == old(self).inner.count - 1,
            blocked == (final(self).inner.count < 0),
            blocked ==> final(self).inner.wait_queue@ == old(self).inner.wait_queue@.push(tid),
            !blocked ==> final(self).inner.wait_queue@ == old(self).inner.wait_queue@,
    {
        self.inner.count = self.inner.count - 1;
        if self.inner.count < 0 {
            self.inner.wait_queue.push(tid);
            true
        } else {
            false
        }
    }
}

} // verus!
