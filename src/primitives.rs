//! Mutexes (spinning or blocking) and condition variables, each with a FIFO
//! queue of thread ids.
use vstd::prelude::*;

verus! {

/// What a lock attempt did.
#[derive(Clone, Copy, PartialEq, Eq, Structural, Debug)]
pub enum LockOutcome {
    /// The caller now holds the mutex.
    Acquired,
    /// The caller joined the wait queue and must block.
    Blocked,
    /// The mutex is held and spins: the caller yields and tries again later.
    Spin,
}

/// A mutex whose variant is chosen at creation: a spinning one never queues
/// its callers, a blocking one queues them and hands the lock to the head.
pub struct Mutex {
    pub blocking: bool,
    pub locked: bool,
    pub wait_queue: Vec<usize>,
}

impl Mutex {
    /// An unlocked mutex of the given variant.
    pub fn new(blocking: bool) -> (r: Mutex)
        ensures
            r.blocking == blocking,
            !r.locked,
            r.wait_queue@ == Seq::<usize>::empty(),
    {
        Mutex { blocking, locked: false, wait_queue: Vec::new() }
    }

    pub fn is_locked(&self) -> (r: bool)
        ensures
            r == self.locked,
    {
        self.locked
    }

    /// Thread `tid` asks for the mutex.
    pub fn lock(&mut self, tid: usize) -> (r: LockOutcome)
        ensures
            final(self).blocking == old(self).blocking,
            !old(self).locked ==> r == LockOutcome::Acquired && final(self).locked
                && final(self).wait_queue@ == old(self).wait_queue@,
            old(self).locked && old(self).blocking ==> r == LockOutcome::Blocked && final(self).locked
                && final(self).wait_queue@ == old(self).wait_queue@.push(tid),
            old(self).locked && !old(self).blocking ==> r == LockOutcome::Spin && final(self).locked
                && final(self).wait_queue@ == old(self).wait_queue@,
    {
        if !self.locked {
            self.locked = true;
            LockOutcome::Acquired
        } else if self.blocking {
            self.wait_queue.push(tid);
            LockOutcome::Blocked
        } else {
            LockOutcome::Spin
        }
    }

    /// Releases the mutex. A blocking mutex with waiters stays locked and is
    /// handed to the head of its queue, which is returned to be woken.
    pub fn unlock(&mut self) -> (woken: Option<usize>)
        ensures
            final(self).blocking == old(self).blocking,
            old(self).blocking && old(self).wait_queue@.len() > 0 ==> woken == Some(
                old(self).wait_queue@[0],
            ) && final(self).locked && final(self).wait_queue@ == old(self).wait_queue@.drop_first(),
            !(old(self).blocking && old(self).wait_queue@.len() > 0) ==> woken.is_none()
                && !final(self).locked && final(self).wait_queue@ == old(self).wait_queue@,
    {
        if self.blocking && self.wait_queue.len() > 0 {
            let t = self.wait_queue.remove(0);
            self.locked = true;
            Some(t)
        } else {
            self.locked = false;
            None
        }
    }
}

/// A condition variable: a FIFO queue of waiting thread ids.
pub struct Condvar {
    pub wait_queue: Vec<usize>,
}

impl Condvar {
    pub fn new() -> (r: Condvar)
        ensures
            r.wait_queue@ == Seq::<usize>::empty(),
    {
        Condvar { wait_queue: Vec::new() }
    }

    /// Removes and returns the head of the queue, if any, to be woken.
    pub fn signal(&mut self) -> (woken: Option<usize>)
        ensures
            old(self).wait_queue@.len() > 0 ==> woken == Some(old(self).wait_queue@[0])
                && final(self).wait_queue@ == old(self).wait_queue@.drop_first(),
            old(self).wait_queue@.len() == 0 ==> woken.is_none() && final(self).wait_queue@
                == old(self).wait_queue@,
    {
        if self.wait_queue.len() > 0 {
            let t = self.wait_queue.remove(0);
            Some(t)
        } else {
            None
        }
    }

    /// Thread `tid` joins the tail of the queue.
    pub fn wait(&mut self, tid: usize)
        ensures
            final(self).wait_queue@ == old(self).wait_queue@.push(tid),
    {
        self.wait_queue.push(tid);
    }
}

} // verus!
