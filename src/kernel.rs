//! The whole machine state: process table indexed by pid, the running thread,
//! the FIFO ready queue and the sleep timers, with the scheduler's transitions.
use vstd::prelude::*;
use crate::mm::MemorySet;
use crate::process::{proc_kept, Process};
use crate::task::alloc_sum;
use crate::task::{TaskStatus, TrapContext};

verus! {

/// What the program loader produced for one program: its address space, entry
/// point, initial user stack pointer and the bottom of its heap.
pub struct AppImage {
    pub memory_set: MemorySet,
    pub entry: usize,
    pub user_sp: usize,
    pub heap_bottom: usize,
}

impl AppImage {
    pub open spec fn wf(&self) -> bool {
        self.memory_set.wf() && self.heap_bottom <= isize::MAX
    }
}

/// A thread to wake at `expire_ms`.
#[derive(Clone, Copy, PartialEq, Eq, Structural, Debug)]
pub struct TimerEntry {
    pub expire_ms: usize,
    pub pid: usize,
    pub tid: usize,
}

/// The machine state that the system calls act on.
pub struct Kernel {
    /// Processes by pid; a reaped pid leaves a hole that a later process reuses.
    pub procs: Vec<Option<Process>>,
    /// The running thread, as (pid, tid), if any.
    pub current: Option<(usize, usize)>,
    /// Runnable threads in the order they run.
    pub ready: Vec<(usize, usize)>,
    pub timers: Vec<TimerEntry>,
}

/// Both tables hold processes at the same pids, each kept but for thread
/// statuses, spin marks and mutex states.
pub open spec fn procs_kept(a: Seq<Option<Process>>, b: Seq<Option<Process>>) -> bool {
    &&& a.len() == b.len()
    &&& forall|p: int|
        0 <= p < a.len() ==> (#[trigger] b[p]).is_some() == a[p].is_some() && (a[p].is_some() ==> proc_kept(
            a[p]->0,
            b[p]->0,
        ))
}

/// The two machine states hold the same values.
pub open spec fn unchanged(a: Kernel, b: Kernel) -> bool {
    &&& b.procs@ == a.procs@
    &&& b.current == a.current
    &&& b.ready@ == a.ready@
    &&& b.timers@ == a.timers@
}

/// Both tables hold the same mutexes in the same states.
pub open spec fn mutexes_same(a: Seq<Option<Process>>, b: Seq<Option<Process>>) -> bool {
    forall|p: int| 0 <= p < a.len() && a[p].is_some() ==> (#[trigger] b[p])->0.mutex_list@ == a[p]->0.mutex_list@
}

/// Only Ready threads may change status between the two tables.
pub open spec fn settled_kept(a: Seq<Option<Process>>, b: Seq<Option<Process>>) -> bool {
    forall|p: int, t: int|
        #![trigger b[p]->0.threads@[t]]
        thread_exists(a, p, t) && a[p]->0.threads@[t].status != TaskStatus::Ready ==> b[p]->0.threads@[t].status
            == a[p]->0.threads@[t].status
}

/// Status of thread `h`, read as `over` says for the one thread it names.
pub open spec fn status_as(
    procs: Seq<Option<Process>>,
    h: (usize, usize),
    over: Option<((usize, usize), TaskStatus)>,
) -> TaskStatus {
    match over {
        Some((c, st)) => if c == h {
            st
        } else {
            procs[h.0 as int]->0.threads@[h.1 as int].status
        },
        None => procs[h.0 as int]->0.threads@[h.1 as int].status,
    }
}

/// Thread `h` exists and is Ready.
pub open spec fn runnable(
    procs: Seq<Option<Process>>,
    h: (usize, usize),
    over: Option<((usize, usize), TaskStatus)>,
) -> bool {
    thread_exists(procs, h.0 as int, h.1 as int) && status_as(procs, h, over) == TaskStatus::Ready
}

/// The spinning mutex thread `h` yielded on, if any.
pub open spec fn spin_mark(procs: Seq<Option<Process>>, h: (usize, usize)) -> Option<usize> {
    procs[h.0 as int]->0.threads@[h.1 as int].spinning_on
}

/// Mutex `m` of process `p` exists and is locked.
pub open spec fn mutex_held(procs: Seq<Option<Process>>, p: int, m: int) -> bool {
    0 <= m < procs[p]->0.mutex_list@.len() && (procs[p]->0.mutex_list@[m] matches Some(mx) && mx.locked)
}

/// The head of `ready` is runnable and yielded on mutex `m` of process `p`.
pub open spec fn head_spins_on(
    procs: Seq<Option<Process>>,
    ready: Seq<(usize, usize)>,
    over: Option<((usize, usize), TaskStatus)>,
    p: int,
    m: int,
) -> bool {
    ready.len() > 0 && runnable(procs, ready[0], over) && ready[0].0 == p && spin_mark(procs, ready[0]) == Some(
        m as usize,
    )
}

/// `k` is what dispatching from `ready` over `procs` gives (statuses read
/// through `over`): nothing with an empty queue; a head that is gone or not
/// Ready is dropped; a head that yielded on a mutex still held yields again,
/// to the tail; any other head runs, with no spin mark left.
pub open spec fn dispatched(
    procs: Seq<Option<Process>>,
    ready: Seq<(usize, usize)>,
    over: Option<((usize, usize), TaskStatus)>,
    k: Kernel,
) -> bool {
    if ready.len() == 0 {
        k.current.is_none() && k.ready@ == ready
    } else {
        let h = ready[0];
        if !runnable(procs, h, over) {
            k.current.is_none() && k.ready@ == ready.drop_first()
        } else if spin_mark(procs, h) matches Some(m) && mutex_held(procs, h.0 as int, m as int) {
            k.current.is_none() && k.ready@ == ready.drop_first().push(h)
        } else {
            &&& k.current == Some(h)
            &&& k.ready@ == ready.drop_first()
            &&& k.proc_at(h.0 as int).threads@[h.1 as int].status == TaskStatus::Running
            &&& k.proc_at(h.0 as int).threads@[h.1 as int].spinning_on.is_none()
        }
    }
}

/// After dispatch every existing mutex is locked exactly when it was, or when the
/// dispatched head took it after spinning on it.
pub open spec fn locks_after(
    procs: Seq<Option<Process>>,
    ready: Seq<(usize, usize)>,
    over: Option<((usize, usize), TaskStatus)>,
    after: Seq<Option<Process>>,
) -> bool {
    forall|p: int, m: int|
        0 <= p < procs.len() && procs[p].is_some() && 0 <= m < procs[p]->0.mutex_list@.len()
            && procs[p]->0.mutex_list@[m].is_some() ==> #[trigger] mutex_held(after, p, m) == (mutex_held(procs, p, m) || head_spins_on(
            procs,
            ready,
            over,
            p,
            m,
        ))
}

/// The timers of `ts` that have not expired at `now_ms`, in order.
pub open spec fn unexpired(ts: Seq<TimerEntry>, now_ms: usize) -> Seq<TimerEntry>
    decreases ts.len(),
{
    if ts.len() == 0 {
        ts
    } else {
        let r = unexpired(ts.drop_last(), now_ms);
        if ts.last().expire_ms > now_ms {
            r.push(ts.last())
        } else {
            r
        }
    }
}

/// The threads of `ts` woken at `now_ms`, in order: expired and existing.
pub open spec fn timer_woken(procs: Seq<Option<Process>>, ts: Seq<TimerEntry>, now_ms: usize) -> Seq<(usize, usize)>
    decreases ts.len(),
{
    if ts.len() == 0 {
        Seq::empty()
    } else {
        let r = timer_woken(procs, ts.drop_last(), now_ms);
        let e = ts.last();
        if e.expire_ms <= now_ms && thread_exists(procs, e.pid as int, e.tid as int) {
            r.push((e.pid, e.tid))
        } else {
            r
        }
    }
}

/// The thread exists.
pub open spec fn thread_exists(procs: Seq<Option<Process>>, pid: int, tid: int) -> bool {
    0 <= pid < procs.len() && procs[pid].is_some() && 0 <= tid < procs[pid]->0.threads@.len()
}

impl Kernel {
    pub open spec fn wf(&self) -> bool {
        &&& self.procs@.len() <= isize::MAX
        &&& forall|p: int|
            0 <= p < self.procs@.len() && (#[trigger] self.procs@[p]).is_some() ==> self.procs@[p]->0.pid
                == p && self.procs@[p]->0.wf()
        &&& self.current matches Some((p, t)) ==> thread_exists(self.procs@, p as int, t as int)
    }

    /// The running process.
    pub open spec fn cur_proc(&self) -> Process {
        self.procs@[self.cur_pid()]->0
    }

    /// The process at `pid`.
    pub open spec fn proc_at(&self, pid: int) -> Process {
        self.procs@[pid]->0
    }

    pub open spec fn cur_pid(&self) -> int {
        match self.current {
            Some((p, _)) => p as int,
            None => -1,
        }
    }

    pub open spec fn cur_tid(&self) -> int {
        match self.current {
            Some((_, t)) => t as int,
            None => -1,
        }
    }

    /// A machine whose only process, pid 0, runs `init`.
    pub fn new(init: AppImage) -> (k: Kernel)
        requires
            init.wf(),
        ensures
            k.wf(),
            k.current == Some((0usize, 0usize)),
            k.procs@.len() == 1,
            k.cur_proc().parent.is_none(),
            k.cur_proc().threads@[0].status == TaskStatus::Running,
            k.ready@.len() == 0,
    {
        let cx = TrapContext::app_init(init.entry, init.user_sp);
        let mut p = Process::new(0, None, init.memory_set, init.heap_bottom, cx);
        p.set_thread_status(0, TaskStatus::Running);
        let mut procs: Vec<Option<Process>> = Vec::new();
        procs.push(Some(p));
        Kernel { procs, current: Some((0, 0)), ready: Vec::new(), timers: Vec::new() }
    }

    /// Sets a thread's status; the rest of the machine is kept.
    pub fn set_status(&mut self, pid: usize, tid: usize, status: TaskStatus)
        requires
            old(self).wf(),
            thread_exists(old(self).procs@, pid as int, tid as int),
        ensures
            forall|t: int| 0 <= t < old(self).procs@[pid as int]->0.threads@.len() && t != tid ==> #[trigger] final(self).procs@[pid as int]->0.threads@[t] == old(self).procs@[pid as int]->0.threads@[t],
            mutexes_same(old(self).procs@, final(self).procs@),
            procs_kept(old(self).procs@, final(self).procs@),
            final(self).wf(),
            final(self).current == old(self).current,
            final(self).ready@ == old(self).ready@,
            final(self).timers@ == old(self).timers@,
            final(self).procs@.len() == old(self).procs@.len(),
            forall|p: int| 0 <= p < old(self).procs@.len() && p != pid ==> #[trigger] final(self).procs@[p] == old(self).procs@[p],
            final(self).procs@[pid as int] matches Some(np) && np.threads@.len()
                == old(self).procs@[pid as int]->0.threads@.len() && np.threads@[tid as int].status == status
                && np.is_zombie == old(self).procs@[pid as int]->0.is_zombie
                && np.children@ == old(self).procs@[pid as int]->0.children@
                && np.threads@[tid as int].spinning_on == old(self).procs@[pid as int]->0.threads@[tid as int].spinning_on,
    {
        match &mut self.procs[pid] {
            Some(p) => p.set_thread_status(tid, status),
            None => {},
        }
    }

    /// Makes a thread runnable: Ready, at the tail of the ready queue.
    pub fn add_task(&mut self, pid: usize, tid: usize)
        requires
            old(self).wf(),
            thread_exists(old(self).procs@, pid as int, tid as int),
        ensures
            mutexes_same(old(self).procs@, final(self).procs@),
            procs_kept(old(self).procs@, final(self).procs@),
            final(self).wf(),
            final(self).current == old(self).current,
            final(self).timers@ == old(self).timers@,
            final(self).ready@ == old(self).ready@.push((pid, tid)),
            final(self).procs@.len() == old(self).procs@.len(),
            forall|p: int| 0 <= p < old(self).procs@.len() && p != pid ==> #[trigger] final(self).procs@[p] == old(self).procs@[p],
            final(self).procs@[pid as int] matches Some(np) && np.threads@.len()
                == old(self).procs@[pid as int]->0.threads@.len() && np.threads@[tid as int].status == TaskStatus::Ready
                && np.is_zombie == old(self).procs@[pid as int]->0.is_zombie
                && np.children@ == old(self).procs@[pid as int]->0.children@
                && np.threads@[tid as int].spinning_on == old(self).procs@[pid as int]->0.threads@[tid as int].spinning_on,
            forall|t: int| 0 <= t < old(self).procs@[pid as int]->0.threads@.len() && t != tid ==> #[trigger] final(self).procs@[pid as int]->0.threads@[t] == old(self).procs@[pid as int]->0.threads@[t],
    {
        self.set_status(pid, tid, TaskStatus::Ready);
        self.ready.push((pid, tid));
    }

    /// Wakes a thread taken from a wait queue of process `pid`, if it exists.
    pub fn wakeup(&mut self, pid: usize, tid: usize)
        requires
            old(self).wf(),
        ensures
            mutexes_same(old(self).procs@, final(self).procs@),
            procs_kept(old(self).procs@, final(self).procs@),
            final(self).wf(),
            final(self).current == old(self).current,
            final(self).timers@ == old(self).timers@,
            final(self).procs@.len() == old(self).procs@.len(),
            thread_exists(old(self).procs@, pid as int, tid as int) ==> final(self).ready@ == old(self).ready@.push((pid, tid)),
            !thread_exists(old(self).procs@, pid as int, tid as int) ==> final(self).ready@ == old(self).ready@
                && final(self).procs@ == old(self).procs@,
            thread_exists(old(self).procs@, pid as int, tid as int) ==> final(self).proc_at(pid as int).threads@[tid as int].status == TaskStatus::Ready,
    {
        if pid < self.procs.len() {
            let exists = match &self.procs[pid] {
                Some(p) => tid < p.threads.len(),
                None => false,
            };
            if exists {
                self.add_task(pid, tid);
            }
        }
    }

    /// Dispatches the head of the ready queue. A thread that yielded on a
    /// spinning mutex takes it if it is free; if it is still held the thread
    /// yields again, to the tail, and no thread runs until the next dispatch.
    /// With an empty queue, or a head that no longer exists or is not Ready,
    /// no thread runs.
    pub fn run_next(&mut self)
        requires
            old(self).wf(),
        ensures
            settled_kept(old(self).procs@, final(self).procs@),
            final(self).timers@ == old(self).timers@,
            procs_kept(old(self).procs@, final(self).procs@),
            final(self).wf(),
            final(self).procs@.len() == old(self).procs@.len(),
            dispatched(old(self).procs@, old(self).ready@, None, *final(self)),
            locks_after(old(self).procs@, old(self).ready@, None, final(self).procs@),
    {
        if self.ready.len() == 0 {
            self.current = None;
            return;
        }
        let (pid, tid) = self.ready.remove(0);
        self.current = None;
        if pid >= self.procs.len() {
            return;
        }
        let spin = match &self.procs[pid] {
            Some(p) => if tid < p.threads.len() && p.threads[tid].status == TaskStatus::Ready {
                Some(p.threads[tid].spinning_on)
            } else {
                None
            },
            None => None,
        };
        match spin {
            None => {},
            Some(None) => {
                self.set_status(pid, tid, TaskStatus::Running);
                self.current = Some((pid, tid));
            },
            Some(Some(m)) => {
                let ghost before = self.procs@;
                let taken = match &mut self.procs[pid] {
                    Some(p) => p.take_spin_mutex(tid, m),
                    None => false,
                };
                let ghost mid = self.procs@;
                proof {
                    assert forall|q: int, n: int|
                        0 <= q < before.len() && before[q].is_some() && 0 <= n < before[q]->0.mutex_list@.len()
                            && before[q]->0.mutex_list@[n].is_some()
                            implies #[trigger] mutex_held(mid, q, n) == (mutex_held(before, q, n) || (q == pid && n == m)) by {
                        if q != pid {
                            assert(mid[q] == before[q]);
                        }
                    }
                }
                if taken {
                    self.set_status(pid, tid, TaskStatus::Running);
                    self.current = Some((pid, tid));
                } else {
                    self.ready.push((pid, tid));
                }
                proof {
                    assert forall|q: int, n: int|
                        0 <= q < before.len() && before[q].is_some() && 0 <= n < before[q]->0.mutex_list@.len()
                            implies #[trigger] mutex_held(self.procs@, q, n) == mutex_held(mid, q, n) by {
                        assert(self.procs@[q]->0.mutex_list@ == mid[q]->0.mutex_list@);
                    }
                    assert(before == old(self).procs@);
                    assert(old(self).ready@[0] == (pid, tid));
                    assert(runnable(before, (pid, tid), None));
                    assert(spin_mark(before, (pid, tid)) == Some(m));
                    assert forall|q: int, n: int|
                        0 <= q < before.len() && before[q].is_some() && 0 <= n < before[q]->0.mutex_list@.len()
                            && before[q]->0.mutex_list@[n].is_some()
                            implies #[trigger] mutex_held(self.procs@, q, n) == (mutex_held(before, q, n) || head_spins_on(before, old(self).ready@, None, q, n)) by {
                        assert(mutex_held(self.procs@, q, n) == mutex_held(mid, q, n));
                        let r0 = old(self).ready@;
                        assert(r0.len() > 0);
                        assert(runnable(before, r0[0], None));
                        assert(r0[0].0 == pid);
                        assert(spin_mark(before, r0[0]) == Some(m));
                        if q == pid && n == m {
                            assert(head_spins_on(before, r0, None, q, n));
                        } else {
                            if q != pid {
                                assert(r0[0].0 as int != q);
                            } else {
                                assert(before[q]->0.mutex_list.len() == before[q]->0.mutex_list@.len());
                                assert(n as usize != m);
                                assert(spin_mark(before, r0[0]) != Some(n as usize));
                            }
                            assert(!head_spins_on(before, r0, None, q, n));
                        }
                    }
                }
            },
        }
    }

    /// The running thread stops: Blocked, in some wait queue or timer list.
    pub fn block_current_and_run_next(&mut self)
        requires
            old(self).wf(),
            old(self).current.is_some(),
        ensures
            final(self).proc_at(old(self).cur_pid()).threads@[old(self).cur_tid()].status == TaskStatus::Blocked,
            dispatched(old(self).procs@, old(self).ready@, Some((old(self).current->0, TaskStatus::Blocked)), *final(self)),
            locks_after(old(self).procs@, old(self).ready@, Some((old(self).current->0, TaskStatus::Blocked)), final(self).procs@),
            final(self).timers@ == old(self).timers@,
            procs_kept(old(self).procs@, final(self).procs@),
            final(self).wf(),
            final(self).procs@.len() == old(self).procs@.len(),
    {
        let (pid, tid) = match self.current {
            Some(c) => c,
            None => (0, 0),
        };
        self.set_status(pid, tid, TaskStatus::Blocked);
        self.current = None;
        self.run_next();
    }

    /// The running thread yields: Ready, at the tail of the ready queue.
    pub fn suspend_current_and_run_next(&mut self)
        requires
            old(self).wf(),
            old(self).current.is_some(),
        ensures
            dispatched(old(self).procs@, old(self).ready@.push(old(self).current->0), Some((old(self).current->0, TaskStatus::Ready)), *final(self)),
            locks_after(old(self).procs@, old(self).ready@.push(old(self).current->0), Some((old(self).current->0, TaskStatus::Ready)), final(self).procs@),
            final(self).timers@ == old(self).timers@,
            procs_kept(old(self).procs@, final(self).procs@),
            final(self).wf(),
            final(self).procs@.len() == old(self).procs@.len(),
    {
        let (pid, tid) = match self.current {
            Some(c) => c,
            None => (0, 0),
        };
        self.current = None;
        self.add_task(pid, tid);
        self.run_next();
    }

    /// Wakes every sleeper whose expiry is at or before `now_ms`, in the order
    /// they were registered; the others keep waiting.
    pub fn check_timer(&mut self, now_ms: usize)
        requires
            old(self).wf(),
        ensures
            procs_kept(old(self).procs@, final(self).procs@),
            final(self).wf(),
            final(self).current == old(self).current,
            final(self).procs@.len() == old(self).procs@.len(),
            final(self).timers@ == unexpired(old(self).timers@, now_ms),
            final(self).ready@ == old(self).ready@ + timer_woken(old(self).procs@, old(self).timers@, now_ms),
    {
        let mut kept: Vec<TimerEntry> = Vec::new();
        let mut i: usize = 0;
        while i < self.timers.len()
            invariant
                self.wf(),
                i <= self.timers@.len(),
                self.timers@ == old(self).timers@,
                self.current == old(self).current,
                self.procs@.len() == old(self).procs@.len(),
                procs_kept(old(self).procs@, self.procs@),
                kept@ == unexpired(self.timers@.subrange(0, i as int), now_ms),
                self.ready@ == old(self).ready@ + timer_woken(old(self).procs@, self.timers@.subrange(0, i as int), now_ms),
            decreases self.timers@.len() - i,
        {
            let e = self.timers[i];
            let ghost ts = self.timers@;
            assert(ts.subrange(0, i + 1).drop_last() == ts.subrange(0, i as int));
            assert(ts.subrange(0, i + 1).last() == e);
            assert(thread_exists(self.procs@, e.pid as int, e.tid as int) == thread_exists(old(self).procs@, e.pid as int, e.tid as int)) by {
                if 0 <= e.pid < old(self).procs@.len() {
                    assert(self.procs@[e.pid as int].is_some() == old(self).procs@[e.pid as int].is_some());
                }
            }
            if e.expire_ms <= now_ms {
                self.wakeup(e.pid, e.tid);
            } else {
                kept.push(e);
            }
            assert(self.ready@ =~= old(self).ready@ + timer_woken(old(self).procs@, ts.subrange(0, i + 1), now_ms));
            i = i + 1;
        }
        assert(self.timers@.subrange(0, self.timers@.len() as int) == self.timers@);
        self.timers = kept;
    }
}

/// Conservation of semaphore units: in every well-formed machine state (the
/// states that [`Kernel::new`] and the system calls produce, as each of them
/// ensures `wf`), for each process and each of its semaphores, the free units
/// plus the units held by all of its threads equal the count the semaphore was
/// created with.
pub proof fn lemma_units_conserved(k: Kernel, pid: int, s: int)
    requires
        k.wf(),
        0 <= pid < k.procs@.len(),
        k.procs@[pid].is_some(),
        0 <= s < k.proc_at(pid).semaphore_list@.len(),
    ensures
        k.proc_at(pid).work@[s] + alloc_sum(k.proc_at(pid).threads@, s) == k.proc_at(pid).sem_total@[s],
{
    assert(k.proc_at(pid).wf());
    assert(crate::process::units_conserved(k.proc_at(pid), s));
}

} // verus!
