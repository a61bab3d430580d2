//! Process control blocks: address space, threads, synchronization tables and
//! the deadlock detector's vectors.
use vstd::prelude::*;
use crate::mm::{mmap_result, munmap_result, first_exact, mmap_succeeds, MemorySet};
use crate::primitives::{Condvar, LockOutcome, Mutex};
use crate::semaphore::{Semaphore, SemaphoreInner};
use crate::task::{
    alloc_sum, free_slot, is_first_free, lemma_alloc_sum_bounds, lemma_alloc_sum_nonneg,
    lemma_alloc_sum_pointwise, lemma_alloc_sum_push, lemma_alloc_sum_update, lemma_alloc_sum_zero,
    copy_words, zeros, TaskStatus, Thread, TrapContext, DEFAULT_PRIORITY, REG_A0,
};

verus! {

/// What a semaphore acquisition did.
#[derive(Clone, Copy, PartialEq, Eq, Structural, Debug)]
pub enum DownOutcome {
    /// A unit was taken.
    Acquired,
    /// The caller joined the wait queue and must block.
    Blocked,
    /// Taking the unit could deadlock: refused, nothing changed.
    Deadlock,
}

/// A process: its address space and heap, its place in the process tree,
/// its exit state, its tables of synchronization objects and its threads.
pub struct Process {
    pub pid: usize,
    /// Pid of the parent; it does not keep the parent alive.
    pub parent: Option<usize>,
    /// Pids of the children, which this process owns.
    pub children: Vec<usize>,
    pub memory_set: MemorySet,
    pub heap_bottom: usize,
    pub program_brk: usize,
    pub is_zombie: bool,
    pub exit_code: i32,
    pub mutex_list: Vec<Option<Mutex>>,
    pub semaphore_list: Vec<Option<Semaphore>>,
    pub condvar_list: Vec<Option<Condvar>>,
    pub deadlock_detect: bool,
    /// Units of each semaphore free to acquirers.
    pub work: Vec<usize>,
    /// Units each semaphore was created with.
    pub sem_total: Vec<usize>,
    /// Threads, indexed by tid.
    pub threads: Vec<Thread>,
}

pub open spec fn thread_wf(th: Thread, tid: int, n_sems: int) -> bool {
    &&& th.tid == tid
    &&& th.allocate@.len() == n_sems
    &&& th.need@.len() == n_sems
    &&& th.trap_cx.wf()
}

/// Every unit of semaphore `s` is either free or held by a thread.
pub open spec fn units_conserved(p: Process, s: int) -> bool {
    p.work@[s] + alloc_sum(p.threads@, s) == p.sem_total@[s]
}

/// Deadlock bookkeeping applies: detection on, and neither the bootstrap
/// thread nor the bootstrap semaphore.
pub open spec fn accounted(detect: bool, tid: int, sem_id: int) -> bool {
    detect && tid != 0 && sem_id != 0
}

/// Thread `th` could run to completion with `work`, its need at `bump` raised
/// by one; the bootstrap resource is left out of the comparison.
pub open spec fn can_finish(th: Thread, work: Seq<usize>, bump: int) -> bool {
    fits(th.need@, work, bump)
}

/// `need`, raised by one at `bump`, fits in `work` at every index from 1.
pub open spec fn fits(need: Seq<usize>, work: Seq<usize>, bump: int) -> bool {
    forall|j: int| #![trigger need[j]] 1 <= j < work.len() ==> need[j] + raise_at(j, bump) <= work[j]
}

pub open spec fn raise_at(j: int, bump: int) -> int {
    if j == bump {
        1
    } else {
        0
    }
}

/// Some live thread but the bootstrap one could finish with `work`, the need
/// of `caller` raised by one unit of `bump` (no raise when `bump` is -1).
pub open spec fn some_can_finish(ts: Seq<Thread>, work: Seq<usize>, caller: int, bump: int) -> bool {
    exists|t: int|
        1 <= t < ts.len() && ts[t].status != TaskStatus::Zombie && #[trigger] can_finish(
            ts[t],
            work,
            bump_for(t, caller, bump),
        )
}

/// The raised entry for thread `t`: `bump` for the caller, none (-1) for the others.
pub open spec fn bump_for(t: int, caller: int, bump: int) -> int {
    if t == caller {
        bump
    } else {
        -1
    }
}

/// Everything of `a` but thread statuses, spin marks and mutexes is kept in `b`.
pub open spec fn core_kept(a: Process, b: Process) -> bool {
    &&& b.pid == a.pid
    &&& b.parent == a.parent
    &&& b.children@ == a.children@
    &&& b.memory_set == a.memory_set
    &&& b.heap_bottom == a.heap_bottom
    &&& b.program_brk == a.program_brk
    &&& b.is_zombie == a.is_zombie
    &&& b.exit_code == a.exit_code
    &&& b.semaphore_list@ == a.semaphore_list@
    &&& b.condvar_list@ == a.condvar_list@
    &&& b.mutex_list@.len() == a.mutex_list@.len()
    &&& b.deadlock_detect == a.deadlock_detect
    &&& b.work@ == a.work@
    &&& b.sem_total@ == a.sem_total@
    &&& b.threads@.len() == a.threads@.len()
    &&& forall|t: int| 0 <= t < a.threads@.len() ==> (#[trigger] b.threads@[t]).trap_cx == a.threads@[t].trap_cx
        && b.threads@[t].allocate@ == a.threads@[t].allocate@ && b.threads@[t].need@ == a.threads@[t].need@
}

/// As [`core_kept`], and each mutex keeps its variant and its queue.
pub open spec fn proc_kept(a: Process, b: Process) -> bool {
    &&& core_kept(a, b)
    &&& forall|m: int|
        0 <= m < a.mutex_list@.len() ==> (#[trigger] b.mutex_list@[m]).is_some() == a.mutex_list@[m].is_some()
            && (a.mutex_list@[m].is_some() ==> b.mutex_list@[m]->0.wait_queue@ == a.mutex_list@[m]->0.wait_queue@
            && b.mutex_list@[m]->0.blocking == a.mutex_list@[m]->0.blocking)
}

impl Process {
    pub open spec fn wf(&self) -> bool {
        &&& self.memory_set.wf()
        &&& self.heap_bottom <= self.program_brk <= isize::MAX
        &&& self.work@.len() == self.semaphore_list@.len()
        &&& self.sem_total@.len() == self.semaphore_list@.len()
        &&& forall|t: int|
            0 <= t < self.threads@.len() ==> thread_wf(
                #[trigger] self.threads@[t],
                t,
                self.semaphore_list@.len() as int,
            )
        &&& forall|s: int| 0 <= s < self.semaphore_list@.len() ==> #[trigger] units_conserved(*self, s)
        &&& forall|s: int|
            0 <= s < self.semaphore_list@.len() && (#[trigger] self.semaphore_list@[s]).is_none()
                ==> self.sem_total@[s] == 0
    }

    /// A process with one ready thread starting from `trap_cx`, and no
    /// synchronization object.
    pub fn new(
        pid: usize,
        parent: Option<usize>,
        memory_set: MemorySet,
        heap_bottom: usize,
        trap_cx: TrapContext,
    ) -> (r: Process)
        requires
            memory_set.wf(),
            heap_bottom <= isize::MAX,
            trap_cx.wf(),
        ensures
            r.wf(),
            r.pid == pid,
            r.parent == parent,
            r.children@ == Seq::<usize>::empty(),
            r.memory_set == memory_set,
            r.heap_bottom == heap_bottom,
            r.program_brk == heap_bottom,
            !r.is_zombie,
            r.exit_code == 0,
            r.mutex_list@.len() == 0,
            r.semaphore_list@.len() == 0,
            r.condvar_list@.len() == 0,
            !r.deadlock_detect,
            r.threads@.len() == 1,
            r.threads@[0].status == TaskStatus::Ready,
            r.threads@[0].trap_cx == trap_cx,
    {
        let mut threads: Vec<Thread> = Vec::new();
        threads.push(Thread::new(0, trap_cx, 0));
        Process {
            pid,
            parent,
            children: Vec::new(),
            memory_set,
            heap_bottom,
            program_brk: heap_bottom,
            is_zombie: false,
            exit_code: 0,
            mutex_list: Vec::new(),
            semaphore_list: Vec::new(),
            condvar_list: Vec::new(),
            deadlock_detect: false,
            work: Vec::new(),
            sem_total: Vec::new(),
            threads,
        }
    }

    /// Adds a ready thread starting from `trap_cx`, holding and needing
    /// nothing; returns its tid.
    pub fn add_thread(&mut self, trap_cx: TrapContext) -> (tid: usize)
        requires
            old(self).wf(),
            trap_cx.wf(),
            old(self).threads@.len() < usize::MAX,
        ensures
            final(self).wf(),
            tid == old(self).threads@.len(),
            final(self).threads@.len() == tid + 1,
            forall|t: int| 0 <= t < tid ==> #[trigger] final(self).threads@[t] == old(self).threads@[t],
            final(self).threads@[tid as int].status == TaskStatus::Ready,
            final(self).threads@[tid as int].trap_cx == trap_cx,
            final(self).pid == old(self).pid,
            final(self).is_zombie == old(self).is_zombie,
            final(self).deadlock_detect == old(self).deadlock_detect,
            final(self).work@ == old(self).work@,
            final(self).sem_total@ == old(self).sem_total@,
            final(self).semaphore_list@ == old(self).semaphore_list@,
            final(self).mutex_list@ == old(self).mutex_list@,
            final(self).condvar_list@ == old(self).condvar_list@,
            final(self).children@ == old(self).children@,
            final(self).memory_set == old(self).memory_set,
    {
        let tid = self.threads.len();
        let th = Thread::new(tid, trap_cx, self.semaphore_list.len());
        let ghost ts = self.threads@;
        self.threads.push(th);
        assert forall|s: int| 0 <= s < self.semaphore_list@.len() implies #[trigger] units_conserved(*self, s) by {
            lemma_alloc_sum_push(ts, th, s);
            assert(units_conserved(*old(self), s));
        }
        tid
    }

    /// Creates a semaphore of `res_count` units in the first free slot and
    /// returns its id; its units start free.
    pub fn semaphore_create(&mut self, res_count: usize) -> (id: usize)
        requires
            old(self).wf(),
            res_count <= isize::MAX,
        ensures
            forall|t: int|
                0 <= t < old(self).threads@.len() ==> (#[trigger] final(self).threads@[t]).allocate@ == if id < old(self).semaphore_list@.len() {
                    old(self).threads@[t].allocate@
                } else {
                    old(self).threads@[t].allocate@.push(0)
                } && final(self).threads@[t].need@ == if id < old(self).semaphore_list@.len() {
                    old(self).threads@[t].need@
                } else {
                    old(self).threads@[t].need@.push(0)
                },
            final(self).wf(),
            is_first_free(old(self).semaphore_list@, id as int),
            final(self).semaphore_list@.len() == if id < old(self).semaphore_list@.len() {
                old(self).semaphore_list@.len()
            } else {
                old(self).semaphore_list@.len() + 1
            },
            forall|s: int|
                0 <= s < final(self).semaphore_list@.len() && s != id ==> #[trigger] final(self).semaphore_list@[s] == old(self).semaphore_list@[s] && final(self).work@[s] == old(self).work@[s] && final(self).sem_total@[s] == old(self).sem_total@[s],
            final(self).semaphore_list@[id as int] matches Some(sem) && sem.inner.count == res_count
                && sem.inner.wait_queue@.len() == 0,
            final(self).work@[id as int] == res_count,
            final(self).sem_total@[id as int] == res_count,
            final(self).threads@.len() == old(self).threads@.len(),
            forall|t: int|
                0 <= t < old(self).threads@.len() ==> (#[trigger] final(self).threads@[t]).status == old(self).threads@[t].status && final(self).threads@[t].trap_cx == old(self).threads@[t].trap_cx,
            final(self).pid == old(self).pid,
            final(self).is_zombie == old(self).is_zombie,
            final(self).deadlock_detect == old(self).deadlock_detect,
            final(self).mutex_list@ == old(self).mutex_list@,
            final(self).condvar_list@ == old(self).condvar_list@,
            final(self).children@ == old(self).children@,
            final(self).memory_set == old(self).memory_set,
    {
        let id = free_slot(&self.semaphore_list);
        let n = self.semaphore_list.len();
        if id < n {
            proof {
                assert(units_conserved(*self, id as int));
                lemma_alloc_sum_nonneg(self.threads@, id as int);
            }
            let ghost before = *self;
            self.semaphore_list[id] = Some(Semaphore::new(res_count));
            self.work[id] = res_count;
            self.sem_total[id] = res_count;
            assert forall|s: int| 0 <= s < self.semaphore_list@.len() implies #[trigger] units_conserved(*self, s) by {
                assert(units_conserved(before, s));
            }
        } else {
            let ghost ts = self.threads@;
            let mut i: usize = 0;
            while i < self.threads.len()
                invariant
                    i <= self.threads@.len(),
                    self.threads@.len() == ts.len(),
                    ts == old(self).threads@,
                    n == self.semaphore_list@.len(),
                    self.semaphore_list@ == old(self).semaphore_list@,
                    self.work@ == old(self).work@,
                    self.sem_total@ == old(self).sem_total@,
                    self.mutex_list@ == old(self).mutex_list@,
                    self.condvar_list@ == old(self).condvar_list@,
                    self.children@ == old(self).children@,
                    self.memory_set == old(self).memory_set,
                    self.pid == old(self).pid,
                    self.is_zombie == old(self).is_zombie,
                    self.deadlock_detect == old(self).deadlock_detect,
                    self.heap_bottom == old(self).heap_bottom,
                    self.program_brk == old(self).program_brk,
                    forall|t: int| 0 <= t < ts.len() ==> thread_wf(#[trigger] ts[t], t, n as int),
                    forall|t: int|
                        0 <= t < i ==> thread_wf(#[trigger] self.threads@[t], t, n + 1)
                            && self.threads@[t].allocate@ == ts[t].allocate@.push(0)
                            && self.threads@[t].need@ == ts[t].need@.push(0)
                            && self.threads@[t].status == ts[t].status
                            && self.threads@[t].trap_cx == ts[t].trap_cx,
                    forall|t: int| i <= t < ts.len() ==> #[trigger] self.threads@[t] == ts[t],
                decreases ts.len() - i,
            {
                self.threads[i].allocate.push(0);
                self.threads[i].need.push(0);
                i = i + 1;
            }
            let ghost before = *old(self);
            self.semaphore_list.push(Some(Semaphore::new(res_count)));
            self.work.push(res_count);
            self.sem_total.push(res_count);
            assert forall|s: int| 0 <= s < self.semaphore_list@.len() implies #[trigger] units_conserved(*self, s) by {
                if s < n {
                    assert forall|t: int| 0 <= t < ts.len() implies (#[trigger] ts[t]).allocate@[s]
                        == self.threads@[t].allocate@[s] by {
                        assert(self.threads@[t].allocate@ == ts[t].allocate@.push(0));
                    }
                    lemma_alloc_sum_pointwise(ts, self.threads@, s, s);
                    assert(units_conserved(before, s));
                } else {
                    assert forall|t: int| 0 <= t < ts.len() implies (#[trigger] self.threads@[t]).allocate@[s]
                        == 0 by {
                        assert(self.threads@[t].allocate@ == ts[t].allocate@.push(0));
                    }
                    lemma_alloc_sum_zero(self.threads@, s);
                }
            }
        }
        id
    }
}

/// Count of semaphore `s` of `p`.
pub open spec fn sem_count(p: Process, s: int) -> int {
    p.semaphore_list@[s]->0.inner.count as int
}

/// Wait queue of semaphore `s` of `p`.
pub open spec fn sem_queue(p: Process, s: int) -> Seq<usize> {
    p.semaphore_list@[s]->0.inner.wait_queue@
}

/// `down` of `tid` on `sem_id` is refused as a possible deadlock: with a free
/// unit, no thread could finish once it is taken; without one, no thread could
/// finish once the caller's need grows by it.
pub open spec fn down_refused(p: Process, tid: int, sem_id: int) -> bool {
    accounted(p.deadlock_detect, tid, sem_id) && if p.work@[sem_id] > 0 {
        !some_can_finish(p.threads@, p.work@.update(sem_id, (p.work@[sem_id] - 1) as usize), tid, -1)
    } else {
        !some_can_finish(p.threads@, p.work@, tid, sem_id)
    }
}

/// Whether the thread's need, raised by one at `bump`, fits in `work`
/// (indices from 1).
fn need_fits(need: &Vec<usize>, work: &Vec<usize>, bump: usize, raise: bool) -> (r: bool)
    requires
        need@.len() == work@.len(),
    ensures
        r == fits(need@, work@, if raise {
            bump as int
        } else {
            -1
        }),
{
    let mut j: usize = 1;
    while j < work.len()
        invariant
            1 <= j,
            need@.len() == work@.len(),
            forall|k: int|
                #![trigger need@[k]]
                1 <= k < j && k < work@.len() ==> need@[k] + raise_at(
                    k,
                    if raise {
                        bump as int
                    } else {
                        -1
                    },
                ) <= work@[k],
        decreases work@.len() - j,
    {
        if need[j] > work[j] || (raise && j == bump && need[j] >= work[j]) {
            return false;
        }
        j = j + 1;
    }
    true
}

impl Process {
    /// Whether some live thread but the bootstrap one could finish with `work`,
    /// the caller's need raised by one unit of `sem_id` when `raise` holds.
    fn any_can_finish(&self, work: &Vec<usize>, caller: usize, sem_id: usize, raise: bool) -> (r: bool)
        requires
            self.wf(),
            work@.len() == self.semaphore_list@.len(),
        ensures
            r == some_can_finish(self.threads@, work@, caller as int, if raise {
                sem_id as int
            } else {
                -1
            }),
    {
        let ghost bump: int = if raise {
            sem_id as int
        } else {
            -1
        };
        let mut t: usize = 1;
        while t < self.threads.len()
            invariant
                1 <= t,
                self.wf(),
                work@.len() == self.semaphore_list@.len(),
                bump == if raise {
                    sem_id as int
                } else {
                    -1
                },
                forall|u: int|
                    1 <= u < t && u < self.threads@.len() && self.threads@[u].status != TaskStatus::Zombie
                        ==> !#[trigger] can_finish(
                        self.threads@[u],
                        work@,
                        bump_for(u, caller as int, bump),
                    ),
            decreases self.threads@.len() - t,
        {
            assert(thread_wf(self.threads@[t as int], t as int, self.semaphore_list@.len() as int));
            let th = &self.threads[t];
            if th.status != TaskStatus::Zombie && need_fits(&th.need, work, sem_id, raise && t == caller) {
                assert(can_finish(self.threads@[t as int], work@, bump_for(t as int, caller as int, bump)));
                return true;
            }
            t = t + 1;
        }
        false
    }

    /// Acquisition of one unit of semaphore `sem_id` by thread `tid`, checked
    /// against deadlock when the bookkeeping applies. On refusal nothing changes.
    pub fn semaphore_down(&mut self, tid: usize, sem_id: usize) -> (r: DownOutcome)
        requires
            old(self).wf(),
            tid < old(self).threads@.len(),
            sem_id < old(self).semaphore_list@.len(),
            old(self).semaphore_list@[sem_id as int].is_some(),
            sem_count(*old(self), sem_id as int) > isize::MIN,
        ensures
            final(self).wf(),
            (r == DownOutcome::Deadlock) == down_refused(*old(self), tid as int, sem_id as int),
            r == DownOutcome::Deadlock ==> *final(self) == *old(self),
            r != DownOutcome::Deadlock ==> down_accounted(*old(self), *final(self), tid as int, sem_id as int),
            forall|t: int| 0 <= t < old(self).threads@.len() ==> (#[trigger] final(self).threads@[t]).spinning_on == old(self).threads@[t].spinning_on,
            r != DownOutcome::Deadlock ==> {
                &&& sem_count(*final(self), sem_id as int) == sem_count(*old(self), sem_id as int) - 1
                &&& (r == DownOutcome::Blocked) == (sem_count(*final(self), sem_id as int) < 0)
                &&& r == DownOutcome::Blocked ==> sem_queue(*final(self), sem_id as int) == sem_queue(
                    *old(self),
                    sem_id as int,
                ).push(tid)
                &&& r == DownOutcome::Acquired ==> sem_queue(*final(self), sem_id as int) == sem_queue(
                    *old(self),
                    sem_id as int,
                )
                &&& accounted(old(self).deadlock_detect, tid as int, sem_id as int) && old(self).work@[sem_id as int] > 0
                    ==> final(self).work@ == old(self).work@.update(sem_id as int, (old(self).work@[sem_id as int] - 1) as usize)
                    && final(self).threads@[tid as int].allocate@[sem_id as int] == old(self).threads@[tid as int].allocate@[sem_id as int] + 1
                &&& accounted(old(self).deadlock_detect, tid as int, sem_id as int) && old(self).work@[sem_id as int] == 0
                    ==> final(self).work@ == old(self).work@
                    && final(self).threads@[tid as int].need@[sem_id as int] == if old(self).threads@[tid as int].need@[sem_id as int] < usize::MAX {
                        old(self).threads@[tid as int].need@[sem_id as int] + 1
                    } else {
                        old(self).threads@[tid as int].need@[sem_id as int] as int
                    }
                &&& !accounted(old(self).deadlock_detect, tid as int, sem_id as int) ==> final(self).work@ == old(self).work@
                    && final(self).threads@ == old(self).threads@
            },
            final(self).threads@.len() == old(self).threads@.len(),
            forall|t: int|
                0 <= t < old(self).threads@.len() ==> (#[trigger] final(self).threads@[t]).status == old(self).threads@[t].status
                    && final(self).threads@[t].trap_cx == old(self).threads@[t].trap_cx,
            final(self).semaphore_list@.len() == old(self).semaphore_list@.len(),
            forall|s: int| 0 <= s < old(self).semaphore_list@.len() && s != sem_id ==> #[trigger] final(self).semaphore_list@[s] == old(self).semaphore_list@[s],
            final(self).semaphore_list@[sem_id as int].is_some(),
            final(self).pid == old(self).pid,
            final(self).is_zombie == old(self).is_zombie,
            final(self).deadlock_detect == old(self).deadlock_detect,
            final(self).sem_total@ == old(self).sem_total@,
            final(self).mutex_list@ == old(self).mutex_list@,
            final(self).condvar_list@ == old(self).condvar_list@,
            final(self).children@ == old(self).children@,
            final(self).memory_set == old(self).memory_set,
    {
        let detect = self.deadlock_detect && tid != 0 && sem_id != 0;
        if detect {
            assert(thread_wf(self.threads@[tid as int], tid as int, self.semaphore_list@.len() as int));
            let free = self.work[sem_id];
            if free > 0 {
                let mut trial = copy_words(&self.work);
                trial[sem_id] = free - 1;
                if !self.any_can_finish(&trial, tid, sem_id, false) {
                    return DownOutcome::Deadlock;
                }
                proof {
                    assert(units_conserved(*self, sem_id as int));
                    lemma_alloc_sum_bounds(self.threads@, tid as int, sem_id as int);
                }
                let ghost before = *self;
                self.work[sem_id] = free - 1;
                let held = self.threads[tid].allocate[sem_id];
                self.threads[tid].allocate[sem_id] = held + 1;
                proof {
                    lemma_alloc_sum_update(before.threads@, tid as int, self.threads@[tid as int], sem_id as int);
                    assert forall|s: int| 0 <= s < self.semaphore_list@.len() implies #[trigger] units_conserved(*self, s) by {
                        assert(units_conserved(before, s));
                        lemma_alloc_sum_update(before.threads@, tid as int, self.threads@[tid as int], s);
                    }
                    assert forall|t: int| 0 <= t < self.threads@.len() implies thread_wf(#[trigger] self.threads@[t], t, self.semaphore_list@.len() as int) by {
                        assert(thread_wf(before.threads@[t], t, self.semaphore_list@.len() as int));
                    }
                }
            } else {
                if !self.any_can_finish(&self.work, tid, sem_id, true) {
                    return DownOutcome::Deadlock;
                }
                let ghost before = *self;
                let wanted = self.threads[tid].need[sem_id];
                if wanted < usize::MAX {
                    self.threads[tid].need[sem_id] = wanted + 1;
                }
                proof {
                    assert(self.threads@[tid as int].need@ =~= before.threads@[tid as int].need@.update(
                        sem_id as int,
                        if wanted < usize::MAX { (wanted + 1) as usize } else { wanted },
                    ));
                    assert forall|s: int| 0 <= s < self.semaphore_list@.len() implies #[trigger] units_conserved(*self, s) by {
                        assert(units_conserved(before, s));
                        lemma_alloc_sum_update(before.threads@, tid as int, self.threads@[tid as int], s);
                    }
                    assert forall|t: int| 0 <= t < self.threads@.len() implies thread_wf(#[trigger] self.threads@[t], t, self.semaphore_list@.len() as int) by {
                        assert(thread_wf(before.threads@[t], t, self.semaphore_list@.len() as int));
                    }
                }
            }
        }
        let ghost mid = *self;
        let blocked = match &mut self.semaphore_list[sem_id] {
            Some(sem) => sem.down(tid),
            None => false,
        };
        proof {
            assert forall|s: int| 0 <= s < self.semaphore_list@.len() implies #[trigger] units_conserved(*self, s) by {
                assert(units_conserved(mid, s));
            }
        }
        if blocked {
            DownOutcome::Blocked
        } else {
            DownOutcome::Acquired
        }
    }
}

/// The deadlock bookkeeping of a granted `down` by `tid` on `sem_id`, from
/// process `a` to process `b`: with a free unit the caller takes it over;
/// without one its need grows by one (held at the largest word); when the
/// bookkeeping does not apply nothing moves. Totals and every other entry
/// of `work`, `allocate` and `need` are kept.
pub open spec fn down_accounted(a: Process, b: Process, tid: int, sem_id: int) -> bool {
    let ca = a.threads@[tid];
    let cb = b.threads@[tid];
    let need = ca.need@[sem_id];
    &&& b.sem_total@ == a.sem_total@
    &&& b.threads@.len() == a.threads@.len()
    &&& forall|t: int| 0 <= t < a.threads@.len() && t != tid ==> (#[trigger] b.threads@[t]).allocate@ == a.threads@[t].allocate@
        && b.threads@[t].need@ == a.threads@[t].need@
    &&& if accounted(a.deadlock_detect, tid, sem_id) {
        if a.work@[sem_id] > 0 {
            &&& b.work@ == a.work@.update(sem_id, (a.work@[sem_id] - 1) as usize)
            &&& cb.allocate@ == ca.allocate@.update(sem_id, (ca.allocate@[sem_id] + 1) as usize)
            &&& cb.need@ == ca.need@
        } else {
            &&& b.work@ == a.work@
            &&& cb.allocate@ == ca.allocate@
            &&& cb.need@ == ca.need@.update(sem_id, if need < usize::MAX {
                (need + 1) as usize
            } else {
                need
            })
        }
    } else {
        &&& b.work@ == a.work@
        &&& cb.allocate@ == ca.allocate@
        &&& cb.need@ == ca.need@
    }
}

/// The thread `up` on `sem_id` wakes: the head of the queue when the count is
/// negative.
pub open spec fn up_woken(p: Process, sem_id: int) -> Option<usize> {
    if sem_count(p, sem_id) < 0 && sem_queue(p, sem_id).len() > 0 {
        Some(sem_queue(p, sem_id)[0])
    } else {
        None
    }
}

/// The deadlock bookkeeping of `up` by `tid` on `sem_id`, waking `woken`:
/// a unit the caller holds goes back to `work`, then a woken thread whose
/// need was recorded takes a free unit over. Totals and every other entry
/// are kept.
pub open spec fn up_accounted(a: Process, b: Process, tid: int, sem_id: int, woken: Option<usize>) -> bool {
    let ret: int = if up_returns(a, tid, sem_id) { 1 } else { 0 };
    let tr: int = if up_transfers(a, tid, sem_id, woken) { 1 } else { 0 };
    let w = woken->0 as int;
    &&& b.sem_total@ == a.sem_total@
    &&& b.threads@.len() == a.threads@.len()
    &&& b.work@ == a.work@.update(sem_id, (a.work@[sem_id] + ret - tr) as usize)
    &&& forall|t: int| 0 <= t < a.threads@.len() && t != tid && !(tr == 1 && t == w) ==> (#[trigger] b.threads@[t]).allocate@
        == a.threads@[t].allocate@ && b.threads@[t].need@ == a.threads@[t].need@
    &&& forall|t: int, s: int|
        0 <= t < a.threads@.len() && 0 <= s < a.semaphore_list@.len() && s != sem_id
            ==> #[trigger] b.threads@[t].allocate@[s] == a.threads@[t].allocate@[s]
    &&& ret == 1 && !(tr == 1 && w == tid) ==> b.threads@[tid].allocate@[sem_id] == a.threads@[tid].allocate@[sem_id] - 1
    &&& ret == 0 && !(tr == 1 && w == tid) ==> b.threads@[tid].allocate@ == a.threads@[tid].allocate@
    &&& tr == 1 && w != tid ==> b.threads@[w].allocate@[sem_id] == a.threads@[w].allocate@[sem_id] + 1
    &&& tr == 1 ==> b.threads@[w].need@ == a.threads@[w].need@.update(sem_id, (a.threads@[w].need@[sem_id] - 1) as usize)
    &&& tr == 0 ==> b.threads@[tid].need@ == a.threads@[tid].need@
}

/// `up` by `tid` gives a unit it holds back to the free pool.
pub open spec fn up_returns(p: Process, tid: int, sem_id: int) -> bool {
    accounted(p.deadlock_detect, tid, sem_id) && p.threads@[tid].allocate@[sem_id] > 0
}

/// The woken thread, whose need was recorded when it blocked, takes a free
/// unit over.
pub open spec fn up_transfers(p: Process, tid: int, sem_id: int, woken: Option<usize>) -> bool {
    &&& woken matches Some(w)
    &&& (w as int) < p.threads@.len()
    &&& accounted(p.deadlock_detect, w as int, sem_id)
    &&& p.work@[sem_id] + (if up_returns(p, tid, sem_id) { 1int } else { 0int }) > 0
    &&& p.threads@[w as int].need@[sem_id] > 0
}

impl Process {
    /// Release of one unit of semaphore `sem_id` by thread `tid`. Returns the
    /// thread woken from the queue, if any. When the bookkeeping applies, a
    /// unit the caller holds goes back to `work`, and a woken thread whose
    /// need was recorded takes a free unit over.
    pub fn semaphore_up(&mut self, tid: usize, sem_id: usize) -> (woken: Option<usize>)
        requires
            old(self).wf(),
            tid < old(self).threads@.len(),
            sem_id < old(self).semaphore_list@.len(),
            old(self).semaphore_list@[sem_id as int].is_some(),
            sem_count(*old(self), sem_id as int) < isize::MAX,
        ensures
            woken == up_woken(*old(self), sem_id as int),
            up_accounted(*old(self), *final(self), tid as int, sem_id as int, woken),
            forall|t: int| 0 <= t < old(self).threads@.len() ==> (#[trigger] final(self).threads@[t]).spinning_on == old(self).threads@[t].spinning_on,
            final(self).wf(),
            sem_count(*final(self), sem_id as int) == sem_count(*old(self), sem_id as int) + 1,
            sem_count(*old(self), sem_id as int) < 0 && sem_queue(*old(self), sem_id as int).len() > 0
                ==> woken == Some(sem_queue(*old(self), sem_id as int)[0]) && sem_queue(*final(self), sem_id as int)
                == sem_queue(*old(self), sem_id as int).drop_first(),
            !(sem_count(*old(self), sem_id as int) < 0 && sem_queue(*old(self), sem_id as int).len() > 0)
                ==> woken.is_none() && sem_queue(*final(self), sem_id as int) == sem_queue(*old(self), sem_id as int),
            ({
                let ret: int = if up_returns(*old(self), tid as int, sem_id as int) { 1 } else { 0 };
                let tr: int = if up_transfers(*old(self), tid as int, sem_id as int, woken) { 1 } else { 0 };
                let w = woken->0 as int;
                &&& final(self).work@ == old(self).work@.update(sem_id as int, (old(self).work@[sem_id as int] + ret - tr) as usize)
                &&& ret == 1 && !(tr == 1 && w == tid) ==> final(self).threads@[tid as int].allocate@[sem_id as int]
                    == old(self).threads@[tid as int].allocate@[sem_id as int] - 1
                &&& tr == 1 && w != tid ==> final(self).threads@[w].allocate@[sem_id as int]
                    == old(self).threads@[w].allocate@[sem_id as int] + 1
                &&& tr == 1 ==> final(self).threads@[w].need@[sem_id as int] == old(self).threads@[w].need@[sem_id as int] - 1
                &&& ret == 0 && tr == 0 ==> final(self).threads@ == old(self).threads@
            }),
            final(self).threads@.len() == old(self).threads@.len(),
            forall|t: int|
                0 <= t < old(self).threads@.len() ==> (#[trigger] final(self).threads@[t]).status == old(self).threads@[t].status
                    && final(self).threads@[t].trap_cx == old(self).threads@[t].trap_cx,
            final(self).semaphore_list@.len() == old(self).semaphore_list@.len(),
            forall|s: int| 0 <= s < old(self).semaphore_list@.len() && s != sem_id ==> #[trigger] final(self).semaphore_list@[s] == old(self).semaphore_list@[s],
            final(self).semaphore_list@[sem_id as int].is_some(),
            final(self).pid == old(self).pid,
            final(self).is_zombie == old(self).is_zombie,
            final(self).deadlock_detect == old(self).deadlock_detect,
            final(self).sem_total@ == old(self).sem_total@,
            final(self).mutex_list@ == old(self).mutex_list@,
            final(self).condvar_list@ == old(self).condvar_list@,
            final(self).children@ == old(self).children@,
            final(self).memory_set == old(self).memory_set,
    {
        let detect = self.deadlock_detect && sem_id != 0;
        if detect && tid != 0 && self.threads[tid].allocate[sem_id] > 0 {
            proof {
                assert(thread_wf(self.threads@[tid as int], tid as int, self.semaphore_list@.len() as int));
                assert(units_conserved(*self, sem_id as int));
                lemma_alloc_sum_bounds(self.threads@, tid as int, sem_id as int);
            }
            let ghost before = *self;
            let free = self.work[sem_id];
            self.work[sem_id] = free + 1;
            let held = self.threads[tid].allocate[sem_id];
            self.threads[tid].allocate[sem_id] = held - 1;
            proof {
                assert forall|s: int| 0 <= s < self.semaphore_list@.len() implies #[trigger] units_conserved(*self, s) by {
                    assert(units_conserved(before, s));
                    lemma_alloc_sum_update(before.threads@, tid as int, self.threads@[tid as int], s);
                }
                assert forall|t: int| 0 <= t < self.threads@.len() implies thread_wf(#[trigger] self.threads@[t], t, self.semaphore_list@.len() as int) by {
                    assert(thread_wf(before.threads@[t], t, self.semaphore_list@.len() as int));
                }
            }
        }
        let ghost mid = *self;
        let woken = match &mut self.semaphore_list[sem_id] {
            Some(sem) => sem.up(),
            None => None,
        };
        proof {
            assert forall|s: int| 0 <= s < self.semaphore_list@.len() implies #[trigger] units_conserved(*self, s) by {
                assert(units_conserved(mid, s));
            }
        }
        if let Some(w) = woken {
            if detect && w != 0 && w < self.threads.len() && self.work[sem_id] > 0 {
                assert(thread_wf(self.threads@[w as int], w as int, self.semaphore_list@.len() as int));
                if self.threads[w].need[sem_id] > 0 {
                    proof {
                        assert(units_conserved(*self, sem_id as int));
                        lemma_alloc_sum_bounds(self.threads@, w as int, sem_id as int);
                    }
                    let ghost before = *self;
                    let free = self.work[sem_id];
                    self.work[sem_id] = free - 1;
                    let held = self.threads[w].allocate[sem_id];
                    self.threads[w].allocate[sem_id] = held + 1;
                    let wanted = self.threads[w].need[sem_id];
                    self.threads[w].need[sem_id] = wanted - 1;
                    proof {
                        assert(self.threads@ =~= before.threads@.update(w as int, self.threads@[w as int]));
                        assert forall|s: int| 0 <= s < self.semaphore_list@.len() implies #[trigger] units_conserved(*self, s) by {
                            assert(units_conserved(before, s));
                            lemma_alloc_sum_update(before.threads@, w as int, self.threads@[w as int], s);
                        }
                        assert forall|t: int| 0 <= t < self.threads@.len() implies thread_wf(#[trigger] self.threads@[t], t, self.semaphore_list@.len() as int) by {
                            assert(thread_wf(before.threads@[t], t, self.semaphore_list@.len() as int));
                        }
                    }
                }
            }
        }
        proof {
            let ret: int = if up_returns(*old(self), tid as int, sem_id as int) { 1 } else { 0 };
            let tr: int = if up_transfers(*old(self), tid as int, sem_id as int, woken) { 1 } else { 0 };
            assert(self.work@ =~= old(self).work@.update(sem_id as int, (old(self).work@[sem_id as int] + ret - tr) as usize));
        }
        woken
    }

    /// Creates a mutex of the given variant in the first free slot and returns its id.
    pub fn mutex_create(&mut self, blocking: bool) -> (id: usize)
        requires
            old(self).wf(),
        ensures
            final(self).wf(),
            is_first_free(old(self).mutex_list@, id as int),
            final(self).mutex_list@.len() == if id < old(self).mutex_list@.len() {
                old(self).mutex_list@.len()
            } else {
                old(self).mutex_list@.len() + 1
            },
            forall|m: int| 0 <= m < final(self).mutex_list@.len() && m != id ==> #[trigger] final(self).mutex_list@[m] == old(self).mutex_list@[m],
            final(self).mutex_list@[id as int] matches Some(mx) && mx.blocking == blocking && !mx.locked
                && mx.wait_queue@.len() == 0,
            final(self).threads@ == old(self).threads@,
            final(self).pid == old(self).pid,
            final(self).is_zombie == old(self).is_zombie,
            final(self).semaphore_list@ == old(self).semaphore_list@,
            final(self).condvar_list@ == old(self).condvar_list@,
            final(self).children@ == old(self).children@,
    {
        let id = free_slot(&self.mutex_list);
        let ghost before = *self;
        if id < self.mutex_list.len() {
            self.mutex_list[id] = Some(Mutex::new(blocking));
        } else {
            self.mutex_list.push(Some(Mutex::new(blocking)));
        }
        assert forall|s: int| 0 <= s < self.semaphore_list@.len() implies #[trigger] units_conserved(*self, s) by {
            assert(units_conserved(before, s));
        }
        id
    }

    /// Creates a condition variable in the first free slot and returns its id.
    pub fn condvar_create(&mut self) -> (id: usize)
        requires
            old(self).wf(),
        ensures
            final(self).wf(),
            is_first_free(old(self).condvar_list@, id as int),
            final(self).condvar_list@.len() == if id < old(self).condvar_list@.len() {
                old(self).condvar_list@.len()
            } else {
                old(self).condvar_list@.len() + 1
            },
            forall|c: int| 0 <= c < final(self).condvar_list@.len() && c != id ==> #[trigger] final(self).condvar_list@[c] == old(self).condvar_list@[c],
            final(self).condvar_list@[id as int] matches Some(cv) && cv.wait_queue@.len() == 0,
            final(self).threads@ == old(self).threads@,
            final(self).pid == old(self).pid,
            final(self).is_zombie == old(self).is_zombie,
            final(self).semaphore_list@ == old(self).semaphore_list@,
            final(self).mutex_list@ == old(self).mutex_list@,
            final(self).children@ == old(self).children@,
    {
        let id = free_slot(&self.condvar_list);
        let ghost before = *self;
        if id < self.condvar_list.len() {
            self.condvar_list[id] = Some(Condvar::new());
        } else {
            self.condvar_list.push(Some(Condvar::new()));
        }
        assert forall|s: int| 0 <= s < self.semaphore_list@.len() implies #[trigger] units_conserved(*self, s) by {
            assert(units_conserved(before, s));
        }
        id
    }

    /// Moves the program break by `delta` bytes and returns the old break;
    /// `None`, with nothing changed, when the new break would fall below the
    /// heap's bottom or past the signed word range.
    pub fn change_program_brk(&mut self, delta: i32) -> (r: Option<usize>)
        requires
            old(self).wf(),
        ensures
            final(self).wf(),
            ({
                let nb = old(self).program_brk + delta;
                if old(self).heap_bottom <= nb <= isize::MAX {
                    r == Some(old(self).program_brk) && final(self).program_brk == nb
                } else {
                    r.is_none() && *final(self) == *old(self)
                }
            }),
            final(self).heap_bottom == old(self).heap_bottom,
            final(self).threads@ == old(self).threads@,
            final(self).pid == old(self).pid,
            final(self).is_zombie == old(self).is_zombie,
            final(self).semaphore_list@ == old(self).semaphore_list@,
            final(self).children@ == old(self).children@,
    {
        let old_brk = self.program_brk;
        let nb: usize;
        if delta >= 0 {
            let d = delta as usize;
            if d > (isize::MAX as usize) - old_brk {
                return None;
            }
            nb = old_brk + d;
        } else {
            let d = (-(delta as i64)) as usize;
            if d > old_brk - self.heap_bottom {
                return None;
            }
            nb = old_brk - d;
        }
        let ghost before = *self;
        self.program_brk = nb;
        assert forall|s: int| 0 <= s < self.semaphore_list@.len() implies #[trigger] units_conserved(*self, s) by {
            assert(units_conserved(before, s));
        }
        Some(old_brk)
    }
}

impl Process {
    /// Sets the status of thread `tid`; nothing else changes.
    pub fn set_thread_status(&mut self, tid: usize, status: TaskStatus)
        requires
            old(self).wf(),
            tid < old(self).threads@.len(),
        ensures
            final(self).wf(),
            final(self).threads@.len() == old(self).threads@.len(),
            final(self).threads@[tid as int].status == status,
            final(self).threads@[tid as int].spinning_on == old(self).threads@[tid as int].spinning_on,
            proc_kept(*old(self), *final(self)),
            final(self).mutex_list@ == old(self).mutex_list@,
            forall|t: int| 0 <= t < old(self).threads@.len() && t != tid ==> #[trigger] final(self).threads@[t] == old(self).threads@[t],
            final(self).threads@[tid as int].trap_cx == old(self).threads@[tid as int].trap_cx,
            final(self).pid == old(self).pid,
            final(self).parent == old(self).parent,
            final(self).is_zombie == old(self).is_zombie,
            final(self).exit_code == old(self).exit_code,
            final(self).deadlock_detect == old(self).deadlock_detect,
            final(self).work@ == old(self).work@,
            final(self).semaphore_list@ == old(self).semaphore_list@,
            final(self).mutex_list@ == old(self).mutex_list@,
            final(self).condvar_list@ == old(self).condvar_list@,
            final(self).children@ == old(self).children@,
            final(self).memory_set == old(self).memory_set,
    {
        let ghost before = *self;
        self.threads[tid].status = status;
        proof {
            assert forall|s: int| 0 <= s < self.semaphore_list@.len() implies #[trigger] units_conserved(*self, s) by {
                assert(units_conserved(before, s));
                lemma_alloc_sum_update(before.threads@, tid as int, self.threads@[tid as int], s);
                assert(self.threads@ =~= before.threads@.update(tid as int, self.threads@[tid as int]));
            }
            assert forall|t: int| 0 <= t < self.threads@.len() implies thread_wf(#[trigger] self.threads@[t], t, self.semaphore_list@.len() as int) by {
                assert(thread_wf(before.threads@[t], t, self.semaphore_list@.len() as int));
            }
        }
    }

    /// Records on thread `tid` the spinning mutex it yields on (or none).
    pub fn set_spinning(&mut self, tid: usize, m: Option<usize>)
        requires
            old(self).wf(),
            tid < old(self).threads@.len(),
        ensures
            final(self).wf(),
            final(self).threads@.len() == old(self).threads@.len(),
            final(self).threads@[tid as int].spinning_on == m,
            proc_kept(*old(self), *final(self)),
            final(self).threads@[tid as int].status == old(self).threads@[tid as int].status,
            forall|t: int| 0 <= t < old(self).threads@.len() && t != tid ==> #[trigger] final(self).threads@[t] == old(self).threads@[t],
            final(self).pid == old(self).pid,
            final(self).is_zombie == old(self).is_zombie,
            final(self).semaphore_list@ == old(self).semaphore_list@,
            final(self).mutex_list@ == old(self).mutex_list@,
            final(self).children@ == old(self).children@,
    {
        let ghost before = *self;
        self.threads[tid].spinning_on = m;
        proof {
            assert forall|s: int| 0 <= s < self.semaphore_list@.len() implies #[trigger] units_conserved(*self, s) by {
                assert(units_conserved(before, s));
                lemma_alloc_sum_update(before.threads@, tid as int, self.threads@[tid as int], s);
                assert(self.threads@ =~= before.threads@.update(tid as int, self.threads@[tid as int]));
            }
            assert forall|t: int| 0 <= t < self.threads@.len() implies thread_wf(#[trigger] self.threads@[t], t, self.semaphore_list@.len() as int) by {
                assert(thread_wf(before.threads@[t], t, self.semaphore_list@.len() as int));
            }
        }
    }

    /// Whether every thread has exited.
    pub fn all_threads_exited(&self) -> (r: bool)
        ensures
            r == forall|t: int| 0 <= t < self.threads@.len() ==> #[trigger] self.threads@[t].status == TaskStatus::Zombie,
    {
        let mut i: usize = 0;
        while i < self.threads.len()
            invariant
                i <= self.threads@.len(),
                forall|t: int| 0 <= t < i ==> #[trigger] self.threads@[t].status == TaskStatus::Zombie,
            decreases self.threads@.len() - i,
        {
            if self.threads[i].status != TaskStatus::Zombie {
                return false;
            }
            i = i + 1;
        }
        true
    }
}

impl Process {
    /// Thread `tid`, dispatched after yielding on spinning mutex `m`, tries it
    /// again: takes it when free (or gone) and stops spinning; `false` when
    /// it is still held.
    pub fn take_spin_mutex(&mut self, tid: usize, m: usize) -> (taken: bool)
        requires
            old(self).wf(),
            tid < old(self).threads@.len(),
        ensures
            final(self).wf(),
            final(self).threads@.len() == old(self).threads@.len(),
            forall|t: int| 0 <= t < old(self).threads@.len() ==> (#[trigger] final(self).threads@[t]).status == old(self).threads@[t].status,
            final(self).pid == old(self).pid,
            final(self).is_zombie == old(self).is_zombie,
            final(self).children@ == old(self).children@,
            final(self).semaphore_list@ == old(self).semaphore_list@,
            final(self).mutex_list@.len() == old(self).mutex_list@.len(),
            taken == !(m < old(self).mutex_list@.len() && (old(self).mutex_list@[m as int] matches Some(mx) && mx.locked)),
            taken ==> final(self).threads@[tid as int].spinning_on.is_none(),
            !taken ==> final(self).mutex_list@ == old(self).mutex_list@,
            forall|i: int| 0 <= i < old(self).mutex_list@.len() && i != m ==> #[trigger] final(self).mutex_list@[i] == old(self).mutex_list@[i],
            m < old(self).mutex_list@.len() && old(self).mutex_list@[m as int].is_some() ==> (final(self).mutex_list@[m as int] matches Some(mx) && mx.locked),
            proc_kept(*old(self), *final(self)),
            taken && m < old(self).mutex_list@.len() && old(self).mutex_list@[m as int].is_some()
                ==> (final(self).mutex_list@[m as int] matches Some(mx) && mx.locked),
    {
        if m < self.mutex_list.len() {
            let held = match &self.mutex_list[m] {
                Some(mx) => mx.locked,
                None => false,
            };
            if held {
                return false;
            }
            let ghost before = *self;
            match &mut self.mutex_list[m] {
                Some(mx) => {
                    mx.locked = true;
                },
                None => {},
            }
            assert forall|s: int| 0 <= s < self.semaphore_list@.len() implies #[trigger] units_conserved(*self, s) by {
                assert(units_conserved(before, s));
            }
        }
        self.set_spinning(tid, None);
        true
    }
}

/// Mutex `id` of `p`.
pub open spec fn mutex_of(p: Process, id: int) -> Mutex {
    p.mutex_list@[id]->0
}

/// Condition variable `id` of `p`.
pub open spec fn condvar_of(p: Process, id: int) -> Condvar {
    p.condvar_list@[id]->0
}

/// Only the mutex at `id` may differ between the two tables; it exists in both.
pub open spec fn mutexes_kept_but(a: Seq<Option<Mutex>>, b: Seq<Option<Mutex>>, id: int) -> bool {
    &&& a.len() == b.len()
    &&& b[id].is_some()
    &&& forall|m: int| 0 <= m < a.len() && m != id ==> #[trigger] b[m] == a[m]
}

impl Process {
    /// Thread `tid` asks for mutex `id`; see [`Mutex::lock`].
    pub fn lock_mutex(&mut self, tid: usize, id: usize) -> (r: LockOutcome)
        requires
            old(self).wf(),
            id < old(self).mutex_list@.len(),
            old(self).mutex_list@[id as int].is_some(),
        ensures
            final(self).wf(),
            core_kept(*old(self), *final(self)),
            final(self).threads@ == old(self).threads@,
            mutexes_kept_but(old(self).mutex_list@, final(self).mutex_list@, id as int),
            mutex_of(*final(self), id as int).blocking == mutex_of(*old(self), id as int).blocking,
            !mutex_of(*old(self), id as int).locked ==> r == LockOutcome::Acquired && mutex_of(*final(self), id as int).locked
                && mutex_of(*final(self), id as int).wait_queue@ == mutex_of(*old(self), id as int).wait_queue@,
            mutex_of(*old(self), id as int).locked && mutex_of(*old(self), id as int).blocking ==> r == LockOutcome::Blocked
                && mutex_of(*final(self), id as int).locked
                && mutex_of(*final(self), id as int).wait_queue@ == mutex_of(*old(self), id as int).wait_queue@.push(tid),
            mutex_of(*old(self), id as int).locked && !mutex_of(*old(self), id as int).blocking ==> r == LockOutcome::Spin
                && mutex_of(*final(self), id as int).locked
                && mutex_of(*final(self), id as int).wait_queue@ == mutex_of(*old(self), id as int).wait_queue@,
    {
        let ghost before = *self;
        let r = match &mut self.mutex_list[id] {
            Some(m) => m.lock(tid),
            None => LockOutcome::Acquired,
        };
        assert forall|s: int| 0 <= s < self.semaphore_list@.len() implies #[trigger] units_conserved(*self, s) by {
            assert(units_conserved(before, s));
        }
        r
    }

    /// Releases mutex `id`; see [`Mutex::unlock`]. Returns the thread to wake.
    pub fn unlock_mutex(&mut self, id: usize) -> (woken: Option<usize>)
        requires
            old(self).wf(),
            id < old(self).mutex_list@.len(),
            old(self).mutex_list@[id as int].is_some(),
        ensures
            final(self).wf(),
            core_kept(*old(self), *final(self)),
            final(self).threads@ == old(self).threads@,
            mutexes_kept_but(old(self).mutex_list@, final(self).mutex_list@, id as int),
            mutex_of(*final(self), id as int).blocking == mutex_of(*old(self), id as int).blocking,
            mutex_of(*old(self), id as int).blocking && mutex_of(*old(self), id as int).wait_queue@.len() > 0
                ==> woken == Some(mutex_of(*old(self), id as int).wait_queue@[0]) && mutex_of(*final(self), id as int).locked
                && mutex_of(*final(self), id as int).wait_queue@ == mutex_of(*old(self), id as int).wait_queue@.drop_first(),
            !(mutex_of(*old(self), id as int).blocking && mutex_of(*old(self), id as int).wait_queue@.len() > 0)
                ==> woken.is_none() && !mutex_of(*final(self), id as int).locked
                && mutex_of(*final(self), id as int).wait_queue@ == mutex_of(*old(self), id as int).wait_queue@,
    {
        let ghost before = *self;
        let r = match &mut self.mutex_list[id] {
            Some(m) => m.unlock(),
            None => None,
        };
        assert forall|s: int| 0 <= s < self.semaphore_list@.len() implies #[trigger] units_conserved(*self, s) by {
            assert(units_conserved(before, s));
        }
        r
    }

    /// Removes the head waiter of condition variable `id`, to be woken.
    pub fn signal_condvar(&mut self, id: usize) -> (woken: Option<usize>)
        requires
            old(self).wf(),
            id < old(self).condvar_list@.len(),
            old(self).condvar_list@[id as int].is_some(),
        ensures
            final(self).wf(),
            final(self).threads@ == old(self).threads@,
            final(self).mutex_list@ == old(self).mutex_list@,
            final(self).semaphore_list@ == old(self).semaphore_list@,
            final(self).pid == old(self).pid,
            final(self).children@ == old(self).children@,
            final(self).is_zombie == old(self).is_zombie,
            final(self).condvar_list@.len() == old(self).condvar_list@.len(),
            final(self).condvar_list@[id as int].is_some(),
            forall|c: int| 0 <= c < old(self).condvar_list@.len() && c != id ==> #[trigger] final(self).condvar_list@[c] == old(self).condvar_list@[c],
            condvar_of(*old(self), id as int).wait_queue@.len() > 0 ==> woken == Some(condvar_of(*old(self), id as int).wait_queue@[0])
                && condvar_of(*final(self), id as int).wait_queue@ == condvar_of(*old(self), id as int).wait_queue@.drop_first(),
            condvar_of(*old(self), id as int).wait_queue@.len() == 0 ==> woken.is_none()
                && condvar_of(*final(self), id as int).wait_queue@ == condvar_of(*old(self), id as int).wait_queue@,
    {
        let ghost before = *self;
        let r = match &mut self.condvar_list[id] {
            Some(c) => c.signal(),
            None => None,
        };
        assert forall|s: int| 0 <= s < self.semaphore_list@.len() implies #[trigger] units_conserved(*self, s) by {
            assert(units_conserved(before, s));
        }
        r
    }

    /// Thread `tid` joins the queue of condition variable `id`.
    pub fn wait_condvar(&mut self, id: usize, tid: usize)
        requires
            old(self).wf(),
            id < old(self).condvar_list@.len(),
            old(self).condvar_list@[id as int].is_some(),
        ensures
            final(self).wf(),
            final(self).threads@ == old(self).threads@,
            final(self).mutex_list@ == old(self).mutex_list@,
            final(self).semaphore_list@ == old(self).semaphore_list@,
            final(self).pid == old(self).pid,
            final(self).children@ == old(self).children@,
            final(self).is_zombie == old(self).is_zombie,
            final(self).condvar_list@.len() == old(self).condvar_list@.len(),
            final(self).condvar_list@[id as int].is_some(),
            forall|c: int| 0 <= c < old(self).condvar_list@.len() && c != id ==> #[trigger] final(self).condvar_list@[c] == old(self).condvar_list@[c],
            condvar_of(*final(self), id as int).wait_queue@ == condvar_of(*old(self), id as int).wait_queue@.push(tid),
    {
        let ghost before = *self;
        match &mut self.condvar_list[id] {
            Some(c) => c.wait(tid),
            None => {},
        }
        assert forall|s: int| 0 <= s < self.semaphore_list@.len() implies #[trigger] units_conserved(*self, s) by {
            assert(units_conserved(before, s));
        }
    }

    /// Turns deadlock detection on.
    pub fn enable_deadlock_detect(&mut self)
        requires
            old(self).wf(),
        ensures
            final(self).wf(),
            final(self).deadlock_detect,
            final(self).threads@ == old(self).threads@,
            final(self).semaphore_list@ == old(self).semaphore_list@,
            final(self).work@ == old(self).work@,
            final(self).pid == old(self).pid,
            final(self).children@ == old(self).children@,
            final(self).is_zombie == old(self).is_zombie,
    {
        let ghost before = *self;
        self.deadlock_detect = true;
        assert forall|s: int| 0 <= s < self.semaphore_list@.len() implies #[trigger] units_conserved(*self, s) by {
            assert(units_conserved(before, s));
        }
    }
}

/// Common frame of the process methods below: identity, tree links and
/// synchronization state are kept.
pub open spec fn sync_kept(a: Process, b: Process) -> bool {
    &&& b.pid == a.pid
    &&& b.parent == a.parent
    &&& b.is_zombie == a.is_zombie
    &&& b.exit_code == a.exit_code
    &&& b.semaphore_list@ == a.semaphore_list@
    &&& b.mutex_list@ == a.mutex_list@
    &&& b.condvar_list@ == a.condvar_list@
    &&& b.deadlock_detect == a.deadlock_detect
    &&& b.work@ == a.work@
    &&& b.sem_total@ == a.sem_total@
    &&& b.threads@.len() == a.threads@.len()
}

impl Process {
    /// Records `pid` as the newest child.
    pub fn add_child(&mut self, pid: usize)
        requires
            old(self).wf(),
        ensures
            final(self).wf(),
            sync_kept(*old(self), *final(self)),
            final(self).threads@ == old(self).threads@,
            final(self).memory_set == old(self).memory_set,
            final(self).children@ == old(self).children@.push(pid),
    {
        let ghost before = *self;
        self.children.push(pid);
        assert forall|s: int| 0 <= s < self.semaphore_list@.len() implies #[trigger] units_conserved(*self, s) by {
            assert(units_conserved(before, s));
        }
    }

    /// Drops the child at position `i` of the child list.
    pub fn remove_child(&mut self, i: usize)
        requires
            old(self).wf(),
            i < old(self).children@.len(),
        ensures
            final(self).wf(),
            sync_kept(*old(self), *final(self)),
            final(self).threads@ == old(self).threads@,
            final(self).memory_set == old(self).memory_set,
            final(self).children@ == old(self).children@.remove(i as int),
    {
        let ghost before = *self;
        self.children.remove(i);
        assert forall|s: int| 0 <= s < self.semaphore_list@.len() implies #[trigger] units_conserved(*self, s) by {
            assert(units_conserved(before, s));
        }
    }

    /// Maps a range in the address space; see [`MemorySet::mmap`].
    pub fn mmap(&mut self, start: usize, len: usize, prot: usize) -> (r: isize)
        requires
            old(self).wf(),
        ensures
            final(self).wf(),
            sync_kept(*old(self), *final(self)),
            final(self).threads@ == old(self).threads@,
            final(self).children@ == old(self).children@,
            r == 0 || r == -1,
            (r == 0) == mmap_succeeds(old(self).memory_set.areas@, start as int, len as int, prot as int),
            final(self).memory_set.areas@ == mmap_result(old(self).memory_set.areas@, start as int, len as int, prot as int),
            r == -1 ==> *final(self) == *old(self),
    {
        let ghost before = *self;
        let r = self.memory_set.mmap(start, len, prot);
        assert forall|s: int| 0 <= s < self.semaphore_list@.len() implies #[trigger] units_conserved(*self, s) by {
            assert(units_conserved(before, s));
        }
        r
    }

    /// Unmaps an exactly matching area; see [`MemorySet::munmap`].
    pub fn munmap(&mut self, start: usize, len: usize) -> (r: isize)
        requires
            old(self).wf(),
        ensures
            final(self).wf(),
            sync_kept(*old(self), *final(self)),
            final(self).threads@ == old(self).threads@,
            final(self).children@ == old(self).children@,
            r == 0 || r == -1,
            (r == 0) == (first_exact(old(self).memory_set.areas@, start as int, len as int) < old(self).memory_set.areas@.len()),
            final(self).memory_set.areas@ == munmap_result(old(self).memory_set.areas@, start as int, len as int),
            r == -1 ==> *final(self) == *old(self),
    {
        let ghost before = *self;
        let r = self.memory_set.munmap(start, len);
        assert forall|s: int| 0 <= s < self.semaphore_list@.len() implies #[trigger] units_conserved(*self, s) by {
            assert(units_conserved(before, s));
        }
        r
    }

    /// Sets the scheduling priority of thread `tid`.
    pub fn set_priority(&mut self, tid: usize, prio: usize)
        requires
            old(self).wf(),
            tid < old(self).threads@.len(),
        ensures
            final(self).wf(),
            sync_kept(*old(self), *final(self)),
            final(self).children@ == old(self).children@,
            final(self).memory_set == old(self).memory_set,
            final(self).threads@[tid as int].priority == prio,
            forall|t: int| 0 <= t < old(self).threads@.len() ==> (#[trigger] final(self).threads@[t]).status == old(self).threads@[t].status,
    {
        let ghost before = *self;
        self.threads[tid].priority = prio;
        proof {
            assert forall|s: int| 0 <= s < self.semaphore_list@.len() implies #[trigger] units_conserved(*self, s) by {
                assert(units_conserved(before, s));
                lemma_alloc_sum_update(before.threads@, tid as int, self.threads@[tid as int], s);
                assert(self.threads@ =~= before.threads@.update(tid as int, self.threads@[tid as int]));
            }
            assert forall|t: int| 0 <= t < self.threads@.len() implies thread_wf(#[trigger] self.threads@[t], t, self.semaphore_list@.len() as int) by {
                assert(thread_wf(before.threads@[t], t, self.semaphore_list@.len() as int));
            }
        }
    }

    /// Replaces the address space, the heap and the context of thread `tid`
    /// with a freshly loaded program's; identity and tree links stay.
    pub fn exec(&mut self, tid: usize, memory_set: MemorySet, heap_bottom: usize, trap_cx: TrapContext)
        requires
            old(self).wf(),
            tid < old(self).threads@.len(),
            memory_set.wf(),
            heap_bottom <= isize::MAX,
            trap_cx.wf(),
        ensures
            final(self).wf(),
            sync_kept(*old(self), *final(self)),
            final(self).children@ == old(self).children@,
            final(self).memory_set == memory_set,
            final(self).heap_bottom == heap_bottom,
            final(self).program_brk == heap_bottom,
            final(self).threads@[tid as int].trap_cx == trap_cx,
            forall|t: int| 0 <= t < old(self).threads@.len() ==> (#[trigger] final(self).threads@[t]).status == old(self).threads@[t].status,
    {
        let ghost before = *self;
        self.memory_set = memory_set;
        self.heap_bottom = heap_bottom;
        self.program_brk = heap_bottom;
        self.threads[tid].trap_cx = trap_cx;
        proof {
            assert forall|s: int| 0 <= s < self.semaphore_list@.len() implies #[trigger] units_conserved(*self, s) by {
                assert(units_conserved(before, s));
                lemma_alloc_sum_update(before.threads@, tid as int, self.threads@[tid as int], s);
                assert(self.threads@ =~= before.threads@.update(tid as int, self.threads@[tid as int]));
            }
            assert forall|t: int| 0 <= t < self.threads@.len() implies thread_wf(#[trigger] self.threads@[t], t, self.semaphore_list@.len() as int) by {
                assert(thread_wf(before.threads@[t], t, self.semaphore_list@.len() as int));
            }
        }
    }

    /// Thread `tid` exits: it becomes a zombie, and when no other thread is
    /// left running the process becomes a zombie with `exit_code`.
    pub fn exit_thread(&mut self, tid: usize, exit_code: i32)
        requires
            old(self).wf(),
            tid < old(self).threads@.len(),
        ensures
            final(self).mutex_list@ == old(self).mutex_list@,
            final(self).threads@[tid as int].spinning_on == old(self).threads@[tid as int].spinning_on,
            final(self).wf(),
            final(self).pid == old(self).pid,
            final(self).parent == old(self).parent,
            final(self).children@ == old(self).children@,
            final(self).threads@.len() == old(self).threads@.len(),
            final(self).threads@[tid as int].status == TaskStatus::Zombie,
            forall|t: int| 0 <= t < old(self).threads@.len() && t != tid ==> #[trigger] final(self).threads@[t] == old(self).threads@[t],
            ({
                let last = forall|t: int| 0 <= t < old(self).threads@.len() && t != tid ==> #[trigger] old(self).threads@[t].status == TaskStatus::Zombie;
                &&& last ==> final(self).is_zombie && final(self).exit_code == exit_code
                &&& !last ==> final(self).is_zombie == old(self).is_zombie && final(self).exit_code == old(self).exit_code
            }),
    {
        self.set_thread_status(tid, TaskStatus::Zombie);
        if self.all_threads_exited() {
            let ghost before = *self;
            self.is_zombie = true;
            self.exit_code = exit_code;
            assert forall|s: int| 0 <= s < self.semaphore_list@.len() implies #[trigger] units_conserved(*self, s) by {
                assert(units_conserved(before, s));
            }
        }
        proof {
            let last = forall|t: int| 0 <= t < old(self).threads@.len() && t != tid ==> #[trigger] old(self).threads@[t].status == TaskStatus::Zombie;
            if !last {
                let t = choose|t: int| 0 <= t < old(self).threads@.len() && t != tid && #[trigger] old(self).threads@[t].status != TaskStatus::Zombie;
                assert(self.threads@[t] == old(self).threads@[t]);
            }
        }
    }
}

/// The copy a child gets of a mutex: same variant and lock state, no waiter.
pub open spec fn mutex_copied(a: Option<Mutex>, b: Option<Mutex>) -> bool {
    match a {
        None => b.is_none(),
        Some(m) => b matches Some(n) && n.blocking == m.blocking && n.locked == m.locked && n.wait_queue@.len() == 0,
    }
}

/// The copy a child gets of a semaphore: the free units (a negative count,
/// which stands for the parent's waiters, becomes 0), no waiter.
pub open spec fn semaphore_copied(a: Option<Semaphore>, b: Option<Semaphore>) -> bool {
    match a {
        None => b.is_none(),
        Some(m) => b matches Some(n) && n.inner.count == (if m.inner.count < 0 {
            0
        } else {
            m.inner.count
        }) && n.inner.wait_queue@.len() == 0,
    }
}

/// The copy a child gets of a condition variable: no waiter.
pub open spec fn condvar_copied(a: Option<Condvar>, b: Option<Condvar>) -> bool {
    match a {
        None => b.is_none(),
        Some(_) => b matches Some(n) && n.wait_queue@.len() == 0,
    }
}

fn copy_mutexes(list: &Vec<Option<Mutex>>) -> (r: Vec<Option<Mutex>>)
    ensures
        r@.len() == list@.len(),
        forall|i: int| 0 <= i < list@.len() ==> mutex_copied(#[trigger] list@[i], r@[i]),
{
    let mut r: Vec<Option<Mutex>> = Vec::new();
    let mut i: usize = 0;
    while i < list.len()
        invariant
            i <= list@.len(),
            r@.len() == i,
            forall|j: int| 0 <= j < i ==> mutex_copied(#[trigger] list@[j], r@[j]),
        decreases list@.len() - i,
    {
        match &list[i] {
            None => r.push(None),
            Some(m) => r.push(Some(Mutex { blocking: m.blocking, locked: m.locked, wait_queue: Vec::new() })),
        }
        i = i + 1;
    }
    r
}

fn copy_semaphores(list: &Vec<Option<Semaphore>>) -> (r: Vec<Option<Semaphore>>)
    ensures
        r@.len() == list@.len(),
        forall|i: int| 0 <= i < list@.len() ==> semaphore_copied(#[trigger] list@[i], r@[i]),
{
    let mut r: Vec<Option<Semaphore>> = Vec::new();
    let mut i: usize = 0;
    while i < list.len()
        invariant
            i <= list@.len(),
            r@.len() == i,
            forall|j: int| 0 <= j < i ==> semaphore_copied(#[trigger] list@[j], r@[j]),
        decreases list@.len() - i,
    {
        match &list[i] {
            None => r.push(None),
            Some(m) => {
                let count = if m.inner.count < 0 {
                    0
                } else {
                    m.inner.count
                };
                r.push(Some(Semaphore { inner: SemaphoreInner { count, wait_queue: Vec::new() } }));
            },
        }
        i = i + 1;
    }
    r
}

fn copy_condvars(list: &Vec<Option<Condvar>>) -> (r: Vec<Option<Condvar>>)
    ensures
        r@.len() == list@.len(),
        forall|i: int| 0 <= i < list@.len() ==> condvar_copied(#[trigger] list@[i], r@[i]),
{
    let mut r: Vec<Option<Condvar>> = Vec::new();
    let mut i: usize = 0;
    while i < list.len()
        invariant
            i <= list@.len(),
            r@.len() == i,
            forall|j: int| 0 <= j < i ==> condvar_copied(#[trigger] list@[j], r@[j]),
        decreases list@.len() - i,
    {
        match &list[i] {
            None => r.push(None),
            Some(_) => r.push(Some(Condvar::new())),
        }
        i = i + 1;
    }
    r
}

impl Process {
    /// The child that forking thread `tid` creates, at `child_pid`: a copy of
    /// the address space, heap and synchronization tables (objects keep their
    /// state but not their waiters), and one ready thread resuming from a copy
    /// of the caller's context whose return-value register reads 0. The
    /// child's thread holds the units the caller holds, so each semaphore's
    /// count in the child is its free units plus those.
    pub fn fork_child(&self, tid: usize, child_pid: usize) -> (c: Process)
        requires
            self.wf(),
            tid < self.threads@.len(),
        ensures
            c.wf(),
            c.pid == child_pid,
            c.parent == Some(self.pid),
            c.children@.len() == 0,
            !c.is_zombie,
            c.memory_set.areas@ == self.memory_set.areas@,
            c.heap_bottom == self.heap_bottom,
            c.program_brk == self.program_brk,
            c.threads@.len() == 1,
            c.threads@[0].status == TaskStatus::Ready,
            c.threads@[0].trap_cx.x@ == self.threads@[tid as int].trap_cx.x@.update(REG_A0 as int, 0),
            c.threads@[0].trap_cx.sepc == self.threads@[tid as int].trap_cx.sepc,
            c.threads@[0].allocate@ == self.threads@[tid as int].allocate@,
            c.deadlock_detect == self.deadlock_detect,
            c.work@ == self.work@,
            c.mutex_list@.len() == self.mutex_list@.len(),
            forall|i: int| 0 <= i < self.mutex_list@.len() ==> mutex_copied(#[trigger] self.mutex_list@[i], c.mutex_list@[i]),
            c.semaphore_list@.len() == self.semaphore_list@.len(),
            forall|i: int| 0 <= i < self.semaphore_list@.len() ==> semaphore_copied(#[trigger] self.semaphore_list@[i], c.semaphore_list@[i]),
            c.condvar_list@.len() == self.condvar_list@.len(),
            forall|i: int| 0 <= i < self.condvar_list@.len() ==> condvar_copied(#[trigger] self.condvar_list@[i], c.condvar_list@[i]),
    {
        proof {
            assert(thread_wf(self.threads@[tid as int], tid as int, self.semaphore_list@.len() as int));
        }
        let caller = &self.threads[tid];
        let mut cx = caller.trap_cx.duplicate();
        cx.x[REG_A0] = 0;
        let n = self.semaphore_list.len();
        let mut sem_total: Vec<usize> = Vec::new();
        let mut s: usize = 0;
        while s < n
            invariant
                self.wf(),
                n == self.semaphore_list@.len(),
                tid < self.threads@.len(),
                caller == self.threads@[tid as int],
                s <= n,
                sem_total@.len() == s,
                forall|j: int| 0 <= j < s ==> #[trigger] sem_total@[j] == self.work@[j] + caller.allocate@[j],
            decreases n - s,
        {
            proof {
                assert(units_conserved(*self, s as int));
                assert(thread_wf(self.threads@[tid as int], tid as int, n as int));
                lemma_alloc_sum_bounds(self.threads@, tid as int, s as int);
            }
            sem_total.push(self.work[s] + caller.allocate[s]);
            s = s + 1;
        }
        let th = Thread {
            tid: 0,
            status: TaskStatus::Ready,
            trap_cx: cx,
            allocate: copy_words(&caller.allocate),
            need: zeros(n),
            priority: DEFAULT_PRIORITY,
            spinning_on: None,
        };
        let mut threads: Vec<Thread> = Vec::new();
        threads.push(th);
        let c = Process {
            pid: child_pid,
            parent: Some(self.pid),
            children: Vec::new(),
            memory_set: self.memory_set.duplicate(),
            heap_bottom: self.heap_bottom,
            program_brk: self.program_brk,
            is_zombie: false,
            exit_code: 0,
            mutex_list: copy_mutexes(&self.mutex_list),
            semaphore_list: copy_semaphores(&self.semaphore_list),
            condvar_list: copy_condvars(&self.condvar_list),
            deadlock_detect: self.deadlock_detect,
            work: copy_words(&self.work),
            sem_total,
            threads,
        };
        proof {
            assert forall|j: int| 0 <= j < n implies #[trigger] units_conserved(c, j) by {
                assert(c.threads@.drop_last() =~= Seq::<Thread>::empty());
                assert(alloc_sum(c.threads@.drop_last(), j) == 0);
                assert(c.threads@.last().allocate@ == caller.allocate@);
                assert(alloc_sum(c.threads@, j) == caller.allocate@[j]);
                assert(c.sem_total@[j] == self.work@[j] + caller.allocate@[j]);
            }
            assert forall|j: int| 0 <= j < n && (#[trigger] c.semaphore_list@[j]).is_none() implies c.sem_total@[j] == 0 by {
                assert(semaphore_copied(self.semaphore_list@[j], c.semaphore_list@[j]));
                assert(units_conserved(*self, j));
                lemma_alloc_sum_bounds(self.threads@, tid as int, j);
            }
            assert(c.memory_set.wf()) by {
                assert(c.memory_set.areas@ == self.memory_set.areas@);
            }
        }
        c
    }
}

} // verus!
