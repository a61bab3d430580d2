//! System calls on sleeping, mutexes, semaphores, condition variables and
//! deadlock detection, made by the running thread.
use vstd::prelude::*;
use crate::kernel::{dispatched, head_spins_on, locks_after, mutex_held, unchanged, procs_kept, Kernel, TimerEntry};
use crate::primitives::LockOutcome;
use crate::process::{down_accounted, up_accounted, up_woken, Process, condvar_of, down_refused, mutex_of, sem_count, sem_queue, DownOutcome};
use crate::task::{is_first_free, TaskStatus};

verus! {

/// Result of an acquisition refused because it could deadlock.
pub const DEADLOCK: isize = -0xdead;

/// The running thread, as (pid, tid).
pub fn current_ids(k: &Kernel) -> (r: (usize, usize))
    requires
        k.current.is_some(),
    ensures
        k.current == Some(r),
{
    match k.current {
        Some(c) => c,
        None => (0, 0),
    }
}

/// Expiry `ms` after `now_ms`, held at the largest time when it does not fit.
pub open spec fn expiry(now_ms: int, ms: int) -> int {
    if now_ms + ms <= usize::MAX {
        now_ms + ms
    } else {
        usize::MAX as int
    }
}

/// The running thread sleeps `ms` milliseconds from `now_ms`: it is registered
/// with the timers and blocks. Returns 0.
pub fn sys_sleep(k: &mut Kernel, ms: usize, now_ms: usize) -> (r: isize)
    requires
        old(k).wf(),
        old(k).current.is_some(),
    ensures
        final(k).wf(),
        r == 0,
        final(k).timers@ == old(k).timers@.push(
            (TimerEntry { expire_ms: expiry(now_ms as int, ms as int) as usize, pid: old(k).cur_pid() as usize, tid: old(k).cur_tid() as usize }),
        ),
        procs_kept(old(k).procs@, final(k).procs@),
        final(k).proc_at(old(k).cur_pid()).threads@[old(k).cur_tid()].status == TaskStatus::Blocked,
        final(k).current != old(k).current,
        dispatched(old(k).procs@, old(k).ready@, Some((old(k).current->0, TaskStatus::Blocked)), *final(k)),
{
    let (pid, tid) = current_ids(k);
    let expire_ms = if ms > usize::MAX - now_ms {
        usize::MAX
    } else {
        now_ms + ms
    };
    k.timers.push(TimerEntry { expire_ms, pid, tid });
    k.block_current_and_run_next();
    0
}

/// Creates a mutex, spinning or blocking, in the running process's first free
/// mutex slot and returns the slot id; -1 when no id fits the result.
pub fn sys_mutex_create(k: &mut Kernel, blocking: bool) -> (r: isize)
    requires
        old(k).wf(),
        old(k).current.is_some(),
    ensures
        final(k).wf(),
        final(k).current == old(k).current,
        final(k).procs@.len() == old(k).procs@.len(),
        (r == -1) == (old(k).cur_proc().mutex_list@.len() >= isize::MAX),
        r == -1 ==> unchanged(*old(k), *final(k)),
        r != -1 ==> r >= 0 && is_first_free(old(k).cur_proc().mutex_list@, r as int) && (final(k).cur_proc().mutex_list@[r as int] matches Some(m)
            && m.blocking == blocking && !m.locked && m.wait_queue@.len() == 0)
            && final(k).cur_proc().mutex_list@.len() == (if r < old(k).cur_proc().mutex_list@.len() { old(k).cur_proc().mutex_list@.len() } else { old(k).cur_proc().mutex_list@.len() + 1 })
            && (forall|j: int| 0 <= j < final(k).cur_proc().mutex_list@.len() && j != r ==> #[trigger] final(k).cur_proc().mutex_list@[j] == old(k).cur_proc().mutex_list@[j])
            && final(k).cur_proc().threads@ == old(k).cur_proc().threads@
            && final(k).cur_proc().semaphore_list@ == old(k).cur_proc().semaphore_list@,
        forall|p: int| 0 <= p < old(k).procs@.len() && p != old(k).cur_pid() ==> #[trigger] final(k).procs@[p] == old(k).procs@[p],
        final(k).ready@ == old(k).ready@,
{
    let (pid, _tid) = current_ids(k);
    let full = match &k.procs[pid] {
        Some(p) => p.mutex_list.len() >= isize::MAX as usize,
        None => true,
    };
    if full {
        return -1;
    }
    let id = match &mut k.procs[pid] {
        Some(p) => p.mutex_create(blocking),
        None => 0,
    };
    id as isize
}

/// Creates a semaphore of `res_count` units in the running process's first
/// free semaphore slot and returns the slot id; -1 when the count or the id
/// does not fit a signed word.
pub fn sys_semaphore_create(k: &mut Kernel, res_count: usize) -> (r: isize)
    requires
        old(k).wf(),
        old(k).current.is_some(),
    ensures
        final(k).wf(),
        final(k).current == old(k).current,
        final(k).procs@.len() == old(k).procs@.len(),
        (r == -1) == (res_count > isize::MAX || old(k).cur_proc().semaphore_list@.len() >= isize::MAX),
        r != -1 ==> {
            &&& r >= 0
            &&& is_first_free(old(k).cur_proc().semaphore_list@, r as int)
            &&& final(k).cur_proc().semaphore_list@[r as int].is_some()
            &&& sem_count(final(k).cur_proc(), r as int) == res_count
            &&& sem_queue(final(k).cur_proc(), r as int).len() == 0
            &&& final(k).cur_proc().work@[r as int] == res_count
            &&& final(k).cur_proc().sem_total@[r as int] == res_count
            &&& final(k).cur_proc().semaphore_list@.len() == if r < old(k).cur_proc().semaphore_list@.len() {
                old(k).cur_proc().semaphore_list@.len()
            } else {
                old(k).cur_proc().semaphore_list@.len() + 1
            }
            &&& forall|j: int|
                0 <= j < final(k).cur_proc().semaphore_list@.len() && j != r ==> #[trigger] final(k).cur_proc().semaphore_list@[j]
                    == old(k).cur_proc().semaphore_list@[j] && final(k).cur_proc().work@[j] == old(k).cur_proc().work@[j]
                    && final(k).cur_proc().sem_total@[j] == old(k).cur_proc().sem_total@[j]
            &&& final(k).cur_proc().threads@.len() == old(k).cur_proc().threads@.len()
            &&& forall|t: int|
                0 <= t < old(k).cur_proc().threads@.len() ==> (#[trigger] final(k).cur_proc().threads@[t]).allocate@ == if r < old(k).cur_proc().semaphore_list@.len() {
                    old(k).cur_proc().threads@[t].allocate@
                } else {
                    old(k).cur_proc().threads@[t].allocate@.push(0)
                } && final(k).cur_proc().threads@[t].need@ == if r < old(k).cur_proc().semaphore_list@.len() {
                    old(k).cur_proc().threads@[t].need@
                } else {
                    old(k).cur_proc().threads@[t].need@.push(0)
                } && final(k).cur_proc().threads@[t].status == old(k).cur_proc().threads@[t].status
        },
        r == -1 ==> unchanged(*old(k), *final(k)),
        forall|p: int| 0 <= p < old(k).procs@.len() && p != old(k).cur_pid() ==> #[trigger] final(k).procs@[p] == old(k).procs@[p],
        final(k).ready@ == old(k).ready@,
{
    let (pid, _tid) = current_ids(k);
    if res_count > isize::MAX as usize {
        return -1;
    }
    let full = match &k.procs[pid] {
        Some(p) => p.semaphore_list.len() >= isize::MAX as usize,
        None => true,
    };
    if full {
        return -1;
    }
    let id = match &mut k.procs[pid] {
        Some(p) => p.semaphore_create(res_count),
        None => 0,
    };
    id as isize
}

/// Creates a condition variable in the running process's first free slot and
/// returns the slot id; -1 when no id fits the result.
pub fn sys_condvar_create(k: &mut Kernel) -> (r: isize)
    requires
        old(k).wf(),
        old(k).current.is_some(),
    ensures
        final(k).wf(),
        final(k).current == old(k).current,
        final(k).procs@.len() == old(k).procs@.len(),
        (r == -1) == (old(k).cur_proc().condvar_list@.len() >= isize::MAX),
        r == -1 ==> unchanged(*old(k), *final(k)),
        r != -1 ==> r >= 0 && is_first_free(old(k).cur_proc().condvar_list@, r as int) && (final(k).cur_proc().condvar_list@[r as int] matches Some(c)
            && c.wait_queue@.len() == 0)
            && final(k).cur_proc().condvar_list@.len() == (if r < old(k).cur_proc().condvar_list@.len() { old(k).cur_proc().condvar_list@.len() } else { old(k).cur_proc().condvar_list@.len() + 1 })
            && (forall|j: int| 0 <= j < final(k).cur_proc().condvar_list@.len() && j != r ==> #[trigger] final(k).cur_proc().condvar_list@[j] == old(k).cur_proc().condvar_list@[j])
            && final(k).cur_proc().threads@ == old(k).cur_proc().threads@
            && final(k).cur_proc().mutex_list@ == old(k).cur_proc().mutex_list@
            && final(k).cur_proc().semaphore_list@ == old(k).cur_proc().semaphore_list@,
        forall|p: int| 0 <= p < old(k).procs@.len() && p != old(k).cur_pid() ==> #[trigger] final(k).procs@[p] == old(k).procs@[p],
        final(k).ready@ == old(k).ready@,
{
    let (pid, _tid) = current_ids(k);
    let full = match &k.procs[pid] {
        Some(p) => p.condvar_list.len() >= isize::MAX as usize,
        None => true,
    };
    if full {
        return -1;
    }
    let id = match &mut k.procs[pid] {
        Some(p) => p.condvar_create(),
        None => 0,
    };
    id as isize
}

/// Turns deadlock detection on for the running process when `enabled` is 1;
/// 0 leaves it as it is. Returns 0, or -1 for any other argument.
pub fn sys_enable_deadlock_detect(k: &mut Kernel, enabled: usize) -> (r: isize)
    requires
        old(k).wf(),
        old(k).current.is_some(),
    ensures
        final(k).wf(),
        final(k).current == old(k).current,
        final(k).procs@.len() == old(k).procs@.len(),
        r == (if enabled > 1 { -1isize } else { 0isize }),
        enabled == 1 ==> final(k).cur_proc().deadlock_detect,
        enabled != 1 ==> final(k).procs@ == old(k).procs@,
{
    if enabled > 1 {
        return -1;
    }
    if enabled == 1 {
        let (pid, _tid) = current_ids(k);
        match &mut k.procs[pid] {
            Some(p) => p.enable_deadlock_detect(),
            None => {},
        }
    }
    0
}

/// Semaphore `id` exists in `p` and its count can move by one in the given direction.
pub open spec fn sem_usable(p: Process, id: int, up: bool) -> bool {
    &&& 0 <= id < p.semaphore_list@.len()
    &&& p.semaphore_list@[id].is_some()
    &&& if up {
        sem_count(p, id) < isize::MAX
    } else {
        sem_count(p, id) > isize::MIN
    }
}

/// The running thread takes a unit of semaphore `sem_id`, or blocks in its
/// queue when none is free. With deadlock detection on, an acquisition that
/// could deadlock is refused with [`DEADLOCK`] and nothing changes. Returns 0,
/// or -1 for an unknown semaphore or a count at its lower limit.
pub fn sys_semaphore_down(k: &mut Kernel, sem_id: usize) -> (r: isize)
    requires
        old(k).wf(),
        old(k).current.is_some(),
    ensures
        final(k).wf(),
        r == 0 || r == -1 || r == DEADLOCK,
        (r == -1) == !sem_usable(old(k).cur_proc(), sem_id as int, false),
        (r == DEADLOCK) == (sem_usable(old(k).cur_proc(), sem_id as int, false) && down_refused(
            old(k).cur_proc(),
            old(k).cur_tid(),
            sem_id as int,
        )),
        r != 0 ==> unchanged(*old(k), *final(k)),
        r == 0 ==> {
            let p = final(k).proc_at(old(k).cur_pid());
            &&& sem_count(p, sem_id as int) == sem_count(old(k).cur_proc(), sem_id as int) - 1
            &&& sem_count(p, sem_id as int) < 0 ==> sem_queue(p, sem_id as int) == sem_queue(
                old(k).cur_proc(),
                sem_id as int,
            ).push(old(k).cur_tid() as usize)
            &&& sem_count(p, sem_id as int) >= 0 ==> sem_queue(p, sem_id as int) == sem_queue(
                old(k).cur_proc(),
                sem_id as int,
            )
            &&& sem_count(p, sem_id as int) >= 0 ==> final(k).current == old(k).current && final(k).ready@ == old(k).ready@
            &&& sem_count(p, sem_id as int) < 0 ==> p.threads@[old(k).cur_tid()].status == TaskStatus::Blocked
                && final(k).current != old(k).current
                && dispatched(old(k).procs@, old(k).ready@, Some((old(k).current->0, TaskStatus::Blocked)), *final(k))
            &&& down_accounted(old(k).cur_proc(), p, old(k).cur_tid(), sem_id as int)
        },
{
    let (pid, tid) = current_ids(k);
    let usable = match &k.procs[pid] {
        Some(p) => sem_id < p.semaphore_list.len() && match &p.semaphore_list[sem_id] {
            Some(sem) => sem.inner.count > isize::MIN,
            None => false,
        },
        None => false,
    };
    if !usable {
        return -1;
    }
    let outcome = match &mut k.procs[pid] {
        Some(p) => p.semaphore_down(tid, sem_id),
        None => DownOutcome::Deadlock,
    };
    match outcome {
        DownOutcome::Deadlock => {
            assert(k.procs@ =~= old(k).procs@);
            DEADLOCK
        },
        DownOutcome::Blocked => {
            k.block_current_and_run_next();
            0
        },
        DownOutcome::Acquired => 0,
    }
}

/// The running thread gives back a unit of semaphore `sem_id`; the head of
/// its queue, if one waits, is woken. Returns 0, or -1 for an unknown
/// semaphore or a count at its upper limit.
pub fn sys_semaphore_up(k: &mut Kernel, sem_id: usize) -> (r: isize)
    requires
        old(k).wf(),
        old(k).current.is_some(),
    ensures
        final(k).wf(),
        final(k).current == old(k).current,
        r == 0 || r == -1,
        (r == -1) == !sem_usable(old(k).cur_proc(), sem_id as int, true),
        r == -1 ==> unchanged(*old(k), *final(k)),
        r == 0 ==> {
            let p = final(k).cur_proc();
            let q = sem_queue(old(k).cur_proc(), sem_id as int);
            &&& sem_count(p, sem_id as int) == sem_count(old(k).cur_proc(), sem_id as int) + 1
            &&& sem_count(old(k).cur_proc(), sem_id as int) < 0 && q.len() > 0 ==> sem_queue(p, sem_id as int)
                == q.drop_first() && final(k).ready@ == if q[0] < old(k).cur_proc().threads@.len() {
                    old(k).ready@.push((old(k).cur_pid() as usize, q[0]))
                } else {
                    old(k).ready@
                }
            &&& !(sem_count(old(k).cur_proc(), sem_id as int) < 0 && q.len() > 0) ==> sem_queue(p, sem_id as int)
                == q && final(k).ready@ == old(k).ready@
            &&& up_accounted(old(k).cur_proc(), p, old(k).cur_tid(), sem_id as int, up_woken(old(k).cur_proc(), sem_id as int))
            &&& (up_woken(old(k).cur_proc(), sem_id as int) matches Some(w) && (w as int) < p.threads@.len())
                ==> p.threads@[up_woken(old(k).cur_proc(), sem_id as int)->0 as int].status == TaskStatus::Ready
        },
{
    let (pid, tid) = current_ids(k);
    let usable = match &k.procs[pid] {
        Some(p) => sem_id < p.semaphore_list.len() && match &p.semaphore_list[sem_id] {
            Some(sem) => sem.inner.count < isize::MAX,
            None => false,
        },
        None => false,
    };
    if !usable {
        return -1;
    }
    let woken = match &mut k.procs[pid] {
        Some(p) => p.semaphore_up(tid, sem_id),
        None => None,
    };
    if let Some(t) = woken {
        k.wakeup(pid, t);
    }
    0
}

/// Mutex `id` exists in `p`.
pub open spec fn mutex_exists(p: Process, id: int) -> bool {
    0 <= id < p.mutex_list@.len() && p.mutex_list@[id].is_some()
}

/// Condition variable `id` exists in `p`.
pub open spec fn condvar_exists(p: Process, id: int) -> bool {
    0 <= id < p.condvar_list@.len() && p.condvar_list@[id].is_some()
}

fn has_mutex(k: &Kernel, pid: usize, id: usize) -> (r: bool)
    requires
        k.wf(),
        pid < k.procs@.len(),
        k.procs@[pid as int].is_some(),
    ensures
        r == mutex_exists(k.proc_at(pid as int), id as int),
{
    match &k.procs[pid] {
        Some(p) => id < p.mutex_list.len() && p.mutex_list[id].is_some(),
        None => false,
    }
}

fn has_condvar(k: &Kernel, pid: usize, id: usize) -> (r: bool)
    requires
        k.wf(),
        pid < k.procs@.len(),
        k.procs@[pid as int].is_some(),
    ensures
        r == condvar_exists(k.proc_at(pid as int), id as int),
{
    match &k.procs[pid] {
        Some(p) => id < p.condvar_list.len() && p.condvar_list[id].is_some(),
        None => false,
    }
}

/// The running thread locks mutex `mutex_id`. A free mutex is taken; a held
/// blocking one queues the caller, which blocks; a held spinning one makes
/// the caller yield and take it when it next runs. Returns 0, or -1 for an
/// unknown mutex.
pub fn sys_mutex_lock(k: &mut Kernel, mutex_id: usize) -> (r: isize)
    requires
        old(k).wf(),
        old(k).current.is_some(),
    ensures
        final(k).wf(),
        r == 0 || r == -1,
        (r == -1) == !mutex_exists(old(k).cur_proc(), mutex_id as int),
        r == -1 ==> unchanged(*old(k), *final(k)),
        r == 0 ==> {
            let m = mutex_of(old(k).cur_proc(), mutex_id as int);
            let n = mutex_of(final(k).proc_at(old(k).cur_pid()), mutex_id as int);
            let me = old(k).current->0;
            &&& !m.locked ==> final(k).current == old(k).current && final(k).ready@ == old(k).ready@ && n.locked
                && n.wait_queue@ == m.wait_queue@
            &&& m.locked && m.blocking ==> n.wait_queue@ == m.wait_queue@.push(old(k).cur_tid() as usize)
                && final(k).proc_at(old(k).cur_pid()).threads@[old(k).cur_tid()].status == TaskStatus::Blocked
                && final(k).current != old(k).current
                && dispatched(old(k).procs@, old(k).ready@, Some((me, TaskStatus::Blocked)), *final(k))
            &&& m.locked && !m.blocking ==> n.wait_queue@ == m.wait_queue@
                && final(k).current != old(k).current
        },
{
    let (pid, tid) = current_ids(k);
    if !has_mutex(k, pid, mutex_id) {
        return -1;
    }
    let outcome = match &mut k.procs[pid] {
        Some(p) => p.lock_mutex(tid, mutex_id),
        None => LockOutcome::Acquired,
    };
    match outcome {
        LockOutcome::Acquired => {},
        LockOutcome::Blocked => k.block_current_and_run_next(),
        LockOutcome::Spin => {
            match &mut k.procs[pid] {
                Some(p) => p.set_spinning(tid, Some(mutex_id)),
                None => {},
            }
            k.suspend_current_and_run_next();
        },
    }
    0
}

/// Thread `w` of the running process of `a` was woken in `b`: Ready at the
/// tail of the ready queue, when it exists.
pub open spec fn woke(a: Kernel, b: Kernel, w: usize) -> bool {
    if (w as int) < a.cur_proc().threads@.len() {
        b.ready@ == a.ready@.push((a.cur_pid() as usize, w)) && b.cur_proc().threads@[w as int].status
            == TaskStatus::Ready
    } else {
        b.ready@ == a.ready@
    }
}

/// The running thread unlocks mutex `mutex_id`; a blocking mutex with waiters
/// passes to the head of its queue, which is woken. Returns 0, or -1 for an
/// unknown mutex.
pub fn sys_mutex_unlock(k: &mut Kernel, mutex_id: usize) -> (r: isize)
    requires
        old(k).wf(),
        old(k).current.is_some(),
    ensures
        final(k).wf(),
        final(k).current == old(k).current,
        r == 0 || r == -1,
        (r == -1) == !mutex_exists(old(k).cur_proc(), mutex_id as int),
        r == -1 ==> unchanged(*old(k), *final(k)),
        r == 0 ==> {
            let m = mutex_of(old(k).cur_proc(), mutex_id as int);
            let n = mutex_of(final(k).cur_proc(), mutex_id as int);
            &&& m.blocking && m.wait_queue@.len() > 0 ==> n.locked && n.wait_queue@ == m.wait_queue@.drop_first()
                && woke(*old(k), *final(k), m.wait_queue@[0])
            &&& !(m.blocking && m.wait_queue@.len() > 0) ==> !n.locked && n.wait_queue@ == m.wait_queue@
                && final(k).ready@ == old(k).ready@
        },
{
    let (pid, _tid) = current_ids(k);
    if !has_mutex(k, pid, mutex_id) {
        return -1;
    }
    let woken = match &mut k.procs[pid] {
        Some(p) => p.unlock_mutex(mutex_id),
        None => None,
    };
    if let Some(t) = woken {
        k.wakeup(pid, t);
    }
    0
}

/// Wakes the head waiter of condition variable `condvar_id`, if any. Returns
/// 0, or -1 for an unknown condition variable.
pub fn sys_condvar_signal(k: &mut Kernel, condvar_id: usize) -> (r: isize)
    requires
        old(k).wf(),
        old(k).current.is_some(),
    ensures
        final(k).wf(),
        final(k).current == old(k).current,
        r == 0 || r == -1,
        (r == -1) == !condvar_exists(old(k).cur_proc(), condvar_id as int),
        r == -1 ==> unchanged(*old(k), *final(k)),
        r == 0 ==> {
            let q = condvar_of(old(k).cur_proc(), condvar_id as int).wait_queue@;
            let n = condvar_of(final(k).cur_proc(), condvar_id as int).wait_queue@;
            &&& q.len() > 0 ==> n == q.drop_first() && woke(*old(k), *final(k), q[0])
            &&& q.len() == 0 ==> n == q && final(k).ready@ == old(k).ready@
        },
{
    let (pid, _tid) = current_ids(k);
    if !has_condvar(k, pid, condvar_id) {
        return -1;
    }
    let woken = match &mut k.procs[pid] {
        Some(p) => p.signal_condvar(condvar_id),
        None => None,
    };
    if let Some(t) = woken {
        k.wakeup(pid, t);
    }
    0
}

/// The running thread releases mutex `mutex_id` (waking the thread it passes
/// to, or leaving it free, where a thread dispatched next that spun on it may
/// take it) and blocks on condition variable `condvar_id`; taking the mutex
/// again once woken is the caller's part. Returns 0, or -1 for an unknown
/// object.
pub fn sys_condvar_wait(k: &mut Kernel, condvar_id: usize, mutex_id: usize) -> (r: isize)
    requires
        old(k).wf(),
        old(k).current.is_some(),
    ensures
        final(k).wf(),
        r == 0 || r == -1,
        (r == -1) == !(condvar_exists(old(k).cur_proc(), condvar_id as int) && mutex_exists(old(k).cur_proc(), mutex_id as int)),
        r == -1 ==> unchanged(*old(k), *final(k)),
        r == 0 ==> condvar_of(final(k).proc_at(old(k).cur_pid()), condvar_id as int).wait_queue@ == condvar_of(
            old(k).cur_proc(),
            condvar_id as int,
        ).wait_queue@.push(old(k).cur_tid() as usize),
        r == 0 ==> {
            let m = mutex_of(old(k).cur_proc(), mutex_id as int);
            let n = mutex_of(final(k).proc_at(old(k).cur_pid()), mutex_id as int);
            let me = old(k).current->0;
            &&& final(k).proc_at(old(k).cur_pid()).threads@[old(k).cur_tid()].status == TaskStatus::Blocked
            &&& final(k).current != old(k).current
            &&& m.blocking && m.wait_queue@.len() > 0 ==> n.locked && n.wait_queue@ == m.wait_queue@.drop_first()
            &&& !(m.blocking && m.wait_queue@.len() > 0) ==> n.wait_queue@ == m.wait_queue@
                && n.locked == head_spins_on(old(k).procs@, old(k).ready@, Some((me, TaskStatus::Blocked)), old(k).cur_pid(), mutex_id as int)
        },
{
    let (pid, tid) = current_ids(k);
    if !has_condvar(k, pid, condvar_id) || !has_mutex(k, pid, mutex_id) {
        return -1;
    }
    let woken = match &mut k.procs[pid] {
        Some(p) => p.unlock_mutex(mutex_id),
        None => None,
    };
    if let Some(t) = woken {
        k.wakeup(pid, t);
    }
    match &mut k.procs[pid] {
        Some(p) => p.wait_condvar(condvar_id, tid),
        None => {},
    }
    let ghost mid = k.procs@;
    let ghost mid_ready = k.ready@;
    k.block_current_and_run_next();
    proof {
        let over = Some(((pid, tid), TaskStatus::Blocked));
        assert(mid[pid as int]->0.mutex_list@[mutex_id as int].is_some());
        assert(mutex_held(k.procs@, pid as int, mutex_id as int) == (mutex_held(mid, pid as int, mutex_id as int)
            || head_spins_on(mid, mid_ready, over, pid as int, mutex_id as int)));
        if mid_ready == old(k).ready@ && old(k).ready@.len() > 0 {
            let h = old(k).ready@[0];
            assert(mid.len() == old(k).procs@.len());
            if h.0 != pid {
                if (h.0 as int) < mid.len() {
                    assert(mid[h.0 as int] == old(k).procs@[h.0 as int]);
                }
            } else {
                assert(mid[pid as int]->0.threads@ == old(k).procs@[pid as int]->0.threads@);
            }
            assert(head_spins_on(mid, mid_ready, over, pid as int, mutex_id as int) == head_spins_on(
                old(k).procs@,
                old(k).ready@,
                over,
                pid as int,
                mutex_id as int,
            ));
        }
    }
    0
}

} // verus!
