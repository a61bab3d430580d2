//! Threads and processes, with the per-process tables of synchronization
//! objects and the resource vectors of deadlock detection.
use vstd::prelude::*;
use crate::mm::MemorySet;
use crate::primitives::{Condvar, Mutex};
use crate::semaphore::Semaphore;

verus! {

/// Register that carries a system call's return value.
pub const REG_A0: usize = 10;

/// Stack-pointer register.
pub const REG_SP: usize = 2;

/// Number of general-purpose registers saved on a trap.
pub const NUM_REGS: usize = 32;

/// Priority a thread starts with.
pub const DEFAULT_PRIORITY: usize = 16;

#[derive(Clone, Copy, PartialEq, Eq, Structural, Debug)]
pub enum TaskStatus {
    Ready,
    Running,
    Blocked,
    Zombie,
}

/// Registers a fresh program starts with: all zero but the stack pointer.
pub open spec fn init_regs(user_sp: usize) -> Seq<usize> {
    Seq::new(NUM_REGS as nat, |i: int| if i == REG_SP { user_sp } else { 0 })
}

/// Saved user registers and the address to resume at.
pub struct TrapContext {
    pub x: Vec<usize>,
    pub sepc: usize,
}

impl TrapContext {
    pub open spec fn wf(&self) -> bool {
        self.x@.len() == NUM_REGS
    }

    /// The context a fresh program starts from: every register zero but the
    /// stack pointer, resuming at `entry`.
    pub fn app_init(entry: usize, user_sp: usize) -> (r: TrapContext)
        ensures
            r.wf(),
            r.sepc == entry,
            r.x@ == init_regs(user_sp),
            forall|i: int| 0 <= i < NUM_REGS ==> #[trigger] r.x@[i] == if i == REG_SP {
                user_sp
            } else {
                0
            },
    {
        let mut x: Vec<usize> = Vec::new();
        let mut i: usize = 0;
        while i < NUM_REGS
            invariant
                i <= NUM_REGS,
                x@.len() == i,
                forall|j: int| 0 <= j < i ==> #[trigger] x@[j] == if j == REG_SP {
                    user_sp
                } else {
                    0
                },
            decreases NUM_REGS - i,
        {
            if i == REG_SP {
                x.push(user_sp);
            } else {
                x.push(0);
            }
            i = i + 1;
        }
        assert(x@ =~= init_regs(user_sp));
        TrapContext { x, sepc: entry }
    }

    /// A copy of the context.
    pub fn duplicate(&self) -> (r: TrapContext)
        ensures
            r.x@ == self.x@,
            r.sepc == self.sepc,
    {
        TrapContext { x: copy_words(&self.x), sepc: self.sepc }
    }
}

/// A copy of a vector of words.
pub fn copy_words(v: &Vec<usize>) -> (r: Vec<usize>)
    ensures
        r@ == v@,
{
    let mut r: Vec<usize> = Vec::new();
    let mut i: usize = 0;
    while i < v.len()
        invariant
            i <= v@.len(),
            r@ == v@.subrange(0, i as int),
        decreases v@.len() - i,
    {
        r.push(v[i]);
        i = i + 1;
    }
    assert(r@ == v@);
    r
}

/// `n` zeros.
pub fn zeros(n: usize) -> (r: Vec<usize>)
    ensures
        r@.len() == n,
        forall|i: int| 0 <= i < n ==> #[trigger] r@[i] == 0,
{
    let mut r: Vec<usize> = Vec::new();
    let mut i: usize = 0;
    while i < n
        invariant
            i <= n,
            r@.len() == i,
            forall|j: int| 0 <= j < i ==> #[trigger] r@[j] == 0,
        decreases n - i,
    {
        r.push(0);
        i = i + 1;
    }
    r
}

/// A thread of a process. `allocate[s]` counts the units of semaphore `s` the
/// thread holds, `need[s]` those it waits for; both are kept while deadlock
/// detection is on.
pub struct Thread {
    pub tid: usize,
    pub status: TaskStatus,
    pub trap_cx: TrapContext,
    pub allocate: Vec<usize>,
    pub need: Vec<usize>,
    pub priority: usize,
    /// Spinning mutex the thread yielded on, to be taken when it runs again.
    pub spinning_on: Option<usize>,
}

impl Thread {
    /// A ready thread with `n_sems` zero entries in each resource vector.
    pub fn new(tid: usize, trap_cx: TrapContext, n_sems: usize) -> (r: Thread)
        ensures
            r.tid == tid,
            r.status == TaskStatus::Ready,
            r.trap_cx == trap_cx,
            r.allocate@.len() == n_sems,
            r.need@.len() == n_sems,
            forall|s: int| 0 <= s < n_sems ==> #[trigger] r.allocate@[s] == 0 && r.need@[s] == 0,
            r.priority == DEFAULT_PRIORITY,
            r.spinning_on.is_none(),
    {
        Thread {
            tid,
            status: TaskStatus::Ready,
            trap_cx,
            allocate: zeros(n_sems),
            need: zeros(n_sems),
            priority: DEFAULT_PRIORITY,
            spinning_on: None,
        }
    }
}

/// Units of semaphore `s` held by the threads of `ts`.
pub open spec fn alloc_sum(ts: Seq<Thread>, s: int) -> int
    decreases ts.len(),
{
    if ts.len() == 0 {
        0
    } else {
        alloc_sum(ts.drop_last(), s) + ts.last().allocate@[s]
    }
}

/// Two thread lists whose `allocate` entries agree at `s` and `s2` hold as many units.
pub proof fn lemma_alloc_sum_pointwise(ts: Seq<Thread>, us: Seq<Thread>, s: int, s2: int)
    requires
        ts.len() == us.len(),
        forall|i: int| 0 <= i < ts.len() ==> (#[trigger] ts[i]).allocate@[s] == us[i].allocate@[s2],
    ensures
        alloc_sum(ts, s) == alloc_sum(us, s2),
    decreases ts.len(),
{
    if ts.len() > 0 {
        let a = ts.drop_last();
        let b = us.drop_last();
        assert forall|i: int| 0 <= i < a.len() implies (#[trigger] a[i]).allocate@[s] == b[i].allocate@[s2] by {
            assert(a[i] == ts[i]);
            assert(b[i] == us[i]);
        }
        lemma_alloc_sum_pointwise(a, b, s, s2);
    }
}

/// Replacing one thread changes the sum by the difference of its entries.
pub proof fn lemma_alloc_sum_update(ts: Seq<Thread>, t: int, th: Thread, s: int)
    requires
        0 <= t < ts.len(),
    ensures
        alloc_sum(ts.update(t, th), s) == alloc_sum(ts, s) - ts[t].allocate@[s] + th.allocate@[s],
    decreases ts.len(),
{
    let us = ts.update(t, th);
    if t == ts.len() - 1 {
        assert(us.drop_last() == ts.drop_last());
    } else {
        assert(us.drop_last() == ts.drop_last().update(t, th));
        lemma_alloc_sum_update(ts.drop_last(), t, th, s);
    }
}

/// Appending a thread adds its entry.
pub proof fn lemma_alloc_sum_push(ts: Seq<Thread>, th: Thread, s: int)
    ensures
        alloc_sum(ts.push(th), s) == alloc_sum(ts, s) + th.allocate@[s],
{
    assert(ts.push(th).drop_last() == ts);
}

/// Entries are words, so the sum bounds each of them.
pub proof fn lemma_alloc_sum_bounds(ts: Seq<Thread>, t: int, s: int)
    requires
        0 <= t < ts.len(),
    ensures
        0 <= ts[t].allocate@[s] <= alloc_sum(ts, s),
    decreases ts.len(),
{
    lemma_alloc_sum_nonneg(ts.drop_last(), s);
    if t < ts.len() - 1 {
        lemma_alloc_sum_bounds(ts.drop_last(), t, s);
    }
}

pub proof fn lemma_alloc_sum_nonneg(ts: Seq<Thread>, s: int)
    ensures
        0 <= alloc_sum(ts, s),
    decreases ts.len(),
{
    if ts.len() > 0 {
        lemma_alloc_sum_nonneg(ts.drop_last(), s);
    }
}


/// With every entry at `s` zero, the sum is zero.
pub proof fn lemma_alloc_sum_zero(ts: Seq<Thread>, s: int)
    requires
        forall|i: int| 0 <= i < ts.len() ==> (#[trigger] ts[i]).allocate@[s] == 0,
    ensures
        alloc_sum(ts, s) == 0,
    decreases ts.len(),
{
    if ts.len() > 0 {
        let a = ts.drop_last();
        assert forall|i: int| 0 <= i < a.len() implies (#[trigger] a[i]).allocate@[s] == 0 by {
            assert(a[i] == ts[i]);
        }
        lemma_alloc_sum_zero(a, s);
    }
}

/// Index of the first empty slot of a table, or its length when it has none.
pub fn free_slot<T>(list: &Vec<Option<T>>) -> (r: usize)
    ensures
        r <= list@.len(),
        r < list@.len() ==> list@[r as int].is_none(),
        forall|j: int| 0 <= j < r ==> (#[trigger] list@[j]).is_some(),
{
    let mut i: usize = 0;
    while i < list.len()
        invariant
            i <= list@.len(),
            forall|j: int| 0 <= j < i ==> (#[trigger] list@[j]).is_some(),
        decreases list@.len() - i,
    {
        if list[i].is_none() {
            return i;
        }
        i = i + 1;
    }
    i
}

/// `id` is the first hole of the table, or its length when it has none.
pub open spec fn is_first_free<T>(list: Seq<Option<T>>, id: int) -> bool {
    &&& 0 <= id <= list.len()
    &&& id < list.len() ==> list[id].is_none()
    &&& forall|j: int| 0 <= j < id ==> (#[trigger] list[j]).is_some()
}

} // verus!
