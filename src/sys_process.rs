//! System calls on the process tree, the address space, time and scheduling,
//! made by the running thread.
use vstd::prelude::*;
use crate::kernel::{dispatched, locks_after, procs_kept, unchanged, AppImage, Kernel};
use crate::mm::{first_exact, mmap_result, mmap_succeeds, munmap_result};
use crate::process::{condvar_copied, mutex_copied, proc_kept, semaphore_copied, Process};
use crate::sys_sync::current_ids;
use crate::task::{free_slot, init_regs, is_first_free, TaskStatus, TrapContext, REG_A0};

verus! {

/// Number of system-call kinds counted per task.
pub const MAX_SYSCALL_NUM: usize = 500;

/// Microseconds per second.
pub const USEC_PER_SEC: usize = 1_000_000;

/// Seconds and microseconds.
#[derive(Clone, Copy, PartialEq, Eq, Structural, Debug)]
pub struct TimeVal {
    pub sec: usize,
    pub usec: usize,
}

/// What a task reports of itself.
pub struct TaskInfo {
    /// Status in its life cycle.
    pub status: TaskStatus,
    /// Calls made, by system-call number.
    pub syscall_times: [u32; MAX_SYSCALL_NUM],
    /// Total running time.
    pub time: usize,
}

/// A pid `k` can hand out: the first hole of its table, or the next index,
/// as long as it fits a signed word.
fn alloc_pid(k: &Kernel) -> (r: Option<usize>)
    requires
        k.wf(),
    ensures
        match r {
            Some(pid) => is_first_free(k.procs@, pid as int) && pid < isize::MAX,
            None => forall|p: int| is_first_free(k.procs@, p) ==> p >= isize::MAX,
        },
{
    let pid = free_slot(&k.procs);
    if pid >= isize::MAX as usize {
        None
    } else {
        Some(pid)
    }
}

/// Puts `child` at `pid` (in the hole, or appended) and makes its first
/// thread runnable.
fn install(k: &mut Kernel, pid: usize, child: Process)
    requires
        old(k).wf(),
        is_first_free(old(k).procs@, pid as int),
        pid < isize::MAX,
        child.wf(),
        child.pid == pid,
        child.threads@.len() > 0,
    ensures
        final(k).wf(),
        final(k).current == old(k).current,
        final(k).procs@.len() == if pid < old(k).procs@.len() {
            old(k).procs@.len()
        } else {
            old(k).procs@.len() + 1
        },
        forall|p: int| 0 <= p < old(k).procs@.len() && p != pid ==> #[trigger] final(k).procs@[p] == old(k).procs@[p],
        final(k).procs@[pid as int] matches Some(c) && proc_kept(child, c) && c.mutex_list@ == child.mutex_list@
            && c.threads@[0].status == TaskStatus::Ready,
        final(k).ready@ == old(k).ready@.push((pid, 0usize)),
{
    if pid < k.procs.len() {
        k.procs[pid] = Some(child);
    } else {
        k.procs.push(Some(child));
    }
    k.add_task(pid, 0);
}

/// The running thread exits with `exit_code`; the process exits with it when
/// no other thread is left running. The next ready thread is dispatched.
pub fn sys_exit(k: &mut Kernel, exit_code: i32)
    requires
        old(k).wf(),
        old(k).current.is_some(),
    ensures
        final(k).wf(),
        final(k).procs@.len() == old(k).procs@.len(),
        final(k).proc_at(old(k).cur_pid()).threads@[old(k).cur_tid()].status == TaskStatus::Zombie,
        final(k).current != old(k).current,
        dispatched(old(k).procs@, old(k).ready@, Some((old(k).current->0, TaskStatus::Zombie)), *final(k)),
        ({
            let p = old(k).cur_proc();
            let last = forall|t: int| 0 <= t < p.threads@.len() && t != old(k).cur_tid() ==> #[trigger] p.threads@[t].status == TaskStatus::Zombie;
            last ==> final(k).proc_at(old(k).cur_pid()).is_zombie && final(k).proc_at(old(k).cur_pid()).exit_code == exit_code
        }),
{
    let (pid, tid) = current_ids(k);
    match &mut k.procs[pid] {
        Some(p) => p.exit_thread(tid, exit_code),
        None => {},
    }
    k.current = None;
    k.run_next();
}

/// The running thread yields: it becomes Ready at the tail of the ready
/// queue and the head is dispatched. Returns 0.
pub fn sys_yield(k: &mut Kernel) -> (r: isize)
    requires
        old(k).wf(),
        old(k).current.is_some(),
    ensures
        final(k).wf(),
        r == 0,
        procs_kept(old(k).procs@, final(k).procs@),
        dispatched(old(k).procs@, old(k).ready@.push(old(k).current->0), Some((old(k).current->0, TaskStatus::Ready)), *final(k)),
        locks_after(old(k).procs@, old(k).ready@.push(old(k).current->0), Some((old(k).current->0, TaskStatus::Ready)), final(k).procs@),
{
    k.suspend_current_and_run_next();
    0
}

/// Pid of the running process.
pub fn sys_getpid(k: &Kernel) -> (r: isize)
    requires
        k.wf(),
        k.current.is_some(),
    ensures
        r == k.cur_pid(),
{
    let (pid, _tid) = current_ids(k);
    pid as isize
}

/// Duplicates the running process: the child gets a copy of its address
/// space, heap and synchronization tables (see [`Process::fork_child`]), the
/// caller as parent, and one thread resuming from a copy of the caller's
/// context in which the return-value register reads 0. The
/// child is appended to the caller's children and made runnable. Returns the
/// child's pid, or -1 when no pid fits the result.
pub fn sys_fork(k: &mut Kernel) -> (r: isize)
    requires
        old(k).wf(),
        old(k).current.is_some(),
    ensures
        final(k).wf(),
        final(k).current == old(k).current,
        (r == -1) == (forall|p: int| is_first_free(old(k).procs@, p) ==> p >= isize::MAX),
        r != -1 ==> {
            let parent = old(k).cur_proc();
            let cx = parent.threads@[old(k).cur_tid()].trap_cx;
            &&& r >= 0
            &&& is_first_free(old(k).procs@, r as int)
            &&& final(k).procs@[r as int] matches Some(c) && c.parent == Some(old(k).cur_pid() as usize)
                && c.memory_set.areas@ == parent.memory_set.areas@
                && c.threads@.len() == 1
                && c.threads@[0].trap_cx.x@ == cx.x@.update(REG_A0 as int, 0)
                && c.threads@[0].trap_cx.sepc == cx.sepc
                && c.children@.len() == 0
                && c.threads@[0].allocate@ == parent.threads@[old(k).cur_tid()].allocate@
                && c.work@ == parent.work@
                && c.deadlock_detect == parent.deadlock_detect
                && c.mutex_list@.len() == parent.mutex_list@.len()
                && c.semaphore_list@.len() == parent.semaphore_list@.len()
                && c.condvar_list@.len() == parent.condvar_list@.len()
                && (forall|i: int| 0 <= i < parent.mutex_list@.len() ==> mutex_copied(#[trigger] parent.mutex_list@[i], c.mutex_list@[i]))
                && (forall|i: int| 0 <= i < parent.semaphore_list@.len() ==> semaphore_copied(#[trigger] parent.semaphore_list@[i], c.semaphore_list@[i]))
                && (forall|i: int| 0 <= i < parent.condvar_list@.len() ==> condvar_copied(#[trigger] parent.condvar_list@[i], c.condvar_list@[i]))
            &&& (final(k).procs@[r as int] matches Some(c) && c.threads@[0].status == TaskStatus::Ready)
            &&& final(k).cur_proc().children@ == parent.children@.push(r as usize)
            &&& final(k).cur_proc().memory_set == parent.memory_set
            &&& final(k).cur_proc().threads@ == parent.threads@
            &&& final(k).ready@ == old(k).ready@.push((r as usize, 0usize))
        },
{
    let (pid, tid) = current_ids(k);
    let new_pid = match alloc_pid(k) {
        Some(p) => p,
        None => {
            return -1;
        },
    };
    let child = match &k.procs[pid] {
        Some(p) => p.fork_child(tid, new_pid),
        None => {
            return -1;
        },
    };
    install(k, new_pid, child);
    match &mut k.procs[pid] {
        Some(p) => p.add_child(new_pid),
        None => {},
    }
    new_pid as isize
}

/// Loads the program `image` into the running process in place: new address
/// space, heap and context for the calling thread; pid and tree links stay.
/// Returns 0, or -1 when no program of that name was found (`None`).
pub fn sys_exec(k: &mut Kernel, image: Option<AppImage>) -> (r: isize)
    requires
        old(k).wf(),
        old(k).current.is_some(),
        image matches Some(img) ==> img.wf(),
    ensures
        final(k).wf(),
        final(k).current == old(k).current,
        r == (if image.is_some() { 0isize } else { -1isize }),
        image.is_none() ==> unchanged(*old(k), *final(k)),
        image matches Some(img) ==> {
            let p = final(k).cur_proc();
            &&& p.pid == old(k).cur_proc().pid
            &&& p.parent == old(k).cur_proc().parent
            &&& p.children@ == old(k).cur_proc().children@
            &&& p.memory_set == img.memory_set
            &&& p.program_brk == img.heap_bottom
            &&& p.threads@[old(k).cur_tid()].trap_cx.sepc == img.entry
            &&& p.threads@[old(k).cur_tid()].trap_cx.x@ == init_regs(img.user_sp)
            &&& p.threads@.len() == old(k).cur_proc().threads@.len()
        },
{
    match image {
        None => -1,
        Some(img) => {
            let (pid, tid) = current_ids(k);
            let cx = TrapContext::app_init(img.entry, img.user_sp);
            match &mut k.procs[pid] {
                Some(p) => p.exec(tid, img.memory_set, img.heap_bottom, cx),
                None => {},
            }
            0
        },
    }
}

/// Creates a child of the running process straight from the program
/// `image`, without copying the caller's address space, and makes its thread
/// runnable. Returns the child's pid, or -1 when no program of that name was
/// found (`None`) or no pid fits the result.
pub fn sys_spawn(k: &mut Kernel, image: Option<AppImage>) -> (r: isize)
    requires
        old(k).wf(),
        old(k).current.is_some(),
        image matches Some(img) ==> img.wf(),
    ensures
        final(k).wf(),
        final(k).current == old(k).current,
        (r == -1) == (image.is_none() || forall|p: int| is_first_free(old(k).procs@, p) ==> p >= isize::MAX),
        r == -1 ==> unchanged(*old(k), *final(k)),
        r != -1 ==> {
            let img = image->0;
            &&& r >= 0
            &&& is_first_free(old(k).procs@, r as int)
            &&& final(k).procs@[r as int] matches Some(c) && c.parent == Some(old(k).cur_pid() as usize)
                && c.memory_set == img.memory_set
                && c.threads@.len() == 1
                && c.threads@[0].trap_cx.sepc == img.entry
                && c.threads@[0].trap_cx.x@ == init_regs(img.user_sp)
                && c.threads@[0].trap_cx.x@[REG_A0 as int] == 0
                && c.threads@[0].status == TaskStatus::Ready
                && c.children@.len() == 0
                && c.program_brk == img.heap_bottom
            &&& final(k).cur_proc().children@ == old(k).cur_proc().children@.push(r as usize)
            &&& final(k).cur_proc().memory_set == old(k).cur_proc().memory_set
            &&& final(k).cur_proc().threads@ == old(k).cur_proc().threads@
            &&& final(k).ready@ == old(k).ready@.push((r as usize, 0usize))
        },
{
    let img = match image {
        None => {
            return -1;
        },
        Some(img) => img,
    };
    let (pid, _tid) = current_ids(k);
    let new_pid = match alloc_pid(k) {
        Some(p) => p,
        None => {
            return -1;
        },
    };
    let cx = TrapContext::app_init(img.entry, img.user_sp);
    let child = Process::new(new_pid, Some(pid), img.memory_set, img.heap_bottom, cx);
    install(k, new_pid, child);
    match &mut k.procs[pid] {
        Some(p) => p.add_child(new_pid),
        None => {},
    }
    new_pid as isize
}

/// `pid` selects child `c`: -1 selects any child.
pub open spec fn selects(pid: isize, c: usize) -> bool {
    pid == -1 || pid as int == c as int
}

/// Child `c` of process `cur` has exited and waits to be reaped.
pub open spec fn is_zombie_in(procs: Seq<Option<Process>>, c: usize, cur: int) -> bool {
    c < procs.len() && c != cur && procs[c as int].is_some() && procs[c as int]->0.is_zombie
}

/// Index in `children` of the first selected child that has exited, or the length.
pub open spec fn first_reapable(procs: Seq<Option<Process>>, children: Seq<usize>, pid: isize, cur: int, i: int) -> int
    decreases children.len() - i,
{
    if i < 0 || i >= children.len() {
        children.len() as int
    } else if selects(pid, children[i]) && is_zombie_in(procs, children[i], cur) {
        i
    } else {
        first_reapable(procs, children, pid, cur, i + 1)
    }
}

proof fn lemma_first_reapable(procs: Seq<Option<Process>>, children: Seq<usize>, pid: isize, cur: int, i: int, n: int)
    requires
        0 <= i <= n <= children.len(),
        forall|j: int| i <= j < n ==> !(selects(pid, #[trigger] children[j]) && is_zombie_in(procs, children[j], cur)),
    ensures
        first_reapable(procs, children, pid, cur, i) == first_reapable(procs, children, pid, cur, n),
    decreases n - i,
{
    if i < n {
        lemma_first_reapable(procs, children, pid, cur, i + 1, n);
    }
}

/// Reaps an exited child of the running process selected by `pid` (-1 for
/// any; the caller itself is never reaped): the first such child leaves the child list and the process table,
/// its exit code goes to `exit_code_out`, and its pid is returned. Returns -1
/// when no child is selected at all, -2 when none selected has exited yet.
pub fn sys_waitpid(k: &mut Kernel, pid: isize, exit_code_out: &mut i32) -> (r: isize)
    requires
        old(k).wf(),
        old(k).current.is_some(),
    ensures
        final(k).wf(),
        final(k).current == old(k).current,
        ({
            let children = old(k).cur_proc().children@;
            let i = first_reapable(old(k).procs@, children, pid, old(k).cur_pid(), 0);
            &&& r == -1 || r == -2 || r >= 0
            &&& (r == -1) == !(exists|j: int| 0 <= j < children.len() && selects(pid, #[trigger] children[j]))
            &&& i < children.len() ==> r >= 0
            &&& r < 0 ==> unchanged(*old(k), *final(k)) && *final(exit_code_out) == *old(exit_code_out)
            &&& r == -2 ==> i == children.len()
            &&& r >= 0 ==> {
                &&& i < children.len()
                &&& r == children[i]
                &&& *final(exit_code_out) == old(k).procs@[r as int]->0.exit_code
                &&& final(k).procs@[r as int].is_none()
                &&& final(k).cur_proc().children@ == children.remove(i)
            }
        }),
{
    let (cur, _tid) = current_ids(k);
    let ghost children = k.cur_proc().children@;
    let n = match &k.procs[cur] {
        Some(p) => p.children.len(),
        None => 0,
    };
    let mut any = false;
    let mut i: usize = 0;
    while i < n
        invariant
            k.wf(),
            unchanged(*old(k), *k),
            *exit_code_out == *old(exit_code_out),
            cur as int == old(k).cur_pid(),
            old(k).current == Some((cur, _tid)),
            children == old(k).cur_proc().children@,
            n == children.len(),
            i <= n,
            any == exists|j: int| 0 <= j < i && selects(pid, #[trigger] children[j]),
            forall|j: int| 0 <= j < i ==> !(selects(pid, #[trigger] children[j]) && is_zombie_in(k.procs@, children[j], cur as int)),
        decreases n - i,
    {
        let c = match &k.procs[cur] {
            Some(p) => p.children[i],
            None => 0,
        };
        let selected = pid == -1 || (pid >= 0 && pid as usize == c);
        if selected {
            any = true;
            let zombie = c < k.procs.len() && c != cur && match &k.procs[c] {
                Some(q) => q.is_zombie,
                None => false,
            };
            if zombie {
                proof {
                    lemma_first_reapable(k.procs@, children, pid, cur as int, 0, i as int);
                }
                let code = match &k.procs[c] {
                    Some(q) => q.exit_code,
                    None => 0,
                };
                match &mut k.procs[cur] {
                    Some(p) => p.remove_child(i),
                    None => {},
                }
                k.procs.set(c, None);
                *exit_code_out = code;
                return c as isize;
            }
        }
        i = i + 1;
    }
    proof {
        lemma_first_reapable(k.procs@, children, pid, cur as int, 0, n as int);
    }
    if !any {
        return -1;
    }
    -2
}

/// Writes the time `now_us` (microseconds) into `ts` as seconds and
/// microseconds. Returns 0.
pub fn sys_get_time(ts: &mut TimeVal, now_us: usize) -> (r: isize)
    ensures
        r == 0,
        final(ts).sec == now_us / USEC_PER_SEC,
        final(ts).usec == now_us % USEC_PER_SEC,
{
    *ts = TimeVal { sec: now_us / USEC_PER_SEC, usec: now_us % USEC_PER_SEC };
    0
}

/// Task information is not provided: returns -1 and leaves `ti` as it is.
pub fn sys_task_info(ti: &mut TaskInfo) -> (r: isize)
    ensures
        r == -1,
        *final(ti) == *old(ti),
{
    -1
}

/// Maps `[start, start + len)` in the running process with permissions
/// `prot`; see [`crate::mm::MemorySet::mmap`]. Returns 0, or -1 with nothing
/// changed.
pub fn sys_mmap(k: &mut Kernel, start: usize, len: usize, prot: usize) -> (r: isize)
    requires
        old(k).wf(),
        old(k).current.is_some(),
    ensures
        final(k).wf(),
        final(k).current == old(k).current,
        r == 0 || r == -1,
        (r == 0) == mmap_succeeds(old(k).cur_proc().memory_set.areas@, start as int, len as int, prot as int),
        final(k).cur_proc().memory_set.areas@ == mmap_result(
            old(k).cur_proc().memory_set.areas@,
            start as int,
            len as int,
            prot as int,
        ),
        r == -1 ==> unchanged(*old(k), *final(k)),
{
    let (pid, _tid) = current_ids(k);
    let r = match &mut k.procs[pid] {
        Some(p) => p.mmap(start, len, prot),
        None => -1,
    };
    if r == -1 {
        assert(k.procs@ =~= old(k).procs@);
    }
    r
}

/// Unmaps the area of the running process that covers exactly
/// `[start, start + len)`; see [`crate::mm::MemorySet::munmap`]. Returns 0,
/// or -1 with nothing changed.
pub fn sys_munmap(k: &mut Kernel, start: usize, len: usize) -> (r: isize)
    requires
        old(k).wf(),
        old(k).current.is_some(),
    ensures
        final(k).wf(),
        final(k).current == old(k).current,
        r == 0 || r == -1,
        (r == 0) == (first_exact(old(k).cur_proc().memory_set.areas@, start as int, len as int)
            < old(k).cur_proc().memory_set.areas@.len()),
        final(k).cur_proc().memory_set.areas@ == munmap_result(
            old(k).cur_proc().memory_set.areas@,
            start as int,
            len as int,
        ),
        r == -1 ==> unchanged(*old(k), *final(k)),
{
    let (pid, _tid) = current_ids(k);
    let r = match &mut k.procs[pid] {
        Some(p) => p.munmap(start, len),
        None => -1,
    };
    if r == -1 {
        assert(k.procs@ =~= old(k).procs@);
    }
    r
}

/// Moves the running process's program break by `size` bytes and returns the
/// old break; -1, with nothing changed, when the new break would fall below
/// the heap's bottom or past the signed word range.
pub fn sys_sbrk(k: &mut Kernel, size: i32) -> (r: isize)
    requires
        old(k).wf(),
        old(k).current.is_some(),
    ensures
        final(k).wf(),
        final(k).current == old(k).current,
        ({
            let p = old(k).cur_proc();
            let nb = p.program_brk + size;
            &&& p.heap_bottom <= nb <= isize::MAX ==> r == p.program_brk && final(k).cur_proc().program_brk == nb
            &&& !(p.heap_bottom <= nb <= isize::MAX) ==> r == -1 && unchanged(*old(k), *final(k))
        }),
{
    let (pid, _tid) = current_ids(k);
    let res = match &mut k.procs[pid] {
        Some(p) => p.change_program_brk(size),
        None => None,
    };
    match res {
        Some(old_brk) => old_brk as isize,
        None => {
            assert(k.procs@ =~= old(k).procs@);
            -1
        },
    }
}

/// Sets the running thread's priority to `prio`, which must exceed 1.
/// Returns `prio`, or -1 with nothing changed.
pub fn sys_set_priority(k: &mut Kernel, prio: isize) -> (r: isize)
    requires
        old(k).wf(),
        old(k).current.is_some(),
    ensures
        final(k).wf(),
        final(k).current == old(k).current,
        prio <= 1 ==> r == -1 && unchanged(*old(k), *final(k)),
        prio > 1 ==> r == prio && final(k).cur_proc().threads@[old(k).cur_tid()].priority == prio,
{
    if prio <= 1 {
        return -1;
    }
    let (pid, tid) = current_ids(k);
    match &mut k.procs[pid] {
        Some(p) => p.set_priority(tid, prio as usize),
        None => {},
    }
    prio
}

/// Adds to the running process a ready thread that starts at `entry` with
/// stack pointer `user_sp`, and returns its tid; -1 when no tid fits the result.
pub fn sys_thread_create(k: &mut Kernel, entry: usize, user_sp: usize) -> (r: isize)
    requires
        old(k).wf(),
        old(k).current.is_some(),
    ensures
        final(k).wf(),
        final(k).current == old(k).current,
        (r == -1) == (old(k).cur_proc().threads@.len() >= isize::MAX),
        r == -1 ==> unchanged(*old(k), *final(k)),
        r != -1 ==> {
            &&& r == old(k).cur_proc().threads@.len()
            &&& final(k).cur_proc().threads@.len() == r + 1
            &&& final(k).cur_proc().threads@[r as int].trap_cx.sepc == entry
            &&& final(k).ready@ == old(k).ready@.push((old(k).cur_pid() as usize, r as usize))
        },
{
    let (pid, _tid) = current_ids(k);
    let full = match &k.procs[pid] {
        Some(p) => p.threads.len() >= isize::MAX as usize,
        None => true,
    };
    if full {
        return -1;
    }
    let cx = TrapContext::app_init(entry, user_sp);
    let tid = match &mut k.procs[pid] {
        Some(p) => p.add_thread(cx),
        None => 0,
    };
    k.add_task(pid, tid);
    tid as isize
}

} // verus!
