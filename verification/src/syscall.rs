//! The bookkeeping half of the synchronization system calls.
//!
//! Each function here runs under the exclusive bookkeeping access of the
//! calling process and never waits.  Where a call has to block, wake or sleep,
//! the function says so in its result, and the kernel does that work once the
//! bookkeeping access has been given up.

use crate::process::{CondvarSlot, MutexKind, ProcessSync, SemaphoreSlot};
use crate::registry::{claim_slot, is_next_slot, occupied, with_slot};
use crate::task::{
    find_task_pos_by_tid, get_tid_unchecked, has_task, live_mask, task_pos, TaskControlBlock,
};
use vstd::prelude::*;

verus! {

/// Status of a lock acquisition that the safety oracle has refused.
pub const SYSERR_DEADLOCK: isize = -0xDEAD;

/// Status of a call whose argument is not one it accepts.
pub const SYSERR_UNKNOWN: isize = -1;

/// A lock acquisition between the safety check and the commit: the caller is
/// about to wait on the lock itself.
///
/// Nothing here says where the caller stands in the thread table.  Positions
/// may shift while it waits, so the commit looks the caller up afresh.
#[derive(Clone, Copy, Debug, PartialEq, Eq)]
pub struct PendingLock {
    /// The lock.
    pub mutex_id: usize,
    /// Whether the check has written the request into `need`.
    pub requested: bool,
}

/// What the kernel does for the caller once the bookkeeping is done.
#[derive(Clone, Copy, Debug, PartialEq, Eq)]
pub enum Action {
    /// Nothing; the status goes back to the caller at once.
    Return,
    /// Suspend the caller until the clock reads `expire_ms` milliseconds.
    Sleep { expire_ms: usize },
    /// Acquire the lock, however long that takes, then commit `pending` with
    /// [`sys_mutex_lock_acquired`].
    AcquireMutex { pending: PendingLock },
    /// Release the lock.
    ReleaseMutex { mutex_id: usize },
    /// Give one unit back to the semaphore.
    SemaphoreUp { sem_id: usize },
    /// Take one unit from the semaphore, waiting for it if need be.
    SemaphoreDown { sem_id: usize },
    /// Wake one waiter of the condition variable.
    CondvarSignal { condvar_id: usize },
    /// Release the lock, wait on the condition variable, acquire the lock
    /// again.
    CondvarWait { condvar_id: usize, mutex_id: usize },
}

/// Outcome of the bookkeeping half of a call.
#[derive(Clone, Copy, Debug, PartialEq, Eq)]
pub struct Syscall {
    /// What the call returns to its caller in the end.
    pub status: isize,
    /// What remains to be done before it returns.
    pub action: Action,
}

/// Suspends the caller for `ms` milliseconds from `now_ms`.
pub fn sys_sleep(now_ms: usize, ms: usize) -> (out: Syscall)
    requires
        now_ms + ms <= usize::MAX,
    ensures
        out == (Syscall { status: 0, action: Action::Sleep { expire_ms: (now_ms + ms) as usize } }),
{
    let expire_ms = now_ms + ms;
    Syscall { status: 0, action: Action::Sleep { expire_ms } }
}

/// Creates a binary lock and returns its identifier.
///
/// The lock takes the first empty slot of the registry, or a new one.  The
/// resource axis is brought up to the registry's size, and the lock's column
/// starts afresh: one free unit, none held, none asked for.
pub fn sys_mutex_create(process: &mut ProcessSync, blocking: bool) -> (id: isize)
    requires
        old(process).wf(),
        old(process).mutex_list@.len() < isize::MAX,
    ensures
        is_next_slot(old(process).mutex_list@, id as int),
        final(process).mutex_list@ == with_slot(
            old(process).mutex_list@,
            id as int,
            if blocking {
                MutexKind::Blocking
            } else {
                MutexKind::Spin
            },
        ),
        final(process).ledger() == old(process).ledger().with_resources(
            final(process).mutex_list@.len(),
        ).restock(id as int, 1),
        final(process).ledger().total(id as int) == 1,
        forall|r: int|
            0 <= r < old(process).ledger().resources() && r != id ==> final(process).ledger().total(
                r,
            ) == old(process).ledger().total(r),
        final(process).tasks == old(process).tasks,
        final(process).semaphore_list == old(process).semaphore_list,
        final(process).condvar_list == old(process).condvar_list,
        final(process).deadlock_detection == old(process).deadlock_detection,
        final(process).wf(),
{
    let mutex = if !blocking {
        MutexKind::Spin
    } else {
        MutexKind::Blocking
    };
    let id = claim_slot(&mut process.mutex_list, mutex);
    let len = process.mutex_list.len();
    process.mutex_deadlock_detector.inner.resize_update_res_cnt(len);
    process.mutex_deadlock_detector.inner.reset_resource(id, 1);
    id as isize
}

/// The safety check of a lock acquisition.
///
/// With detection switched on, the request of the calling thread is put to
/// the oracle.  A refusal comes back as [`SYSERR_DEADLOCK`] and leaves the
/// tables as they were.  In every other case the caller goes on to wait for
/// the lock, and the commit in [`sys_mutex_lock_acquired`] follows.  With
/// detection switched off nothing is asked and nothing is written.
pub fn sys_mutex_lock(
    process: &mut ProcessSync,
    task: &Option<TaskControlBlock>,
    mutex_id: usize,
) -> (out: Syscall)
    requires
        old(process).wf(),
        task matches Some(tcb) && tcb.res matches Some(res) && has_task(
            old(process).tasks@,
            res.tid,
        ),
        occupied(old(process).mutex_list@, mutex_id as int),
        old(process).deadlock_detection ==> old(process).ledger().need[task_pos(
            old(process).tasks@,
            task->0.res->0.tid,
        )][mutex_id as int] < u32::MAX,
    ensures
        final(process).same_but_ledger(old(process)),
        final(process).wf(),
        ({
            let tidx = task_pos(old(process).tasks@, task->0.res->0.tid);
            let asked = old(process).ledger().request(tidx, mutex_id as int);
            let refused = old(process).deadlock_detection && !asked.is_safe(
                live_mask(old(process).tasks@),
            );
            &&& 0 <= tidx < old(process).tasks@.len()
            &&& refused ==> {
                &&& out == (Syscall { status: SYSERR_DEADLOCK, action: Action::Return })
                &&& final(process).ledger() == old(process).ledger()
            }
            &&& !refused ==> {
                &&& out == (Syscall {
                    status: 0,
                    action: Action::AcquireMutex {
                        pending: PendingLock {
                            mutex_id,
                            requested: old(process).deadlock_detection,
                        },
                    },
                })
                &&& final(process).ledger() == if old(process).deadlock_detection {
                    asked
                } else {
                    old(process).ledger()
                }
            }
        }),
        !old(process).deadlock_detection ==> out.status != SYSERR_DEADLOCK && *final(process)
            == *old(process),
{
    let tid = get_tid_unchecked(task);
    let tidx = find_task_pos_by_tid(process.tasks.as_slice(), tid).unwrap();
    if process.deadlock_detection && !process.mutex_deadlock_detector.inner.request(
        process.tasks.as_slice(),
        tidx,
        mutex_id,
    ) {
        return Syscall { status: SYSERR_DEADLOCK, action: Action::Return };
    }
    Syscall {
        status: 0,
        action: Action::AcquireMutex {
            pending: PendingLock { mutex_id, requested: process.deadlock_detection },
        },
    }
}

/// The commit of a lock acquisition, once the caller holds the lock.
///
/// The caller is looked up in the thread table as it stands now, after the
/// wait, and the books are written at that position: one unit of the lock
/// moves from the free pool to the thread.  Where the check had written the
/// request into `need`, that unit of need is settled; where it had not, `need`
/// stays as it is.
pub fn sys_mutex_lock_acquired(
    process: &mut ProcessSync,
    task: &Option<TaskControlBlock>,
    pending: PendingLock,
) -> (status: isize)
    requires
        old(process).wf(),
        task matches Some(tcb) && tcb.res matches Some(res) && has_task(
            old(process).tasks@,
            res.tid,
        ),
        occupied(old(process).mutex_list@, pending.mutex_id as int),
        old(process).ledger().available[pending.mutex_id as int] >= 1,
        old(process).ledger().allocation[task_pos(
            old(process).tasks@,
            task->0.res->0.tid,
        )][pending.mutex_id as int] < u32::MAX,
        pending.requested ==> old(process).ledger().need[task_pos(
            old(process).tasks@,
            task->0.res->0.tid,
        )][pending.mutex_id as int] >= 1,
    ensures
        status == 0,
        final(process).ledger() == if pending.requested {
            old(process).ledger().allocate(
                task_pos(old(process).tasks@, task->0.res->0.tid),
                pending.mutex_id as int,
            )
        } else {
            old(process).ledger().grant(
                task_pos(old(process).tasks@, task->0.res->0.tid),
                pending.mutex_id as int,
            )
        },
        forall|r: int|
            0 <= r < old(process).ledger().resources() ==> final(process).ledger().total(r)
                == old(process).ledger().total(r),
        final(process).same_but_ledger(old(process)),
        final(process).wf(),
{
    let tid = get_tid_unchecked(task);
    let tidx = find_task_pos_by_tid(process.tasks.as_slice(), tid).unwrap();
    let mutex_id = pending.mutex_id;
    if pending.requested {
        process.mutex_deadlock_detector.inner.allocate(tidx, mutex_id);
    } else {
        process.mutex_deadlock_detector.inner.available[mutex_id] -= 1;
        process.mutex_deadlock_detector.inner.allocation[tidx][mutex_id] += 1;
        proof {
            assert(process.ledger() =~~= old(process).ledger().grant(tidx as int, mutex_id as int));
            old(process).ledger().lemma_allocate_conserves(tidx as int, mutex_id as int);
        }
    }
    0
}

/// The bookkeeping of a lock release: the calling thread gives its unit of
/// the lock back to the free pool.  The oracle is not consulted.
pub fn sys_mutex_unlock(
    process: &mut ProcessSync,
    task: &Option<TaskControlBlock>,
    mutex_id: usize,
) -> (out: Syscall)
    requires
        old(process).wf(),
        task matches Some(tcb) && tcb.res matches Some(res) && has_task(
            old(process).tasks@,
            res.tid,
        ),
        occupied(old(process).mutex_list@, mutex_id as int),
        old(process).ledger().allocation[task_pos(
            old(process).tasks@,
            task->0.res->0.tid,
        )][mutex_id as int] >= 1,
        old(process).ledger().available[mutex_id as int] < u32::MAX,
    ensures
        out == (Syscall { status: 0, action: Action::ReleaseMutex { mutex_id } }),
        final(process).ledger() == old(process).ledger().free(
            task_pos(old(process).tasks@, task->0.res->0.tid),
            mutex_id as int,
        ),
        forall|r: int|
            0 <= r < old(process).ledger().resources() ==> final(process).ledger().total(r)
                == old(process).ledger().total(r),
        final(process).same_but_ledger(old(process)),
        final(process).wf(),
{
    let tid = get_tid_unchecked(task);
    let tidx = find_task_pos_by_tid(process.tasks.as_slice(), tid).unwrap();
    process.mutex_deadlock_detector.inner.free(tidx, mutex_id);
    Syscall { status: 0, action: Action::ReleaseMutex { mutex_id } }
}

/// Creates a counting semaphore with `res_count` units and returns its
/// identifier: the first empty slot of the registry, or a new one.
pub fn sys_semaphore_create(process: &mut ProcessSync, res_count: usize) -> (id: isize)
    requires
        old(process).semaphore_list@.len() < isize::MAX,
    ensures
        is_next_slot(old(process).semaphore_list@, id as int),
        final(process).semaphore_list@ == with_slot(
            old(process).semaphore_list@,
            id as int,
            SemaphoreSlot { res_count },
        ),
        final(process).tasks == old(process).tasks,
        final(process).mutex_list == old(process).mutex_list,
        final(process).condvar_list == old(process).condvar_list,
        final(process).deadlock_detection == old(process).deadlock_detection,
        final(process).mutex_deadlock_detector == old(process).mutex_deadlock_detector,
{
    let id = claim_slot(&mut process.semaphore_list, SemaphoreSlot { res_count });
    id as isize
}

/// Gives one unit back to semaphore `sem_id`.
pub fn sys_semaphore_up(process: &ProcessSync, sem_id: usize) -> (out: Syscall)
    requires
        occupied(process.semaphore_list@, sem_id as int),
    ensures
        out == (Syscall { status: 0, action: Action::SemaphoreUp { sem_id } }),
{
    Syscall { status: 0, action: Action::SemaphoreUp { sem_id } }
}

/// Takes one unit from semaphore `sem_id`.  Semaphores are outside the
/// oracle's coverage: the tables are neither read nor written.
pub fn sys_semaphore_down(process: &ProcessSync, sem_id: usize) -> (out: Syscall)
    requires
        occupied(process.semaphore_list@, sem_id as int),
    ensures
        out == (Syscall { status: 0, action: Action::SemaphoreDown { sem_id } }),
{
    Syscall { status: 0, action: Action::SemaphoreDown { sem_id } }
}

/// Creates a condition variable and returns its identifier: the first empty
/// slot of the registry, or a new one.
pub fn sys_condvar_create(process: &mut ProcessSync, _arg: usize) -> (id: isize)
    requires
        old(process).condvar_list@.len() < isize::MAX,
    ensures
        is_next_slot(old(process).condvar_list@, id as int),
        final(process).condvar_list@ == with_slot(
            old(process).condvar_list@,
            id as int,
            CondvarSlot {  },
        ),
        final(process).tasks == old(process).tasks,
        final(process).mutex_list == old(process).mutex_list,
        final(process).semaphore_list == old(process).semaphore_list,
        final(process).deadlock_detection == old(process).deadlock_detection,
        final(process).mutex_deadlock_detector == old(process).mutex_deadlock_detector,
{
    let id = claim_slot(&mut process.condvar_list, CondvarSlot {  });
    id as isize
}

/// Wakes one waiter of condition variable `condvar_id`.
pub fn sys_condvar_signal(process: &ProcessSync, condvar_id: usize) -> (out: Syscall)
    requires
        occupied(process.condvar_list@, condvar_id as int),
    ensures
        out == (Syscall { status: 0, action: Action::CondvarSignal { condvar_id } }),
{
    Syscall { status: 0, action: Action::CondvarSignal { condvar_id } }
}

/// Waits on condition variable `condvar_id`, giving up lock `mutex_id` for
/// the duration.  The wait goes past the oracle: the tables are neither read
/// nor written.
pub fn sys_condvar_wait(process: &ProcessSync, condvar_id: usize, mutex_id: usize) -> (out: Syscall)
    requires
        occupied(process.condvar_list@, condvar_id as int),
        occupied(process.mutex_list@, mutex_id as int),
    ensures
        out == (Syscall { status: 0, action: Action::CondvarWait { condvar_id, mutex_id } }),
{
    Syscall { status: 0, action: Action::CondvarWait { condvar_id, mutex_id } }
}

/// Switches deadlock detection off (`enabled == 0`) or on (`enabled == 1`).
/// Any other value is refused with [`SYSERR_UNKNOWN`] and changes nothing.
pub fn sys_enable_deadlock_detect(process: &mut ProcessSync, enabled: usize) -> (status: isize)
    ensures
        enabled <= 1 ==> status == 0 && final(process).deadlock_detection == (enabled == 1),
        enabled > 1 ==> status == SYSERR_UNKNOWN && final(process).deadlock_detection
            == old(process).deadlock_detection,
        final(process).tasks == old(process).tasks,
        final(process).mutex_list == old(process).mutex_list,
        final(process).semaphore_list == old(process).semaphore_list,
        final(process).condvar_list == old(process).condvar_list,
        final(process).mutex_deadlock_detector == old(process).mutex_deadlock_detector,
{
    let enabled = if enabled == 0 {
        false
    } else if enabled == 1 {
        true
    } else {
        return SYSERR_UNKNOWN;
    };
    process.deadlock_detection = enabled;
    0
}

} // verus!
