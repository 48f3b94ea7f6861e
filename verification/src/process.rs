//! The synchronization state that one process owns.

use crate::detector::DeadlockDetector;
use crate::ledger::Ledger;
use crate::task::TaskControlBlock;
use vstd::prelude::*;

verus! {

/// How a binary lock makes its caller wait.
#[derive(Clone, Copy, Debug, PartialEq, Eq)]
pub enum MutexKind {
    /// The caller keeps trying.
    Spin,
    /// The caller is suspended until the lock is released.
    Blocking,
}

/// What the registry records of a counting semaphore.
#[derive(Clone, Copy, Debug, PartialEq, Eq)]
pub struct SemaphoreSlot {
    /// The number of units the semaphore was created with.
    pub res_count: usize,
}

/// What the registry records of a condition variable.
#[derive(Clone, Copy, Debug, PartialEq, Eq)]
pub struct CondvarSlot {}

/// Threads, synchronization objects and deadlock bookkeeping of one process.
///
/// All of it is read and written under the process's exclusive bookkeeping
/// access, which every function here takes as a `&mut` borrow.
#[derive(Clone, Debug, PartialEq, Eq)]
pub struct ProcessSync {
    /// The thread table; a thread is known to the detector by its position.
    pub tasks: Vec<Option<TaskControlBlock>>,
    /// Binary locks, by identifier.
    pub mutex_list: Vec<Option<MutexKind>>,
    /// Counting semaphores, by identifier.
    pub semaphore_list: Vec<Option<SemaphoreSlot>>,
    /// Condition variables, by identifier.
    pub condvar_list: Vec<Option<CondvarSlot>>,
    /// Whether lock acquisitions consult the safety oracle.
    pub deadlock_detection: bool,
    /// The resource tables of the binary locks.
    pub mutex_deadlock_detector: DeadlockDetector,
}

impl ProcessSync {
    /// The resource tables as a ledger.
    pub open spec fn ledger(&self) -> Ledger {
        self.mutex_deadlock_detector@
    }

    /// The tables are well formed and cover every lock identifier and every
    /// thread position in use.
    pub open spec fn wf(&self) -> bool {
        &&& self.mutex_deadlock_detector.inner.wf()
        &&& self.mutex_list@.len() <= self.ledger().resources()
        &&& self.tasks@.len() <= self.ledger().threads()
    }

    /// `other` differs from `self` in the resource tables at most.
    pub open spec fn same_but_ledger(&self, other: &ProcessSync) -> bool {
        &&& self.tasks == other.tasks
        &&& self.mutex_list == other.mutex_list
        &&& self.semaphore_list == other.semaphore_list
        &&& self.condvar_list == other.condvar_list
        &&& self.deadlock_detection == other.deadlock_detection
    }

    /// The state of a process that has just been created: no thread entered
    /// yet, no object, detection switched off.
    pub fn new() -> (process: Self)
        ensures
            process.wf(),
            process.tasks@.len() == 0,
            process.mutex_list@.len() == 0,
            process.semaphore_list@.len() == 0,
            process.condvar_list@.len() == 0,
            !process.deadlock_detection,
            process.ledger() == Ledger::initial(),
    {
        Self {
            tasks: Vec::new(),
            mutex_list: Vec::new(),
            semaphore_list: Vec::new(),
            condvar_list: Vec::new(),
            deadlock_detection: false,
            mutex_deadlock_detector: DeadlockDetector::new(),
        }
    }

    /// Checks at run time that the tables are well formed and cover every lock
    /// identifier and every thread position in use.
    pub fn well_formed(&self) -> (ok: bool)
        ensures
            ok == self.wf(),
    {
        self.mutex_deadlock_detector.inner.well_formed() && self.mutex_list.len()
            <= self.mutex_deadlock_detector.inner.available.len() && self.tasks.len()
            <= self.mutex_deadlock_detector.inner.allocation.len()
    }

    /// Brings the thread axis up to the thread table.  To be called once a new
    /// thread has its slot in `tasks` and before its position is used with the
    /// detector.
    pub fn thread_created(&mut self)
        requires
            old(self).mutex_deadlock_detector.inner.wf(),
        ensures
            final(self).ledger() == old(self).ledger().with_threads(old(self).tasks@.len()),
            final(self).same_but_ledger(old(self)),
            final(self).mutex_deadlock_detector.inner.wf(),
            old(self).mutex_list@.len() <= old(self).ledger().resources() ==> final(self).wf(),
    {
        let count = self.tasks.len();
        self.mutex_deadlock_detector.resize_update_thread_cnt(count);
    }
}

} // verus!
