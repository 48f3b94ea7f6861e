//! What the detector needs to know about the threads of a process.

use vstd::prelude::*;

verus! {

/// The resources a thread keeps while it is alive; what matters here is the
/// identity it was given.
#[derive(Clone, Copy, Debug, PartialEq, Eq)]
pub struct TaskUserRes {
    pub tid: usize,
}

/// One thread of a process.  `res` is gone once the thread has given its
/// resources back.
#[derive(Clone, Copy, Debug, PartialEq, Eq)]
pub struct TaskControlBlock {
    pub res: Option<TaskUserRes>,
}

/// Which positions of the thread table hold a thread.
pub open spec fn live_mask(tasks: Seq<Option<TaskControlBlock>>) -> Seq<bool> {
    Seq::new(tasks.len(), |i: int| tasks[i].is_some())
}

/// The slot at position `i` holds a thread that still carries identity `tid`.
pub open spec fn has_tid(tasks: Seq<Option<TaskControlBlock>>, i: int, tid: usize) -> bool {
    &&& tasks[i] matches Some(tcb)
    &&& tcb.res matches Some(res)
    &&& res.tid == tid
}

/// Some thread in `tasks` carries identity `tid`.
pub open spec fn has_task(tasks: Seq<Option<TaskControlBlock>>, tid: usize) -> bool {
    exists|i: int| 0 <= i < tasks.len() && has_tid(tasks, i, tid)
}

/// `pos` is where identity `tid` is found: the first slot whose thread carries
/// it.
pub open spec fn is_task_pos(tasks: Seq<Option<TaskControlBlock>>, pos: int, tid: usize) -> bool {
    &&& 0 <= pos < tasks.len()
    &&& has_tid(tasks, pos, tid)
    &&& forall|i: int| 0 <= i < pos ==> !has_tid(tasks, i, tid)
}

/// The position that identity `tid` resolves to in `tasks`.
pub open spec fn task_pos(tasks: Seq<Option<TaskControlBlock>>, tid: usize) -> int {
    choose|pos: int| is_task_pos(tasks, pos, tid)
}

/// An identity resolves to one position only.
pub proof fn lemma_task_pos_unique(tasks: Seq<Option<TaskControlBlock>>, pos: int, tid: usize)
    requires
        is_task_pos(tasks, pos, tid),
    ensures
        task_pos(tasks, tid) == pos,
{
    let other = task_pos(tasks, tid);
    assert(is_task_pos(tasks, other, tid));
}

/// The position of the first thread in `tasks` that carries identity `tid`,
/// or `None` when no thread does.
pub fn find_task_pos_by_tid(tasks: &[Option<TaskControlBlock>], tid: usize) -> (found: Option<
    usize,
>)
    ensures
        found.is_some() == has_task(tasks@, tid),
        found matches Some(pos) ==> is_task_pos(tasks@, pos as int, tid) && pos == task_pos(
            tasks@,
            tid,
        ),
{
    let mut i: usize = 0;
    while i < tasks.len()
        invariant
            0 <= i <= tasks@.len(),
            forall|j: int| 0 <= j < i ==> !has_tid(tasks@, j, tid),
        decreases tasks@.len() - i,
    {
        match &tasks[i] {
            Some(tcb) => {
                match &tcb.res {
                    Some(res) => {
                        if res.tid == tid {
                            proof {
                                lemma_task_pos_unique(tasks@, i as int, tid);
                            }
                            return Some(i);
                        }
                    },
                    None => {},
                }
            },
            None => {},
        }
        i += 1;
    }
    None
}

/// The identity of the thread in `task`.
pub fn get_tid_unchecked(task: &Option<TaskControlBlock>) -> (tid: usize)
    requires
        task matches Some(tcb) && tcb.res.is_some(),
    ensures
        task matches Some(tcb) && tcb.res matches Some(res) && tid == res.tid,
{
    task.as_ref().unwrap().res.as_ref().unwrap().tid
}

} // verus!
