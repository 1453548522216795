//! The task manager: a ready queue scheduled by stride, plus the map
//! from process ids to process control blocks. A kernel keeps one
//! manager; here it is handed to every caller explicitly and
//! exclusively.

use vstd::prelude::*;
use vstd::multiset::Multiset;
use std::collections::BTreeMap;
use std::collections::VecDeque;
use crate::process::ProcessControlBlock;
use crate::stride::Stride;
use crate::task::{step_spec, TaskControlBlock, TaskStatus};

verus! {

broadcast use {
    vstd::std_specs::vecdeque::group_vec_dequeue_axioms,
    vstd::std_specs::btree::group_btree_axioms,
    vstd::seq_lib::group_to_multiset_ensures,
};

/// The position the scheduler picks among the first `upto` tasks of
/// `q`: a later task takes over only when the current pick's stride is
/// strictly greater under the wrap-around comparison.
pub open spec fn chosen_idx(q: Seq<TaskControlBlock>, upto: int) -> int
    decreases upto,
{
    if upto <= 1 {
        0
    } else {
        let prev = chosen_idx(q, upto - 1);
        if q[prev].inner.stride_info.stride.greater_spec(q[upto - 1].inner.stride_info.stride) {
            upto - 1
        } else {
            prev
        }
    }
}

/// The pick always lies among the tasks considered.
pub proof fn lemma_chosen_idx_bounds(q: Seq<TaskControlBlock>, upto: int)
    requires
        upto >= 1,
    ensures
        0 <= chosen_idx(q, upto) < upto,
    decreases upto,
{
    if upto > 1 {
        lemma_chosen_idx_bounds(q, upto - 1);
    }
}

/// The position of the smallest stride among the first `upto` tasks of
/// `q`; ties go to the later task, as the standard library's minimum
/// does.
pub open spec fn min_stride_idx(q: Seq<TaskControlBlock>, upto: int) -> int
    decreases upto,
{
    if upto <= 1 {
        0
    } else {
        let prev = min_stride_idx(q, upto - 1);
        if !q[upto - 1].inner.stride_info.stride.greater_spec(q[prev].inner.stride_info.stride) {
            upto - 1
        } else {
            prev
        }
    }
}

/// While every pair of strides lies within half the stride span — the
/// regime a running scheduler keeps itself in — the wrap-around
/// comparison agrees with the plain one, and the scheduler's pick has
/// the numerically smallest stride of all tasks considered.
pub proof fn lemma_chosen_is_min(q: Seq<TaskControlBlock>, upto: int)
    requires
        1 <= upto <= q.len(),
        forall|i: int, j: int|
            #![trigger q[i].inner.stride_info.stride, q[j].inner.stride_info.stride]
            0 <= i < upto && 0 <= j < upto ==> ({
                let a = q[i].inner.stride_info.stride.0;
                let b = q[j].inner.stride_info.stride.0;
                (if a > b {
                    a - b
                } else {
                    b - a
                }) <= crate::config::BIGSTRDE / 2
            }),
    ensures
        forall|i: int|
            0 <= i < upto ==> q[chosen_idx(q, upto)].inner.stride_info.stride.0 <= (
            #[trigger] q[i].inner.stride_info.stride).0,
    decreases upto,
{
    lemma_chosen_idx_bounds(q, upto);
    if upto > 1 {
        lemma_chosen_idx_bounds(q, upto - 1);
        lemma_chosen_is_min(q, upto - 1);
        let prev = chosen_idx(q, upto - 1);
        let a = q[prev].inner.stride_info.stride;
        let b = q[upto - 1].inner.stride_info.stride;
        assert((if a.0 > b.0 {
            a.0 - b.0
        } else {
            b.0 - a.0
        }) <= crate::config::BIGSTRDE / 2);
        assert(a.greater_spec(b) == (a.0 > b.0));
    }
}

/// The minimum position always lies among the tasks considered.
pub proof fn lemma_min_stride_idx_bounds(q: Seq<TaskControlBlock>, upto: int)
    requires
        upto >= 1,
    ensures
        0 <= min_stride_idx(q, upto) < upto,
    decreases upto,
{
    if upto > 1 {
        lemma_min_stride_idx_bounds(q, upto - 1);
    }
}

/// The ready queue and the parked stopping task.
pub struct TaskManager {
    /// Tasks ready to run.
    pub ready_queue: VecDeque<TaskControlBlock>,
    /// The stopping task, kept so that its kernel stack stays alive
    /// while the processor switches away from it.
    pub stop_task: Option<TaskControlBlock>,
}

impl TaskManager {
    /// The stride of the task the scheduler would prefer.
    pub open spec fn min_stride_spec(self) -> Stride {
        self.ready_queue@[min_stride_idx(
            self.ready_queue@,
            self.ready_queue@.len() as int,
        )].inner.stride_info.stride
    }

    /// An empty manager.
    pub fn new() -> (r: TaskManager)
        ensures
            r.ready_queue@ == Seq::<TaskControlBlock>::empty(),
            r.stop_task is None,
    {
        TaskManager { ready_queue: VecDeque::new(), stop_task: None }
    }

    /// Put a task at the back of the ready queue.
    pub fn add(&mut self, task: TaskControlBlock)
        ensures
            final(self).ready_queue@ == old(self).ready_queue@.push(task),
            final(self).stop_task == old(self).stop_task,
    {
        self.ready_queue.push_back(task);
    }

    /// Take the task with the smallest stride out of the ready queue,
    /// charge it one quantum, and return it. The queue keeps every other
    /// task, rotated by the selection scan.
    pub fn fetch(&mut self) -> (r: Option<TaskControlBlock>)
        requires
            forall|i: int|
                0 <= i < old(self).ready_queue@.len() ==> (
                #[trigger] old(self).ready_queue@[i]).inner.stride_info.priority >= 1,
        ensures
            final(self).stop_task == old(self).stop_task,
            old(self).ready_queue@.len() == 0 ==> r is None && *final(self) == *old(self),
            old(self).ready_queue@.len() > 0 ==> ({
                let q0 = old(self).ready_queue@;
                let k = chosen_idx(q0, q0.len() as int);
                let picked = q0[k];
                &&& r == Some(
                    TaskControlBlock {
                        inner: crate::task::TaskControlBlockInner {
                            stride_info: step_spec(picked.inner.stride_info),
                            ..picked.inner
                        },
                        ..picked
                    },
                )
                &&& final(self).ready_queue@.len() == q0.len() - 1
                &&& final(self).ready_queue@.to_multiset() == q0.to_multiset().remove(picked)
            }),
    {
        if self.ready_queue.len() == 0 {
            return None;
        }
        let ghost q0 = self.ready_queue@;
        let ghost nn = q0.len() as int;
        let mut next_task = match self.ready_queue.pop_front() {
            Some(t) => t,
            None => {
                proof {
                    assert(false);
                }
                return None;
            },
        };
        let n = self.ready_queue.len();
        let ghost mut losers: Seq<TaskControlBlock> = Seq::empty();
        proof {
            assert(self.ready_queue@ =~= q0.subrange(1, nn) + losers);
            assert(q0.subrange(0, 1).to_multiset() =~= Multiset::empty().insert(q0[0])) by {
                assert(q0.subrange(0, 1) =~= Seq::empty().push(q0[0]));
            }
        }
        let mut i: usize = 0;
        while i < n
            invariant
                i <= n,
                nn == n + 1,
                q0.len() == nn,
                self.ready_queue@.len() == n,
                self.ready_queue@ == q0.subrange(i + 1, nn) + losers,
                losers.len() == i,
                next_task == q0[chosen_idx(q0, i + 1)],
                losers.to_multiset().insert(next_task) == q0.subrange(0, i + 1).to_multiset(),
                self.stop_task == old(self).stop_task,
                forall|j: int|
                    0 <= j < q0.len() ==> (#[trigger] q0[j]).inner.stride_info.priority >= 1,
            decreases n - i,
        {
            proof {
                lemma_chosen_idx_bounds(q0, i + 1);
            }
            let mid_task = match self.ready_queue.pop_front() {
                Some(t) => t,
                None => {
                    proof {
                        assert(false);
                    }
                    return None;
                },
            };
            proof {
                assert(mid_task == q0[i + 1]);
            }
            let replace = next_task.inner.stride_info.stride.greater(
                &mid_task.inner.stride_info.stride,
            );
            let ghost old_next = next_task;
            let loser: TaskControlBlock;
            if replace {
                loser = next_task;
                next_task = mid_task;
            } else {
                loser = mid_task;
            }
            self.ready_queue.push_back(loser);
            proof {
                losers = losers.push(if replace {
                    old_next
                } else {
                    q0[i + 1]
                });
                assert(self.ready_queue@ =~= q0.subrange(i + 2, nn) + losers);
                assert(q0.subrange(0, i + 2) =~= q0.subrange(0, i + 1).push(q0[i + 1]));
                assert(losers.to_multiset().insert(next_task) =~= q0.subrange(
                    0,
                    i + 2,
                ).to_multiset());
            }
            i += 1;
        }
        proof {
            lemma_chosen_idx_bounds(q0, nn);
            assert(q0.subrange(0, nn) =~= q0);
            assert(self.ready_queue@ =~= losers);
            assert(losers.to_multiset() =~= q0.to_multiset().remove(q0[chosen_idx(q0, nn)]));
        }
        let inner = next_task.inner_exclusive_access();
        let stride_info = &mut inner.stride_info;
        stride_info.step();
        Some(next_task)
    }

    /// Take the first task with the given thread id out of the ready
    /// queue; a task without a thread id or an unknown id is left alone.
    pub fn remove(&mut self, tid: usize)
        ensures
            final(self).stop_task == old(self).stop_task,
            (forall|i: int|
                0 <= i < old(self).ready_queue@.len() ==> (
                #[trigger] old(self).ready_queue@[i]).inner.res != Some(tid)) ==> *final(self)
                == *old(self),
            (exists|i: int|
                0 <= i < old(self).ready_queue@.len() && (
                #[trigger] old(self).ready_queue@[i]).inner.res == Some(tid)) ==> ({
                let q0 = old(self).ready_queue@;
                exists|k: int|
                    0 <= k < q0.len() && (#[trigger] q0[k]).inner.res == Some(tid) && (forall|
                        j: int,
                    | 0 <= j < k ==> (#[trigger] q0[j]).inner.res != Some(tid))
                    && final(self).ready_queue@ == q0.remove(k)
            }),
    {
        let n = self.ready_queue.len();
        let mut i: usize = 0;
        while i < n
            invariant
                i <= n,
                n == self.ready_queue@.len(),
                *self == *old(self),
                forall|j: int|
                    0 <= j < i ==> (#[trigger] old(self).ready_queue@[j]).inner.res != Some(tid),
            decreases n - i,
        {
            let matches_tid = match self.ready_queue[i].inner.res {
                Some(t) => t == tid,
                None => false,
            };
            if matches_tid {
                self.ready_queue.remove(i);
                return ;
            }
            i += 1;
        }
    }

    /// Park a task as the stopping task, releasing the previous one.
    pub fn add_stop(&mut self, task: TaskControlBlock)
        ensures
            final(self).ready_queue == old(self).ready_queue,
            final(self).stop_task == Some(task),
    {
        self.stop_task = Some(task);
    }

    /// The smallest stride waiting in the ready queue, or zero when the
    /// queue is empty.
    pub fn get_min_stride(&self) -> (r: Stride)
        ensures
            self.ready_queue@.len() == 0 ==> r.0 == 0,
            self.ready_queue@.len() > 0 ==> r == self.min_stride_spec(),
    {
        let n = self.ready_queue.len();
        if n == 0 {
            return Stride(0);
        }
        let mut best = self.ready_queue[0].inner.stride_info.stride;
        let mut i: usize = 1;
        while i < n
            invariant
                1 <= i <= n,
                n == self.ready_queue@.len(),
                best == self.ready_queue@[min_stride_idx(self.ready_queue@, i as int)]
                    .inner.stride_info.stride,
            decreases n - i,
        {
            proof {
                lemma_min_stride_idx_bounds(self.ready_queue@, i as int);
            }
            let s = self.ready_queue[i].inner.stride_info.stride;
            if !s.greater(&best) {
                best = s;
            }
            i += 1;
        }
        best
    }
}

/// Put a task on the ready queue of `manager`.
pub fn add_task(manager: &mut TaskManager, task: TaskControlBlock)
    ensures
        final(manager).ready_queue@ == old(manager).ready_queue@.push(task),
        final(manager).stop_task == old(manager).stop_task,
{
    manager.add(task);
}

/// Mark a task ready and put it on the ready queue of `manager`.
pub fn wakeup_task(manager: &mut TaskManager, task: TaskControlBlock)
    ensures
        final(manager).ready_queue@ == old(manager).ready_queue@.push(
            (TaskControlBlock {
                inner: crate::task::TaskControlBlockInner {
                    task_status: TaskStatus::Ready,
                    ..task.inner
                },
                ..task
            }),
        ),
        final(manager).stop_task == old(manager).stop_task,
{
    let mut task = task;
    let task_inner = task.inner_exclusive_access();
    task_inner.task_status = TaskStatus::Ready;
    add_task(manager, task);
}

/// Take the first task with the given thread id off the ready queue of
/// `manager`.
pub fn remove_task(manager: &mut TaskManager, tid: usize)
    ensures
        final(manager).stop_task == old(manager).stop_task,
        (forall|i: int|
            0 <= i < old(manager).ready_queue@.len() ==> (
            #[trigger] old(manager).ready_queue@[i]).inner.res != Some(tid)) ==> *final(manager)
            == *old(manager),
        (exists|i: int|
            0 <= i < old(manager).ready_queue@.len() && (
            #[trigger] old(manager).ready_queue@[i]).inner.res == Some(tid)) ==> ({
            let q0 = old(manager).ready_queue@;
            exists|k: int|
                0 <= k < q0.len() && (#[trigger] q0[k]).inner.res == Some(tid) && (forall|j: int|
                    0 <= j < k ==> (#[trigger] q0[j]).inner.res != Some(tid))
                    && final(manager).ready_queue@ == q0.remove(k)
        }),
{
    manager.remove(tid);
}

/// Take the next scheduled task off the ready queue of `manager`.
pub fn fetch_task(manager: &mut TaskManager) -> (r: Option<TaskControlBlock>)
    requires
        forall|i: int|
            0 <= i < old(manager).ready_queue@.len() ==> (
            #[trigger] old(manager).ready_queue@[i]).inner.stride_info.priority >= 1,
    ensures
        final(manager).stop_task == old(manager).stop_task,
        old(manager).ready_queue@.len() == 0 ==> r is None && *final(manager) == *old(manager),
        old(manager).ready_queue@.len() > 0 ==> ({
            let q0 = old(manager).ready_queue@;
            let k = chosen_idx(q0, q0.len() as int);
            let picked = q0[k];
            &&& r == Some(
                TaskControlBlock {
                    inner: crate::task::TaskControlBlockInner {
                        stride_info: step_spec(picked.inner.stride_info),
                        ..picked.inner
                    },
                    ..picked
                },
            )
            &&& final(manager).ready_queue@.len() == q0.len() - 1
            &&& final(manager).ready_queue@.to_multiset() == q0.to_multiset().remove(picked)
        }),
{
    manager.fetch()
}

/// Park a task as the stopping task of `manager`.
pub fn add_stopping_task(manager: &mut TaskManager, task: TaskControlBlock)
    ensures
        final(manager).ready_queue == old(manager).ready_queue,
        final(manager).stop_task == Some(task),
{
    manager.add_stop(task);
}

/// Look a process up by its id.
pub fn pid2process(pid2pcb: &BTreeMap<usize, ProcessControlBlock>, pid: usize) -> (r: Option<
    &ProcessControlBlock,
>)
    ensures
        r matches Some(p) ==> pid2pcb@.contains_key(pid) && *p == pid2pcb@[pid],
        r is None ==> !pid2pcb@.contains_key(pid),
{
    pid2pcb.get(&pid)
}

/// Record a process under its id.
pub fn insert_into_pid2process(
    pid2pcb: &mut BTreeMap<usize, ProcessControlBlock>,
    pid: usize,
    process: ProcessControlBlock,
)
    ensures
        final(pid2pcb)@ == old(pid2pcb)@.insert(pid, process),
{
    pid2pcb.insert(pid, process);
}

/// Drop the process recorded under `pid`; the id must be recorded.
pub fn remove_from_pid2process(pid2pcb: &mut BTreeMap<usize, ProcessControlBlock>, pid: usize)
    requires
        old(pid2pcb)@.contains_key(pid),
    ensures
        final(pid2pcb)@ == old(pid2pcb)@.remove(pid),
{
    pid2pcb.remove(&pid);
}

/// How many tasks wait on the ready queue of `manager`.
pub fn get_task_num(manager: &TaskManager) -> (r: usize)
    ensures
        r == manager.ready_queue@.len(),
{
    manager.ready_queue.len()
}

/// The smallest stride waiting on the ready queue of `manager`.
pub fn get_min_stride(manager: &TaskManager) -> (r: Stride)
    ensures
        manager.ready_queue@.len() == 0 ==> r.0 == 0,
        manager.ready_queue@.len() > 0 ==> r == manager.min_stride_spec(),
{
    manager.get_min_stride()
}

} // verus!
