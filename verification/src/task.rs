//! Per-task bookkeeping: system-call counters, stride-scheduling state,
//! and the task control block itself.

use vstd::prelude::*;
use crate::config::{BIGSTRDE, INIT_PRIORITY, MAX_SYSCALL_NUM};
use crate::manager::TaskManager;
use crate::stride::Stride;

verus! {

/// Counters of the system calls a task has made, and when it first ran.
pub struct SyscallInfo {
    /// How often each system call number was invoked.
    pub syscall_times: [u32; MAX_SYSCALL_NUM],
    /// When the task first ran, in microseconds.
    pub time: usize,
    /// Whether the task has not run yet.
    pub is_first: bool,
}

impl SyscallInfo {
    /// Fresh counters: nothing called, nothing run.
    pub fn zero_init() -> (r: SyscallInfo)
        ensures
            forall|i: int| 0 <= i < MAX_SYSCALL_NUM ==> r.syscall_times@[i] == 0,
            r.time == 0,
            r.is_first,
    {
        SyscallInfo { syscall_times: [0; MAX_SYSCALL_NUM], time: 0, is_first: true }
    }
}

/// A task's stride-scheduling state.
#[derive(Clone, Copy)]
pub struct StrideInfo {
    /// Accumulated stride; the scheduler prefers the smallest.
    pub stride: Stride,
    /// Priority; each quantum adds `BIGSTRDE / priority` to the stride.
    pub priority: u64,
}

/// The stride-scheduling state after one quantum: the stride grows by
/// the stride span divided by the priority, wrapping around at the top.
pub open spec fn step_spec(si: StrideInfo) -> StrideInfo {
    StrideInfo {
        stride: Stride(
            ((si.stride.0 + BIGSTRDE as int / si.priority as int) % (u64::MAX as int
                + 1)) as u64,
        ),
        priority: si.priority,
    }
}

impl StrideInfo {
    /// Scheduling state of a fresh task: the fair starting stride and
    /// the default priority.
    pub fn new(manager: &TaskManager) -> (r: StrideInfo)
        ensures
            r.priority == INIT_PRIORITY,
            manager.ready_queue@.len() == 0 ==> r.stride.0 == 0,
            manager.ready_queue@.len() > 0 ==> r.stride == manager.min_stride_spec(),
    {
        StrideInfo { stride: Stride::init(manager), priority: INIT_PRIORITY }
    }

    /// Account one scheduling quantum.
    pub fn step(&mut self)
        requires
            old(self).priority >= 1,
        ensures
            *final(self) == step_spec(*old(self)),
    {
        let inc = BIGSTRDE / self.priority;
        self.stride = Stride(self.stride.0.wrapping_add(inc));
    }
}

/// How far along its life cycle a task is.
#[derive(Clone, Copy, PartialEq, Eq, Structural)]
pub enum TaskStatus {
    /// Ready to run.
    Ready,
    /// Running right now.
    Running,
    /// Waiting for something.
    Blocked,
}

/// The mutable part of a task control block. The trap context and the
/// saved registers of the running kernel are identified by plain numbers
/// here; their content belongs to the machine, not to this model.
pub struct TaskControlBlockInner {
    /// The task's user resource (its thread id), if allocated.
    pub res: Option<usize>,
    /// Physical page number of the frame holding the trap context.
    pub trap_cx_ppn: usize,
    /// Where the task stands in its life cycle.
    pub task_status: TaskStatus,
    /// Set when the task exits or fails.
    pub exit_code: Option<i32>,
    /// System-call counters.
    pub syscall_info: SyscallInfo,
    /// Stride-scheduling state.
    pub stride_info: StrideInfo,
}

impl TaskControlBlockInner {
    /// Where the task stands in its life cycle.
    fn get_status(&self) -> (r: TaskStatus)
        ensures
            r == self.task_status,
    {
        self.task_status
    }
}

/// One task: its kernel stack and its mutable state, reachable only
/// under exclusive access.
pub struct TaskControlBlock {
    /// The kernel stack.
    pub kstack: usize,
    /// The mutable state.
    pub inner: TaskControlBlockInner,
}

impl TaskControlBlock {
    /// Exclusive access to the mutable state; exclusivity is what the
    /// mutable borrow grants.
    pub fn inner_exclusive_access(&mut self) -> (r: &mut TaskControlBlockInner)
        ensures
            *r == old(self).inner,
            *final(r) == final(self).inner,
            final(self).kstack == old(self).kstack,
    {
        &mut self.inner
    }

    /// A fresh, ready task on the given kernel stack with the given
    /// thread id: fair starting stride, default priority, no system
    /// calls yet.
    pub fn new(manager: &TaskManager, tid: usize, kstack: usize) -> (r: TaskControlBlock)
        ensures
            r.kstack == kstack,
            r.inner.res == Some(tid),
            r.inner.task_status == TaskStatus::Ready,
            r.inner.exit_code is None,
            r.inner.stride_info.priority == INIT_PRIORITY,
            manager.ready_queue@.len() == 0 ==> r.inner.stride_info.stride.0 == 0,
            manager.ready_queue@.len() > 0 ==> r.inner.stride_info.stride
                == manager.min_stride_spec(),
    {
        TaskControlBlock {
            kstack,
            inner: TaskControlBlockInner {
                res: Some(tid),
                trap_cx_ppn: 0,
                task_status: TaskStatus::Ready,
                exit_code: None,
                syscall_info: SyscallInfo::zero_init(),
                stride_info: StrideInfo::new(manager),
            },
        }
    }
}

} // verus!
