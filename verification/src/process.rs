//! Decision logic of the process-management system calls: given the
//! plain values the kernel reads (the current time, the children list,
//! the process map, the raw arguments), compute the result and the
//! action the kernel is to perform. The surrounding kernel does the
//! memory traffic and the context switches.

use vstd::prelude::*;
use vstd::string::StringSliceAdditionalSpecFns;
use std::collections::BTreeMap;
use crate::config::{MAX_SYSCALL_NUM, PAGE_SIZE};
use crate::task::{TaskControlBlockInner, TaskStatus};

verus! {

broadcast use vstd::std_specs::btree::group_btree_axioms;

/// A moment in time, split into whole seconds and microseconds.
#[derive(Clone, Copy, PartialEq, Eq, Structural, Debug)]
pub struct TimeVal {
    /// Whole seconds.
    pub sec: usize,
    /// Microseconds below one second.
    pub usec: usize,
}

impl TimeVal {
    /// Split a microsecond count into seconds and the remainder.
    pub fn from_us(ut: usize) -> (r: TimeVal)
        ensures
            r.sec == ut / 1000000,
            r.usec == ut % 1000000,
            r.usec < 1000000,
    {
        TimeVal { sec: ut / 1000000, usec: ut % 1000000 }
    }
}

/// A snapshot of one task for the task-information system call.
pub struct TaskInfo {
    /// Where the task stands in its life cycle.
    pub status: TaskStatus,
    /// How often each system call number was invoked.
    pub syscall_times: [u32; MAX_SYSCALL_NUM],
    /// Total running time in microseconds.
    pub time: usize,
}

/// The process-level state the system calls here read and change: the
/// process id, its exit state, pending signals, and its children.
pub struct ProcessControlBlock {
    /// Process id.
    pub pid: usize,
    /// Whether the process has exited and waits to be collected.
    pub is_zombie: bool,
    /// The code it exited with.
    pub exit_code: i32,
    /// Pending signal bits.
    pub signals: u32,
    /// Child processes.
    pub children: Vec<ProcessControlBlock>,
}

/// The signal bits a kill may post: interrupt, illegal instruction,
/// abort, arithmetic fault and segmentation fault.
pub const SIGNAL_MASK: u32 = (1u32 << 2) | (1u32 << 4) | (1u32 << 6) | (1u32 << 8) | (1u32 << 11);

/// Whether `pid` selects the child `c`: -1 selects any child, other
/// values select by id.
pub open spec fn waits_for(c: ProcessControlBlock, pid: isize) -> bool {
    pid == -1 || c.pid == pid as usize
}

/// Collect a finished child: `-1` when no child matches `pid`, `-2`
/// when a matching child is still running, and otherwise the first
/// matching zombie child's id and exit code, with that child removed
/// from the list.
pub fn sys_waitpid(children: &mut Vec<ProcessControlBlock>, pid: isize) -> (r: (isize, Option<
    i32,
>))
    ensures
        (forall|i: int|
            0 <= i < old(children)@.len() ==> !waits_for(#[trigger] old(children)@[i], pid)) ==> r
            == (-1isize, None::<i32>) && final(children)@ == old(children)@,
        (exists|i: int| 0 <= i < old(children)@.len() && waits_for(#[trigger] old(children)@[i], pid))
            ==> ({
            ||| ((forall|i: int|
                0 <= i < old(children)@.len() ==> !(waits_for(#[trigger] old(children)@[i], pid)
                    && old(children)@[i].is_zombie)) && r == (-2isize, None::<i32>)
                && final(children)@ == old(children)@)
            ||| (exists|k: int|
                0 <= k < old(children)@.len() && waits_for(#[trigger] old(children)@[k], pid)
                    && old(children)@[k].is_zombie && (forall|j: int|
                    0 <= j < k ==> !(waits_for(#[trigger] old(children)@[j], pid) && old(
                        children,
                    )@[j].is_zombie)) && r == (
                    old(children)@[k].pid as isize,
                    Some(old(children)@[k].exit_code),
                ) && final(children)@ == old(children)@.remove(k))
        }),
{
    let n = children.len();
    let mut any: bool = false;
    let mut i: usize = 0;
    while i < n
        invariant
            i <= n,
            n == children@.len(),
            *children == *old(children),
            any <==> (exists|j: int| 0 <= j < i && waits_for(#[trigger] children@[j], pid)),
        decreases n - i,
    {
        let matches_pid = pid == -1 || pid as usize == children[i].pid;
        proof {
            assert(matches_pid == waits_for(children@[i as int], pid));
        }
        if matches_pid {
            any = true;
        }
        i += 1;
    }
    if !any {
        return (-1, None);
    }
    let mut k: usize = 0;
    while k < n
        invariant
            k <= n,
            n == children@.len(),
            *children == *old(children),
            forall|j: int|
                0 <= j < k ==> !(waits_for(#[trigger] children@[j], pid)
                    && children@[j].is_zombie),
        decreases n - k,
    {
        let matches_pid = pid == -1 || pid as usize == children[k].pid;
        if matches_pid && children[k].is_zombie {
            let found_pid = children[k].pid;
            let exit_code = children[k].exit_code;
            children.remove(k);
            return (found_pid as isize, Some(exit_code));
        }
        k += 1;
    }
    (-2, None)
}

/// Post a signal: 0 when the process exists and the signal bits are
/// valid, with the bits merged into the process's pending signals; -1
/// otherwise, changing nothing.
pub fn sys_kill(pid2pcb: &mut BTreeMap<usize, ProcessControlBlock>, pid: usize, signal: u32) -> (r:
    isize)
    ensures
        old(pid2pcb)@.contains_key(pid) && signal & !SIGNAL_MASK == 0 ==> r == 0
            && final(pid2pcb)@.dom() == old(pid2pcb)@.dom() && final(pid2pcb)@[pid]
            == (ProcessControlBlock {
            signals: old(pid2pcb)@[pid].signals | signal,
            ..old(pid2pcb)@[pid]
        }) && (forall|p: usize|
            old(pid2pcb)@.contains_key(p) && p != pid ==> final(pid2pcb)@[p] == old(pid2pcb)@[p]),
        !(old(pid2pcb)@.contains_key(pid) && signal & !SIGNAL_MASK == 0) ==> r == -1
            && final(pid2pcb)@ == old(pid2pcb)@,
    {
        if signal & !SIGNAL_MASK != 0 {
            return -1;
        }
        let mut process = match pid2pcb.remove(&pid) {
            Some(p) => p,
            None => {
                return -1;
            },
        };
        process.signals = process.signals | signal;
        pid2pcb.insert(pid, process);
        proof {
            assert(pid2pcb@.dom() =~= old(pid2pcb)@.dom());
        }
        0
    }

/// What the memory-map system call asks the kernel to do.
#[derive(Clone, Copy, PartialEq, Eq, Structural)]
pub enum MmapDecision {
    /// The arguments are invalid: return -1.
    Reject,
    /// Nothing to map: return 0.
    Done,
    /// Map the page range with the given permission bits.
    MapRange {
        /// First address of the range.
        start: usize,
        /// One past the last address of the range.
        end: usize,
        /// Permission bits: readable 0x2, writable 0x4, executable 0x8.
        perm: u8,
    },
}

/// The permission bits the raw `port` argument asks for.
pub open spec fn perm_of_port(port: usize) -> u8 {
    ((if port & 1 != 0 {
        2int
    } else {
        0int
    }) + (if port & 2 != 0 {
        4int
    } else {
        0int
    }) + (if port & 4 != 0 {
        8int
    } else {
        0int
    })) as u8
}

/// Validate a memory-map request: the start must be page-aligned, the
/// protection bits must be known and not empty, and an empty range is a
/// no-op.
pub fn sys_mmap(start: usize, len: usize, port: usize) -> (r: MmapDecision)
    requires
        start + len <= usize::MAX,
    ensures
        start % PAGE_SIZE != 0 ==> r is Reject,
        start % PAGE_SIZE == 0 && (port & !0x7 != 0 || port & 0x7 == 0) ==> r is Reject,
        start % PAGE_SIZE == 0 && port & !0x7 == 0 && port & 0x7 != 0 && len == 0 ==> r is Done,
        start % PAGE_SIZE == 0 && port & !0x7 == 0 && port & 0x7 != 0 && len != 0 ==> r == (
        MmapDecision::MapRange { start, end: (start + len) as usize, perm: perm_of_port(port) }),
{
    if start % PAGE_SIZE != 0 {
        return MmapDecision::Reject;
    }
    if port & !0x7 != 0 || port & 0x7 == 0 {
        return MmapDecision::Reject;
    }
    if len == 0 {
        return MmapDecision::Done;
    }
    let mut flag: u8 = 0;
    if port & 0b001 != 0 {
        flag = flag + 2;
    }
    if port & 0b010 != 0 {
        flag = flag + 4;
    }
    if port & 0b100 != 0 {
        flag = flag + 8;
    }
    MmapDecision::MapRange { start, end: start + len, perm: flag }
}

/// What the memory-unmap system call asks the kernel to do.
#[derive(Clone, Copy, PartialEq, Eq, Structural)]
pub enum MunmapDecision {
    /// The arguments are invalid: return -1.
    Reject,
    /// Nothing to unmap: return 0.
    Done,
    /// Unmap the page range.
    Unmap {
        /// First address of the range.
        start: usize,
        /// One past the last address of the range.
        end: usize,
    },
}

/// Validate a memory-unmap request: an empty range is a no-op, and the
/// start must be page-aligned.
pub fn sys_munmap(start: usize, len: usize) -> (r: MunmapDecision)
    requires
        start + len <= usize::MAX,
    ensures
        len == 0 ==> r is Done,
        len != 0 && start % PAGE_SIZE != 0 ==> r is Reject,
        len != 0 && start % PAGE_SIZE == 0 ==> r == (MunmapDecision::Unmap {
            start,
            end: (start + len) as usize,
        }),
{
    if len == 0 {
        return MunmapDecision::Done;
    }
    if start % PAGE_SIZE != 0 {
        return MunmapDecision::Reject;
    }
    MunmapDecision::Unmap { start, end: start + len }
}

/// Set the current task's scheduling priority: priorities of two and
/// above are accepted and returned, anything lower is refused with -1.
pub fn sys_set_priority(cur_task_inner: &mut TaskControlBlockInner, prio: isize) -> (r: isize)
    ensures
        prio >= 2 ==> r == prio && *final(cur_task_inner) == (TaskControlBlockInner {
            stride_info: crate::task::StrideInfo {
                priority: prio as u64,
                ..old(cur_task_inner).stride_info
            },
            ..*old(cur_task_inner)
        }),
        prio < 2 ==> r == -1 && *final(cur_task_inner) == *old(cur_task_inner),
{
    if prio >= 2 {
        cur_task_inner.stride_info.priority = prio as u64;
        return prio;
    }
    -1
}

/// The time value the clock system call hands to the caller, split from
/// the kernel clock's microsecond count.
pub fn sys_get_time(time_us: usize) -> (r: TimeVal)
    ensures
        r.sec == time_us / 1000000,
        r.usec == time_us % 1000000,
{
    TimeVal::from_us(time_us)
}

/// The task-information system call is not implemented and always
/// reports failure.
pub fn sys_task_info() -> (r: isize)
    ensures
        r == -1,
{
    -1
}

/// Hand the processor away voluntarily; the system call itself always
/// succeeds. The switch to the next task belongs to the scheduler.
pub fn sys_yield() -> (r: isize)
    ensures
        r == 0,
{
    0
}

/// Load a program to replace the current one: open the named file
/// read-only, read its whole image, and hand the image, the argument
/// list and the argument count (the caller's return value) back for the
/// kernel to install. Absence of the file reports -1 and loads nothing.
pub fn sys_exec(
    fs: &mut crate::efs::EasyFileSystem,
    root: &crate::vfs::Inode,
    path: &str,
    args_vec: Vec<String>,
) -> (r: Option<(Vec<u8>, Vec<String>, isize)>)
    requires
        old(fs).inv(),
        root.wf(*old(fs)),
        root.is_dir_spec(*old(fs)),
        args_vec@.len() <= isize::MAX,
    ensures
        *final(fs) == *old(fs),
        r is Some <==> crate::layout::dir_has_name(old(fs).root().data@, path.spec_bytes()),
        r matches Some((data, args, argc)) ==> ({
            &&& args == args_vec
            &&& argc == args_vec@.len()
            &&& exists|i: int|
                0 <= i < crate::layout::file_count_of(old(fs).root().data@)
                    && crate::layout::dir_name_at(old(fs).root().data@, i) == path.spec_bytes()
                    && data@ == old(fs).inodes@[#[trigger] crate::layout::dir_id_at(
                    old(fs).root().data@,
                    i,
                ) as int].data@
        }),
{
    proof {
        assert(0u32 & 0x200u32 != 0x200u32) by (bit_vector);
        assert(0u32 & 0x400u32 != 0x400u32) by (bit_vector);
    }
    match crate::os_inode::open_file(fs, root, path, crate::os_inode::OpenFlags::rdonly()) {
        Some(app_inode) => {
            let mut app_inode = app_inode;
            let all_data = app_inode.read_all(fs);
            proof {
                let di = app_inode.inner.inode.disk_inode(*fs);
                assert(all_data@ =~= di.data@);
                let data0 = old(fs).root().data@;
                let i = choose|i: int|
                    0 <= i < crate::layout::file_count_of(data0) && crate::layout::dir_name_at(
                        data0,
                        i,
                    ) == path.spec_bytes() && #[trigger] crate::layout::dir_id_at(data0, i)
                        == app_inode.inner.inode.inode_id_spec(*old(fs));
                assert(all_data@ == old(fs).inodes@[crate::layout::dir_id_at(
                    data0,
                    i,
                ) as int].data@);
            }
            let argc = args_vec.len();
            Some((all_data, args_vec, argc as isize))
        },
        None => None,
    }
}

/// Start a new process from the named program: open the file read-only
/// and read its whole image for the kernel to build the child from.
/// Absence of the file reports -1 and spawns nothing.
pub fn sys_spawn(fs: &mut crate::efs::EasyFileSystem, root: &crate::vfs::Inode, path: &str) -> (r:
    Option<Vec<u8>>)
    requires
        old(fs).inv(),
        root.wf(*old(fs)),
        root.is_dir_spec(*old(fs)),
    ensures
        *final(fs) == *old(fs),
        r is Some <==> crate::layout::dir_has_name(old(fs).root().data@, path.spec_bytes()),
        r matches Some(data) ==> exists|i: int|
            0 <= i < crate::layout::file_count_of(old(fs).root().data@)
                && crate::layout::dir_name_at(old(fs).root().data@, i) == path.spec_bytes()
                && data@ == old(fs).inodes@[#[trigger] crate::layout::dir_id_at(
                old(fs).root().data@,
                i,
            ) as int].data@,
{
    proof {
        assert(0u32 & 0x200u32 != 0x200u32) by (bit_vector);
        assert(0u32 & 0x400u32 != 0x400u32) by (bit_vector);
    }
match crate::os_inode::open_file(fs, root, path, crate::os_inode::OpenFlags::rdonly()) {
        Some(app_inode) => {
            let mut app_inode = app_inode;
            let all_data = app_inode.read_all(fs);
            proof {
                let di = app_inode.inner.inode.disk_inode(*fs);
                assert(all_data@ =~= di.data@);
                let data0 = old(fs).root().data@;
                let i = choose|i: int|
                    0 <= i < crate::layout::file_count_of(data0) && crate::layout::dir_name_at(
                        data0,
                        i,
                    ) == path.spec_bytes() && #[trigger] crate::layout::dir_id_at(data0, i)
                        == app_inode.inner.inode.inode_id_spec(*old(fs));
                assert(all_data@ == old(fs).inodes@[crate::layout::dir_id_at(
                    data0,
                    i,
                ) as int].data@);
            }
            Some(all_data)
        },
        None => None,
    }
}

} // verus!
