//! Compile-time parameters of the filesystem layout and the kernel model.

use vstd::prelude::*;

verus! {

/// Size of one disk block in bytes.
pub const BLOCK_SZ: usize = 512;

/// Size of one on-disk inode record in bytes.
pub const INODE_SZ: usize = 128;

/// How many inode records fit in one block.
pub const INODES_PER_BLOCK: usize = 4;

/// Longest file name a directory entry can hold, in bytes.
pub const NAME_LENGTH_LIMIT: usize = 27;

/// Size of the name field of a directory entry (name plus terminating zero).
pub const NAME_FIELD_SZ: usize = 28;

/// Size of one directory entry record in bytes.
pub const DIRENT_SZ: usize = 32;

/// Number of system calls the per-task counters can distinguish.
pub const MAX_SYSCALL_NUM: usize = 500;

/// Size of one page of virtual memory in bytes.
pub const PAGE_SIZE: usize = 4096;

/// The stride added to a task over its whole quantum; each step adds
/// `BIGSTRDE / priority`.
pub const BIGSTRDE: u64 = 0x1000_0000;

/// Priority given to a freshly created task.
pub const INIT_PRIORITY: u64 = 16;

} // verus!
