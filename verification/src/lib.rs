//! An in-memory model of a small block-device-backed filesystem together
//! with the kernel bookkeeping that surrounds it: an inode layer with
//! hard links and swap-compaction directories, a banker's-algorithm
//! deadlock detector, a stride scheduler, and the decision logic of a few
//! process-management system calls.
//!
//! The filesystem keeps every invariant explicit: directory sizes stay a
//! multiple of the entry record size, link counts equal the number of
//! directory entries naming an inode, and block accounting is exact.

pub mod config;
pub mod deadlock;
pub mod efs;
pub mod layout;
pub mod manager;
pub mod os_inode;
pub mod process;
pub mod stride;
pub mod task;
pub mod vfs;
