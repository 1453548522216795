//! The OS-level file layer: a read/write cursor and open-mode flags atop
//! one inode handle, and the file operations the syscall layer uses —
//! opening (with create and truncate modes), hard-linking and deleting.

use vstd::prelude::*;
use vstd::string::StringSliceAdditionalSpecFns;
use crate::config::{BLOCK_SZ, DIRENT_SZ, NAME_LENGTH_LIMIT};
use crate::efs::EasyFileSystem;
use crate::layout::{dir_has_name, dir_id_at, dir_name_at, file_count_of, total_blocks_for};
use crate::vfs::{clear_effect, create_effect, delete_effect, link_effect, Inode};

verus! {

/// Total length of the first `j` byte vectors of a scattered buffer.
pub open spec fn lens_sum(bufs: Seq<Vec<u8>>, j: int) -> int
    decreases j,
{
    if j <= 0 {
        0
    } else {
        lens_sum(bufs, j - 1) + bufs[j - 1]@.len()
    }
}

/// The partial sums are non-negative and grow with every vector.
pub proof fn lemma_lens_sum_bounds(bufs: Seq<Vec<u8>>, j: int)
    ensures
        lens_sum(bufs, j) >= 0,
    decreases j,
{
    if j > 0 {
        lemma_lens_sum_bounds(bufs, j - 1);
    }
}

/// Later partial sums are at least earlier ones.
pub proof fn lemma_lens_sum_bounds_between(bufs: Seq<Vec<u8>>, j: int, k: int)
    requires
        j <= k,
    ensures
        lens_sum(bufs, j) <= lens_sum(bufs, k),
    decreases k - j,
{
    if j < k {
        lemma_lens_sum_bounds_between(bufs, j, k - 1);
    }
}

/// The mutable part of an open file: the cursor and the inode handle.
pub struct OSInodeInner {
    /// Read/write cursor in bytes from the start of the file.
    pub offset: usize,
    /// Handle to the file's on-disk inode.
    pub inode: Inode,
}

/// An open file: one inode handle together with a cursor and the modes
/// the file was opened with.
pub struct OSInode {
    /// Whether reads are allowed.
    pub readable: bool,
    /// Whether writes are allowed.
    pub writable: bool,
    /// Cursor and handle.
    pub inner: OSInodeInner,
}

impl OSInode {
    /// Wrap an inode handle as a freshly opened file.
    pub fn new(readable: bool, writable: bool, inode: Inode) -> (r: OSInode)
        ensures
            r.readable == readable,
            r.writable == writable,
            r.inner.offset == 0,
            r.inner.inode == inode,
    {
        OSInode { readable, writable, inner: OSInodeInner { offset: 0, inode } }
    }

    /// Whether reads are allowed.
    pub fn readable(&self) -> (r: bool)
        ensures
            r == self.readable,
    {
        self.readable
    }

    /// Whether writes are allowed.
    pub fn writable(&self) -> (r: bool)
        ensures
            r == self.writable,
    {
        self.writable
    }

    /// Read everything from the cursor to the end of the file, advancing
    /// the cursor to the end.
    pub fn read_all(&mut self, fs: &EasyFileSystem) -> (r: Vec<u8>)
        requires
            fs.shape_inv(),
            old(self).inner.inode.wf(*fs),
        ensures
            ({
                let di = old(self).inner.inode.disk_inode(*fs);
                let off0 = old(self).inner.offset as int;
                &&& final(self).inner.inode == old(self).inner.inode
                &&& final(self).readable == old(self).readable
                &&& final(self).writable == old(self).writable
                &&& off0 < di.size ==> r@ == di.data@.subrange(off0, di.size as int)
                    && final(self).inner.offset == di.size
                &&& off0 >= di.size ==> r@ == Seq::<u8>::empty() && final(self).inner.offset
                    == old(self).inner.offset
            }),
    {
        let ghost di = self.inner.inode.disk_inode(*fs);
        let ghost off0 = self.inner.offset as int;
        let mut buffer: Vec<u8> = Vec::new();
        let mut i: usize = 0;
        while i < BLOCK_SZ
            invariant
                i <= BLOCK_SZ,
                buffer@.len() == i,
            decreases BLOCK_SZ - i,
        {
            buffer.push(0u8);
            i += 1;
        }
        let mut v: Vec<u8> = Vec::new();
        loop
            invariant
                fs.shape_inv(),
                self.inner.inode.wf(*fs),
                self.inner.inode == old(self).inner.inode,
                self.readable == old(self).readable,
                self.writable == old(self).writable,
                buffer@.len() == BLOCK_SZ,
                di == old(self).inner.inode.disk_inode(*fs),
                off0 == old(self).inner.offset as int,
                off0 >= di.size ==> self.inner.offset == old(self).inner.offset && v@
                    == Seq::<u8>::empty(),
                off0 < di.size ==> off0 <= self.inner.offset <= di.size && v@ == di.data@.subrange(
                    off0,
                    self.inner.offset as int,
                ),
            ensures
                off0 < di.size ==> v@ == di.data@.subrange(off0, di.size as int)
                    && self.inner.offset == di.size,
                off0 >= di.size ==> v@ == Seq::<u8>::empty() && self.inner.offset == old(
                    self,
                ).inner.offset,
                self.inner.inode == old(self).inner.inode,
                self.readable == old(self).readable,
                self.writable == old(self).writable,
            decreases di.size as int + 1 - (if off0 >= di.size {
                di.size as int + 1
            } else {
                self.inner.offset as int
            }),
        {
            let len = self.inner.inode.read_at(fs, self.inner.offset, &mut buffer);
            if len == 0 {
                break;
            }
            let start = self.inner.offset;
            proof {
                assert(start + len <= di.size);
            }
            let chunk = vstd::slice::slice_subrange(buffer.as_slice(), 0, len);
            v.extend_from_slice(chunk);
            self.inner.offset = self.inner.offset + len;
            proof {
                assert(v@ =~= di.data@.subrange(off0, self.inner.offset as int));
            }
        }
        v
    }

    /// Read from the cursor into a scattered buffer — one byte vector
    /// per memory region, each non-empty — stopping at the end of the
    /// file. Returns how many bytes were read and advances the cursor by
    /// that much.
    pub fn read(&mut self, fs: &EasyFileSystem, buf: &mut Vec<Vec<u8>>) -> (r: usize)
        requires
            fs.shape_inv(),
            old(self).inner.inode.wf(*fs),
            forall|j: int| 0 <= j < old(buf)@.len() ==> (#[trigger] old(buf)@[j])@.len() > 0,
            old(self).inner.offset + lens_sum(old(buf)@, old(buf)@.len() as int) <= usize::MAX,
        ensures
            ({
                let di = old(self).inner.inode.disk_inode(*fs);
                let off0 = old(self).inner.offset as int;
                let total = lens_sum(old(buf)@, old(buf)@.len() as int);
                &&& final(self).inner.inode == old(self).inner.inode
                &&& final(self).readable == old(self).readable
                &&& final(self).writable == old(self).writable
                &&& final(self).inner.offset == if off0 >= di.size {
                    off0
                } else {
                    vstd::math::min(off0 + total, di.size as int)
                }
                &&& r == final(self).inner.offset - off0
                &&& final(buf)@.len() == old(buf)@.len()
                &&& forall|j: int|
                    0 <= j < old(buf)@.len() ==> (#[trigger] final(buf)@[j])@.len() == old(
                        buf,
                    )@[j]@.len()
                &&& off0 < di.size ==> forall|j: int|
                    0 <= j < old(buf)@.len() ==> ({
                        let oj = vstd::math::min(off0 + lens_sum(old(buf)@, j), di.size as int);
                        let tj = vstd::math::min(
                            oj + old(buf)@[j]@.len(),
                            di.size as int,
                        ) - oj;
                        (#[trigger] final(buf)@[j])@ == di.data@.subrange(oj, oj + tj) + old(
                            buf,
                        )@[j]@.skip(tj)
                    })
            }),
    {
        let ghost di = self.inner.inode.disk_inode(*fs);
        let ghost off0 = self.inner.offset as int;
        let ghost bufs0 = buf@;
        let mut total_read_size: usize = 0;
        let n = buf.len();
        let mut j: usize = 0;
        while j < n
            invariant
                j <= n,
                n == bufs0.len(),
                buf@.len() == n,
                fs.shape_inv(),
                self.inner.inode.wf(*fs),
                self.inner.inode == old(self).inner.inode,
                self.readable == old(self).readable,
                self.writable == old(self).writable,
                di == old(self).inner.inode.disk_inode(*fs),
                off0 == old(self).inner.offset as int,
                bufs0 == old(buf)@,
                forall|j2: int| 0 <= j2 < n ==> (#[trigger] bufs0[j2])@.len() > 0,
                off0 + lens_sum(bufs0, n as int) <= usize::MAX,
                forall|j2: int| j <= j2 < n ==> #[trigger] buf@[j2] == bufs0[j2],
                forall|j2: int|
                    0 <= j2 < j ==> (#[trigger] buf@[j2])@.len() == bufs0[j2]@.len(),
                self.inner.offset as int == if off0 >= di.size {
                    off0
                } else {
                    vstd::math::min(off0 + lens_sum(bufs0, j as int), di.size as int)
                },
                total_read_size == self.inner.offset - off0,
                off0 < di.size ==> forall|j2: int|
                    0 <= j2 < j ==> ({
                        let oj = vstd::math::min(off0 + lens_sum(bufs0, j2), di.size as int);
                        let tj = vstd::math::min(oj + bufs0[j2]@.len(), di.size as int) - oj;
                        (#[trigger] buf@[j2])@ == di.data@.subrange(oj, oj + tj)
                            + bufs0[j2]@.skip(tj)
                    }),
            decreases n - j,
        {
            proof {
                lemma_lens_sum_bounds(bufs0, j as int);
                assert(lens_sum(bufs0, j + 1) == lens_sum(bufs0, j as int) + bufs0[j as int]@.len());
                lemma_lens_sum_bounds_between(bufs0, j + 1, n as int);
            }
            let start = self.inner.offset;
            let read_size = self.inner.inode.read_at(fs, start, &mut buf[j]);
            if read_size == 0 {
                proof {
                    assert forall|j2: int| 0 <= j2 <= n implies lens_sum(bufs0, j2) >= 0 by {
                        lemma_lens_sum_bounds(bufs0, j2);
                    }
                    assert forall|j2: int|
                        0 <= j2 <= n implies lens_sum(bufs0, j2) <= lens_sum(bufs0, n as int) by {
                        lemma_lens_sum_bounds_between(bufs0, j2, n as int);
                    }
                    assert(off0 >= di.size || self.inner.offset >= di.size);
                    assert forall|j2: int| j <= j2 < n implies (#[trigger] buf@[j2])@.len()
                        == bufs0[j2]@.len() by {}
                    assert forall|j2: int|
                        j <= j2 < n && off0 < di.size implies ({
                        let oj = vstd::math::min(off0 + lens_sum(bufs0, j2), di.size as int);
                        let tj = vstd::math::min(oj + bufs0[j2]@.len(), di.size as int) - oj;
                        (#[trigger] buf@[j2])@ == di.data@.subrange(oj, oj + tj)
                            + bufs0[j2]@.skip(tj)
                    }) by {
                        lemma_lens_sum_bounds_between(bufs0, j as int, j2);
                        assert(buf@[j2]@ =~= di.data@.subrange(di.size as int, di.size as int)
                            + bufs0[j2]@.skip(0));
                    }
                    assert(lens_sum(bufs0, n as int) >= lens_sum(bufs0, j as int)) by {
                        lemma_lens_sum_bounds_between(bufs0, j as int, n as int);
                    }
                    let total = lens_sum(bufs0, n as int);
                    assert(self.inner.offset as int == if off0 >= di.size {
                        off0
                    } else {
                        vstd::math::min(off0 + total, di.size as int)
                    });
                    assert(total_read_size == self.inner.offset - off0);
                    assert(buf@.len() == bufs0.len());
                    assert forall|j2: int| 0 <= j2 < n implies (#[trigger] buf@[j2])@.len()
                        == bufs0[j2]@.len() by {}
                    assert forall|j2: int|
                        0 <= j2 < n && off0 < di.size implies ({
                        let oj = vstd::math::min(off0 + lens_sum(bufs0, j2), di.size as int);
                        let tj = vstd::math::min(oj + bufs0[j2]@.len(), di.size as int) - oj;
                        (#[trigger] buf@[j2])@ == di.data@.subrange(oj, oj + tj)
                            + bufs0[j2]@.skip(tj)
                    }) by {
                        if j2 >= j {
                            lemma_lens_sum_bounds_between(bufs0, j as int, j2);
                        }
                    }
                }
                return total_read_size;
            }
            self.inner.offset = self.inner.offset + read_size;
            total_read_size = total_read_size + read_size;
            j += 1;
        }
        proof {
            lemma_lens_sum_bounds(bufs0, n as int);
        }
        total_read_size
    }

    /// Write a scattered buffer — one byte vector per memory region —
    /// at the cursor, growing the file as needed. Returns how many bytes
    /// were written and advances the cursor by that much.
    pub fn write(&mut self, fs: &mut EasyFileSystem, buf: &Vec<Vec<u8>>) -> (r: usize)
        requires
            old(fs).inv(),
            old(self).inner.inode.wf(*old(fs)),
            old(self).inner.inode.is_file_spec(*old(fs)),
            old(self).inner.offset + lens_sum(buf@, buf@.len() as int) <= u32::MAX,
            ({
                let end = old(self).inner.offset + lens_sum(buf@, buf@.len() as int);
                let size0 = old(fs).inodes@[old(self).inner.inode.inode_id_spec(
                    *old(fs),
                )].size as int;
                end > size0 ==> old(fs).free_data_blocks() >= total_blocks_for(end)
                    - total_blocks_for(size0)
            }),
        ensures
            final(fs).inv(),
            final(fs).capacity() == old(fs).capacity(),
            r == lens_sum(buf@, buf@.len() as int),
            final(self).inner.offset == old(self).inner.offset + r,
            final(self).inner.inode == old(self).inner.inode,
            final(self).readable == old(self).readable,
            final(self).writable == old(self).writable,
            ({
                let id = old(self).inner.inode.inode_id_spec(*old(fs));
                let di0 = old(fs).inodes@[id];
                let di1 = final(fs).inodes@[id];
                let off0 = old(self).inner.offset as int;
                let end = off0 + lens_sum(buf@, buf@.len() as int);
                &&& di1.size == if buf@.len() == 0 {
                    di0.size as int
                } else {
                    vstd::math::max(di0.size as int, end)
                }
                &&& final(fs).free_data_blocks() == old(fs).free_data_blocks() - (
                total_blocks_for(di1.size as int) - total_blocks_for(di0.size as int))
                &&& di1.strong_count == di0.strong_count
                &&& forall|i: int|
                    0 <= i < old(fs).capacity() && i != id ==> final(fs).inodes@[i] == old(
                        fs,
                    ).inodes@[i]
                &&& final(fs).inode_bitmap == old(fs).inode_bitmap
                &&& forall|j: int|
                    0 <= j < buf@.len() ==> #[trigger] di1.data@.subrange(
                        off0 + lens_sum(buf@, j),
                        off0 + lens_sum(buf@, j + 1),
                    ) == buf@[j]@
            }),
    {
        let ghost id = self.inner.inode.inode_id_spec(*old(fs));
        let ghost off0 = self.inner.offset as int;
        let ghost end = off0 + lens_sum(buf@, buf@.len() as int);
        let ghost size0 = old(fs).inodes@[id].size as int;
        let mut total_write_size: usize = 0;
        let n = buf.len();
        let mut j: usize = 0;
        while j < n
            invariant
                j <= n,
                n == buf@.len(),
                fs.inv(),
                fs.capacity() == old(fs).capacity(),
                self.inner.inode == old(self).inner.inode,
                self.readable == old(self).readable,
                self.writable == old(self).writable,
                self.inner.inode.wf(*fs),
                self.inner.inode.is_file_spec(*fs),
                id == self.inner.inode.inode_id_spec(*fs),
                id == self.inner.inode.inode_id_spec(*old(fs)),
                1 <= id < fs.capacity(),
                off0 == old(self).inner.offset as int,
                end == off0 + lens_sum(buf@, n as int),
                end <= u32::MAX,
                size0 == old(fs).inodes@[id].size as int,
                self.inner.offset == off0 + lens_sum(buf@, j as int),
                total_write_size == lens_sum(buf@, j as int),
                fs.inodes@[id].size == if j == 0 {
                    size0
                } else {
                    vstd::math::max(size0, off0 + lens_sum(buf@, j as int))
                },
                fs.inodes@[id].strong_count == old(fs).inodes@[id].strong_count,
                forall|i: int|
                    0 <= i < old(fs).capacity() && i != id ==> fs.inodes@[i] == old(
                        fs,
                    ).inodes@[i],
                fs.inode_bitmap == old(fs).inode_bitmap,
                fs.free_data_blocks() == old(fs).free_data_blocks() - (total_blocks_for(
                    fs.inodes@[id].size as int,
                ) - total_blocks_for(size0)),
                end > fs.inodes@[id].size ==> fs.free_data_blocks() >= total_blocks_for(end)
                    - total_blocks_for(fs.inodes@[id].size as int),
                forall|j2: int|
                    0 <= j2 < j ==> #[trigger] fs.inodes@[id].data@.subrange(
                        off0 + lens_sum(buf@, j2),
                        off0 + lens_sum(buf@, j2 + 1),
                    ) == buf@[j2]@,
            decreases n - j,
        {
            proof {
                lemma_lens_sum_bounds(buf@, j as int);
                assert(lens_sum(buf@, j + 1) == lens_sum(buf@, j as int) + buf@[j as int]@.len());
                lemma_lens_sum_bounds_between(buf@, j + 1, n as int);
            }
            let ghost fs_before = *fs;
            let start = self.inner.offset;
            let slice = &buf[j];
            proof {
                let sz = fs.inodes@[id].size as int;
                if start + slice@.len() > sz {
                    vstd::arithmetic::div_mod::lemma_div_is_ordered(
                        start + slice@.len() + crate::config::BLOCK_SZ - 1,
                        end + crate::config::BLOCK_SZ - 1,
                        crate::config::BLOCK_SZ as int,
                    );
                }
            }
            let write_size = self.inner.inode.write_at(fs, start, slice.as_slice());
            self.inner.offset = self.inner.offset + write_size;
            total_write_size = total_write_size + write_size;
            proof {
                let sz_b = fs_before.inodes@[id].size as int;
                let sz_a = fs.inodes@[id].size as int;
                assert(sz_a == vstd::math::max(sz_b, start + slice@.len()));
                if end > sz_a {
                    vstd::arithmetic::div_mod::lemma_div_is_ordered(
                        sz_b + crate::config::BLOCK_SZ - 1,
                        sz_a + crate::config::BLOCK_SZ - 1,
                        crate::config::BLOCK_SZ as int,
                    );
                }
                // the freshly written range holds the slice, and earlier
                // ranges are below the write offset and kept by the splice
                assert forall|j2: int|
                    0 <= j2 < j + 1 implies #[trigger] fs.inodes@[id].data@.subrange(
                    off0 + lens_sum(buf@, j2),
                    off0 + lens_sum(buf@, j2 + 1),
                ) == buf@[j2]@ by {
                    lemma_lens_sum_bounds_between(buf@, j2, j as int);
                    lemma_lens_sum_bounds(buf@, j2);
                    assert(lens_sum(buf@, j2 + 1) == lens_sum(buf@, j2) + buf@[j2]@.len());
                    if j2 == j as int {
                        assert(fs.inodes@[id].data@.subrange(
                            off0 + lens_sum(buf@, j2),
                            off0 + lens_sum(buf@, j2 + 1),
                        ) =~= buf@[j2]@);
                    } else {
                        lemma_lens_sum_bounds_between(buf@, j2 + 1, j as int);
                        assert(fs.inodes@[id].data@.subrange(
                            off0 + lens_sum(buf@, j2),
                            off0 + lens_sum(buf@, j2 + 1),
                        ) =~= fs_before.inodes@[id].data@.subrange(
                            off0 + lens_sum(buf@, j2),
                            off0 + lens_sum(buf@, j2 + 1),
                        ));
                    }
                }
            }
            j += 1;
        }
        proof {
            lemma_lens_sum_bounds(buf@, n as int);
        }
        total_write_size
    }

    /// A snapshot of the file's identity and metadata.
    pub fn get_stat(&self, fs: &EasyFileSystem) -> (r: Stat)
        requires
            fs.shape_inv(),
            self.inner.inode.wf(*fs),
        ensures
            r.dev == 0,
            r.ino == self.inner.inode.inode_id_spec(*fs),
            r.nlink == self.inner.inode.disk_inode(*fs).strong_count,
            self.inner.inode.is_dir_spec(*fs) ==> r.mode == StatMode::dir_spec(),
            self.inner.inode.is_file_spec(*fs) ==> r.mode == StatMode::file_spec(),
    {
        let mut mode = StatMode::null();
        if self.inner.inode.is_dir(fs) {
            mode = StatMode::dir();
        }
        if self.inner.inode.is_file(fs) {
            mode = StatMode::file();
        }
        Stat {
            dev: 0,
            ino: self.inner.inode.get_inode_id(fs) as u64,
            mode,
            nlink: self.inner.inode.get_strong_count(fs) as u32,
            pad: [0, 0, 0, 0, 0, 0, 0],
        }
    }
}

/// The kind bits of a [`Stat`].
#[derive(Clone, Copy, PartialEq, Eq, Structural)]
pub struct StatMode {
    /// The raw mode bits.
    pub bits: u32,
}

impl StatMode {
    /// No kind known.
    pub fn null() -> (r: StatMode)
        ensures
            r.bits == 0,
    {
        StatMode { bits: 0 }
    }

    /// A directory.
    pub open spec fn dir_spec() -> StatMode {
        StatMode { bits: 0o040000 }
    }

    /// A directory.
    pub fn dir() -> (r: StatMode)
        ensures
            r == Self::dir_spec(),
    {
        StatMode { bits: 0o040000 }
    }

    /// A plain file.
    pub open spec fn file_spec() -> StatMode {
        StatMode { bits: 0o100000 }
    }

    /// A plain file.
    pub fn file() -> (r: StatMode)
        ensures
            r == Self::file_spec(),
    {
        StatMode { bits: 0o100000 }
    }
}

/// File metadata as the stat system call reports it.
pub struct Stat {
    /// Device id (always zero here).
    pub dev: u64,
    /// Inode number.
    pub ino: u64,
    /// Kind bits.
    pub mode: StatMode,
    /// Number of hard links.
    pub nlink: u32,
    /// Reserved padding.
    pub pad: [u64; 7],
}

/// The flags the open system call is given, combined by bitwise or.
#[derive(Clone, Copy, PartialEq, Eq, Structural)]
pub struct OpenFlags {
    /// The raw flag bits.
    pub bits: u32,
}

impl OpenFlags {
    /// Open read-only.
    pub fn rdonly() -> (r: OpenFlags)
        ensures
            r.bits == 0,
    {
        OpenFlags { bits: 0 }
    }

    /// Open write-only.
    pub fn wronly() -> (r: OpenFlags)
        ensures
            r.bits == 1,
    {
        OpenFlags { bits: 1 }
    }

    /// Open for reading and writing.
    pub fn rdwr() -> (r: OpenFlags)
        ensures
            r.bits == 2,
    {
        OpenFlags { bits: 2 }
    }

    /// Create the file if it does not exist; empty it if it does.
    pub fn create() -> (r: OpenFlags)
        ensures
            r.bits == 0x200,
    {
        OpenFlags { bits: 0x200 }
    }

    /// Empty the file on opening.
    pub fn trunc() -> (r: OpenFlags)
        ensures
            r.bits == 0x400,
    {
        OpenFlags { bits: 0x400 }
    }

    /// Combine two flag sets.
    pub fn union(self, other: OpenFlags) -> (r: OpenFlags)
        ensures
            r.bits == self.bits | other.bits,
    {
        OpenFlags { bits: self.bits | other.bits }
    }

    /// Whether every bit of `other` is set in `self`.
    pub open spec fn contains_spec(self, other: OpenFlags) -> bool {
        self.bits & other.bits == other.bits
    }

    /// Whether every bit of `other` is set in `self`.
    pub fn contains(&self, other: OpenFlags) -> (r: bool)
        ensures
            r == self.contains_spec(other),
    {
        self.bits & other.bits == other.bits
    }

    /// Whether no flag is set.
    pub fn is_empty(&self) -> (r: bool)
        ensures
            r == (self.bits == 0),
    {
        self.bits == 0
    }

    /// The (readable, writable) pair the flags ask for. Validity of the
    /// combination is not checked, for simplicity.
    pub fn read_write(&self) -> (r: (bool, bool))
        ensures
            self.bits == 0 ==> r == (true, false),
            self.bits != 0 && self.contains_spec(OpenFlags { bits: 1 }) ==> r == (false, true),
            self.bits != 0 && !self.contains_spec(OpenFlags { bits: 1 }) ==> r == (true, true),
    {
        if self.is_empty() {
            (true, false)
        } else if self.contains(OpenFlags { bits: 1 }) {
            (false, true)
        } else {
            (true, true)
        }
    }
}

/// Open the file named `name` in the root directory. With the create
/// flag, a missing file is created and an existing one is emptied; with
/// the truncate flag, an existing file is emptied. Without the create
/// flag, a missing file gives absence.
pub fn open_file(fs: &mut EasyFileSystem, root: &Inode, name: &str, flags: OpenFlags) -> (r:
    Option<OSInode>)
    requires
        old(fs).inv(),
        root.wf(*old(fs)),
        root.is_dir_spec(*old(fs)),
        flags.contains_spec(OpenFlags { bits: 0x200 }) ==> ({
            &&& name.spec_bytes().len() <= NAME_LENGTH_LIMIT
            &&& forall|j: int| 0 <= j < name.spec_bytes().len() ==> name.spec_bytes()[j] != 0
            &&& old(fs).has_free_inode()
            &&& old(fs).free_data_blocks() >= 1
            &&& old(fs).root().size + DIRENT_SZ <= u32::MAX
        }),
    ensures
        final(fs).inv(),
        flags.contains_spec(OpenFlags { bits: 0x200 }) ==> r is Some,
        !flags.contains_spec(OpenFlags { bits: 0x200 }) ==> (r is Some <==> dir_has_name(
            old(fs).root().data@,
            name.spec_bytes(),
        )),
        r is None ==> *final(fs) == *old(fs),
        r matches Some(f) ==> ({
            &&& f.inner.offset == 0
            &&& f.inner.inode.wf(*final(fs))
            &&& (dir_has_name(old(fs).root().data@, name.spec_bytes()) ==> exists|i: int|
                0 <= i < file_count_of(old(fs).root().data@) && dir_name_at(
                    old(fs).root().data@,
                    i,
                ) == name.spec_bytes() && #[trigger] dir_id_at(old(fs).root().data@, i)
                    == f.inner.inode.inode_id_spec(*old(fs)))
            &&& (!dir_has_name(old(fs).root().data@, name.spec_bytes()) ==> create_effect(
                *old(fs),
                *final(fs),
                f.inner.inode,
                name.spec_bytes(),
            ))
            &&& (dir_has_name(old(fs).root().data@, name.spec_bytes()) && (flags.contains_spec(
                OpenFlags { bits: 0x200 },
            ) || flags.contains_spec(OpenFlags { bits: 0x400 })) ==> clear_effect(
                *old(fs),
                *final(fs),
                f.inner.inode.inode_id_spec(*final(fs)),
            ))
            &&& (dir_has_name(old(fs).root().data@, name.spec_bytes()) && !flags.contains_spec(
                OpenFlags { bits: 0x200 },
            ) && !flags.contains_spec(OpenFlags { bits: 0x400 }) ==> *final(fs) == *old(fs))
        }),
{
    let (readable, writable) = flags.read_write();
    if flags.contains(OpenFlags { bits: 0x200 }) {
        match root.find(fs, name) {
            Some(inode) => {
                // the name exists: empty the file
                proof {
                    lemma_found_is_file(*fs, root, inode, name);
                }
                inode.clear(fs);
                Some(OSInode::new(readable, writable, inode))
            },
            None => {
                // create the file
                let inode = root.create(fs, name);
                match inode {
                    Some(inode) => Some(OSInode::new(readable, writable, inode)),
                    None => None,
                }
            },
        }
    } else {
        match root.find(fs, name) {
            Some(inode) => {
                if flags.contains(OpenFlags { bits: 0x400 }) {
                    proof {
                        lemma_found_is_file(*fs, root, inode, name);
                    }
                    inode.clear(fs);
                }
                Some(OSInode::new(readable, writable, inode))
            },
            None => None,
        }
    }
}

/// A handle that `find` returned under an invariant-holding filesystem
/// points at an allocated plain file.
proof fn lemma_found_is_file(fs: EasyFileSystem, root: &Inode, found: Inode, name: &str)
    requires
        fs.inv(),
        root.wf(fs),
        root.is_dir_spec(fs),
        found.wf(fs),
        exists|i: int|
            0 <= i < file_count_of(root.disk_inode(fs).data@) && dir_name_at(
                root.disk_inode(fs).data@,
                i,
            ) == name.spec_bytes() && #[trigger] dir_id_at(root.disk_inode(fs).data@, i)
                == found.inode_id_spec(fs),
    ensures
        found.is_file_spec(fs),
        1 <= found.inode_id_spec(fs) < fs.capacity(),
{
    let i = choose|i: int|
        0 <= i < file_count_of(root.disk_inode(fs).data@) && dir_name_at(
            root.disk_inode(fs).data@,
            i,
        ) == name.spec_bytes() && #[trigger] dir_id_at(root.disk_inode(fs).data@, i)
            == found.inode_id_spec(fs);
    if root.inode_id_spec(fs) != 0 {
        assert(fs.inodes@[root.inode_id_spec(fs)].is_file_spec());
    }
    assert(1 <= dir_id_at(fs.root().data@, i) < fs.capacity());
}

/// Link the open file `osinode` under a second name in the root
/// directory.
pub fn creat_hard_link(fs: &mut EasyFileSystem, root: &Inode, name: &str, osinode: &OSInode) -> (r:
    Option<Inode>)
    requires
        old(fs).inv(),
        root.wf(*old(fs)),
        root.is_dir_spec(*old(fs)),
        osinode.inner.inode.wf(*old(fs)),
        osinode.inner.inode.is_file_spec(*old(fs)),
        name.spec_bytes().len() <= NAME_LENGTH_LIMIT,
        forall|j: int| 0 <= j < name.spec_bytes().len() ==> name.spec_bytes()[j] != 0,
        old(fs).free_data_blocks() >= 1,
        old(fs).root().size + DIRENT_SZ <= u32::MAX,
        old(fs).inodes@[osinode.inner.inode.inode_id_spec(*old(fs))].strong_count < u32::MAX,
    ensures
        final(fs).inv(),
        r is Some <==> !dir_has_name(old(fs).root().data@, name.spec_bytes()),
        r is None ==> *final(fs) == *old(fs),
        r matches Some(h) ==> h == osinode.inner.inode && link_effect(
            *old(fs),
            *final(fs),
            osinode.inner.inode.inode_id_spec(*old(fs)),
            name.spec_bytes(),
        ),
{
    root.create_from_inode(fs, name, &osinode.inner.inode)
}

/// Delete the entry named `name` from the root directory.
pub fn delete_file(fs: &mut EasyFileSystem, root: &Inode, name: &str) -> (r: isize)
    requires
        old(fs).inv(),
        root.wf(*old(fs)),
        root.is_dir_spec(*old(fs)),
    ensures
        final(fs).inv(),
        r == -1 <==> !dir_has_name(old(fs).root().data@, name.spec_bytes()),
        r == -1 || r == 0,
        r == -1 ==> *final(fs) == *old(fs),
        r == 0 ==> exists|k: int|
            #[trigger] delete_effect(*old(fs), *final(fs), name.spec_bytes(), k),
{
    root.delete_entry(fs, name)
}

} // verus!
