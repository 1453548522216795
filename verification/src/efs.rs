//! The filesystem allocator and superblock model: inode and data-block
//! bitmaps, the inode table, and the layout arithmetic that places an
//! inode number at a (block, offset) position.
//!
//! The model collapses the block device and the block cache into the
//! inode table itself; `cache_synced` stands for the cache's dirty state,
//! so that every mutating operation can state that it flushed the cache
//! before returning.

use vstd::prelude::*;
use crate::config::{BLOCK_SZ, DIRENT_SZ, INODES_PER_BLOCK, INODE_SZ};
use crate::layout::{
    dir_id_at, dir_wf, file_count_of, name_field_wf, DiskInode, DiskInodeType,
};

verus! {

// ---------------------------------------------------------------------------
// Counting helpers
// ---------------------------------------------------------------------------
/// How many entries of `s` are `false` (how many slots are free).
pub open spec fn count_false(s: Seq<bool>) -> int
    decreases s.len(),
{
    if s.len() == 0 {
        0
    } else {
        (if s.last() {
            0int
        } else {
            1int
        }) + count_false(s.drop_last())
    }
}

pub proof fn lemma_count_false_bounds(s: Seq<bool>)
    ensures
        0 <= count_false(s) <= s.len(),
    decreases s.len(),
{
    if s.len() > 0 {
        lemma_count_false_bounds(s.drop_last());
    }
}

/// Setting slot `i` changes the free count by exactly the difference the
/// two values make.
pub proof fn lemma_count_false_update(s: Seq<bool>, i: int, v: bool)
    requires
        0 <= i < s.len(),
    ensures
        count_false(s.update(i, v)) == count_false(s) - (if s[i] {
            0int
        } else {
            1int
        }) + (if v {
            0int
        } else {
            1int
        }),
    decreases s.len(),
{
    let t = s.update(i, v);
    if i == s.len() - 1 {
        assert(t.drop_last() =~= s.drop_last());
    } else {
        assert(t.drop_last() =~= s.drop_last().update(i, v));
        lemma_count_false_update(s.drop_last(), i, v);
    }
}

/// How many entries of `s` equal `x`.
pub open spec fn count_eq_u32(s: Seq<u32>, x: u32) -> int
    decreases s.len(),
{
    if s.len() == 0 {
        0
    } else {
        (if s.last() == x {
            1int
        } else {
            0int
        }) + count_eq_u32(s.drop_last(), x)
    }
}

pub proof fn lemma_count_eq_u32_bounds(s: Seq<u32>, x: u32)
    ensures
        0 <= count_eq_u32(s, x) <= s.len(),
    decreases s.len(),
{
    if s.len() > 0 {
        lemma_count_eq_u32_bounds(s.drop_last(), x);
    }
}

/// A value that appears nowhere is counted zero times.
pub proof fn lemma_count_eq_u32_zero(s: Seq<u32>, x: u32)
    requires
        forall|i: int| 0 <= i < s.len() ==> s[i] != x,
    ensures
        count_eq_u32(s, x) == 0,
    decreases s.len(),
{
    if s.len() > 0 {
        lemma_count_eq_u32_zero(s.drop_last(), x);
    }
}

/// A value that appears somewhere is counted at least once.
pub proof fn lemma_count_eq_u32_pos(s: Seq<u32>, x: u32, i: int)
    requires
        0 <= i < s.len(),
        s[i] == x,
    ensures
        count_eq_u32(s, x) >= 1,
    decreases s.len(),
{
    lemma_count_eq_u32_bounds(s.drop_last(), x);
    if i < s.len() - 1 {
        lemma_count_eq_u32_pos(s.drop_last(), x, i);
    }
}

pub proof fn lemma_count_eq_u32_push(s: Seq<u32>, x: u32, v: u32)
    ensures
        count_eq_u32(s.push(v), x) == count_eq_u32(s, x) + (if v == x {
            1int
        } else {
            0int
        }),
{
    assert(s.push(v).drop_last() =~= s);
}

pub proof fn lemma_count_eq_u32_update(s: Seq<u32>, i: int, v: u32, x: u32)
    requires
        0 <= i < s.len(),
    ensures
        count_eq_u32(s.update(i, v), x) == count_eq_u32(s, x) - (if s[i] == x {
            1int
        } else {
            0int
        }) + (if v == x {
            1int
        } else {
            0int
        }),
    decreases s.len(),
{
    let t = s.update(i, v);
    if i == s.len() - 1 {
        assert(t.drop_last() =~= s.drop_last());
    } else {
        assert(t.drop_last() =~= s.drop_last().update(i, v));
        lemma_count_eq_u32_update(s.drop_last(), i, v, x);
    }
}

/// Swap-removal — overwriting position `i` with the last element and then
/// dropping the last element — removes exactly one occurrence of the
/// overwritten value.
pub proof fn lemma_count_eq_u32_swap_remove(s: Seq<u32>, i: int, x: u32)
    requires
        0 <= i < s.len(),
    ensures
        count_eq_u32(s.update(i, s[s.len() - 1]).drop_last(), x) == count_eq_u32(s, x) - (if s[i]
            == x {
            1int
        } else {
            0int
        }),
{
    let last = s[s.len() - 1];
    let upd = s.update(i, last);
    lemma_count_eq_u32_update(s, i, last, x);
    assert(upd.last() == last);
}

// ---------------------------------------------------------------------------
// Directory reference counting
// ---------------------------------------------------------------------------
/// The inode numbers stored by the entries of directory content `data`.
pub open spec fn dir_ids(data: Seq<u8>) -> Seq<u32> {
    Seq::new(file_count_of(data) as nat, |i: int| dir_id_at(data, i))
}

/// How many entries of directory content `data` name inode `id`.
pub open spec fn ref_count_in(data: Seq<u8>, id: u32) -> int {
    count_eq_u32(dir_ids(data), id)
}

// ---------------------------------------------------------------------------
// The filesystem
// ---------------------------------------------------------------------------
/// The filesystem: both allocation bitmaps, the inode table, the layout
/// parameters, and the modeled dirty state of the block cache.
pub struct EasyFileSystem {
    /// One flag per inode slot; `true` means allocated.
    pub inode_bitmap: Vec<bool>,
    /// One flag per data block; `true` means allocated.
    pub data_bitmap: Vec<bool>,
    /// The inode table, indexed by inode number.
    pub inodes: Vec<DiskInode>,
    /// First block of the inode area.
    pub inode_area_start_block: u32,
    /// First block of the data area.
    pub data_area_start_block: u32,
    /// Whether the block cache holds no dirty block.
    pub cache_synced: bool,
}

impl EasyFileSystem {
    /// How many inode slots the filesystem has.
    pub open spec fn capacity(self) -> int {
        self.inodes@.len() as int
    }

    /// How many data blocks are still free.
    pub open spec fn free_data_blocks(self) -> int {
        count_false(self.data_bitmap@)
    }

    /// Whether some inode slot is still free.
    pub open spec fn has_free_inode(self) -> bool {
        exists|i: int| 0 <= i < self.inode_bitmap@.len() && !self.inode_bitmap@[i]
    }

    /// Block holding inode `id`.
    pub open spec fn pos_block_of(self, id: int) -> int {
        self.inode_area_start_block + id / INODES_PER_BLOCK as int
    }

    /// Offset of inode `id` inside its block.
    pub open spec fn pos_offset_of(self, id: int) -> int {
        (id % INODES_PER_BLOCK as int) * INODE_SZ as int
    }

    /// Inode number sitting at a (block, offset) position.
    pub open spec fn id_of_pos(self, block_id: int, block_offset: int) -> int {
        (block_id - self.inode_area_start_block) * INODES_PER_BLOCK as int + block_offset
            / INODE_SZ as int
    }

    /// Whether `b` is a data-block number inside the data area.
    pub open spec fn data_block_in_range(self, b: u32) -> bool {
        self.data_area_start_block <= b < self.data_area_start_block + self.data_bitmap@.len()
    }

    /// Whether data block `b` is marked allocated.
    pub open spec fn data_block_marked(self, b: u32) -> bool {
        self.data_bitmap@[b - self.data_area_start_block]
    }

    /// The root directory's on-disk inode.
    pub open spec fn root(self) -> DiskInode {
        self.inodes@[0]
    }

    /// Shape of the tables and the layout parameters.
    pub open spec fn shape_inv(self) -> bool {
        &&& self.inodes@.len() == self.inode_bitmap@.len()
        &&& 1 <= self.capacity() <= 0x10_0000
        &&& self.data_bitmap@.len() <= 0x100_0000
        &&& self.inode_area_start_block >= 1
        &&& self.inode_area_start_block + self.capacity() / INODES_PER_BLOCK as int + 1
            <= u32::MAX
        &&& self.data_area_start_block + self.data_bitmap@.len() <= u32::MAX
        &&& forall|id: int| 0 <= id < self.capacity() ==> (#[trigger] self.inodes@[id]).wf()
        &&& self.inode_bitmap@[0]
        &&& self.root().is_dir_spec()
        &&& forall|id: int|
            1 <= id < self.capacity() ==> (#[trigger] self.inodes@[id]).is_file_spec()
    }

    /// Slots that are not allocated hold an empty inode.
    pub open spec fn unalloc_inv(self) -> bool {
        forall|id: int|
            0 <= id < self.capacity() && !self.inode_bitmap@[id] ==> (
            #[trigger] self.inodes@[id]).size == 0
    }

    /// The root directory's content is well formed and every entry names
    /// an allocated file inode.
    pub open spec fn dir_inv(self) -> bool {
        &&& dir_wf(self.root().data@)
        &&& forall|i: int|
            0 <= i < file_count_of(self.root().data@) ==> 1 <= #[trigger] dir_id_at(
                self.root().data@,
                i,
            ) < self.capacity() && self.inode_bitmap@[dir_id_at(self.root().data@, i) as int]
    }

    /// Every allocated file inode's link count equals the number of root
    /// directory entries that name it, and is at least one.
    pub open spec fn link_inv(self) -> bool {
        forall|id: int|
            1 <= id < self.capacity() && self.inode_bitmap@[id] ==> (
            #[trigger] self.inodes@[id]).strong_count == ref_count_in(
                self.root().data@,
                id as u32,
            ) && self.inodes@[id].strong_count >= 1
    }

    /// Every data block owned by an inode lies in the data area and is
    /// marked allocated, and no block is owned twice.
    pub open spec fn block_inv(self) -> bool {
        &&& forall|id: int, k: int|
            0 <= id < self.capacity() && 0 <= k < self.inodes@[id].blocks@.len()
                ==> self.data_block_in_range(#[trigger] self.inodes@[id].blocks@[k])
                && self.data_block_marked(self.inodes@[id].blocks@[k])
        &&& forall|id1: int, k1: int, id2: int, k2: int|
            #![trigger self.inodes@[id1].blocks@[k1], self.inodes@[id2].blocks@[k2]]
            0 <= id1 < self.capacity() && 0 <= k1 < self.inodes@[id1].blocks@.len() && 0 <= id2
                < self.capacity() && 0 <= k2 < self.inodes@[id2].blocks@.len() && !(id1 == id2
                && k1 == k2) ==> self.inodes@[id1].blocks@[k1] != self.inodes@[id2].blocks@[k2]
    }

    /// The filesystem invariant: all of the above at once.
    pub open spec fn inv(self) -> bool {
        &&& self.shape_inv()
        &&& self.unalloc_inv()
        &&& self.dir_inv()
        &&& self.link_inv()
        &&& self.block_inv()
    }

    /// Build a fresh filesystem with the given numbers of inode slots and
    /// data blocks: an empty root directory at inode number zero and
    /// everything else free.
    pub fn new(inode_capacity: usize, data_capacity: usize) -> (fs: EasyFileSystem)
        requires
            1 <= inode_capacity <= 0x10_0000,
            data_capacity <= 0x100_0000,
        ensures
            fs.inv(),
            fs.capacity() == inode_capacity,
            fs.data_bitmap@.len() == data_capacity,
            fs.free_data_blocks() == data_capacity,
            fs.root().size == 0,
            fs.cache_synced,
            forall|id: int| 1 <= id < inode_capacity ==> !fs.inode_bitmap@[id],
    {
        let mut inode_bitmap: Vec<bool> = Vec::new();
        let mut inodes: Vec<DiskInode> = Vec::new();
        let mut root = DiskInode {
            size: 0,
            type_: DiskInodeType::Directory,
            strong_count: 1,
            data: Vec::new(),
            blocks: Vec::new(),
        };
        inodes.push(root);
        inode_bitmap.push(true);
        let mut id: usize = 1;
        while id < inode_capacity
            invariant
                1 <= id <= inode_capacity,
                inodes@.len() == id,
                inode_bitmap@.len() == id,
                inode_bitmap@[0],
                inodes@[0].is_dir_spec(),
                inodes@[0].size == 0,
                inodes@[0].data@.len() == 0,
                inodes@[0].blocks@.len() == 0,
                inodes@[0].wf(),
                forall|j: int| 1 <= j < id ==> !(#[trigger] inode_bitmap@[j]),
                forall|j: int|
                    1 <= j < id ==> (#[trigger] inodes@[j]).is_file_spec() && inodes@[j].size
                        == 0 && inodes@[j].data@.len() == 0 && inodes@[j].blocks@.len() == 0,
            decreases inode_capacity - id,
        {
            inodes.push(DiskInode {
                size: 0,
                type_: DiskInodeType::File,
                strong_count: 0,
                data: Vec::new(),
                blocks: Vec::new(),
            });
            inode_bitmap.push(false);
            id += 1;
        }
        let mut data_bitmap: Vec<bool> = Vec::new();
        let mut b: usize = 0;
        while b < data_capacity
            invariant
                b <= data_capacity,
                data_bitmap@.len() == b,
                count_false(data_bitmap@) == b,
                forall|j: int| 0 <= j < b ==> !(#[trigger] data_bitmap@[j]),
            decreases data_capacity - b,
        {
            proof {
                assert(data_bitmap@.push(false).drop_last() =~= data_bitmap@);
            }
            data_bitmap.push(false);
            b += 1;
        }
        // the data area begins right after one superblock block, two
        // bitmap blocks and the inode area
        let inode_area_start_block: u32 = 3;
        let inode_area_blocks = ((inode_capacity as u64 + INODES_PER_BLOCK as u64 - 1)
            / INODES_PER_BLOCK as u64) as u32;
        let data_area_start_block: u32 = inode_area_start_block + inode_area_blocks;
        let fs = EasyFileSystem {
            inode_bitmap,
            data_bitmap,
            inodes,
            inode_area_start_block,
            data_area_start_block,
            cache_synced: true,
        };
        proof {
            assert(file_count_of(fs.root().data@) == 0);
            assert forall|id: int|
                1 <= id < fs.capacity() && fs.inode_bitmap@[id] implies (
            #[trigger] fs.inodes@[id]).strong_count == ref_count_in(fs.root().data@, id as u32)
                && fs.inodes@[id].strong_count >= 1 by {}
        }
        fs
    }

    /// Translate an inode number to the block and in-block offset where
    /// its record sits.
    pub fn get_disk_inode_pos(&self, inode_id: u32) -> (r: (u32, usize))
        requires
            self.shape_inv(),
            inode_id < self.capacity(),
        ensures
            r.0 == self.pos_block_of(inode_id as int),
            r.1 == self.pos_offset_of(inode_id as int),
            self.id_of_pos(r.0 as int, r.1 as int) == inode_id,
            r.1 % INODE_SZ == 0,
            r.1 < BLOCK_SZ,
            r.0 >= self.inode_area_start_block,
    {
        let block = self.inode_area_start_block + inode_id / (INODES_PER_BLOCK as u32);
        let offset = (inode_id as usize % INODES_PER_BLOCK) * INODE_SZ;
        proof {
            let q = inode_id as int / INODES_PER_BLOCK as int;
            let m = inode_id as int % INODES_PER_BLOCK as int;
            assert(inode_id as int == q * INODES_PER_BLOCK as int + m) by {
                vstd::arithmetic::div_mod::lemma_fundamental_div_mod(
                    inode_id as int,
                    INODES_PER_BLOCK as int,
                );
            }
            assert((m * INODE_SZ as int) / INODE_SZ as int == m) by (nonlinear_arith)
                requires 0 <= m < 4;
            assert((m * INODE_SZ as int) % INODE_SZ as int == 0) by (nonlinear_arith)
                requires 0 <= m < 4;
        }
        (block, offset)
    }

    /// Allocate the lowest free inode slot.
    pub fn alloc_inode(&mut self) -> (r: u32)
        requires
            old(self).has_free_inode(),
            old(self).inode_bitmap@.len() == old(self).inodes@.len(),
            old(self).inode_bitmap@.len() <= u32::MAX,
        ensures
            0 <= r < old(self).capacity(),
            !old(self).inode_bitmap@[r as int],
            forall|j: int| 0 <= j < r ==> old(self).inode_bitmap@[j],
            final(self).inode_bitmap@ == old(self).inode_bitmap@.update(r as int, true),
            final(self).data_bitmap == old(self).data_bitmap,
            final(self).inodes == old(self).inodes,
            final(self).inode_area_start_block == old(self).inode_area_start_block,
            final(self).data_area_start_block == old(self).data_area_start_block,
            final(self).cache_synced == old(self).cache_synced,
    {
        let n = self.inode_bitmap.len();
        let mut i: usize = 0;
        while i < n
            invariant
                i <= n,
                n == self.inode_bitmap@.len(),
                n == self.inodes@.len(),
                n <= u32::MAX,
                self == old(self),
                old(self).has_free_inode(),
                forall|j: int| 0 <= j < i ==> old(self).inode_bitmap@[j],
            decreases n - i,
        {
            if !self.inode_bitmap[i] {
                self.inode_bitmap[i] = true;
                return i as u32;
            }
            i += 1;
        }
        // unreachable: some slot is free
        proof {
            assert(false);
        }
        0
    }

    /// Free inode slot `inode_id`.
    pub fn dealloc_inode(&mut self, inode_id: u32)
        requires
            inode_id < old(self).inode_bitmap@.len(),
            old(self).inode_bitmap@[inode_id as int],
        ensures
            final(self).inode_bitmap@ == old(self).inode_bitmap@.update(inode_id as int, false),
            final(self).data_bitmap == old(self).data_bitmap,
            final(self).inodes == old(self).inodes,
            final(self).inode_area_start_block == old(self).inode_area_start_block,
            final(self).data_area_start_block == old(self).data_area_start_block,
            final(self).cache_synced == old(self).cache_synced,
    {
        self.inode_bitmap[inode_id as usize] = false;
    }

    /// Allocate the lowest free data block and return its block number.
    pub fn alloc_data(&mut self) -> (r: u32)
        requires
            old(self).free_data_blocks() >= 1,
            old(self).data_area_start_block + old(self).data_bitmap@.len() <= u32::MAX,
        ensures
            old(self).data_block_in_range(r),
            !old(self).data_block_marked(r),
            final(self).data_bitmap@ == old(self).data_bitmap@.update(
                r - old(self).data_area_start_block,
                true,
            ),
            final(self).free_data_blocks() == old(self).free_data_blocks() - 1,
            final(self).inode_bitmap == old(self).inode_bitmap,
            final(self).inodes == old(self).inodes,
            final(self).inode_area_start_block == old(self).inode_area_start_block,
            final(self).data_area_start_block == old(self).data_area_start_block,
            final(self).cache_synced == old(self).cache_synced,
    {
        let n = self.data_bitmap.len();
        let mut i: usize = 0;
        while i < n
            invariant
                i <= n,
                n == self.data_bitmap@.len(),
                self == old(self),
                old(self).data_area_start_block + n <= u32::MAX,
                old(self).free_data_blocks() >= 1,
                forall|j: int| 0 <= j < i ==> old(self).data_bitmap@[j],
            decreases n - i,
        {
            if !self.data_bitmap[i] {
                self.data_bitmap[i] = true;
                proof {
                    lemma_count_false_update(old(self).data_bitmap@, i as int, true);
                }
                return self.data_area_start_block + i as u32;
            }
            i += 1;
        }
        // unreachable: the free count is positive, so some bit is clear
        proof {
            lemma_count_false_all_true(self.data_bitmap@);
        }
        0
    }

    /// Free data block `block_id`.
    pub fn dealloc_data(&mut self, block_id: u32)
        requires
            old(self).data_block_in_range(block_id),
            old(self).data_block_marked(block_id),
        ensures
            final(self).data_bitmap@ == old(self).data_bitmap@.update(
                block_id - old(self).data_area_start_block,
                false,
            ),
            final(self).free_data_blocks() == old(self).free_data_blocks() + 1,
            final(self).inode_bitmap == old(self).inode_bitmap,
            final(self).inodes == old(self).inodes,
            final(self).inode_area_start_block == old(self).inode_area_start_block,
            final(self).data_area_start_block == old(self).data_area_start_block,
            final(self).cache_synced == old(self).cache_synced,
    {
        let i = (block_id - self.data_area_start_block) as usize;
        self.data_bitmap[i] = false;
        proof {
            lemma_count_false_update(old(self).data_bitmap@, i as int, false);
        }
    }
}

/// All entries of an all-true bitmap are allocated: no slot is free.
proof fn lemma_count_false_all_true(s: Seq<bool>)
    requires
        forall|j: int| 0 <= j < s.len() ==> s[j],
    ensures
        count_false(s) == 0,
    decreases s.len(),
{
    if s.len() > 0 {
        lemma_count_false_all_true(s.drop_last());
    }
}

/// Flush every dirty block of the cache back to the device.
pub fn block_cache_sync_all(fs: &mut EasyFileSystem)
    ensures
        final(fs).cache_synced,
        final(fs).inode_bitmap == old(fs).inode_bitmap,
        final(fs).data_bitmap == old(fs).data_bitmap,
        final(fs).inodes == old(fs).inodes,
        final(fs).inode_area_start_block == old(fs).inode_area_start_block,
        final(fs).data_area_start_block == old(fs).data_area_start_block,
{
    fs.cache_synced = true;
}

} // verus!
