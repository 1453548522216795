//! The inode layer: in-memory handles to filesystem objects and every
//! file and directory operation — lookup, listing, creation, hard links,
//! deletion with swap-compaction, content I/O, and truncation.
//!
//! A handle is only a (block, offset) position; the filesystem itself is
//! passed to each operation explicitly and exclusively, which is what the
//! allocator lock of a running kernel provides. Mutating operations flush
//! the modeled block cache before they return.

use vstd::prelude::*;
use vstd::string::StringSliceAdditionalSpecFns;
use vstd::utf8::encode_utf8;
use crate::config::{BLOCK_SZ, DIRENT_SZ, INODES_PER_BLOCK, INODE_SZ, NAME_LENGTH_LIMIT};
use crate::efs::{block_cache_sync_all, dir_ids, ref_count_in, EasyFileSystem};
use crate::layout::{
    dir_has_name, dir_id_at, dir_name_at, dir_raw_name_at, dir_wf, entry_slot, file_count_of,
    lemma_dir_append, lemma_dir_slot_in_range, lemma_dir_splice,
    lemma_dir_truncate, name_field_wf, splice_bytes, total_blocks_for, DirEntry, DiskInode,
    DiskInodeType,
};

verus! {

/// An in-memory handle to one on-disk inode: the block that holds its
/// record and the offset of the record inside that block.
#[derive(Clone, Copy)]
pub struct Inode {
    /// The block id of the inode record.
    pub block_id: usize,
    /// The offset of the inode record in its block.
    pub block_offset: usize,
}

impl Inode {
    /// The inode number this handle points at, under filesystem `fs`.
    pub open spec fn inode_id_spec(self, fs: EasyFileSystem) -> int {
        fs.id_of_pos(self.block_id as int, self.block_offset as int)
    }

    /// The handle points at an allocated inode record of `fs`.
    pub open spec fn wf(self, fs: EasyFileSystem) -> bool {
        &&& self.block_id >= fs.inode_area_start_block
        &&& self.block_offset as int % INODE_SZ as int == 0
        &&& self.block_offset < BLOCK_SZ
        &&& 0 <= self.inode_id_spec(fs) < fs.capacity()
        &&& fs.inode_bitmap@[self.inode_id_spec(fs)]
    }

    /// The on-disk inode this handle points at.
    pub open spec fn disk_inode(self, fs: EasyFileSystem) -> DiskInode {
        fs.inodes@[self.inode_id_spec(fs)]
    }

    /// Whether the handle points at a directory.
    pub open spec fn is_dir_spec(self, fs: EasyFileSystem) -> bool {
        self.disk_inode(fs).is_dir_spec()
    }

    /// Whether the handle points at a plain file.
    pub open spec fn is_file_spec(self, fs: EasyFileSystem) -> bool {
        self.disk_inode(fs).is_file_spec()
    }

    /// Make a handle from a record position.
    pub fn new(block_id: u32, block_offset: usize) -> (r: Inode)
        ensures
            r.block_id == block_id,
            r.block_offset == block_offset,
    {
        Inode { block_id: block_id as usize, block_offset }
    }

    /// The number of the inode this handle points at.
    pub fn get_inode_id(&self, fs: &EasyFileSystem) -> (r: usize)
        requires
            fs.shape_inv(),
            self.wf(*fs),
        ensures
            r == self.inode_id_spec(*fs),
            r < fs.capacity(),
    {
        let node_offset = (self.block_id - fs.inode_area_start_block as usize) * BLOCK_SZ
            + self.block_offset;
        proof {
            let a = self.block_id - fs.inode_area_start_block as int;
            let off = self.block_offset as int;
            assert((a * INODES_PER_BLOCK as int + off / INODE_SZ as int) < fs.capacity());
            assert((off / INODE_SZ as int) >= 0);
            assert((a * 4) < 0x10_0000) by (nonlinear_arith)
                requires
                    (a * 4 + off / INODE_SZ as int) < 0x10_0000,
                    (off / INODE_SZ as int) >= 0,
            ;
            assert(a >= 0 && a <= 0x10_0000);
            assert((a * BLOCK_SZ as int + off) / INODE_SZ as int == a * INODES_PER_BLOCK as int
                + off / INODE_SZ as int) by (nonlinear_arith)
                requires
                    0 <= off < BLOCK_SZ as int,
                    a >= 0,
                    BLOCK_SZ as int == 512,
                    INODE_SZ as int == 128,
                    INODES_PER_BLOCK as int == 4,
            ;
        }
        node_offset / INODE_SZ
    }

    /// Link count of the inode this handle points at.
    pub fn get_strong_count(&self, fs: &EasyFileSystem) -> (r: usize)
        requires
            fs.shape_inv(),
            self.wf(*fs),
        ensures
            r == self.disk_inode(*fs).strong_count,
    {
        let idx = self.get_inode_id(fs);
        fs.inodes[idx].strong_count as usize
    }

    /// Whether the handle points at a directory.
    pub fn is_dir(&self, fs: &EasyFileSystem) -> (r: bool)
        requires
            fs.shape_inv(),
            self.wf(*fs),
        ensures
            r == self.is_dir_spec(*fs),
    {
        let idx = self.get_inode_id(fs);
        fs.inodes[idx].is_dir()
    }

    /// Whether the handle points at a plain file.
    pub fn is_file(&self, fs: &EasyFileSystem) -> (r: bool)
        requires
            fs.shape_inv(),
            self.wf(*fs),
        ensures
            r == self.is_file_spec(*fs),
    {
        let idx = self.get_inode_id(fs);
        fs.inodes[idx].is_file()
    }
}

/// A handle to the root directory of `fs`.
pub fn root_inode(fs: &EasyFileSystem) -> (r: Inode)
    requires
        fs.shape_inv(),
    ensures
        r.wf(*fs),
        r.inode_id_spec(*fs) == 0,
        r.is_dir_spec(*fs),
{
    let (block_id, block_offset) = fs.get_disk_inode_pos(0);
    Inode::new(block_id, block_offset)
}

/// Byte-for-byte equality of two slices.
fn bytes_eq(a: &[u8], b: &[u8]) -> (r: bool)
    ensures
        r == (a@ == b@),
{
    if a.len() != b.len() {
        return false;
    }
    let n = a.len();
    let mut i: usize = 0;
    while i < n
        invariant
            i <= n,
            n == a@.len() == b@.len(),
            forall|j: int| 0 <= j < i ==> a@[j] == b@[j],
        decreases n - i,
    {
        if a[i] != b[i] {
            return false;
        }
        i += 1;
    }
    proof {
        assert(a@ =~= b@);
    }
    true
}

/// Read entry `i` of the directory held by `disk_inode`.
fn read_dir_entry(disk_inode: &DiskInode, i: usize) -> (r: DirEntry)
    requires
        disk_inode.wf(),
        disk_inode.size as int % DIRENT_SZ as int == 0,
        i < file_count_of(disk_inode.data@),
    ensures
        r.name@ == dir_raw_name_at(disk_inode.data@, i as int),
        r.name_view() == dir_name_at(disk_inode.data@, i as int),
        r.inode_id == dir_id_at(disk_inode.data@, i as int),
{
    proof {
        lemma_dir_slot_in_range(disk_inode.data@, i as int);
    }
    let mut buf = DirEntry::empty().as_bytes();
    let n = disk_inode.read_at(i * DIRENT_SZ, &mut buf);
    proof {
        assert(buf@ =~= entry_slot(disk_inode.data@, i as int));
        assert(dir_raw_name_at(disk_inode.data@, i as int) == entry_slot(
            disk_inode.data@,
            i as int,
        ).take(28));
    }
    DirEntry::from_bytes(buf.as_slice())
}

/// Scan the directory held by `disk_inode` for `name`; return the inode
/// number its entry stores.
fn find_inode_id(name: &str, disk_inode: &DiskInode) -> (r: Option<u32>)
    requires
        disk_inode.wf(),
        disk_inode.is_dir_spec(),
        dir_wf(disk_inode.data@),
    ensures
        r is Some <==> dir_has_name(disk_inode.data@, name.spec_bytes()),
        r matches Some(id) ==> exists|i: int|
            0 <= i < file_count_of(disk_inode.data@) && dir_name_at(disk_inode.data@, i)
                == name.spec_bytes() && #[trigger] dir_id_at(disk_inode.data@, i) == id,
{
    match find_entry_id(name, disk_inode) {
        Some(i) => {
            let entry = read_dir_entry(disk_inode, i as usize);
            Some(entry.inode_id)
        },
        None => None,
    }
}

/// Scan the directory held by `disk_inode` for `name`; return the index
/// of its entry.
fn find_entry_id(name: &str, disk_inode: &DiskInode) -> (r: Option<u32>)
    requires
        disk_inode.wf(),
        disk_inode.is_dir_spec(),
        dir_wf(disk_inode.data@),
    ensures
        r is Some <==> dir_has_name(disk_inode.data@, name.spec_bytes()),
        r matches Some(i) ==> 0 <= i < file_count_of(disk_inode.data@) && dir_name_at(
            disk_inode.data@,
            i as int,
        ) == name.spec_bytes(),
{
    let file_count = (disk_inode.size as usize) / DIRENT_SZ;
    assert(file_count == file_count_of(disk_inode.data@));
    let mut i: usize = 0;
    while i < file_count
        invariant
            i <= file_count,
            file_count == file_count_of(disk_inode.data@),
            disk_inode.wf(),
            disk_inode.size as int % DIRENT_SZ as int == 0,
            forall|j: int| 0 <= j < i ==> dir_name_at(disk_inode.data@, j) != name.spec_bytes(),
        decreases file_count - i,
    {
        let entry = read_dir_entry(disk_inode, i);
        let nb = entry.name_bytes();
        if bytes_eq(nb.as_slice(), name.as_bytes()) {
            return Some(i as u32);
        }
        i += 1;
    }
    None
}

impl Inode {
    /// Look `name` up in this directory and hand back a handle to the
    /// inode its entry names.
    pub fn find(&self, fs: &EasyFileSystem, name: &str) -> (r: Option<Inode>)
        requires
            fs.inv(),
            self.wf(*fs),
            self.is_dir_spec(*fs),
        ensures
            r is Some <==> dir_has_name(self.disk_inode(*fs).data@, name.spec_bytes()),
            r matches Some(h) ==> h.wf(*fs) && exists|i: int|
                0 <= i < file_count_of(self.disk_inode(*fs).data@) && dir_name_at(
                    self.disk_inode(*fs).data@,
                    i,
                ) == name.spec_bytes() && #[trigger] dir_id_at(self.disk_inode(*fs).data@, i)
                == h.inode_id_spec(*fs),
    {
        let idx = self.get_inode_id(fs);
        proof {
            if idx != 0 {
                assert(fs.inodes@[idx as int].is_file_spec());
            }
        }
        match find_inode_id(name, &fs.inodes[idx]) {
            Some(inode_id) => {
                let (block_id, block_offset) = fs.get_disk_inode_pos(inode_id);
                Some(Inode::new(block_id, block_offset))
            },
            None => None,
        }
    }

    /// List the names stored in this directory, in entry order.
    pub fn ls(&self, fs: &EasyFileSystem) -> (r: Vec<String>)
        requires
            fs.inv(),
            self.wf(*fs),
            self.is_dir_spec(*fs),
        ensures
            r@.len() == file_count_of(self.disk_inode(*fs).data@),
            forall|i: int|
                0 <= i < r@.len() ==> encode_utf8(#[trigger] r@[i]@) == dir_name_at(
                    self.disk_inode(*fs).data@,
                    i,
                ),
    {
        let idx = self.get_inode_id(fs);
        proof {
            if idx != 0 {
                assert(fs.inodes@[idx as int].is_file_spec());
            }
        }
        let ghost data = self.disk_inode(*fs).data@;
        let file_count = (fs.inodes[idx].size as usize) / DIRENT_SZ;
        let mut v: Vec<String> = Vec::new();
        let mut i: usize = 0;
        while i < file_count
            invariant
                i <= file_count,
                fs.inv(),
                idx == self.inode_id_spec(*fs),
                idx == 0,
                data == self.disk_inode(*fs).data@,
                file_count == file_count_of(data),
                v@.len() == i,
                forall|j: int|
                    0 <= j < i ==> encode_utf8(#[trigger] v@[j]@) == dir_name_at(data, j),
            decreases file_count - i,
        {
            let entry = read_dir_entry(&fs.inodes[idx], i);
            proof {
                assert(name_field_wf(dir_raw_name_at(data, i as int)));
            }
            v.push(entry.name());
            i += 1;
        }
        v
    }
}

/// Growing content by one directory record takes at most one more block.
proof fn lemma_one_record_one_block(s: int)
    requires
        0 <= s,
    ensures
        total_blocks_for(s) <= total_blocks_for(s + DIRENT_SZ as int) <= total_blocks_for(s) + 1,
{
    vstd::arithmetic::div_mod::lemma_div_is_ordered(
        s + BLOCK_SZ - 1,
        s + DIRENT_SZ as int + BLOCK_SZ - 1,
        BLOCK_SZ as int,
    );
    vstd::arithmetic::div_mod::lemma_div_is_ordered(
        s + DIRENT_SZ as int + BLOCK_SZ - 1,
        s + BLOCK_SZ - 1 + BLOCK_SZ as int,
        BLOCK_SZ as int,
    );
    vstd::arithmetic::div_mod::lemma_div_plus_one(s + BLOCK_SZ - 1, BLOCK_SZ as int);
}

/// Grow inode `idx` to `new_size` bytes, zero-filled, allocating exactly
/// the data blocks the growth needs. Does nothing when `new_size` is
/// below the current size. The caller holds the allocator exclusively and
/// triggers the cache flush itself.
fn increase_size(fs: &mut EasyFileSystem, idx: usize, new_size: u32)
    requires
        idx < old(fs).capacity(),
        old(fs).inodes@[idx as int].wf(),
        old(fs).data_area_start_block + old(fs).data_bitmap@.len() <= u32::MAX,
        new_size > old(fs).inodes@[idx as int].size ==> old(fs).free_data_blocks()
            >= total_blocks_for(new_size as int) - total_blocks_for(
            old(fs).inodes@[idx as int].size as int,
        ),
    ensures
        new_size < old(fs).inodes@[idx as int].size ==> *final(fs) == *old(fs),
        final(fs).inode_bitmap == old(fs).inode_bitmap,
        final(fs).inodes@.len() == old(fs).inodes@.len(),
        final(fs).inode_area_start_block == old(fs).inode_area_start_block,
        final(fs).data_area_start_block == old(fs).data_area_start_block,
        final(fs).data_bitmap@.len() == old(fs).data_bitmap@.len(),
        final(fs).cache_synced == old(fs).cache_synced,
        forall|i: int|
            0 <= i < old(fs).capacity() && i != idx ==> final(fs).inodes@[i] == old(fs).inodes@[i],
        forall|b: u32|
            old(fs).data_block_in_range(b) && old(fs).data_block_marked(b)
                ==> final(fs).data_block_marked(b),
        new_size >= old(fs).inodes@[idx as int].size ==> {
            let di0 = old(fs).inodes@[idx as int];
            let di1 = final(fs).inodes@[idx as int];
            &&& di1.size == new_size
            &&& di1.type_ == di0.type_
            &&& di1.strong_count == di0.strong_count
            &&& di1.data@ == di0.data@ + Seq::new((new_size - di0.size) as nat, |j: int| 0u8)
            &&& di1.wf()
            &&& di1.blocks@.len() == total_blocks_for(new_size as int)
            &&& di1.blocks@.take(di0.blocks@.len() as int) == di0.blocks@
            &&& forall|k: int|
                di0.blocks@.len() <= k < di1.blocks@.len() ==> final(fs).data_block_in_range(
                    #[trigger] di1.blocks@[k],
                ) && !old(fs).data_block_marked(di1.blocks@[k]) && final(fs).data_block_marked(
                    di1.blocks@[k],
                )
            &&& forall|k1: int, k2: int|
                #![trigger di1.blocks@[k1], di1.blocks@[k2]]
                di0.blocks@.len() <= k1 < k2 < di1.blocks@.len() ==> di1.blocks@[k1]
                    != di1.blocks@[k2]
            &&& final(fs).free_data_blocks() == old(fs).free_data_blocks() - (total_blocks_for(
                new_size as int,
            ) - total_blocks_for(di0.size as int))
        },
{
    if new_size < fs.inodes[idx].size {
        return;
    }
    let blocks_needed = fs.inodes[idx].blocks_num_needed(new_size);
    proof {
        vstd::arithmetic::div_mod::lemma_div_is_ordered(
            old(fs).inodes@[idx as int].size as int + BLOCK_SZ - 1,
            new_size as int + BLOCK_SZ - 1,
            BLOCK_SZ as int,
        );
    }
    proof {
        crate::efs::lemma_count_false_bounds(old(fs).data_bitmap@);
    }
    let mut v: Vec<u32> = Vec::new();
    let mut n: u32 = 0;
    while n < blocks_needed
        invariant
            n <= blocks_needed,
            v@.len() == n,
            idx < fs.inodes@.len(),
            fs.inodes == old(fs).inodes,
            fs.inode_bitmap == old(fs).inode_bitmap,
            fs.inode_area_start_block == old(fs).inode_area_start_block,
            fs.data_area_start_block == old(fs).data_area_start_block,
            fs.data_bitmap@.len() == old(fs).data_bitmap@.len(),
            fs.cache_synced == old(fs).cache_synced,
            old(fs).data_area_start_block + old(fs).data_bitmap@.len() <= u32::MAX,
            old(fs).free_data_blocks() >= blocks_needed,
            fs.free_data_blocks() == old(fs).free_data_blocks() - n,
            forall|k: int|
                0 <= k < n ==> fs.data_block_in_range(#[trigger] v@[k])
                    && !old(fs).data_block_marked(v@[k]) && fs.data_block_marked(v@[k]),
            forall|k1: int, k2: int|
                #![trigger v@[k1], v@[k2]]
                0 <= k1 < k2 < n ==> v@[k1] != v@[k2],
            forall|b: u32|
                old(fs).data_block_in_range(b) && old(fs).data_block_marked(b)
                    ==> fs.data_block_marked(b),
        decreases blocks_needed - n,
    {
        let b = fs.alloc_data();
        v.push(b);
        n += 1;
    }
    fs.inodes[idx].increase_size(new_size, v);
}

impl Inode {
    /// Create a file named `name` in this directory: allocate a fresh
    /// inode, initialize it with one link, and append a directory entry
    /// for it. Returns a handle to the new file, or nothing when the name
    /// is already taken.
    pub fn create(&self, fs: &mut EasyFileSystem, name: &str) -> (r: Option<Inode>)
        requires
            old(fs).inv(),
            self.wf(*old(fs)),
            self.is_dir_spec(*old(fs)),
            name.spec_bytes().len() <= NAME_LENGTH_LIMIT,
            forall|j: int| 0 <= j < name.spec_bytes().len() ==> name.spec_bytes()[j] != 0,
            old(fs).has_free_inode(),
            old(fs).free_data_blocks() >= 1,
            old(fs).root().size + DIRENT_SZ <= u32::MAX,
        ensures
            r is Some <==> !dir_has_name(old(fs).root().data@, name.spec_bytes()),
            r is None ==> *final(fs) == *old(fs),
            final(fs).inv(),
            final(fs).capacity() == old(fs).capacity(),
            r matches Some(h) ==> create_effect(*old(fs), *final(fs), h, name.spec_bytes()),
    {
        let ghost data0 = old(fs).root().data@;
        let idx = self.get_inode_id(fs);
        proof {
            if idx != 0 {
                assert(fs.inodes@[idx as int].is_file_spec());
            }
        }
        if find_inode_id(name, &fs.inodes[idx]).is_some() {
            return None;
        }
        fs.cache_synced = false;
        // allocate and initialize a fresh file inode
        let new_inode_id = fs.alloc_inode();
        proof {
            assert(new_inode_id != 0);
            assert(fs.inodes@[new_inode_id as int].blocks@.len() == 0);
        }
        fs.inodes[new_inode_id as usize].initialize(DiskInodeType::File);
        let ghost fs2 = *fs;
        // append the directory entry for it
        let file_count = (fs.inodes[idx].size as usize) / DIRENT_SZ;
        let new_size = fs.inodes[idx].size + DIRENT_SZ as u32;
        proof {
            lemma_one_record_one_block(old(fs).root().size as int);
        }
        increase_size(fs, idx, new_size);
        let dirent = DirEntry::new(name, new_inode_id);
        let db = dirent.as_bytes();
        proof {
            vstd::arithmetic::div_mod::lemma_fundamental_div_mod(
                data0.len() as int,
                DIRENT_SZ as int,
            );
            assert(file_count * DIRENT_SZ == data0.len());
        }
        fs.inodes[idx].write_at(file_count * DIRENT_SZ, db.as_slice());
        proof {
            let eb = dirent.bytes_view();
            vstd::bytes::lemma_auto_spec_u32_to_from_le_bytes();
            assert(fs.inodes@[0].data@ =~= data0 + eb);
            lemma_dir_append(data0, eb);
            assert(dir_raw_name_at(data0 + eb, file_count as int) =~= dirent.name@);
            assert(entry_slot(data0 + eb, file_count as int).subrange(28, 32)
                =~= vstd::bytes::spec_u32_to_le_bytes(dirent.inode_id));
            assert forall|b: u32|
                old(fs).data_block_in_range(b) && old(fs).data_block_marked(b)
                implies fs.data_block_marked(b) by {
                assert(fs2.data_block_in_range(b) && fs2.data_block_marked(b));
            }
            lemma_create_restores_inv(
                *old(fs),
                fs2,
                *fs,
                new_inode_id as int,
                name.spec_bytes(),
            );
        }
        let (block_id, block_offset) = fs.get_disk_inode_pos(new_inode_id);
        block_cache_sync_all(fs);
        Some(Inode::new(block_id, block_offset))
    }
}

/// What a successful `create` did to the filesystem: `h` is a handle to a
/// fresh, empty, once-linked file inode, and the directory gained exactly
/// one entry, at the end, for `name`.
pub open spec fn create_effect(
    fs0: EasyFileSystem,
    fs1: EasyFileSystem,
    h: Inode,
    name: Seq<u8>,
) -> bool {
    let id = h.inode_id_spec(fs1);
    let fc0 = file_count_of(fs0.root().data@);
    &&& h.wf(fs1)
    &&& 1 <= id < fs1.capacity()
    &&& !fs0.inode_bitmap@[id]
    &&& forall|j: int| 0 <= j < id ==> fs0.inode_bitmap@[j]
    &&& fs1.inode_bitmap@ == fs0.inode_bitmap@.update(id, true)
    &&& fs1.inodes@[id].size == 0
    &&& fs1.inodes@[id].strong_count == 1
    &&& fs1.inodes@[id].is_file_spec()
    &&& fs1.inodes@[id].data@ == Seq::<u8>::empty()
    &&& fs1.root().size == fs0.root().size + DIRENT_SZ
    &&& file_count_of(fs1.root().data@) == fc0 + 1
    &&& forall|i: int|
        0 <= i < fc0 ==> #[trigger] dir_name_at(fs1.root().data@, i) == dir_name_at(
            fs0.root().data@,
            i,
        ) && dir_id_at(fs1.root().data@, i) == dir_id_at(fs0.root().data@, i)
    &&& dir_name_at(fs1.root().data@, fc0) == name
    &&& dir_id_at(fs1.root().data@, fc0) == id as u32
    &&& forall|i: int|
        1 <= i < fs0.capacity() && i != id ==> fs1.inodes@[i] == fs0.inodes@[i]
    &&& fs1.free_data_blocks() == fs0.free_data_blocks() - (total_blocks_for(
        fs0.root().size + DIRENT_SZ as int,
    ) - total_blocks_for(fs0.root().size as int))
    &&& fs1.inode_area_start_block == fs0.inode_area_start_block
    &&& fs1.data_area_start_block == fs0.data_area_start_block
    &&& fs1.cache_synced
}

/// After the duplicate check, the fresh-inode initialization and the
/// entry append, the filesystem invariant holds again.
proof fn lemma_create_restores_inv(
    fs0: EasyFileSystem,
    fs2: EasyFileSystem,
    fs3: EasyFileSystem,
    id: int,
    name: Seq<u8>,
)
    requires
        fs0.inv(),
        1 <= id < fs0.capacity(),
        !fs0.inode_bitmap@[id],
        !dir_has_name(fs0.root().data@, name),
        name.len() <= NAME_LENGTH_LIMIT,
        // fs2: after alloc_inode and initialize
        fs2.inode_bitmap@ == fs0.inode_bitmap@.update(id, true),
        fs2.data_bitmap == fs0.data_bitmap,
        fs2.inodes@.len() == fs0.inodes@.len(),
        fs2.inodes@[id].size == 0,
        fs2.inodes@[id].strong_count == 1,
        fs2.inodes@[id].is_file_spec(),
        fs2.inodes@[id].data@ == Seq::<u8>::empty(),
        fs2.inodes@[id].blocks@ == Seq::<u32>::empty(),
        forall|i: int| 0 <= i < fs0.capacity() && i != id ==> fs2.inodes@[i] == fs0.inodes@[i],
        fs2.inode_area_start_block == fs0.inode_area_start_block,
        fs2.data_area_start_block == fs0.data_area_start_block,
        // fs3: after growing the root and writing the new entry
        fs3.inode_bitmap == fs2.inode_bitmap,
        fs3.inodes@.len() == fs2.inodes@.len(),
        fs3.inode_area_start_block == fs2.inode_area_start_block,
        fs3.data_area_start_block == fs2.data_area_start_block,
        fs3.data_bitmap@.len() == fs2.data_bitmap@.len(),
        forall|i: int| 0 <= i < fs2.capacity() && i != 0 ==> fs3.inodes@[i] == fs2.inodes@[i],
        fs3.root().size == fs0.root().size + DIRENT_SZ,
        fs3.root().type_ == fs0.root().type_,
        fs3.root().strong_count == fs0.root().strong_count,
        fs3.root().wf(),
        fs3.root().blocks@.take(fs0.root().blocks@.len() as int) == fs0.root().blocks@,
        forall|k: int|
            fs0.root().blocks@.len() <= k < fs3.root().blocks@.len() ==> fs3.data_block_in_range(
                #[trigger] fs3.root().blocks@[k],
            ) && !fs0.data_block_marked(fs3.root().blocks@[k]) && fs3.data_block_marked(
                fs3.root().blocks@[k],
            ),
        forall|k1: int, k2: int|
            #![trigger fs3.root().blocks@[k1], fs3.root().blocks@[k2]]
            fs0.root().blocks@.len() <= k1 < k2 < fs3.root().blocks@.len()
                ==> fs3.root().blocks@[k1] != fs3.root().blocks@[k2],
        forall|b: u32|
            fs0.data_block_in_range(b) && fs0.data_block_marked(b) ==> fs3.data_block_marked(b),
        // the new directory content
        file_count_of(fs3.root().data@) == file_count_of(fs0.root().data@) + 1,
        forall|i: int|
            #![trigger dir_raw_name_at(fs3.root().data@, i)]
            #![trigger dir_name_at(fs3.root().data@, i)]
            #![trigger dir_id_at(fs3.root().data@, i)]
            0 <= i < file_count_of(fs0.root().data@) ==> dir_raw_name_at(fs3.root().data@, i)
                == dir_raw_name_at(fs0.root().data@, i) && dir_name_at(fs3.root().data@, i)
                == dir_name_at(fs0.root().data@, i) && dir_id_at(fs3.root().data@, i) == dir_id_at(
                fs0.root().data@,
                i,
            ),
        name_field_wf(dir_raw_name_at(fs3.root().data@, file_count_of(fs0.root().data@))),
        dir_name_at(fs3.root().data@, file_count_of(fs0.root().data@)) == name,
        dir_id_at(fs3.root().data@, file_count_of(fs0.root().data@)) == id as u32,
    ensures
        fs3.inv(),
{
    let data0 = fs0.root().data@;
    let data3 = fs3.root().data@;
    let fc0 = file_count_of(data0);
    let ids0 = dir_ids(data0);
    let ids3 = dir_ids(data3);
    assert(ids3 =~= ids0.push(id as u32));
    // shape
    assert(fs3.shape_inv());
    // unallocated slots are empty
    assert forall|i: int|
        0 <= i < fs3.capacity() && !fs3.inode_bitmap@[i] implies (#[trigger] fs3.inodes@[i]).size
        == 0 by {
        assert(fs3.inodes@[i] == fs0.inodes@[i]);
    }
    // directory well-formedness
    assert(data3.len() as int % DIRENT_SZ as int == 0);
    assert forall|i: int, j: int|
        0 <= i < j < file_count_of(data3) implies dir_name_at(data3, i) != dir_name_at(
        data3,
        j,
    ) by {
        if j < fc0 {
        } else {
            assert(dir_name_at(data3, j) == name);
            if i < fc0 {
                assert(!dir_has_name(data0, name));
                assert(dir_name_at(data0, i) != name);
            }
        }
    }
    assert(fs3.dir_inv());
    // link counts
    assert forall|x: int|
        1 <= x < fs3.capacity() && fs3.inode_bitmap@[x] implies (
    #[trigger] fs3.inodes@[x]).strong_count == ref_count_in(data3, x as u32)
        && fs3.inodes@[x].strong_count >= 1 by {
        crate::efs::lemma_count_eq_u32_push(ids0, x as u32, id as u32);
        if x == id {
            assert forall|i: int| 0 <= i < ids0.len() implies ids0[i] != id as u32 by {
                assert(fs0.inode_bitmap@[dir_id_at(data0, i) as int]);
            }
            crate::efs::lemma_count_eq_u32_zero(ids0, id as u32);
            assert(ref_count_in(data3, x as u32) == 1);
        } else {
            assert(fs0.inode_bitmap@[x]);
            assert(fs0.inodes@[x].strong_count == ref_count_in(data0, x as u32));
        }
    }
    // block accounting
    assert forall|i1: int, k1: int|
        0 <= i1 < fs3.capacity() && 0 <= k1 < fs3.inodes@[i1].blocks@.len()
        implies fs3.data_block_in_range(#[trigger] fs3.inodes@[i1].blocks@[k1])
        && fs3.data_block_marked(fs3.inodes@[i1].blocks@[k1]) by {
        if i1 == 0 {
            if k1 < fs0.root().blocks@.len() {
                assert(fs3.root().blocks@[k1] == fs0.root().blocks@[k1]);
            }
        } else if i1 != id {
            assert(fs3.inodes@[i1] == fs0.inodes@[i1]);
        }
    }
    assert forall|i1: int, k1: int, i2: int, k2: int|
        #![trigger fs3.inodes@[i1].blocks@[k1], fs3.inodes@[i2].blocks@[k2]]
        0 <= i1 < fs3.capacity() && 0 <= k1 < fs3.inodes@[i1].blocks@.len() && 0 <= i2
        < fs3.capacity() && 0 <= k2 < fs3.inodes@[i2].blocks@.len() && !(i1 == i2 && k1 == k2)
        implies fs3.inodes@[i1].blocks@[k1] != fs3.inodes@[i2].blocks@[k2] by {
        let b1 = fs3.inodes@[i1].blocks@[k1];
        let b2 = fs3.inodes@[i2].blocks@[k2];
        let len0 = fs0.root().blocks@.len() as int;
        let new1 = i1 == 0 && k1 >= len0;
        let new2 = i2 == 0 && k2 >= len0;
        assert(fs3.inodes@[id].blocks@.len() == 0);
        if !new1 {
            assert(b1 == fs0.inodes@[i1].blocks@[k1]);
            assert(fs0.data_block_marked(b1));
        }
        if !new2 {
            assert(b2 == fs0.inodes@[i2].blocks@[k2]);
            assert(fs0.data_block_marked(b2));
        }
        if new1 && !new2 {
            assert(!fs0.data_block_marked(b1));
        } else if !new1 && new2 {
            assert(!fs0.data_block_marked(b2));
        } else if new1 && new2 {
            assert(k1 != k2);
        }
    }
    assert(fs3.block_inv());
}

/// The filesystem invariant survives a change to one allocated file
/// inode, as long as the file's new block list is duplicate-free, marked
/// allocated, consists of either its own old blocks or blocks that were
/// free before, and every other inode's blocks stay marked.
proof fn lemma_file_change_restores_inv(fs0: EasyFileSystem, fs1: EasyFileSystem, id: int)
    requires
        fs0.inv(),
        1 <= id < fs0.capacity(),
        fs0.inode_bitmap@[id],
        fs1.inode_bitmap == fs0.inode_bitmap,
        fs1.inodes@.len() == fs0.inodes@.len(),
        fs1.inode_area_start_block == fs0.inode_area_start_block,
        fs1.data_area_start_block == fs0.data_area_start_block,
        fs1.data_bitmap@.len() == fs0.data_bitmap@.len(),
        forall|i: int| 0 <= i < fs0.capacity() && i != id ==> fs1.inodes@[i] == fs0.inodes@[i],
        fs1.inodes@[id].wf(),
        fs1.inodes@[id].type_ == fs0.inodes@[id].type_,
        fs1.inodes@[id].strong_count == fs0.inodes@[id].strong_count,
        forall|k1: int, k2: int|
            #![trigger fs1.inodes@[id].blocks@[k1], fs1.inodes@[id].blocks@[k2]]
            0 <= k1 < k2 < fs1.inodes@[id].blocks@.len() ==> fs1.inodes@[id].blocks@[k1]
                != fs1.inodes@[id].blocks@[k2],
        forall|k: int|
            0 <= k < fs1.inodes@[id].blocks@.len() ==> fs1.data_block_in_range(
                #[trigger] fs1.inodes@[id].blocks@[k],
            ) && fs1.data_block_marked(fs1.inodes@[id].blocks@[k]),
        forall|k: int|
            0 <= k < fs1.inodes@[id].blocks@.len() ==> (exists|k0: int|
                0 <= k0 < fs0.inodes@[id].blocks@.len() && fs0.inodes@[id].blocks@[k0]
                    == fs1.inodes@[id].blocks@[k]) || !fs0.data_block_marked(
                #[trigger] fs1.inodes@[id].blocks@[k],
            ),
        forall|i: int, k: int|
            0 <= i < fs0.capacity() && i != id && 0 <= k < fs0.inodes@[i].blocks@.len()
                ==> fs1.data_block_marked(#[trigger] fs0.inodes@[i].blocks@[k]),
    ensures
        fs1.inv(),
{
    assert(fs0.inodes@[id].is_file_spec());
    assert(fs1.root() == fs0.root());
    assert(dir_ids(fs1.root().data@) =~= dir_ids(fs0.root().data@));
    assert(fs1.shape_inv());
    assert(fs1.unalloc_inv());
    assert(fs1.dir_inv());
    assert(fs1.link_inv());
    assert forall|i1: int, k1: int|
        0 <= i1 < fs1.capacity() && 0 <= k1 < fs1.inodes@[i1].blocks@.len()
        implies fs1.data_block_in_range(#[trigger] fs1.inodes@[i1].blocks@[k1])
        && fs1.data_block_marked(fs1.inodes@[i1].blocks@[k1]) by {
        if i1 != id {
            assert(fs1.inodes@[i1] == fs0.inodes@[i1]);
            assert(fs0.data_block_in_range(fs0.inodes@[i1].blocks@[k1]));
        }
    }
    assert forall|i1: int, k1: int, i2: int, k2: int|
        #![trigger fs1.inodes@[i1].blocks@[k1], fs1.inodes@[i2].blocks@[k2]]
        0 <= i1 < fs1.capacity() && 0 <= k1 < fs1.inodes@[i1].blocks@.len() && 0 <= i2
        < fs1.capacity() && 0 <= k2 < fs1.inodes@[i2].blocks@.len() && !(i1 == i2 && k1 == k2)
        implies fs1.inodes@[i1].blocks@[k1] != fs1.inodes@[i2].blocks@[k2] by {
        let b1 = fs1.inodes@[i1].blocks@[k1];
        let b2 = fs1.inodes@[i2].blocks@[k2];
        if i1 == id && i2 == id {
            if k1 < k2 {
            } else {
            }
        } else if i1 == id {
            assert(b2 == fs0.inodes@[i2].blocks@[k2]);
            assert(fs0.data_block_marked(b2));
            if exists|k0: int|
                0 <= k0 < fs0.inodes@[id].blocks@.len() && fs0.inodes@[id].blocks@[k0] == b1 {
                let k0 = choose|k0: int|
                    0 <= k0 < fs0.inodes@[id].blocks@.len() && fs0.inodes@[id].blocks@[k0] == b1;
                assert(fs0.inodes@[id].blocks@[k0] != fs0.inodes@[i2].blocks@[k2]);
            }
        } else if i2 == id {
            assert(b1 == fs0.inodes@[i1].blocks@[k1]);
            assert(fs0.data_block_marked(b1));
            if exists|k0: int|
                0 <= k0 < fs0.inodes@[id].blocks@.len() && fs0.inodes@[id].blocks@[k0] == b2 {
                let k0 = choose|k0: int|
                    0 <= k0 < fs0.inodes@[id].blocks@.len() && fs0.inodes@[id].blocks@[k0] == b2;
                assert(fs0.inodes@[id].blocks@[k0] != fs0.inodes@[i1].blocks@[k1]);
            }
        } else {
            assert(b1 == fs0.inodes@[i1].blocks@[k1]);
            assert(b2 == fs0.inodes@[i2].blocks@[k2]);
        }
    }
    assert(fs1.block_inv());
}

/// Return the given pairwise-distinct, allocated blocks to the free pool.
fn dealloc_blocks(fs: &mut EasyFileSystem, blocks: &Vec<u32>)
    requires
        forall|k: int|
            0 <= k < blocks@.len() ==> old(fs).data_block_in_range(#[trigger] blocks@[k]) && old(
                fs,
            ).data_block_marked(blocks@[k]),
        forall|k1: int, k2: int|
            #![trigger blocks@[k1], blocks@[k2]]
            0 <= k1 < k2 < blocks@.len() ==> blocks@[k1] != blocks@[k2],
    ensures
        final(fs).inodes == old(fs).inodes,
        final(fs).inode_bitmap == old(fs).inode_bitmap,
        final(fs).inode_area_start_block == old(fs).inode_area_start_block,
        final(fs).data_area_start_block == old(fs).data_area_start_block,
        final(fs).data_bitmap@.len() == old(fs).data_bitmap@.len(),
        final(fs).cache_synced == old(fs).cache_synced,
        final(fs).free_data_blocks() == old(fs).free_data_blocks() + blocks@.len(),
        forall|b: u32|
            old(fs).data_block_in_range(b) ==> (final(fs).data_block_marked(b) <==> (old(
                fs,
            ).data_block_marked(b) && !blocks@.contains(b))),
{
    let n = blocks.len();
    let mut i: usize = 0;
    while i < n
        invariant
            i <= n,
            n == blocks@.len(),
            fs.inodes == old(fs).inodes,
            fs.inode_bitmap == old(fs).inode_bitmap,
            fs.inode_area_start_block == old(fs).inode_area_start_block,
            fs.data_area_start_block == old(fs).data_area_start_block,
            fs.data_bitmap@.len() == old(fs).data_bitmap@.len(),
            fs.cache_synced == old(fs).cache_synced,
            fs.free_data_blocks() == old(fs).free_data_blocks() + i,
            forall|k: int|
                0 <= k < n ==> old(fs).data_block_in_range(#[trigger] blocks@[k]) && old(
                    fs,
                ).data_block_marked(blocks@[k]),
            forall|k1: int, k2: int|
                #![trigger blocks@[k1], blocks@[k2]]
                0 <= k1 < k2 < n ==> blocks@[k1] != blocks@[k2],
            forall|b: u32|
                old(fs).data_block_in_range(b) ==> (fs.data_block_marked(b) <==> (old(
                    fs,
                ).data_block_marked(b) && forall|k: int| 0 <= k < i ==> blocks@[k] != b)),
        decreases n - i,
    {
        let b = blocks[i];
        proof {
            assert forall|k: int| 0 <= k < i implies blocks@[k] != b by {}
        }
        fs.dealloc_data(b);
        i += 1;
    }
    proof {
        assert forall|b: u32| old(fs).data_block_in_range(b) implies (fs.data_block_marked(b)
            <==> (old(fs).data_block_marked(b) && !blocks@.contains(b))) by {
            if blocks@.contains(b) {
                let k = choose|k: int| 0 <= k < blocks@.len() && blocks@[k] == b;
                assert(blocks@[k] == b);
            }
        }
    }
}

/// What a `write_at` did to the filesystem: the file grew to hold the
/// written range, zero-filled in between, and nothing else moved.
pub open spec fn write_effect(
    fs0: EasyFileSystem,
    fs1: EasyFileSystem,
    id: int,
    offset: int,
    data: Seq<u8>,
) -> bool {
    let di0 = fs0.inodes@[id];
    let di1 = fs1.inodes@[id];
    let ns = if offset + data.len() > di0.size {
        offset + data.len()
    } else {
        di0.size as int
    };
    &&& di1.size == ns
    &&& di1.type_ == di0.type_
    &&& di1.strong_count == di0.strong_count
    &&& di1.data@ == splice_bytes(
        di0.data@ + Seq::new((ns - di0.size) as nat, |j: int| 0u8),
        offset,
        data,
    )
    &&& di1.blocks@.len() == total_blocks_for(ns)
    &&& forall|i: int| 0 <= i < fs0.capacity() && i != id ==> fs1.inodes@[i] == fs0.inodes@[i]
    &&& fs1.inode_bitmap == fs0.inode_bitmap
    &&& fs1.free_data_blocks() == fs0.free_data_blocks() - (total_blocks_for(ns)
        - total_blocks_for(di0.size as int))
    &&& fs1.capacity() == fs0.capacity()
    &&& fs1.inode_area_start_block == fs0.inode_area_start_block
    &&& fs1.data_area_start_block == fs0.data_area_start_block
    &&& fs1.cache_synced
}

/// What a `clear` did to the filesystem: the file's content is gone, its
/// data blocks are free again, and nothing else moved.
pub open spec fn clear_effect(fs0: EasyFileSystem, fs1: EasyFileSystem, id: int) -> bool {
    let di0 = fs0.inodes@[id];
    let di1 = fs1.inodes@[id];
    &&& di1.size == 0
    &&& di1.data@ == Seq::<u8>::empty()
    &&& di1.blocks@ == Seq::<u32>::empty()
    &&& di1.type_ == di0.type_
    &&& di1.strong_count == di0.strong_count
    &&& forall|i: int| 0 <= i < fs0.capacity() && i != id ==> fs1.inodes@[i] == fs0.inodes@[i]
    &&& fs1.inode_bitmap == fs0.inode_bitmap
    &&& fs1.free_data_blocks() == fs0.free_data_blocks() + total_blocks_for(di0.size as int)
    &&& fs1.capacity() == fs0.capacity()
    &&& fs1.inode_area_start_block == fs0.inode_area_start_block
    &&& fs1.data_area_start_block == fs0.data_area_start_block
    &&& fs1.cache_synced
}

impl Inode {
    /// Read from this inode's content at `offset` into `buf`; stops at
    /// the end of the content and returns how many bytes were read.
    pub fn read_at(&self, fs: &EasyFileSystem, offset: usize, buf: &mut Vec<u8>) -> (r: usize)
        requires
            fs.shape_inv(),
            self.wf(*fs),
        ensures
            ({
                let di = self.disk_inode(*fs);
                &&& r == if offset < di.size {
                    vstd::math::min(offset + old(buf)@.len(), di.size as int) - offset
                } else {
                    0
                }
                &&& final(buf)@.len() == old(buf)@.len()
                &&& offset < di.size ==> final(buf)@ == di.data@.subrange(
                    offset as int,
                    offset + r,
                ) + old(buf)@.skip(r as int)
                &&& offset >= di.size ==> final(buf)@ == old(buf)@
            }),
    {
        let idx = self.get_inode_id(fs);
        fs.inodes[idx].read_at(offset, buf)
    }

    /// Write `buf` into this file at `offset`, growing the file first so
    /// that the written range fits. Returns how many bytes were written
    /// and flushes the cache.
    pub fn write_at(&self, fs: &mut EasyFileSystem, offset: usize, buf: &[u8]) -> (r: usize)
        requires
            old(fs).inv(),
            self.wf(*old(fs)),
            self.is_file_spec(*old(fs)),
            offset + buf@.len() <= u32::MAX,
            offset + buf@.len() > old(fs).inodes@[self.inode_id_spec(*old(fs))].size ==> old(
                fs,
            ).free_data_blocks() >= total_blocks_for(offset + buf@.len()) - total_blocks_for(
                old(fs).inodes@[self.inode_id_spec(*old(fs))].size as int,
            ),
        ensures
            final(fs).inv(),
            r == buf@.len(),
            write_effect(*old(fs), *final(fs), self.inode_id_spec(*old(fs)), offset as int, buf@),
    {
        let idx = self.get_inode_id(fs);
        fs.cache_synced = false;
        let ghost fs_a = *fs;
        let new_size = (offset + buf.len()) as u32;
        increase_size(fs, idx, new_size);
        let size = fs.inodes[idx].write_at(offset, buf);
        proof {
            let id = idx as int;
            assert forall|k1: int, k2: int|
                #![trigger fs.inodes@[id].blocks@[k1], fs.inodes@[id].blocks@[k2]]
                0 <= k1 < k2 < fs.inodes@[id].blocks@.len() implies fs.inodes@[id].blocks@[k1]
                != fs.inodes@[id].blocks@[k2] by {
                let len0 = old(fs).inodes@[id].blocks@.len() as int;
                if k2 < len0 {
                    assert(fs.inodes@[id].blocks@[k1] == old(fs).inodes@[id].blocks@[k1]);
                    assert(fs.inodes@[id].blocks@[k2] == old(fs).inodes@[id].blocks@[k2]);
                } else if k1 < len0 {
                    assert(fs.inodes@[id].blocks@[k1] == old(fs).inodes@[id].blocks@[k1]);
                    assert(fs_a.data_block_marked(fs.inodes@[id].blocks@[k1]));
                }
            }
            assert forall|k: int|
                0 <= k < fs.inodes@[id].blocks@.len() implies (exists|k0: int|
                0 <= k0 < old(fs).inodes@[id].blocks@.len() && old(fs).inodes@[id].blocks@[k0]
                    == fs.inodes@[id].blocks@[k]) || !old(fs).data_block_marked(
                #[trigger] fs.inodes@[id].blocks@[k],
            ) by {
                let len0 = old(fs).inodes@[id].blocks@.len() as int;
                if k < len0 {
                    assert(old(fs).inodes@[id].blocks@[k] == fs.inodes@[id].blocks@[k]);
                }
            }
            assert forall|i: int, k: int|
                0 <= i < old(fs).capacity() && i != id && 0 <= k
                < old(fs).inodes@[i].blocks@.len() implies fs.data_block_marked(
                #[trigger] old(fs).inodes@[i].blocks@[k],
            ) by {
                assert(fs_a.data_block_marked(old(fs).inodes@[i].blocks@[k]));
            }
            assert forall|k: int|
                0 <= k < fs.inodes@[id].blocks@.len() implies fs.data_block_in_range(
                #[trigger] fs.inodes@[id].blocks@[k],
            ) && fs.data_block_marked(fs.inodes@[id].blocks@[k]) by {
                let len0 = old(fs).inodes@[id].blocks@.len() as int;
                if k < len0 {
                    let b = old(fs).inodes@[id].blocks@[k];
                    assert(fs.inodes@[id].blocks@[k] == b);
                    assert(old(fs).data_block_in_range(b) && old(fs).data_block_marked(b));
                    assert(fs_a.data_block_in_range(b) && fs_a.data_block_marked(b));
                }
            }
            lemma_file_change_restores_inv(*old(fs), *fs, id);
        }
        block_cache_sync_all(fs);
        size
    }

    /// Shrink this file to zero bytes, freeing every data block it
    /// owned, and flush the cache.
    pub fn clear(&self, fs: &mut EasyFileSystem)
        requires
            old(fs).inv(),
            self.wf(*old(fs)),
            self.is_file_spec(*old(fs)),
        ensures
            final(fs).inv(),
            clear_effect(*old(fs), *final(fs), self.inode_id_spec(*old(fs))),
    {
        let idx = self.get_inode_id(fs);
        fs.cache_synced = false;
        let ghost id = idx as int;
        let ghost owned0 = old(fs).inodes@[id].blocks@;
        let freed = fs.inodes[idx].clear_size();
        let n = freed.len();
        let mut i: usize = 0;
        while i < n
            invariant
                i <= n,
                n == freed@.len(),
                freed@ == owned0,
                0 <= id < old(fs).capacity(),
                old(fs).inv(),
                old(fs).inode_bitmap@[id],
                owned0 == old(fs).inodes@[id].blocks@,
                fs.inodes@.len() == old(fs).inodes@.len(),
                fs.inodes@[id].blocks@ == Seq::<u32>::empty(),
                forall|j: int|
                    0 <= j < old(fs).capacity() && j != id ==> fs.inodes@[j] == old(
                        fs,
                    ).inodes@[j],
                fs.inode_bitmap == old(fs).inode_bitmap,
                fs.inode_area_start_block == old(fs).inode_area_start_block,
                fs.data_area_start_block == old(fs).data_area_start_block,
                fs.data_bitmap@.len() == old(fs).data_bitmap@.len(),
                fs.inodes@[id].size == 0,
                fs.inodes@[id].data@ == Seq::<u8>::empty(),
                fs.inodes@[id].type_ == old(fs).inodes@[id].type_,
                fs.inodes@[id].strong_count == old(fs).inodes@[id].strong_count,
                fs.free_data_blocks() == old(fs).free_data_blocks() + i,
                !fs.cache_synced,
                forall|b: u32|
                    old(fs).data_block_in_range(b) ==> (fs.data_block_marked(b) <==> (old(
                        fs,
                    ).data_block_marked(b) && forall|k: int| 0 <= k < i ==> owned0[k] != b)),
            decreases n - i,
        {
            let b = freed[i];
            proof {
                assert(old(fs).data_block_in_range(b) && old(fs).data_block_marked(b));
                assert forall|k: int| 0 <= k < i implies owned0[k] != b by {
                    assert(old(fs).inodes@[id].blocks@[k]
                        != old(fs).inodes@[id].blocks@[i as int]);
                }
            }
            fs.dealloc_data(b);
            i += 1;
        }
        proof {
            assert forall|i2: int, k: int|
                0 <= i2 < old(fs).capacity() && i2 != id && 0 <= k
                < old(fs).inodes@[i2].blocks@.len() implies fs.data_block_marked(
                #[trigger] old(fs).inodes@[i2].blocks@[k],
            ) by {
                let b = old(fs).inodes@[i2].blocks@[k];
                assert(old(fs).data_block_in_range(b) && old(fs).data_block_marked(b));
                assert forall|k2: int| 0 <= k2 < n implies owned0[k2] != b by {
                    assert(old(fs).inodes@[id].blocks@[k2] != old(fs).inodes@[i2].blocks@[k]);
                }
            }
            lemma_file_change_restores_inv(*old(fs), *fs, id);
        }
        block_cache_sync_all(fs);
    }
}

/// What a successful `create_from_inode` did: the target inode `t`
/// gained one link, and the directory gained exactly one entry, at the
/// end, naming it under `name`. No inode slot was allocated.
pub open spec fn link_effect(
    fs0: EasyFileSystem,
    fs1: EasyFileSystem,
    t: int,
    name: Seq<u8>,
) -> bool {
    let fc0 = file_count_of(fs0.root().data@);
    &&& fs1.inodes@[t] == (DiskInode {
        strong_count: (fs0.inodes@[t].strong_count + 1) as u32,
        ..fs0.inodes@[t]
    })
    &&& fs1.root().size == fs0.root().size + DIRENT_SZ
    &&& file_count_of(fs1.root().data@) == fc0 + 1
    &&& forall|i: int|
        #![trigger dir_name_at(fs1.root().data@, i)]
        #![trigger dir_id_at(fs1.root().data@, i)]
        0 <= i < fc0 ==> dir_name_at(fs1.root().data@, i) == dir_name_at(fs0.root().data@, i)
            && dir_id_at(fs1.root().data@, i) == dir_id_at(fs0.root().data@, i)
    &&& dir_name_at(fs1.root().data@, fc0) == name
    &&& dir_id_at(fs1.root().data@, fc0) == t as u32
    &&& forall|i: int| 1 <= i < fs0.capacity() && i != t ==> fs1.inodes@[i] == fs0.inodes@[i]
    &&& fs1.inode_bitmap == fs0.inode_bitmap
    &&& fs1.free_data_blocks() == fs0.free_data_blocks() - (total_blocks_for(
        fs0.root().size + DIRENT_SZ as int,
    ) - total_blocks_for(fs0.root().size as int))
    &&& fs1.capacity() == fs0.capacity()
    &&& fs1.inode_area_start_block == fs0.inode_area_start_block
    &&& fs1.data_area_start_block == fs0.data_area_start_block
    &&& fs1.cache_synced
}

/// After incrementing the target's link count and appending an entry for
/// it, the filesystem invariant holds again.
proof fn lemma_link_restores_inv(
    fs0: EasyFileSystem,
    fs3: EasyFileSystem,
    t: int,
    name: Seq<u8>,
)
    requires
        fs0.inv(),
        1 <= t < fs0.capacity(),
        fs0.inode_bitmap@[t],
        fs0.inodes@[t].strong_count < u32::MAX,
        !dir_has_name(fs0.root().data@, name),
        name.len() <= NAME_LENGTH_LIMIT,
        fs3.inode_bitmap == fs0.inode_bitmap,
        fs3.inodes@.len() == fs0.inodes@.len(),
        fs3.inode_area_start_block == fs0.inode_area_start_block,
        fs3.data_area_start_block == fs0.data_area_start_block,
        fs3.data_bitmap@.len() == fs0.data_bitmap@.len(),
        fs3.inodes@[t] == (DiskInode {
            strong_count: (fs0.inodes@[t].strong_count + 1) as u32,
            ..fs0.inodes@[t]
        }),
        forall|i: int|
            1 <= i < fs0.capacity() && i != t ==> fs3.inodes@[i] == fs0.inodes@[i],
        fs3.root().size == fs0.root().size + DIRENT_SZ,
        fs3.root().type_ == fs0.root().type_,
        fs3.root().strong_count == fs0.root().strong_count,
        fs3.root().wf(),
        fs3.root().blocks@.take(fs0.root().blocks@.len() as int) == fs0.root().blocks@,
        forall|k: int|
            fs0.root().blocks@.len() <= k < fs3.root().blocks@.len() ==> fs3.data_block_in_range(
                #[trigger] fs3.root().blocks@[k],
            ) && !fs0.data_block_marked(fs3.root().blocks@[k]) && fs3.data_block_marked(
                fs3.root().blocks@[k],
            ),
        forall|k1: int, k2: int|
            #![trigger fs3.root().blocks@[k1], fs3.root().blocks@[k2]]
            fs0.root().blocks@.len() <= k1 < k2 < fs3.root().blocks@.len()
                ==> fs3.root().blocks@[k1] != fs3.root().blocks@[k2],
        forall|b: u32|
            fs0.data_block_in_range(b) && fs0.data_block_marked(b) ==> fs3.data_block_marked(b),
        file_count_of(fs3.root().data@) == file_count_of(fs0.root().data@) + 1,
        forall|i: int|
            #![trigger dir_raw_name_at(fs3.root().data@, i)]
            #![trigger dir_name_at(fs3.root().data@, i)]
            #![trigger dir_id_at(fs3.root().data@, i)]
            0 <= i < file_count_of(fs0.root().data@) ==> dir_raw_name_at(fs3.root().data@, i)
                == dir_raw_name_at(fs0.root().data@, i) && dir_name_at(fs3.root().data@, i)
                == dir_name_at(fs0.root().data@, i) && dir_id_at(fs3.root().data@, i) == dir_id_at(
                fs0.root().data@,
                i,
            ),
        name_field_wf(dir_raw_name_at(fs3.root().data@, file_count_of(fs0.root().data@))),
        dir_name_at(fs3.root().data@, file_count_of(fs0.root().data@)) == name,
        dir_id_at(fs3.root().data@, file_count_of(fs0.root().data@)) == t as u32,
    ensures
        fs3.inv(),
{
    let data0 = fs0.root().data@;
    let data3 = fs3.root().data@;
    let fc0 = file_count_of(data0);
    let ids0 = dir_ids(data0);
    let ids3 = dir_ids(data3);
    assert(ids3 =~= ids0.push(t as u32));
    assert(fs3.shape_inv());
    assert forall|i: int|
        0 <= i < fs3.capacity() && !fs3.inode_bitmap@[i] implies (#[trigger] fs3.inodes@[i]).size
        == 0 by {
        assert(fs3.inodes@[i] == fs0.inodes@[i]);
    }
    assert forall|i: int, j: int|
        0 <= i < j < file_count_of(data3) implies dir_name_at(data3, i) != dir_name_at(
        data3,
        j,
    ) by {
        if j == fc0 && i < fc0 {
            assert(dir_name_at(data0, i) != name);
        }
    }
    assert(fs3.dir_inv());
    assert forall|x: int|
        1 <= x < fs3.capacity() && fs3.inode_bitmap@[x] implies (
    #[trigger] fs3.inodes@[x]).strong_count == ref_count_in(data3, x as u32)
        && fs3.inodes@[x].strong_count >= 1 by {
        crate::efs::lemma_count_eq_u32_push(ids0, x as u32, t as u32);
        if x != t {
            assert(fs0.inodes@[x].strong_count == ref_count_in(data0, x as u32));
        }
    }
    assert forall|i1: int, k1: int|
        0 <= i1 < fs3.capacity() && 0 <= k1 < fs3.inodes@[i1].blocks@.len()
        implies fs3.data_block_in_range(#[trigger] fs3.inodes@[i1].blocks@[k1])
        && fs3.data_block_marked(fs3.inodes@[i1].blocks@[k1]) by {
        if i1 == 0 {
            if k1 < fs0.root().blocks@.len() {
                assert(fs3.root().blocks@[k1] == fs0.root().blocks@[k1]);
            }
        } else if i1 == t {
            assert(fs3.inodes@[t].blocks@ == fs0.inodes@[t].blocks@);
            assert(fs0.data_block_marked(fs0.inodes@[t].blocks@[k1]));
        } else {
            assert(fs3.inodes@[i1] == fs0.inodes@[i1]);
            assert(fs0.data_block_marked(fs0.inodes@[i1].blocks@[k1]));
        }
    }
    assert forall|i1: int, k1: int, i2: int, k2: int|
        #![trigger fs3.inodes@[i1].blocks@[k1], fs3.inodes@[i2].blocks@[k2]]
        0 <= i1 < fs3.capacity() && 0 <= k1 < fs3.inodes@[i1].blocks@.len() && 0 <= i2
        < fs3.capacity() && 0 <= k2 < fs3.inodes@[i2].blocks@.len() && !(i1 == i2 && k1 == k2)
        implies fs3.inodes@[i1].blocks@[k1] != fs3.inodes@[i2].blocks@[k2] by {
        let b1 = fs3.inodes@[i1].blocks@[k1];
        let b2 = fs3.inodes@[i2].blocks@[k2];
        let len0 = fs0.root().blocks@.len() as int;
        let new1 = i1 == 0 && k1 >= len0;
        let new2 = i2 == 0 && k2 >= len0;
        if !new1 {
            assert(b1 == fs0.inodes@[i1].blocks@[k1]);
            assert(fs0.data_block_marked(b1));
        }
        if !new2 {
            assert(b2 == fs0.inodes@[i2].blocks@[k2]);
            assert(fs0.data_block_marked(b2));
        }
        if new1 && !new2 {
            assert(!fs0.data_block_marked(b1));
        } else if !new1 && new2 {
            assert(!fs0.data_block_marked(b2));
        } else if new1 && new2 {
            assert(k1 != k2);
        }
    }
    assert(fs3.block_inv());
}

impl Inode {
    /// Link the file `other` points at under a second name in this
    /// directory: increment its link count and append a directory entry
    /// storing `name` and its inode number. No new inode is allocated —
    /// both names now share one underlying file. Returns the given
    /// handle, or nothing when the name is already taken.
    ///
    /// Only plain files can be linked; directories always have exactly
    /// one name.
    pub fn create_from_inode(&self, fs: &mut EasyFileSystem, name: &str, other: &Inode) -> (r:
        Option<Inode>)
        requires
            old(fs).inv(),
            self.wf(*old(fs)),
            self.is_dir_spec(*old(fs)),
            other.wf(*old(fs)),
            other.is_file_spec(*old(fs)),
            name.spec_bytes().len() <= NAME_LENGTH_LIMIT,
            forall|j: int| 0 <= j < name.spec_bytes().len() ==> name.spec_bytes()[j] != 0,
            old(fs).free_data_blocks() >= 1,
            old(fs).root().size + DIRENT_SZ <= u32::MAX,
            old(fs).inodes@[other.inode_id_spec(*old(fs))].strong_count < u32::MAX,
        ensures
            final(fs).inv(),
            r is Some <==> !dir_has_name(old(fs).root().data@, name.spec_bytes()),
            r is None ==> *final(fs) == *old(fs),
            r matches Some(h) ==> h == *other && link_effect(
                *old(fs),
                *final(fs),
                other.inode_id_spec(*old(fs)),
                name.spec_bytes(),
            ),
    {
        // the inode number that is going to be linked
        let linked_inode_id = other.get_inode_id(fs) as u32;
        let ghost t = linked_inode_id as int;
        let idx = self.get_inode_id(fs);
        proof {
            if idx != 0 {
                assert(fs.inodes@[idx as int].is_file_spec());
            }
            if t == 0 {
                assert(fs.inodes@[0].is_dir_spec());
            }
        }
        if find_inode_id(name, &fs.inodes[idx]).is_some() {
            return None;
        }
        fs.cache_synced = false;
        let ghost data0 = old(fs).root().data@;
        // one more name for the target
        fs.inodes[linked_inode_id as usize].inc_strong_count();
        let ghost fs2 = *fs;
        // append the entry for it
        let file_count = (fs.inodes[idx].size as usize) / DIRENT_SZ;
        let new_size = fs.inodes[idx].size + DIRENT_SZ as u32;
        proof {
            lemma_one_record_one_block(old(fs).root().size as int);
        }
        increase_size(fs, idx, new_size);
        let dirent = DirEntry::new(name, linked_inode_id);
        let db = dirent.as_bytes();
        proof {
            vstd::arithmetic::div_mod::lemma_fundamental_div_mod(
                data0.len() as int,
                DIRENT_SZ as int,
            );
            assert(file_count * DIRENT_SZ == data0.len());
        }
        fs.inodes[idx].write_at(file_count * DIRENT_SZ, db.as_slice());
        proof {
            let eb = dirent.bytes_view();
            vstd::bytes::lemma_auto_spec_u32_to_from_le_bytes();
            assert(fs.inodes@[0].data@ =~= data0 + eb);
            lemma_dir_append(data0, eb);
            assert(dir_raw_name_at(data0 + eb, file_count as int) =~= dirent.name@);
            assert(entry_slot(data0 + eb, file_count as int).subrange(28, 32)
                =~= vstd::bytes::spec_u32_to_le_bytes(dirent.inode_id));
            assert forall|b: u32|
                old(fs).data_block_in_range(b) && old(fs).data_block_marked(b)
                implies fs.data_block_marked(b) by {
                assert(fs2.data_block_in_range(b) && fs2.data_block_marked(b));
            }
            lemma_link_restores_inv(*old(fs), *fs, t, name.spec_bytes());
        }
        block_cache_sync_all(fs);
        Some(*other)
    }
}

/// What a successful `delete_entry` did: entry `k` — the one storing
/// `name` — was overwritten by the last entry, the directory shrank by
/// one record, and the target inode lost one link. When that was its last
/// link, its content and its slot were freed as well.
pub open spec fn delete_effect(
    fs0: EasyFileSystem,
    fs1: EasyFileSystem,
    name: Seq<u8>,
    k: int,
) -> bool {
    let data0 = fs0.root().data@;
    let data1 = fs1.root().data@;
    let fc0 = file_count_of(data0);
    let t = dir_id_at(data0, k) as int;
    &&& 0 <= k < fc0
    &&& dir_name_at(data0, k) == name
    &&& file_count_of(data1) == fc0 - 1
    &&& fs1.root().size == fs0.root().size - DIRENT_SZ
    &&& forall|i: int|
        #![trigger dir_name_at(data1, i)]
        #![trigger dir_id_at(data1, i)]
        0 <= i < fc0 - 1 && i != k ==> dir_name_at(data1, i) == dir_name_at(data0, i)
            && dir_id_at(data1, i) == dir_id_at(data0, i)
    &&& k < fc0 - 1 ==> dir_name_at(data1, k) == dir_name_at(data0, fc0 - 1) && dir_id_at(
        data1,
        k,
    ) == dir_id_at(data0, fc0 - 1)
    &&& forall|i: int| 1 <= i < fs0.capacity() && i != t ==> fs1.inodes@[i] == fs0.inodes@[i]
    &&& fs1.capacity() == fs0.capacity()
    &&& fs1.inode_area_start_block == fs0.inode_area_start_block
    &&& fs1.data_area_start_block == fs0.data_area_start_block
    &&& fs1.cache_synced
    &&& if fs0.inodes@[t].strong_count == 1 {
        // the last link is gone: the content and the slot are freed
        &&& fs1.inode_bitmap@ == fs0.inode_bitmap@.update(t, false)
        &&& fs1.inodes@[t].size == 0
        &&& fs1.inodes@[t].strong_count == 0
        &&& fs1.free_data_blocks() == fs0.free_data_blocks() + (total_blocks_for(
            fs0.root().size as int,
        ) - total_blocks_for(fs0.root().size - DIRENT_SZ as int)) + total_blocks_for(
            fs0.inodes@[t].size as int,
        )
    } else {
        &&& fs1.inode_bitmap == fs0.inode_bitmap
        &&& fs1.inodes@[t].strong_count == fs0.inodes@[t].strong_count - 1
        &&& fs1.inodes@[t].size == fs0.inodes@[t].size
        &&& fs1.inodes@[t].data@ == fs0.inodes@[t].data@
        &&& fs1.inodes@[t].type_ == fs0.inodes@[t].type_
        &&& fs1.free_data_blocks() == fs0.free_data_blocks() + (total_blocks_for(
            fs0.root().size as int,
        ) - total_blocks_for(fs0.root().size - DIRENT_SZ as int))
    }
}

/// After swap-removing entry `eid` and dropping one link of its target
/// `t`, the filesystem invariant holds again.
proof fn lemma_delete_restores_inv(
    fs0: EasyFileSystem,
    fs1: EasyFileSystem,
    eid: int,
    t: int,
)
    requires
        fs0.inv(),
        0 <= eid < file_count_of(fs0.root().data@),
        t == dir_id_at(fs0.root().data@, eid) as int,
        fs1.inodes@.len() == fs0.inodes@.len(),
        fs1.inode_area_start_block == fs0.inode_area_start_block,
        fs1.data_area_start_block == fs0.data_area_start_block,
        fs1.data_bitmap@.len() == fs0.data_bitmap@.len(),
        forall|i: int| 1 <= i < fs0.capacity() && i != t ==> fs1.inodes@[i] == fs0.inodes@[i],
        // the shrunk root directory
        fs1.root().wf(),
        fs1.root().type_ == fs0.root().type_,
        fs1.root().size == fs0.root().size - DIRENT_SZ,
        fs1.root().blocks@ == fs0.root().blocks@.take(fs1.root().blocks@.len() as int),
        dir_ids(fs1.root().data@) == dir_ids(fs0.root().data@).update(
            eid,
            dir_ids(fs0.root().data@)[file_count_of(fs0.root().data@) - 1],
        ).drop_last(),
        forall|i: int|
            #![trigger dir_raw_name_at(fs1.root().data@, i)]
            0 <= i < file_count_of(fs1.root().data@) ==> dir_raw_name_at(fs1.root().data@, i)
                == (if i == eid {
                dir_raw_name_at(fs0.root().data@, file_count_of(fs0.root().data@) - 1)
            } else {
                dir_raw_name_at(fs0.root().data@, i)
            }),
        forall|i: int|
            #![trigger dir_name_at(fs1.root().data@, i)]
            0 <= i < file_count_of(fs1.root().data@) ==> dir_name_at(fs1.root().data@, i) == (if i
                == eid {
                dir_name_at(fs0.root().data@, file_count_of(fs0.root().data@) - 1)
            } else {
                dir_name_at(fs0.root().data@, i)
            }),
        // the target inode
        if fs0.inodes@[t].strong_count == 1 {
            &&& fs1.inode_bitmap@ == fs0.inode_bitmap@.update(t, false)
            &&& fs1.inodes@[t].size == 0
            &&& fs1.inodes@[t].data@.len() == 0
            &&& fs1.inodes@[t].blocks@.len() == 0
            &&& fs1.inodes@[t].type_ == fs0.inodes@[t].type_
        } else {
            &&& fs1.inode_bitmap == fs0.inode_bitmap
            &&& fs1.inodes@[t] == (DiskInode {
                strong_count: (fs0.inodes@[t].strong_count - 1) as u32,
                ..fs0.inodes@[t]
            })
        },
        // every block still owned is still marked allocated
        forall|i: int, k: int|
            0 <= i < fs1.capacity() && 0 <= k < fs1.inodes@[i].blocks@.len()
                ==> fs1.data_block_in_range(#[trigger] fs1.inodes@[i].blocks@[k])
                && fs1.data_block_marked(fs1.inodes@[i].blocks@[k]),
    ensures
        fs1.inv(),
{
    let data0 = fs0.root().data@;
    let data1 = fs1.root().data@;
    let fc0 = file_count_of(data0);
    let ids0 = dir_ids(data0);
    let ids1 = dir_ids(data1);
    assert(fc0 * DIRENT_SZ as int == data0.len()) by {
        vstd::arithmetic::div_mod::lemma_fundamental_div_mod(data0.len() as int, DIRENT_SZ as int);
    }
    assert(file_count_of(data1) == fc0 - 1) by {
        assert(data1.len() == data0.len() - DIRENT_SZ);
        vstd::arithmetic::div_mod::lemma_div_multiples_vanish(fc0 - 1, DIRENT_SZ as int);
    }
    assert(1 <= t < fs0.capacity() && fs0.inode_bitmap@[t]);
    assert(fs0.inodes@[t].strong_count >= 1);
    // shape
    assert(fs1.shape_inv());
    // unallocated slots are empty
    assert forall|i: int|
        0 <= i < fs1.capacity() && !fs1.inode_bitmap@[i] implies (#[trigger] fs1.inodes@[i]).size
        == 0 by {}
    // directory well-formedness: names stay well formed and distinct
    assert forall|i: int, j: int|
        0 <= i < j < file_count_of(data1) implies dir_name_at(data1, i) != dir_name_at(
        data1,
        j,
    ) by {
        let ni = if i == eid { fc0 - 1 } else { i };
        let nj = if j == eid { fc0 - 1 } else { j };
        assert(dir_name_at(data1, i) == dir_name_at(data0, ni));
        assert(dir_name_at(data1, j) == dir_name_at(data0, nj));
        assert(ni != nj);
    }
    // reference counts after the swap-removal
    assert forall|x: u32| #[trigger] ref_count_in(data1, x) == ref_count_in(data0, x) - (if ids0[
        eid] == x {
        1int
    } else {
        0int
    }) by {
        crate::efs::lemma_count_eq_u32_swap_remove(ids0, eid, x);
        assert(ids1 == ids0.update(eid, ids0[ids0.len() - 1]).drop_last());
    }
    // entries still point at allocated file inodes
    assert forall|i: int|
        0 <= i < file_count_of(data1) implies 1 <= #[trigger] dir_id_at(data1, i)
        < fs1.capacity() && fs1.inode_bitmap@[dir_id_at(data1, i) as int] by {
        let ni = if i == eid { fc0 - 1 } else { i };
        assert(ids1[i] == ids0[ni]);
        assert(dir_id_at(data1, i) == dir_id_at(data0, ni));
        if dir_id_at(data1, i) as int == t && fs0.inodes@[t].strong_count == 1 {
            // a freed slot cannot still be named: its reference count hit zero
            crate::efs::lemma_count_eq_u32_pos(ids1, t as u32, i);
            assert(ref_count_in(data0, t as u32) == 1);
            assert(ids0[eid] == t as u32);
            assert(ref_count_in(data1, t as u32) == 0);
            assert(false);
        }
    }
    assert(fs1.dir_inv());
    // link counts
    assert forall|x: int|
        1 <= x < fs1.capacity() && fs1.inode_bitmap@[x] implies (
    #[trigger] fs1.inodes@[x]).strong_count == ref_count_in(data1, x as u32)
        && fs1.inodes@[x].strong_count >= 1 by {
        assert(ref_count_in(data1, x as u32) == ref_count_in(data0, x as u32) - (if ids0[eid]
            == x as u32 {
            1int
        } else {
            0int
        }));
        if x == t {
            assert(fs0.inodes@[t].strong_count != 1);
        } else {
            assert(ids0[eid] != x as u32);
        }
    }
    // block accounting
    assert forall|i1: int, k1: int, i2: int, k2: int|
        #![trigger fs1.inodes@[i1].blocks@[k1], fs1.inodes@[i2].blocks@[k2]]
        0 <= i1 < fs1.capacity() && 0 <= k1 < fs1.inodes@[i1].blocks@.len() && 0 <= i2
        < fs1.capacity() && 0 <= k2 < fs1.inodes@[i2].blocks@.len() && !(i1 == i2 && k1 == k2)
        implies fs1.inodes@[i1].blocks@[k1] != fs1.inodes@[i2].blocks@[k2] by {
        assert(fs1.inodes@[i1].blocks@[k1] == fs0.inodes@[i1].blocks@[k1]);
        assert(fs1.inodes@[i2].blocks@[k2] == fs0.inodes@[i2].blocks@[k2]);
    }
    assert(fs1.block_inv());
}

impl Inode {
    /// Remove the entry named `name` from this directory by overwriting
    /// it with the last entry and shrinking the directory by one record,
    /// then drop one link of the inode the entry named; an inode whose
    /// last link is gone has its content and its slot freed. Returns 0,
    /// or -1 when no entry stores `name`.
    ///
    /// Directories cannot be hard-linked here, so the target of the
    /// removed entry is always a plain file: a deletion never tries to
    /// take a directory apart.
    pub fn delete_entry(&self, fs: &mut EasyFileSystem, name: &str) -> (r: isize)
        requires
            old(fs).inv(),
            self.wf(*old(fs)),
            self.is_dir_spec(*old(fs)),
        ensures
            final(fs).inv(),
            r == -1 <==> !dir_has_name(old(fs).root().data@, name.spec_bytes()),
            r == -1 || r == 0,
            r == -1 ==> *final(fs) == *old(fs),
            r == 0 ==> exists|k: int|
                #[trigger] delete_effect(*old(fs), *final(fs), name.spec_bytes(), k),
    {
        let idx = self.get_inode_id(fs);
        proof {
            if idx != 0 {
                assert(fs.inodes@[idx as int].is_file_spec());
            }
        }
        let eid = match find_entry_id(name, &fs.inodes[idx]) {
            Some(a) => a as usize,
            None => {
                return -1;
            },
        };
        fs.cache_synced = false;
        let ghost data0 = old(fs).root().data@;
        let ghost fc0 = file_count_of(data0);
        let ghost ids0 = dir_ids(data0);
        let file_count = (fs.inodes[idx].size as usize) / DIRENT_SZ;
        proof {
            vstd::arithmetic::div_mod::lemma_fundamental_div_mod(
                data0.len() as int,
                DIRENT_SZ as int,
            );
            lemma_dir_slot_in_range(data0, eid as int);
            lemma_dir_slot_in_range(data0, fc0 - 1);
        }
        // the entry to remove, and the last entry that replaces it
        let dirent = read_dir_entry(&fs.inodes[idx], eid);
        let ghost t = dirent.inode_id as int;
        let last_dirent = read_dir_entry(&fs.inodes[idx], file_count - 1);
        proof {
            assert(name_field_wf(dir_raw_name_at(data0, fc0 - 1)));
        }
        let lb = last_dirent.as_bytes();
        proof {
            vstd::bytes::lemma_auto_spec_u32_to_from_le_bytes();
            assert(lb@ =~= entry_slot(data0, fc0 - 1));
        }
        // move the last entry into the freed slot
        fs.inodes[idx].write_at(eid * DIRENT_SZ, lb.as_slice());
        let ghost data1 = fs.inodes@[0].data@;
        proof {
            lemma_dir_splice(data0, eid as int, lb@);
        }
        // zero what was the last slot
        let empty_entry = DirEntry::empty();
        let eb = empty_entry.as_bytes();
        fs.inodes[idx].write_at((file_count - 1) * DIRENT_SZ, eb.as_slice());
        let ghost data2 = fs.inodes@[0].data@;
        proof {
            lemma_dir_splice(data1, fc0 - 1, eb@);
        }
        // shrink the directory by one record and free spare blocks
        let new_size = fs.inodes[idx].size - DIRENT_SZ as u32;
        let freed = fs.inodes[idx].decrease_size(new_size);
        let ghost data3 = fs.inodes@[0].data@;
        let ghost keep = fs.inodes@[0].blocks@.len() as int;
        proof {
            assert(data3 == data2.take((fc0 - 1) * DIRENT_SZ as int));
            lemma_dir_truncate(data2, fc0 - 1);
            assert forall|i: int|
                0 <= i < fc0 - 1 implies #[trigger] entry_slot(data3, i) == (if i == eid as int {
                entry_slot(data0, fc0 - 1)
            } else {
                entry_slot(data0, i)
            }) by {}
            assert forall|i: int|
                0 <= i < fc0 - 1 implies #[trigger] dir_raw_name_at(data3, i) == (if i
                == eid as int {
                dir_raw_name_at(data0, fc0 - 1)
            } else {
                dir_raw_name_at(data0, i)
            }) && dir_name_at(data3, i) == (if i == eid as int {
                dir_name_at(data0, fc0 - 1)
            } else {
                dir_name_at(data0, i)
            }) && dir_id_at(data3, i) == (if i == eid as int {
                dir_id_at(data0, fc0 - 1)
            } else {
                dir_id_at(data0, i)
            }) by {
                if i == eid as int {
                    assert(entry_slot(data3, i) == entry_slot(data0, fc0 - 1));
                } else {
                    assert(entry_slot(data3, i) == entry_slot(data0, i));
                }
            }
            assert forall|k: int|
                0 <= k < freed@.len() implies old(fs).data_block_in_range(#[trigger] freed@[k])
                && old(fs).data_block_marked(freed@[k]) by {
                assert(freed@[k] == old(fs).inodes@[0].blocks@[keep + k]);
            }
            assert forall|k1: int, k2: int|
                #![trigger freed@[k1], freed@[k2]]
                0 <= k1 < k2 < freed@.len() implies freed@[k1] != freed@[k2] by {
                assert(freed@[k1] == old(fs).inodes@[0].blocks@[keep + k1]);
                assert(freed@[k2] == old(fs).inodes@[0].blocks@[keep + k2]);
            }
        }
        let ghost fs_b = *fs;
        dealloc_blocks(fs, &freed);
        // one link less on the target inode
        let tid = dirent.inode_id;
        proof {
            assert(1 <= t < old(fs).capacity() && old(fs).inode_bitmap@[t]);
            assert(fs.inodes@[t] == old(fs).inodes@[t]);
            assert(old(fs).inodes@[t].strong_count >= 1);
        }
        fs.inodes[tid as usize].dec_strong_count();
        let ghost fs_mid = *fs;
        if fs.inodes[tid as usize].strong_count == 0 {
            // the last link is gone: free the content and the slot
            let freed2 = fs.inodes[tid as usize].clear_size();
            proof {
                assert forall|k: int|
                    0 <= k < freed2@.len() implies fs_mid.data_block_in_range(
                    #[trigger] freed2@[k],
                ) && fs_mid.data_block_marked(freed2@[k]) by {
                    let b = freed2@[k];
                    assert(b == old(fs).inodes@[t].blocks@[k]);
                    assert(old(fs).data_block_in_range(b) && old(fs).data_block_marked(b));
                    assert(fs_b.data_block_in_range(b) && fs_b.data_block_marked(b));
                    assert forall|j: int| 0 <= j < freed@.len() implies freed@[j] != b by {
                        assert(freed@[j] == old(fs).inodes@[0].blocks@[keep + j]);
                        assert(b == old(fs).inodes@[t].blocks@[k]);
                    }
                    assert(!freed@.contains(b));
                }
                assert forall|k1: int, k2: int|
                    #![trigger freed2@[k1], freed2@[k2]]
                    0 <= k1 < k2 < freed2@.len() implies freed2@[k1] != freed2@[k2] by {
                    assert(freed2@[k1] == old(fs).inodes@[t].blocks@[k1]);
                    assert(freed2@[k2] == old(fs).inodes@[t].blocks@[k2]);
                }
            }
            dealloc_blocks(fs, &freed2);
            fs.dealloc_inode(tid);
        }
        proof {
            assert(dir_ids(fs.inodes@[0].data@) =~= ids0.update(eid as int, ids0[fc0 - 1])
                .drop_last());
            assert forall|i: int, k: int|
                0 <= i < fs.capacity() && 0 <= k < fs.inodes@[i].blocks@.len()
                implies fs.data_block_in_range(#[trigger] fs.inodes@[i].blocks@[k])
                && fs.data_block_marked(fs.inodes@[i].blocks@[k]) by {
                let b = fs.inodes@[i].blocks@[k];
                if i == 0 {
                    assert(b == old(fs).inodes@[0].blocks@[k]);
                } else {
                    assert(fs.inodes@[i].blocks@ == old(fs).inodes@[i].blocks@);
                    assert(b == old(fs).inodes@[i].blocks@[k]);
                }
                assert(old(fs).data_block_in_range(b) && old(fs).data_block_marked(b));
                assert forall|j: int| 0 <= j < freed@.len() implies freed@[j] != b by {
                    assert(freed@[j] == old(fs).inodes@[0].blocks@[keep + j]);
                }
                assert(!freed@.contains(b));
                if old(fs).inodes@[t].strong_count == 1 {
                    assert forall|j: int|
                        0 <= j < old(fs).inodes@[t].blocks@.len() implies old(
                        fs,
                    ).inodes@[t].blocks@[j] != b by {}
                    assert(!old(fs).inodes@[t].blocks@.contains(b));
                }
            }
            lemma_delete_restores_inv(*old(fs), *fs, eid as int, t);
            assert(old(fs).root() == old(fs).inodes@[0]);
        }
        block_cache_sync_all(fs);
        proof {
            assert(delete_effect(*old(fs), *fs, name.spec_bytes(), eid as int));
        }
        0
    }
}

// ---------------------------------------------------------------------------
// Laws of the inode layer
// ---------------------------------------------------------------------------
/// Round-trip law: after writing `data` at offset zero, the file holds at
/// least `data.len()` bytes and its first `data.len()` bytes are exactly
/// `data` — so reading them back yields `data` again.
pub proof fn lemma_write_read_round_trip(
    fs0: EasyFileSystem,
    fs1: EasyFileSystem,
    id: int,
    data: Seq<u8>,
)
    requires
        0 <= id < fs0.inodes@.len(),
        fs1.inodes@.len() == fs0.inodes@.len(),
        write_effect(fs0, fs1, id, 0, data),
    ensures
        fs1.inodes@[id].size >= data.len(),
        fs1.inodes@[id].data@.subrange(0, data.len() as int) == data,
{
    let di0 = fs0.inodes@[id];
    let ns = if data.len() > di0.size {
        data.len() as int
    } else {
        di0.size as int
    };
    let grown = di0.data@ + Seq::new((ns - di0.size) as nat, |j: int| 0u8);
    assert(fs1.inodes@[id].data@ == splice_bytes(grown, 0, data));
    assert(fs1.inodes@[id].data@.subrange(0, data.len() as int) =~= data);
}

/// Uniqueness and mutual-exclusion law: a successful creation of `name`
/// leaves the name present in the directory. Since every operation holds
/// the filesystem exclusively, two creations of the same name run in some
/// order, and whichever runs second finds the name present and must
/// return absence without mutating anything: one success, one failure,
/// never two files.
pub proof fn lemma_create_makes_name_present(
    fs0: EasyFileSystem,
    fs1: EasyFileSystem,
    h: Inode,
    name: Seq<u8>,
)
    requires
        create_effect(fs0, fs1, h, name),
    ensures
        dir_has_name(fs1.root().data@, name),
{
    let fc0 = file_count_of(fs0.root().data@);
    assert(dir_name_at(fs1.root().data@, fc0) == name);
}

/// Link-counting law, upward: creating a file gives it one link, and
/// linking it under a second name gives it exactly two.
pub proof fn lemma_link_counts_two(
    fs0: EasyFileSystem,
    fs1: EasyFileSystem,
    fs2: EasyFileSystem,
    h: Inode,
    name_a: Seq<u8>,
    name_b: Seq<u8>,
)
    requires
        create_effect(fs0, fs1, h, name_a),
        fs1.capacity() == fs2.capacity(),
        link_effect(fs1, fs2, h.inode_id_spec(fs1), name_b),
    ensures
        fs1.inodes@[h.inode_id_spec(fs1)].strong_count == 1,
        fs2.inodes@[h.inode_id_spec(fs1)].strong_count == 2,
{
}

/// Link-counting law, downward: deleting one of at least two names
/// lowers the link count by exactly one and leaves the file's content
/// untouched, so the remaining name still reads the same bytes.
pub proof fn lemma_delete_keeps_content(
    fs0: EasyFileSystem,
    fs1: EasyFileSystem,
    name: Seq<u8>,
    k: int,
)
    requires
        delete_effect(fs0, fs1, name, k),
        fs0.inodes@[dir_id_at(fs0.root().data@, k) as int].strong_count >= 2,
    ensures
        ({
            let t = dir_id_at(fs0.root().data@, k) as int;
            &&& fs1.inodes@[t].strong_count == fs0.inodes@[t].strong_count - 1
            &&& fs1.inodes@[t].data@ == fs0.inodes@[t].data@
            &&& fs1.inode_bitmap == fs0.inode_bitmap
        }),
{
}

/// Deletion-to-zero law: deleting the last name of a file drives its
/// link count to zero and frees its inode slot, so a later creation has
/// a slot to reuse.
pub proof fn lemma_delete_frees_slot(
    fs0: EasyFileSystem,
    fs1: EasyFileSystem,
    name: Seq<u8>,
    k: int,
)
    requires
        fs0.inv(),
        fs1.inode_bitmap@.len() == fs0.inode_bitmap@.len(),
        delete_effect(fs0, fs1, name, k),
        fs0.inodes@[dir_id_at(fs0.root().data@, k) as int].strong_count == 1,
    ensures
        !fs1.inode_bitmap@[dir_id_at(fs0.root().data@, k) as int],
        fs1.has_free_inode(),
{
    let t = dir_id_at(fs0.root().data@, k) as int;
    assert(1 <= t < fs0.capacity());
    assert(!fs1.inode_bitmap@[t]);
}

/// Compaction law: removing one name removes exactly that name — every
/// other name survives (only the compacted slot changes its position),
/// the directory shrinks by exactly one record, and removing the only
/// entry leaves an empty directory.
pub proof fn lemma_delete_names(
    fs0: EasyFileSystem,
    fs1: EasyFileSystem,
    name: Seq<u8>,
    k: int,
)
    requires
        fs0.inv(),
        delete_effect(fs0, fs1, name, k),
    ensures
        file_count_of(fs1.root().data@) == file_count_of(fs0.root().data@) - 1,
        fs1.root().size == fs0.root().size - DIRENT_SZ,
        !dir_has_name(fs1.root().data@, name),
        forall|j: int|
            0 <= j < file_count_of(fs0.root().data@) && j != k ==> dir_has_name(
                fs1.root().data@,
                #[trigger] dir_name_at(fs0.root().data@, j),
            ),
        file_count_of(fs0.root().data@) == 1 ==> fs1.root().size == 0,
{
    let data0 = fs0.root().data@;
    let data1 = fs1.root().data@;
    let fc0 = file_count_of(data0);
    assert forall|i: int| 0 <= i < fc0 - 1 implies dir_name_at(data1, i) != name by {
        let ni = if i == k {
            fc0 - 1
        } else {
            i
        };
        assert(dir_name_at(data1, i) == dir_name_at(data0, ni));
        if ni != k {
            assert(dir_name_at(data0, ni) != dir_name_at(data0, k));
        }
    }
    assert forall|j: int|
        0 <= j < fc0 && j != k implies dir_has_name(
        data1,
        #[trigger] dir_name_at(data0, j),
    ) by {
        if j < fc0 - 1 {
            assert(dir_name_at(data1, j) == dir_name_at(data0, j));
        } else {
            assert(k < fc0 - 1);
            assert(dir_name_at(data1, k) == dir_name_at(data0, fc0 - 1));
        }
    }
}

/// Growth law: a write past the current end of the file grows it to
/// exactly `offset + len` bytes and allocates exactly the difference in
/// needed blocks between the new and the old size.
pub proof fn lemma_write_growth(
    fs0: EasyFileSystem,
    fs1: EasyFileSystem,
    id: int,
    offset: int,
    data: Seq<u8>,
)
    requires
        fs0.inv(),
        0 <= id < fs0.capacity(),
        write_effect(fs0, fs1, id, offset, data),
        offset >= 0,
        offset + data.len() > fs0.inodes@[id].size,
    ensures
        fs1.inodes@[id].size == offset + data.len(),
        fs1.inodes@[id].blocks@.len() - fs0.inodes@[id].blocks@.len() == total_blocks_for(
            offset + data.len(),
        ) - total_blocks_for(fs0.inodes@[id].size as int),
        fs0.free_data_blocks() - fs1.free_data_blocks() == total_blocks_for(offset + data.len())
            - total_blocks_for(fs0.inodes@[id].size as int),
{
    assert(fs0.inodes@[id].wf());
}

/// Idempotence law: clearing a file that is already empty frees zero
/// blocks and leaves the whole inode table as it was.
pub proof fn lemma_clear_empty_is_noop(fs0: EasyFileSystem, fs1: EasyFileSystem, id: int)
    requires
        fs0.inv(),
        0 <= id < fs0.capacity(),
        clear_effect(fs0, fs1, id),
        fs0.inodes@[id].size == 0,
    ensures
        fs1.free_data_blocks() == fs0.free_data_blocks(),
        fs1.inodes@[id].data@ == fs0.inodes@[id].data@,
        fs1.inodes@[id].blocks@ == fs0.inodes@[id].blocks@,
        forall|i: int| 0 <= i < fs0.capacity() ==> fs1.inodes@[i].data@ == fs0.inodes@[i].data@,
{
    assert(fs0.inodes@[id].wf());
    assert(fs0.inodes@[id].data@ =~= Seq::<u8>::empty());
    assert(fs0.inodes@[id].blocks@ =~= Seq::<u32>::empty());
    assert forall|i: int|
        0 <= i < fs0.capacity() implies fs1.inodes@[i].data@ == fs0.inodes@[i].data@ by {
        if i != id {
            assert(fs1.inodes@[i] == fs0.inodes@[i]);
        }
    }
}

} // verus!
