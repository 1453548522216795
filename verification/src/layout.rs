//! On-disk record layer: directory entries and the disk inode.
//!
//! A directory's content is a packed array of fixed-size `DirEntry`
//! records with no padding between them; a file's content is a flat byte
//! stream. Both live in the content of a [`DiskInode`], which also keeps
//! the block accounting for that content.

use vstd::prelude::*;
use vstd::bytes::{spec_u32_from_le_bytes, spec_u32_to_le_bytes, u32_from_le_bytes, u32_to_le_bytes};
use vstd::string::StringSliceAdditionalSpecFns;
use vstd::utf8::{encode_utf8, encode_utf8_valid_utf8, valid_utf8};
use crate::config::{BLOCK_SZ, DIRENT_SZ, NAME_FIELD_SZ, NAME_LENGTH_LIMIT};

verus! {

// ---------------------------------------------------------------------------
// The name field of a directory entry
// ---------------------------------------------------------------------------
/// Length of the name stored in a name field: the index of the first zero
/// byte, or the whole length when no byte is zero.
pub open spec fn name_len_of(s: Seq<u8>) -> int
    decreases s.len(),
{
    if s.len() == 0 {
        0
    } else if s[0] == 0 {
        0
    } else {
        1 + name_len_of(s.drop_first())
    }
}

/// The stored name itself: everything before the first zero byte.
pub open spec fn trunc_zero(s: Seq<u8>) -> Seq<u8> {
    s.take(name_len_of(s))
}

/// A position that is preceded only by nonzero bytes and holds a zero (or
/// is the end) is exactly `name_len_of`.
pub proof fn lemma_name_len_is(s: Seq<u8>, i: int)
    requires
        0 <= i <= s.len(),
        forall|j: int| 0 <= j < i ==> s[j] != 0,
        i < s.len() ==> s[i] == 0,
    ensures
        name_len_of(s) == i,
    decreases s.len(),
{
    if s.len() > 0 && s[0] != 0 {
        assert forall|j: int| 0 <= j < i - 1 implies s.drop_first()[j] != 0 by {
            assert(s[j + 1] != 0);
        }
        lemma_name_len_is(s.drop_first(), i - 1);
    }
}

/// Every byte from the first zero onward is zero: the field is a name
/// followed by nothing but padding.
pub open spec fn zero_padded(s: Seq<u8>) -> bool {
    forall|j: int| name_len_of(s) <= j < s.len() ==> s[j] == 0
}

/// Well-formed name field: fixed width, a bounded name, zero padding, and
/// a name that decodes as UTF-8.
pub open spec fn name_field_wf(s: Seq<u8>) -> bool {
    &&& s.len() == NAME_FIELD_SZ
    &&& name_len_of(s) <= NAME_LENGTH_LIMIT
    &&& zero_padded(s)
    &&& valid_utf8(trunc_zero(s))
}

/// A name of at most [`NAME_LENGTH_LIMIT`] nonzero bytes padded with
/// zeros to the field width truncates back to itself.
pub proof fn lemma_trunc_of_padded(s: Seq<u8>, n: Seq<u8>)
    requires
        n.len() <= NAME_LENGTH_LIMIT,
        forall|j: int| 0 <= j < n.len() ==> n[j] != 0,
        s.len() == NAME_FIELD_SZ,
        forall|j: int| 0 <= j < n.len() ==> s[j] == n[j],
        forall|j: int| n.len() <= j < s.len() ==> s[j] == 0,
    ensures
        name_len_of(s) == n.len(),
        trunc_zero(s) == n,
        zero_padded(s),
{
    lemma_name_len_is(s, n.len() as int);
    assert(trunc_zero(s) =~= n);
}

// ---------------------------------------------------------------------------
// Directory entries
// ---------------------------------------------------------------------------
/// One directory entry: a zero-padded name field and the number of the
/// inode the name refers to.
pub struct DirEntry {
    /// The name field, always [`NAME_FIELD_SZ`] bytes.
    pub name: Vec<u8>,
    /// Number of the inode this entry names.
    pub inode_id: u32,
}

/// Serialized form of an entry: the name field followed by the inode
/// number in little-endian order.
pub open spec fn entry_bytes_of(name_field: Seq<u8>, id: u32) -> Seq<u8> {
    name_field + spec_u32_to_le_bytes(id)
}

impl DirEntry {
    /// The entry's name field has the fixed width and is well formed.
    pub open spec fn wf(self) -> bool {
        name_field_wf(self.name@)
    }

    /// The stored name: the field up to its first zero byte.
    pub open spec fn name_view(self) -> Seq<u8> {
        trunc_zero(self.name@)
    }

    /// The 32 bytes this entry occupies on disk.
    pub open spec fn bytes_view(self) -> Seq<u8> {
        entry_bytes_of(self.name@, self.inode_id)
    }

    /// An all-zero entry: empty name, inode number zero.
    pub fn empty() -> (r: DirEntry)
        ensures
            r.wf(),
            r.name_view() == Seq::<u8>::empty(),
            r.name@ == Seq::new(NAME_FIELD_SZ as nat, |j: int| 0u8),
            r.inode_id == 0,
    {
        let mut name: Vec<u8> = Vec::new();
        let mut j: usize = 0;
        while j < NAME_FIELD_SZ
            invariant
                j <= NAME_FIELD_SZ,
                name@.len() == j,
                forall|k: int| 0 <= k < j ==> name@[k] == 0u8,
            decreases NAME_FIELD_SZ - j,
        {
            name.push(0u8);
            j += 1;
        }
        proof {
            lemma_name_len_is(name@, 0);
            assert(name@ =~= Seq::new(NAME_FIELD_SZ as nat, |k: int| 0u8));
            assert(trunc_zero(name@) =~= Seq::<u8>::empty());
        }
        DirEntry { name, inode_id: 0 }
    }

    /// Build an entry for `name` referring to inode `inode_id`.
    ///
    /// The name must fit the field and may not contain a zero byte, since
    /// the field uses zero as its terminator.
    pub fn new(name: &str, inode_id: u32) -> (r: DirEntry)
        requires
            name.spec_bytes().len() <= NAME_LENGTH_LIMIT,
            forall|j: int| 0 <= j < name.spec_bytes().len() ==> name.spec_bytes()[j] != 0,
        ensures
            r.wf(),
            r.name_view() == name.spec_bytes(),
            r.inode_id == inode_id,
    {
        let bytes: &[u8] = name.as_bytes();
        let n = bytes.len();
        let mut field: Vec<u8> = Vec::new();
        let mut j: usize = 0;
        while j < n
            invariant
                j <= n,
                n == name.spec_bytes().len(),
                bytes@ == name.spec_bytes(),
                field@ == name.spec_bytes().take(j as int),
            decreases n - j,
        {
            let b = bytes[j];
            field.push(b);
            proof {
                assert(field@ =~= name.spec_bytes().take(j + 1));
            }
            j += 1;
        }
        assert(field@ =~= name.spec_bytes());
        while j < NAME_FIELD_SZ
            invariant
                n <= j <= NAME_FIELD_SZ,
                field@.len() == j,
                n == name.spec_bytes().len(),
                forall|k: int| 0 <= k < n ==> field@[k] == name.spec_bytes()[k],
                forall|k: int| n <= k < j ==> field@[k] == 0u8,
            decreases NAME_FIELD_SZ - j,
        {
            field.push(0u8);
            j += 1;
        }
        proof {
            lemma_trunc_of_padded(field@, name.spec_bytes());
            encode_utf8_valid_utf8(name@);
        }
        DirEntry { name: field, inode_id }
    }

    /// Serialize the entry into its 32 on-disk bytes.
    pub fn as_bytes(&self) -> (r: Vec<u8>)
        requires
            self.wf(),
        ensures
            r@ == self.bytes_view(),
            r@.len() == DIRENT_SZ,
    {
        let mut v: Vec<u8> = Vec::new();
        let mut j: usize = 0;
        while j < NAME_FIELD_SZ
            invariant
                j <= NAME_FIELD_SZ,
                self.name@.len() == NAME_FIELD_SZ,
                v@ == self.name@.take(j as int),
            decreases NAME_FIELD_SZ - j,
        {
            let b = self.name[j];
            v.push(b);
            proof {
                assert(v@ =~= self.name@.take(j + 1));
            }
            j += 1;
        }
        assert(v@ =~= self.name@);
        let mut tail = u32_to_le_bytes(self.inode_id);
        v.append(&mut tail);
        v
    }

    /// Deserialize an entry from 32 on-disk bytes.
    pub fn from_bytes(b: &[u8]) -> (r: DirEntry)
        requires
            b@.len() == DIRENT_SZ,
        ensures
            r.name@ == b@.take(NAME_FIELD_SZ as int),
            r.inode_id == spec_u32_from_le_bytes(b@.subrange(NAME_FIELD_SZ as int, DIRENT_SZ as int)),
            r.name_view() == trunc_zero(b@.take(NAME_FIELD_SZ as int)),
    {
        let mut name: Vec<u8> = Vec::new();
        let mut j: usize = 0;
        while j < NAME_FIELD_SZ
            invariant
                j <= NAME_FIELD_SZ,
                b@.len() == DIRENT_SZ,
                name@ == b@.take(j as int),
            decreases NAME_FIELD_SZ - j,
        {
            let x = b[j];
            name.push(x);
            proof {
                assert(name@ =~= b@.take(j + 1));
            }
            j += 1;
        }
        let mut tail: Vec<u8> = Vec::new();
        let mut k: usize = NAME_FIELD_SZ;
        while k < DIRENT_SZ
            invariant
                NAME_FIELD_SZ <= k <= DIRENT_SZ,
                b@.len() == DIRENT_SZ,
                tail@ == b@.subrange(NAME_FIELD_SZ as int, k as int),
            decreases DIRENT_SZ - k,
        {
            let x = b[k];
            tail.push(x);
            proof {
                assert(tail@ =~= b@.subrange(NAME_FIELD_SZ as int, k + 1));
            }
            k += 1;
        }
        let inode_id = u32_from_le_bytes(tail.as_slice());
        DirEntry { name, inode_id }
    }

    /// The stored name as bytes, without the zero padding.
    pub fn name_bytes(&self) -> (r: Vec<u8>)
        requires
            self.name@.len() == NAME_FIELD_SZ,
        ensures
            r@ == self.name_view(),
    {
        let mut v: Vec<u8> = Vec::new();
        let mut j: usize = 0;
        loop
            invariant
                j <= NAME_FIELD_SZ,
                self.name@.len() == NAME_FIELD_SZ,
                forall|k: int| 0 <= k < j ==> self.name@[k] != 0,
                v@ == self.name@.take(j as int),
            ensures
                v@ == self.name_view(),
            decreases NAME_FIELD_SZ - j,
        {
            if j == NAME_FIELD_SZ {
                proof {
                    lemma_name_len_is(self.name@, j as int);
                }
                break;
            }
            let b = self.name[j];
            if b == 0 {
                proof {
                    lemma_name_len_is(self.name@, j as int);
                }
                break;
            }
            v.push(b);
            proof {
                assert(v@ =~= self.name@.take(j + 1));
            }
            j += 1;
        }
        v
    }

    /// The stored name, decoded back into a string.
    pub fn name(&self) -> (r: String)
        requires
            self.wf(),
        ensures
            encode_utf8(r@) == self.name_view(),
    {
        let bytes = self.name_bytes();
        utf8_to_string(bytes.as_slice())
    }
}

/// Relies on `core::str::from_utf8`: it succeeds on every valid UTF-8
/// byte sequence and the resulting string's bytes are the input.
#[verifier::external_body]
fn utf8_to_string(v: &[u8]) -> (r: String)
    requires
        valid_utf8(v@),
    ensures
        encode_utf8(r@) == v@,
{
    match core::str::from_utf8(v) {
        Ok(s) => s.to_string(),
        Err(_) => String::new(),
    }
}

// ---------------------------------------------------------------------------
// Directory content, seen as a packed array of entry records
// ---------------------------------------------------------------------------
/// How many whole entry records the directory content holds.
pub open spec fn file_count_of(data: Seq<u8>) -> int {
    data.len() as int / DIRENT_SZ as int
}

/// The 32 bytes of entry record `i`.
pub open spec fn entry_slot(data: Seq<u8>, i: int) -> Seq<u8> {
    data.subrange(i * DIRENT_SZ as int, i * DIRENT_SZ as int + DIRENT_SZ as int)
}

/// The raw 28-byte name field of entry `i`.
pub open spec fn dir_raw_name_at(data: Seq<u8>, i: int) -> Seq<u8> {
    entry_slot(data, i).take(NAME_FIELD_SZ as int)
}

/// The name stored in entry `i`.
pub open spec fn dir_name_at(data: Seq<u8>, i: int) -> Seq<u8> {
    trunc_zero(dir_raw_name_at(data, i))
}

/// The inode number stored in entry `i`.
pub open spec fn dir_id_at(data: Seq<u8>, i: int) -> u32 {
    spec_u32_from_le_bytes(
        entry_slot(data, i).subrange(NAME_FIELD_SZ as int, DIRENT_SZ as int),
    )
}

/// Whether some entry of the directory stores `name`.
pub open spec fn dir_has_name(data: Seq<u8>, name: Seq<u8>) -> bool {
    exists|i: int| 0 <= i < file_count_of(data) && dir_name_at(data, i) == name
}

/// Well-formed directory content: whole records only, every name field
/// well formed, and no name stored twice.
pub open spec fn dir_wf(data: Seq<u8>) -> bool {
    &&& data.len() as int % DIRENT_SZ as int == 0
    &&& forall|i: int| 0 <= i < file_count_of(data) ==> name_field_wf(#[trigger] dir_raw_name_at(data, i))
    &&& forall|i: int, j: int|
        0 <= i < j < file_count_of(data) ==> dir_name_at(data, i) != dir_name_at(data, j)
}

/// Appending one whole record to directory content adds exactly that
/// entry and leaves the earlier entries as they were.
pub proof fn lemma_dir_append(data: Seq<u8>, eb: Seq<u8>)
    requires
        data.len() as int % DIRENT_SZ as int == 0,
        eb.len() == DIRENT_SZ,
    ensures
        file_count_of(data + eb) == file_count_of(data) + 1,
        forall|i: int|
            0 <= i < file_count_of(data) ==> #[trigger] entry_slot(data + eb, i) == entry_slot(
                data,
                i,
            ),
        entry_slot(data + eb, file_count_of(data)) == eb,
        forall|i: int|
            #![trigger dir_raw_name_at(data + eb, i)]
            #![trigger dir_name_at(data + eb, i)]
            #![trigger dir_id_at(data + eb, i)]
            0 <= i < file_count_of(data) ==> dir_raw_name_at(data + eb, i) == dir_raw_name_at(
                data,
                i,
            ) && dir_name_at(data + eb, i) == dir_name_at(data, i) && dir_id_at(data + eb, i)
                == dir_id_at(data, i),
{
    let fc = file_count_of(data);
    assert((data + eb).len() == fc * DIRENT_SZ as int + DIRENT_SZ as int) by {
        vstd::arithmetic::div_mod::lemma_fundamental_div_mod(
            data.len() as int,
            DIRENT_SZ as int,
        );
    }
    assert(file_count_of(data + eb) == fc + 1) by {
        vstd::arithmetic::div_mod::lemma_div_multiples_vanish(
            fc + 1,
            DIRENT_SZ as int,
        );
    }
    assert(entry_slot(data + eb, fc) =~= eb);
    assert forall|i: int| 0 <= i < fc implies #[trigger] entry_slot(data + eb, i) == entry_slot(
        data,
        i,
    ) by {
        assert(entry_slot(data + eb, i) =~= entry_slot(data, i));
    }
}

/// Overwriting one whole record slot in place changes exactly that entry
/// and leaves every other entry as it was.
pub proof fn lemma_dir_splice(data: Seq<u8>, k: int, eb: Seq<u8>)
    requires
        0 <= k,
        (k + 1) * DIRENT_SZ as int <= data.len(),
        eb.len() == DIRENT_SZ,
    ensures
        splice_bytes(data, k * DIRENT_SZ as int, eb).len() == data.len(),
        file_count_of(splice_bytes(data, k * DIRENT_SZ as int, eb)) == file_count_of(data),
        entry_slot(splice_bytes(data, k * DIRENT_SZ as int, eb), k) == eb,
        forall|i: int|
            0 <= i < file_count_of(data) && i != k ==> #[trigger] entry_slot(
                splice_bytes(data, k * DIRENT_SZ as int, eb),
                i,
            ) == entry_slot(data, i),
{
    let out = splice_bytes(data, k * DIRENT_SZ as int, eb);
    assert(out.len() == data.len());
    assert(entry_slot(out, k) =~= eb);
    assert forall|i: int| 0 <= i < file_count_of(data) && i != k implies #[trigger] entry_slot(
        out,
        i,
    ) == entry_slot(data, i) by {
        assert((i + 1) * DIRENT_SZ as int <= data.len()) by {
            vstd::arithmetic::div_mod::lemma_fundamental_div_mod(
                data.len() as int,
                DIRENT_SZ as int,
            );
            vstd::arithmetic::mul::lemma_mul_inequality(i + 1, file_count_of(data), DIRENT_SZ as int);
        }
        assert(entry_slot(out, i) =~= entry_slot(data, i));
    }
}

/// Cutting directory content down to its first `m` records keeps exactly
/// those records.
pub proof fn lemma_dir_truncate(data: Seq<u8>, m: int)
    requires
        0 <= m,
        m * DIRENT_SZ as int <= data.len(),
    ensures
        file_count_of(data.take(m * DIRENT_SZ as int)) == m,
        forall|i: int|
            0 <= i < m ==> #[trigger] entry_slot(data.take(m * DIRENT_SZ as int), i)
                == entry_slot(data, i),
{
    let out = data.take(m * DIRENT_SZ as int);
    assert(file_count_of(out) == m) by {
        vstd::arithmetic::div_mod::lemma_div_multiples_vanish(m, DIRENT_SZ as int);
    }
    assert forall|i: int| 0 <= i < m implies #[trigger] entry_slot(out, i) == entry_slot(
        data,
        i,
    ) by {
        assert((i + 1) * DIRENT_SZ as int <= m * DIRENT_SZ as int) by {
            vstd::arithmetic::mul::lemma_mul_inequality(i + 1, m, DIRENT_SZ as int);
        }
        assert(entry_slot(out, i) =~= entry_slot(data, i));
    }
}

/// Record `i` of directory content sits inside the content whenever `i`
/// is a valid entry index.
pub proof fn lemma_dir_slot_in_range(data: Seq<u8>, i: int)
    requires
        0 <= i < file_count_of(data),
    ensures
        (i + 1) * DIRENT_SZ as int <= data.len(),
        i * DIRENT_SZ as int >= 0,
        entry_slot(data, i).len() == DIRENT_SZ,
{
    vstd::arithmetic::div_mod::lemma_fundamental_div_mod(data.len() as int, DIRENT_SZ as int);
    vstd::arithmetic::mul::lemma_mul_inequality(i + 1, file_count_of(data), DIRENT_SZ as int);
}

// ---------------------------------------------------------------------------
// Byte-range edits of content
// ---------------------------------------------------------------------------
/// The content after an in-place write of `src` at `offset`.
pub open spec fn splice_bytes(data: Seq<u8>, offset: int, src: Seq<u8>) -> Seq<u8> {
    data.take(offset) + src + data.skip(offset + src.len())
}

// ---------------------------------------------------------------------------
// The disk inode
// ---------------------------------------------------------------------------
/// What kind of object a disk inode describes.
#[derive(Clone, Copy, PartialEq, Eq, Structural)]
pub enum DiskInodeType {
    /// A plain file.
    File,
    /// A directory.
    Directory,
}

/// How many data blocks content of `size` bytes occupies.
pub open spec fn total_blocks_for(size: int) -> int {
    (size + BLOCK_SZ - 1) / BLOCK_SZ as int
}

/// The on-disk metadata record of one filesystem object, together with
/// the content and the data blocks it owns. The real record reaches its
/// content through direct and indirect block pointers; this model keeps
/// the content and the owned block numbers directly.
pub struct DiskInode {
    /// Content size in bytes.
    pub size: u32,
    /// File or directory.
    pub type_: DiskInodeType,
    /// How many directory entries name this inode.
    pub strong_count: u32,
    /// The content, one byte per addressable byte.
    pub data: Vec<u8>,
    /// Numbers of the data blocks backing the content, in order.
    pub blocks: Vec<u32>,
}

impl DiskInode {
    /// Content length matches `size` and the block list covers exactly
    /// the blocks the content needs.
    pub open spec fn wf(self) -> bool {
        &&& self.data@.len() == self.size
        &&& self.blocks@.len() == total_blocks_for(self.size as int)
    }

    /// Whether this inode is a directory.
    pub open spec fn is_dir_spec(self) -> bool {
        self.type_ is Directory
    }

    /// Whether this inode is a plain file.
    pub open spec fn is_file_spec(self) -> bool {
        self.type_ is File
    }

    /// Whether this inode is a directory.
    pub fn is_dir(&self) -> (r: bool)
        ensures
            r == self.is_dir_spec(),
    {
        matches!(self.type_, DiskInodeType::Directory)
    }

    /// Whether this inode is a plain file.
    pub fn is_file(&self) -> (r: bool)
        ensures
            r == self.is_file_spec(),
    {
        matches!(self.type_, DiskInodeType::File)
    }

    /// Reset this inode to a fresh, empty object of the given kind with
    /// one link.
    pub fn initialize(&mut self, type_: DiskInodeType)
        ensures
            final(self).size == 0,
            final(self).type_ == type_,
            final(self).strong_count == 1,
            final(self).data@ == Seq::<u8>::empty(),
            final(self).blocks@ == Seq::<u32>::empty(),
            final(self).wf(),
    {
        self.size = 0;
        self.type_ = type_;
        self.strong_count = 1;
        self.data = Vec::new();
        self.blocks = Vec::new();
    }

    /// Record one more directory entry naming this inode.
    pub fn inc_strong_count(&mut self)
        requires
            old(self).strong_count < u32::MAX,
        ensures
            *final(self) == (DiskInode {
                strong_count: (old(self).strong_count + 1) as u32,
                ..*old(self)
            }),
    {
        self.strong_count = self.strong_count + 1;
    }

    /// Record that one directory entry naming this inode is gone.
    pub fn dec_strong_count(&mut self)
        requires
            old(self).strong_count >= 1,
        ensures
            *final(self) == (DiskInode {
                strong_count: (old(self).strong_count - 1) as u32,
                ..*old(self)
            }),
    {
        self.strong_count = self.strong_count - 1;
    }

    /// How many data blocks content of `size` bytes occupies.
    pub fn total_blocks(size: u32) -> (r: u32)
        ensures
            r == total_blocks_for(size as int),
    {
        (((size as u64) + (BLOCK_SZ as u64) - 1) / (BLOCK_SZ as u64)) as u32
    }

    /// How many more data blocks content of `new_size` bytes needs than
    /// the current content.
    pub fn blocks_num_needed(&self, new_size: u32) -> (r: u32)
        requires
            self.size <= new_size,
        ensures
            r == total_blocks_for(new_size as int) - total_blocks_for(self.size as int),
    {
        Self::total_blocks(new_size) - Self::total_blocks(self.size)
    }

    /// Read into `buf`, starting at `offset`; stops at the end of the
    /// content. Returns how many bytes were read. Bytes of `buf` past the
    /// read are left as they were.
    pub fn read_at(&self, offset: usize, buf: &mut Vec<u8>) -> (r: usize)
        requires
            self.wf(),
        ensures
            r == if offset < self.size {
                vstd::math::min(offset + old(buf)@.len(), self.size as int) - offset
            } else {
                0
            },
            final(buf)@.len() == old(buf)@.len(),
            offset < self.size ==> final(buf)@ == self.data@.subrange(offset as int, offset + r)
                + old(buf)@.skip(r as int),
            offset >= self.size ==> final(buf)@ == old(buf)@,
    {
        let size = self.size as usize;
        if offset >= size {
            return 0;
        }
        let end = if buf.len() < size - offset {
            offset + buf.len()
        } else {
            size
        };
        let n = end - offset;
        let mut i: usize = 0;
        while i < n
            invariant
                i <= n,
                n == end - offset,
                offset <= end <= self.size,
                offset < self.size,
                n <= buf@.len(),
                self.wf(),
                buf@.len() == old(buf)@.len(),
                buf@ == self.data@.subrange(offset as int, offset + i) + old(buf)@.skip(i as int),
            decreases n - i,
        {
            let b = self.data[offset + i];
            buf[i] = b;
            proof {
                assert(buf@ =~= self.data@.subrange(offset as int, offset + i + 1)
                    + old(buf)@.skip(i + 1));
            }
            i += 1;
        }
        n
    }

    /// Overwrite content bytes `[offset, offset + buf.len())` with `buf`.
    /// The range must already lie inside the content.
    pub fn write_at(&mut self, offset: usize, buf: &[u8]) -> (r: usize)
        requires
            old(self).wf(),
            offset + buf@.len() <= old(self).size,
        ensures
            r == buf@.len(),
            final(self).data@ == splice_bytes(old(self).data@, offset as int, buf@),
            final(self).size == old(self).size,
            final(self).type_ == old(self).type_,
            final(self).strong_count == old(self).strong_count,
            final(self).blocks@ == old(self).blocks@,
            final(self).wf(),
    {
        let n = buf.len();
        let mut i: usize = 0;
        while i < n
            invariant
                i <= n,
                n == buf@.len(),
                offset + n <= self.size,
                old(self).wf(),
                self.wf(),
                self.size == old(self).size,
                self.type_ == old(self).type_,
                self.strong_count == old(self).strong_count,
                self.blocks@ == old(self).blocks@,
                self.data@ == old(self).data@.take(offset as int)
                    + buf@.take(i as int)
                    + old(self).data@.skip(offset + i),
            decreases n - i,
        {
            let ghost prev = self.data@;
            let b = buf[i];
            self.data[offset + i] = b;
            proof {
                assert(self.data@ == prev.update(offset + i, b));
                assert(self.data@ =~= old(self).data@.take(offset as int)
                    + buf@.take(i + 1)
                    + old(self).data@.skip(offset + i + 1));
            }
            i += 1;
        }
        proof {
            assert(buf@.take(n as int) =~= buf@);
            assert(self.data@ =~= splice_bytes(old(self).data@, offset as int, buf@));
        }
        n
    }

    /// Grow the content to `new_size` bytes, zero-filled, backed by the
    /// given freshly allocated blocks.
    pub fn increase_size(&mut self, new_size: u32, new_blocks: Vec<u32>)
        requires
            old(self).wf(),
            old(self).size <= new_size,
            new_blocks@.len() == total_blocks_for(new_size as int) - total_blocks_for(
                old(self).size as int,
            ),
        ensures
            final(self).size == new_size,
            final(self).type_ == old(self).type_,
            final(self).strong_count == old(self).strong_count,
            final(self).data@ == old(self).data@ + Seq::new(
                (new_size - old(self).size) as nat,
                |j: int| 0u8,
            ),
            final(self).blocks@ == old(self).blocks@ + new_blocks@,
            final(self).wf(),
    {
        let mut new_blocks = new_blocks;
        let target = new_size as usize;
        while self.data.len() < target
            invariant
                old(self).data@.len() <= self.data@.len() <= target,
                target == new_size,
                self.size == old(self).size,
                self.type_ == old(self).type_,
                self.strong_count == old(self).strong_count,
                self.blocks@ == old(self).blocks@,
                self.data@ == old(self).data@ + Seq::new(
                    (self.data@.len() - old(self).data@.len()) as nat,
                    |j: int| 0u8,
                ),
            decreases target - self.data@.len(),
        {
            self.data.push(0u8);
            proof {
                assert(self.data@ =~= old(self).data@ + Seq::new(
                    (self.data@.len() - old(self).data@.len()) as nat,
                    |j: int| 0u8,
                ));
            }
        }
        self.blocks.append(&mut new_blocks);
        self.size = new_size;
    }

    /// Shrink the content to `new_size` bytes and hand back the numbers
    /// of the data blocks the smaller content no longer needs.
    pub fn decrease_size(&mut self, new_size: u32) -> (freed: Vec<u32>)
        requires
            old(self).wf(),
            new_size <= old(self).size,
        ensures
            final(self).size == new_size,
            final(self).type_ == old(self).type_,
            final(self).strong_count == old(self).strong_count,
            final(self).data@ == old(self).data@.take(new_size as int),
            final(self).blocks@ == old(self).blocks@.take(total_blocks_for(new_size as int)),
            freed@ == old(self).blocks@.skip(total_blocks_for(new_size as int)),
            freed@.len() == total_blocks_for(old(self).size as int) - total_blocks_for(
                new_size as int,
            ),
            final(self).wf(),
    {
        proof {
            vstd::arithmetic::div_mod::lemma_div_is_ordered(
                new_size as int + BLOCK_SZ - 1,
                old(self).size as int + BLOCK_SZ - 1,
                BLOCK_SZ as int,
            );
        }
        let keep = Self::total_blocks(new_size) as usize;
        let freed = self.blocks.split_off(keep);
        self.data.truncate(new_size as usize);
        self.size = new_size;
        freed
    }

    /// Drop the whole content: shrink to zero bytes and hand back every
    /// data block this inode owned.
    pub fn clear_size(&mut self) -> (freed: Vec<u32>)
        requires
            old(self).wf(),
        ensures
            final(self).size == 0,
            final(self).type_ == old(self).type_,
            final(self).strong_count == old(self).strong_count,
            final(self).data@ == Seq::<u8>::empty(),
            final(self).blocks@ == Seq::<u32>::empty(),
            freed@ == old(self).blocks@,
            freed@.len() == total_blocks_for(old(self).size as int),
            final(self).wf(),
    {
        let freed = self.decrease_size(0);
        proof {
            assert(freed@ =~= old(self).blocks@);
        }
        freed
    }
}

} // verus!
