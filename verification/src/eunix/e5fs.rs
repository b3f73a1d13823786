//! The e5fs on-disk filesystem. A device image holds, in order: the
//! superblock, the inode table, and the blocks; the last blocks hold the free
//! blocks list (fbl), one slot per block, where a free block's slot holds its
//! own number and a claimed block's slot holds `NO_ADDRESS`.
use vstd::prelude::*;
use vstd::bytes::*;
use vstd::slice::slice_subrange;
use crate::eunix::fs::{Filesystem, path_error, parent_dir, spec_parent_dir, spec_split_path, split_path, spliced, lemma_with_free_reads_back, lemma_with_type_reads_back, type_of, AddressSize, Id, FileMode, NO_ADDRESS, NOBODY, VINode, VDirectory, VDirectoryEntry, FileStat, FileModeType};
use crate::eunix::kernel::{Errno, Times};
use crate::text::{views, decimal, decimal_string, Named, names_of, sorted_names, lookup_named, find_named, insert_named, remove_named, upsert_named, has_name, lemma_lookup_named_some, lemma_lookup_named_at, lemma_insert_keeps_other, lemma_remove_keeps_other, utf8_to_string};
use vstd::utf8::{encode_utf8, valid_utf8, decode_utf8};

verus! {

/// Size of the superblock on the device, in bytes.
pub const SUPERBLOCK_SIZE: AddressSize = 120;

/// Size of an inode slot in the inode table, in bytes.
pub const INODE_SIZE: AddressSize = 112;

/// Size of a block number, in bytes.
pub const ADDRESS_SIZE: AddressSize = 4;

/// Number of bytes an inode's fields take in its slot.
pub const INODE_RECORD_SIZE: usize = 106;

// ---------------------------------------------------------------------------
// Bytes of the device

/// The device after `bytes` are written at `offset`; a write past the end
/// extends the device, with zeros in any gap.
pub open spec fn write_at(device: Seq<u8>, offset: int, bytes: Seq<u8>) -> Seq<u8> {
    let len = if device.len() >= offset + bytes.len() {
        device.len() as int
    } else {
        offset + bytes.len()
    };
    Seq::new(
        len as nat,
        |i: int|
            if offset <= i < offset + bytes.len() {
                bytes[i - offset]
            } else if i < device.len() {
                device[i]
            } else {
                0u8
            },
    )
}

/// Writes `bytes` at `offset` of the device.
pub fn write_bytes_at(device: &mut Vec<u8>, offset: usize, bytes: &[u8])
    requires
        offset + bytes@.len() <= usize::MAX,
    ensures
        final(device)@ == write_at(old(device)@, offset as int, bytes@),
{
    let end = offset + bytes.len();
    while device.len() < end
        invariant
            end == offset + bytes@.len(),
            forall|i: int| 0 <= i < old(device)@.len() ==> device@[i] == old(device)@[i],
            old(device)@.len() <= device@.len(),
            device@.len() <= end || device@.len() == old(device)@.len(),
            forall|i: int| old(device)@.len() <= i < device@.len() ==> device@[i] == 0u8,
        decreases end - device.len(),
    {
        device.push(0u8);
    }
    let mut i: usize = 0;
    let ghost extended = device@;
    while i < bytes.len()
        invariant
            end == offset + bytes@.len(),
            end <= device@.len(),
            device@.len() == extended.len(),
            i <= bytes@.len(),
            forall|k: int| 0 <= k < device@.len() && !(offset <= k < offset + i) ==> device@[k]
                == extended[k],
            forall|k: int| offset <= k < offset + i ==> device@[k] == bytes@[k - offset],
            extended.len() >= old(device)@.len(),
            extended.len() >= end,
            extended.len() == old(device)@.len() || extended.len() == end,
            forall|k: int| 0 <= k < old(device)@.len() ==> extended[k] == old(device)@[k],
            forall|k: int| old(device)@.len() <= k < extended.len() ==> extended[k] == 0u8,
        decreases bytes.len() - i,
    {
        device.set(offset + i, bytes[i]);
        i = i + 1;
    }
    proof {
        let w = write_at(old(device)@, offset as int, bytes@);
        assert(w.len() == device@.len());
        assert forall|k: int| 0 <= k < w.len() implies device@[k] == w[k] by {
            if offset <= k < offset + bytes@.len() {
                assert(device@[k] == bytes@[k - offset]);
            } else if k < old(device)@.len() {
                assert(device@[k] == extended[k]);
                assert(extended[k] == old(device)@[k]);
            } else {
                assert(device@[k] == extended[k]);
                assert(extended[k] == 0u8);
            }
        }
        assert(device@ =~= w);
    }
}

/// The `len` bytes of the device at `offset`, if the device holds them.
pub fn read_bytes_at(device: &Vec<u8>, offset: usize, len: usize) -> (bytes: Option<Vec<u8>>)
    ensures
        match bytes {
            Some(b) => offset + len <= device@.len() && b@ == device@.subrange(
                offset as int,
                offset + len,
            ),
            None => offset + len > device@.len(),
        },
{
    if len > device.len() || offset > device.len() - len {
        return None;
    }
    let mut out: Vec<u8> = Vec::new();
    let mut i: usize = 0;
    while i < len
        invariant
            offset + len <= device.len(),
            i <= len,
            out@ == device@.subrange(offset as int, offset + i),
        decreases len - i,
    {
        out.push(device[offset + i]);
        proof {
            assert(out@ =~= device@.subrange(offset as int, offset + i + 1));
        }
        i = i + 1;
    }
    Some(out)
}

/// The little-endian 16-bit number at `offset` of `b`.
pub open spec fn le16_at(b: Seq<u8>, offset: int) -> u16 {
    spec_u16_from_le_bytes(b.subrange(offset, offset + 2))
}

/// The little-endian 32-bit number at `offset` of `b`.
pub open spec fn le32_at(b: Seq<u8>, offset: int) -> u32 {
    spec_u32_from_le_bytes(b.subrange(offset, offset + 4))
}

/// The little-endian 64-bit number at `offset` of `b`.
pub open spec fn le64_at(b: Seq<u8>, offset: int) -> u64 {
    spec_u64_from_le_bytes(b.subrange(offset, offset + 8))
}

fn read_u16_at(b: &Vec<u8>, offset: usize) -> (x: u16)
    requires
        offset + 2 <= b.len(),
    ensures
        x == le16_at(b@, offset as int),
{
    u16_from_le_bytes(slice_subrange(b.as_slice(), offset, offset + 2))
}

fn read_u32_at(b: &Vec<u8>, offset: usize) -> (x: u32)
    requires
        offset + 4 <= b.len(),
    ensures
        x == le32_at(b@, offset as int),
{
    u32_from_le_bytes(slice_subrange(b.as_slice(), offset, offset + 4))
}

fn read_u64_at(b: &Vec<u8>, offset: usize) -> (x: u64)
    requires
        offset + 8 <= b.len(),
    ensures
        x == le64_at(b@, offset as int),
{
    u64_from_le_bytes(slice_subrange(b.as_slice(), offset, offset + 8))
}

/// The little-endian bytes of each of `words`, one after another.
pub open spec fn words_bytes(words: Seq<u32>) -> Seq<u8>
    decreases words.len(),
{
    if words.len() == 0 {
        Seq::empty()
    } else {
        words_bytes(words.drop_last()) + spec_u32_to_le_bytes(words.last())
    }
}

/// Each word can be read back from its place in the bytes.
pub proof fn lemma_words_bytes(words: Seq<u32>)
    ensures
        words_bytes(words).len() == 4 * words.len(),
        forall|k: int| 0 <= k < words.len() ==> #[trigger] le32_at(words_bytes(words), 4 * k)
            == words[k],
    decreases words.len(),
{
    lemma_auto_spec_u32_to_from_le_bytes();
    if words.len() > 0 {
        let front = words.drop_last();
        lemma_words_bytes(front);
        let b = words_bytes(words);
        assert forall|k: int| 0 <= k < words.len() implies #[trigger] le32_at(b, 4 * k)
            == words[k] by {
            if k < words.len() - 1 {
                assert(b.subrange(4 * k, 4 * k + 4) =~= words_bytes(front).subrange(4 * k, 4 * k + 4));
                assert(le32_at(words_bytes(front), 4 * k) == front[k]);
            } else {
                assert(b.subrange(4 * k, 4 * k + 4) =~= spec_u32_to_le_bytes(words.last()));
            }
        }
    }
}

/// Appends the bytes of each word.
fn push_words(out: &mut Vec<u8>, words: &[AddressSize])
    ensures
        final(out)@ == old(out)@ + words_bytes(words@),
{
    let mut i: usize = 0;
    while i < words.len()
        invariant
            i <= words@.len(),
            out@ == old(out)@ + words_bytes(words@.take(i as int)),
        decreases words.len() - i,
    {
        let mut w = u32_to_le_bytes(words[i]);
        proof {
            assert(words@.take(i + 1).drop_last() =~= words@.take(i as int));
        }
        out.append(&mut w);
        proof {
            assert(out@ =~= old(out)@ + words_bytes(words@.take(i + 1)));
        }
        i = i + 1;
    }
    proof {
        assert(words@.take(words@.len() as int) =~= words@);
    }
}

/// Reads `n` words from `offset` of `b`.
fn read_words(b: &Vec<u8>, offset: usize, n: usize) -> (words: Vec<AddressSize>)
    requires
        offset + 4 * n <= b.len(),
    ensures
        words@.len() == n,
        forall|k: int| 0 <= k < n ==> #[trigger] words@[k] == le32_at(b@, offset + 4 * k),
{
    let mut words: Vec<AddressSize> = Vec::new();
    let mut k: usize = 0;
    while k < n
        invariant
            offset + 4 * n <= b.len(),
            k <= n,
            words@.len() == k,
            forall|j: int| 0 <= j < k ==> #[trigger] words@[j] == le32_at(b@, offset + 4 * j),
        decreases n - k,
    {
        words.push(read_u32_at(b, offset + 4 * k));
        k = k + 1;
    }
    words
}

} // verus!

verus! {

/// Whatever `bytes` are written at `offset`, the bytes of a range that the
/// write does not touch stay as they were.
pub proof fn lemma_write_at_frame(device: Seq<u8>, offset: int, bytes: Seq<u8>, lo: int, hi: int)
    requires
        0 <= lo <= hi <= device.len(),
        0 <= offset,
        hi <= offset || offset + bytes.len() <= lo,
    ensures
        write_at(device, offset, bytes).subrange(lo, hi) == device.subrange(lo, hi),
{
    assert(write_at(device, offset, bytes).subrange(lo, hi) =~= device.subrange(lo, hi));
}

/// Right after a write, the written range holds the written bytes.
pub proof fn lemma_write_at_read_back(device: Seq<u8>, offset: int, bytes: Seq<u8>)
    requires
        0 <= offset,
    ensures
        write_at(device, offset, bytes).subrange(offset, offset + bytes.len()) == bytes,
        write_at(device, offset, bytes).len() >= device.len(),
        write_at(device, offset, bytes).len() >= offset + bytes.len(),
{
    assert(write_at(device, offset, bytes).subrange(offset, offset + bytes.len()) =~= bytes);
}

/// An inode: the mode, links, owners, size and times of a file, and the
/// numbers of its blocks.
#[derive(Debug, Clone, Copy, PartialEq, Eq)]
pub struct INode {
    pub mode: FileMode,
    pub links_count: AddressSize,
    pub uid: Id,
    pub gid: Id,
    pub file_size: AddressSize,
    pub atime: u64,
    pub mtime: u64,
    pub ctime: u64,
    pub btime: u64,
    pub direct_block_numbers: [AddressSize; 12],
    pub indirect_block_numbers: [AddressSize; 3],
    pub number: AddressSize,
}

/// The bytes an inode is stored as, field after field, little-endian.
pub open spec fn inode_bytes(i: INode) -> Seq<u8> {
    spec_u16_to_le_bytes(i.mode.0) + spec_u32_to_le_bytes(i.links_count) + spec_u16_to_le_bytes(
        i.uid,
    ) + spec_u16_to_le_bytes(i.gid) + spec_u32_to_le_bytes(i.file_size) + spec_u64_to_le_bytes(
        i.atime,
    ) + spec_u64_to_le_bytes(i.mtime) + spec_u64_to_le_bytes(i.ctime) + spec_u64_to_le_bytes(
        i.btime,
    ) + words_bytes(i.direct_block_numbers@) + words_bytes(i.indirect_block_numbers@)
}

/// The bytes `b` store the fields of `i` (all but its number, which is where
/// it is stored).
pub open spec fn decodes_inode(b: Seq<u8>, i: INode) -> bool {
    &&& b.len() >= INODE_RECORD_SIZE
    &&& i.mode.0 == le16_at(b, 0)
    &&& i.links_count == le32_at(b, 2)
    &&& i.uid == le16_at(b, 6)
    &&& i.gid == le16_at(b, 8)
    &&& i.file_size == le32_at(b, 10)
    &&& i.atime == le64_at(b, 14)
    &&& i.mtime == le64_at(b, 22)
    &&& i.ctime == le64_at(b, 30)
    &&& i.btime == le64_at(b, 38)
    &&& forall|k: int| 0 <= k < 12 ==> #[trigger] i.direct_block_numbers@[k] == le32_at(b, 46 + 4 * k)
    &&& forall|k: int| 0 <= k < 3 ==> #[trigger] i.indirect_block_numbers@[k] == le32_at(b, 94 + 4 * k)
}

/// Bytes decode to at most one inode of a given number.
pub proof fn lemma_decodes_inode_unique(b: Seq<u8>, i: INode, j: INode)
    requires
        decodes_inode(b, i),
        decodes_inode(b, j),
        i.number == j.number,
    ensures
        i == j,
{
    assert(i.direct_block_numbers =~= j.direct_block_numbers);
    assert(i.indirect_block_numbers =~= j.indirect_block_numbers);
}

/// An inode's bytes decode back to it.
pub proof fn lemma_inode_bytes_decode(i: INode)
    ensures
        inode_bytes(i).len() == INODE_RECORD_SIZE,
        decodes_inode(inode_bytes(i), i),
{
    lemma_auto_spec_u16_to_from_le_bytes();
    lemma_auto_spec_u32_to_from_le_bytes();
    lemma_auto_spec_u64_to_from_le_bytes();
    lemma_words_bytes(i.direct_block_numbers@);
    lemma_words_bytes(i.indirect_block_numbers@);
    let b = inode_bytes(i);
    let d = words_bytes(i.direct_block_numbers@);
    let x = words_bytes(i.indirect_block_numbers@);
    assert(b.subrange(0, 2) =~= spec_u16_to_le_bytes(i.mode.0));
    assert(b.subrange(2, 6) =~= spec_u32_to_le_bytes(i.links_count));
    assert(b.subrange(6, 8) =~= spec_u16_to_le_bytes(i.uid));
    assert(b.subrange(8, 10) =~= spec_u16_to_le_bytes(i.gid));
    assert(b.subrange(10, 14) =~= spec_u32_to_le_bytes(i.file_size));
    assert(b.subrange(14, 22) =~= spec_u64_to_le_bytes(i.atime));
    assert(b.subrange(22, 30) =~= spec_u64_to_le_bytes(i.mtime));
    assert(b.subrange(30, 38) =~= spec_u64_to_le_bytes(i.ctime));
    assert(b.subrange(38, 46) =~= spec_u64_to_le_bytes(i.btime));
    assert forall|k: int| 0 <= k < 12 implies #[trigger] i.direct_block_numbers@[k] == le32_at(
        b,
        46 + 4 * k,
    ) by {
        assert(b.subrange(46 + 4 * k, 50 + 4 * k) =~= d.subrange(4 * k, 4 * k + 4));
        assert(le32_at(d, 4 * k) == i.direct_block_numbers@[k]);
    }
    assert forall|k: int| 0 <= k < 3 implies #[trigger] i.indirect_block_numbers@[k] == le32_at(
        b,
        94 + 4 * k,
    ) by {
        assert(b.subrange(94 + 4 * k, 98 + 4 * k) =~= x.subrange(4 * k, 4 * k + 4));
        assert(le32_at(x, 4 * k) == i.indirect_block_numbers@[k]);
    }
}

/// The bytes an inode is stored as.
pub fn inode_to_bytes(inode: &INode) -> (bytes: Vec<u8>)
    ensures
        bytes@ == inode_bytes(*inode),
{
    let mut bytes: Vec<u8> = Vec::new();
    let mut part = u16_to_le_bytes(inode.mode.0);
    bytes.append(&mut part);
    let mut part = u32_to_le_bytes(inode.links_count);
    bytes.append(&mut part);
    let mut part = u16_to_le_bytes(inode.uid);
    bytes.append(&mut part);
    let mut part = u16_to_le_bytes(inode.gid);
    bytes.append(&mut part);
    let mut part = u32_to_le_bytes(inode.file_size);
    bytes.append(&mut part);
    let mut part = u64_to_le_bytes(inode.atime);
    bytes.append(&mut part);
    let mut part = u64_to_le_bytes(inode.mtime);
    bytes.append(&mut part);
    let mut part = u64_to_le_bytes(inode.ctime);
    bytes.append(&mut part);
    let mut part = u64_to_le_bytes(inode.btime);
    bytes.append(&mut part);
    push_words(&mut bytes, inode.direct_block_numbers.as_slice());
    push_words(&mut bytes, inode.indirect_block_numbers.as_slice());
    bytes
}

/// The inode that the bytes store, numbered `number`.
pub fn inode_from_bytes(bytes: &Vec<u8>, number: AddressSize) -> (inode: INode)
    requires
        bytes@.len() >= INODE_RECORD_SIZE,
    ensures
        decodes_inode(bytes@, inode),
        inode.number == number,
{
    let words = read_words(bytes, 46, 15);
    let mut direct: [AddressSize; 12] = [0u32; 12];
    let mut k: usize = 0;
    while k < 12
        invariant
            words@.len() == 15,
            forall|j: int| 0 <= j < 15 ==> #[trigger] words@[j] == le32_at(bytes@, 46 + 4 * j),
            k <= 12,
            forall|j: int| 0 <= j < k ==> #[trigger] direct@[j] == words@[j],
        decreases 12 - k,
    {
        direct[k] = words[k];
        k = k + 1;
    }
    let mut indirect: [AddressSize; 3] = [0u32; 3];
    let mut k: usize = 0;
    while k < 3
        invariant
            words@.len() == 15,
            forall|j: int| 0 <= j < 15 ==> #[trigger] words@[j] == le32_at(bytes@, 46 + 4 * j),
            k <= 3,
            forall|j: int| 0 <= j < k ==> #[trigger] indirect@[j] == words@[12 + j],
        decreases 3 - k,
    {
        indirect[k] = words[12 + k];
        k = k + 1;
    }
    let inode = INode {
        mode: FileMode(read_u16_at(bytes, 0)),
        links_count: read_u32_at(bytes, 2),
        uid: read_u16_at(bytes, 6),
        gid: read_u16_at(bytes, 8),
        file_size: read_u32_at(bytes, 10),
        atime: read_u64_at(bytes, 14),
        mtime: read_u64_at(bytes, 22),
        ctime: read_u64_at(bytes, 30),
        btime: read_u64_at(bytes, 38),
        direct_block_numbers: direct,
        indirect_block_numbers: indirect,
        number,
    };
    proof {
        assert forall|k: int| 0 <= k < 3 implies #[trigger] inode.indirect_block_numbers@[k]
            == le32_at(bytes@, 94 + 4 * k) by {
            assert(words@[12 + k] == le32_at(bytes@, 46 + 4 * (12 + k)));
        }
    }
    inode
}

} // verus!

verus! {

/// The first block of the device: the layout and the bookkeeping of the
/// filesystem.
#[derive(Debug, Clone, Copy, PartialEq, Eq)]
pub struct Superblock {
    /// A name of filesystem, basically
    pub filesystem_type: [u8; 16],
    /// Size of superblock, inode table and blocks together, in bytes
    pub filesystem_size: AddressSize,
    /// Total inode table size in bytes
    pub inode_table_size: AddressSize,
    /// Share of the device given to the inode table, as the bits of an
    /// IEEE 754 single-precision number
    pub inode_table_percentage: u32,
    /// Count of free inodes
    pub free_inodes_count: AddressSize,
    /// Count of free blocks
    pub free_blocks_count: AddressSize,
    /// Count of inodes on the filesystem
    pub inodes_count: AddressSize,
    /// Count of blocks on the filesystem
    pub blocks_count: AddressSize,
    /// Size of a single block (in bytes)
    pub block_size: AddressSize,
    /// Size of data on a single block (in bytes)
    pub block_data_size: AddressSize,
    /// Cache of free inode numbers
    pub free_inode_numbers: [AddressSize; 16],
    /// Block number of the first block of the free blocks list
    pub first_fbl_block_number: AddressSize,
}

/// The numeric fields of a superblock in the order they are stored.
pub open spec fn superblock_words(s: Superblock) -> Seq<u32> {
    seq![
        s.filesystem_size,
        s.inode_table_size,
        s.inode_table_percentage,
        s.free_inodes_count,
        s.free_blocks_count,
        s.inodes_count,
        s.blocks_count,
        s.block_size,
        s.block_data_size,
    ]
}

/// The bytes a superblock is stored as.
pub open spec fn superblock_bytes(s: Superblock) -> Seq<u8> {
    s.filesystem_type@ + words_bytes(superblock_words(s)) + words_bytes(s.free_inode_numbers@)
        + spec_u32_to_le_bytes(s.first_fbl_block_number)
}

/// The bytes `b` store the superblock `s`.
pub open spec fn decodes_superblock(b: Seq<u8>, s: Superblock) -> bool {
    &&& b.len() >= SUPERBLOCK_SIZE
    &&& forall|k: int| 0 <= k < 16 ==> #[trigger] s.filesystem_type@[k] == b[k]
    &&& forall|k: int| 0 <= k < 9 ==> #[trigger] superblock_words(s)[k] == le32_at(b, 16 + 4 * k)
    &&& forall|k: int| 0 <= k < 16 ==> #[trigger] s.free_inode_numbers@[k] == le32_at(b, 52 + 4 * k)
    &&& s.first_fbl_block_number == le32_at(b, 116)
}

/// Bytes decode to at most one superblock.
pub proof fn lemma_decodes_superblock_unique(b: Seq<u8>, s: Superblock, t: Superblock)
    requires
        decodes_superblock(b, s),
        decodes_superblock(b, t),
    ensures
        s == t,
{
    assert(s.filesystem_type =~= t.filesystem_type);
    assert(s.free_inode_numbers =~= t.free_inode_numbers);
    assert(superblock_words(s)[0] == superblock_words(t)[0]);
    assert(superblock_words(s)[1] == superblock_words(t)[1]);
    assert(superblock_words(s)[2] == superblock_words(t)[2]);
    assert(superblock_words(s)[3] == superblock_words(t)[3]);
    assert(superblock_words(s)[4] == superblock_words(t)[4]);
    assert(superblock_words(s)[5] == superblock_words(t)[5]);
    assert(superblock_words(s)[6] == superblock_words(t)[6]);
    assert(superblock_words(s)[7] == superblock_words(t)[7]);
    assert(superblock_words(s)[8] == superblock_words(t)[8]);
}

/// A superblock's bytes decode back to it.
pub proof fn lemma_superblock_bytes_decode(s: Superblock)
    ensures
        superblock_bytes(s).len() == SUPERBLOCK_SIZE,
        decodes_superblock(superblock_bytes(s), s),
{
    lemma_auto_spec_u32_to_from_le_bytes();
    let w = superblock_words(s);
    lemma_words_bytes(w);
    lemma_words_bytes(s.free_inode_numbers@);
    let b = superblock_bytes(s);
    let wb = words_bytes(w);
    let fb = words_bytes(s.free_inode_numbers@);
    assert forall|k: int| 0 <= k < 16 implies #[trigger] s.filesystem_type@[k] == b[k] by {}
    assert forall|k: int| 0 <= k < 9 implies #[trigger] superblock_words(s)[k] == le32_at(
        b,
        16 + 4 * k,
    ) by {
        assert(b.subrange(16 + 4 * k, 20 + 4 * k) =~= wb.subrange(4 * k, 4 * k + 4));
        assert(le32_at(wb, 4 * k) == w[k]);
    }
    assert forall|k: int| 0 <= k < 16 implies #[trigger] s.free_inode_numbers@[k] == le32_at(
        b,
        52 + 4 * k,
    ) by {
        assert(b.subrange(52 + 4 * k, 56 + 4 * k) =~= fb.subrange(4 * k, 4 * k + 4));
        assert(le32_at(fb, 4 * k) == s.free_inode_numbers@[k]);
    }
    assert(b.subrange(116, 120) =~= spec_u32_to_le_bytes(s.first_fbl_block_number));
}

/// The bytes a superblock is stored as.
pub fn superblock_to_bytes(s: &Superblock) -> (bytes: Vec<u8>)
    ensures
        bytes@ == superblock_bytes(*s),
{
    let mut bytes: Vec<u8> = Vec::new();
    let mut k: usize = 0;
    while k < 16
        invariant
            k <= 16,
            bytes@ == s.filesystem_type@.take(k as int),
        decreases 16 - k,
    {
        bytes.push(s.filesystem_type[k]);
        proof {
            assert(bytes@ =~= s.filesystem_type@.take(k + 1));
        }
        k = k + 1;
    }
    let words: [AddressSize; 9] = [
        s.filesystem_size,
        s.inode_table_size,
        s.inode_table_percentage,
        s.free_inodes_count,
        s.free_blocks_count,
        s.inodes_count,
        s.blocks_count,
        s.block_size,
        s.block_data_size,
    ];
    proof {
        assert(s.filesystem_type@.take(16) =~= s.filesystem_type@);
        assert(words@ =~= superblock_words(*s));
    }
    push_words(&mut bytes, words.as_slice());
    push_words(&mut bytes, s.free_inode_numbers.as_slice());
    let mut part = u32_to_le_bytes(s.first_fbl_block_number);
    bytes.append(&mut part);
    bytes
}

/// The superblock that the bytes store.
pub fn superblock_from_bytes(bytes: &Vec<u8>) -> (s: Superblock)
    requires
        bytes@.len() >= SUPERBLOCK_SIZE,
    ensures
        decodes_superblock(bytes@, s),
{
    let mut filesystem_type: [u8; 16] = [0u8; 16];
    let mut k: usize = 0;
    while k < 16
        invariant
            bytes@.len() >= SUPERBLOCK_SIZE,
            k <= 16,
            forall|j: int| 0 <= j < k ==> #[trigger] filesystem_type@[j] == bytes@[j],
        decreases 16 - k,
    {
        filesystem_type[k] = bytes[k];
        k = k + 1;
    }
    let words = read_words(bytes, 16, 9);
    let free = read_words(bytes, 52, 16);
    let mut free_inode_numbers: [AddressSize; 16] = [0u32; 16];
    let mut k: usize = 0;
    while k < 16
        invariant
            free@.len() == 16,
            k <= 16,
            forall|j: int| 0 <= j < k ==> #[trigger] free_inode_numbers@[j] == free@[j],
        decreases 16 - k,
    {
        free_inode_numbers[k] = free[k];
        k = k + 1;
    }
    let s = Superblock {
        filesystem_type,
        filesystem_size: words[0],
        inode_table_size: words[1],
        inode_table_percentage: words[2],
        free_inodes_count: words[3],
        free_blocks_count: words[4],
        inodes_count: words[5],
        blocks_count: words[6],
        block_size: words[7],
        block_data_size: words[8],
        free_inode_numbers,
        first_fbl_block_number: read_u32_at(bytes, 116),
    };
    proof {
        assert forall|k: int| 0 <= k < 9 implies #[trigger] superblock_words(s)[k] == le32_at(
            bytes@,
            16 + 4 * k,
        ) by {
            assert(superblock_words(s)[k] == words@[k]);
        }
        assert forall|k: int| 0 <= k < 16 implies #[trigger] s.free_inode_numbers@[k] == le32_at(
            bytes@,
            52 + 4 * k,
        ) by {
            assert(s.free_inode_numbers@[k] == free@[k]);
        }
    }
    s
}

} // verus!

verus! {

/// Whether `n` is a power of two.
pub open spec fn is_power_of_two(n: nat) -> bool
    decreases n,
{
    if n == 1 {
        true
    } else if n == 0 || n % 2 == 1 {
        false
    } else {
        is_power_of_two(n / 2)
    }
}

/// `a / b`, rounded up.
pub open spec fn ceil_div(a: nat, b: nat) -> nat {
    if b == 0 {
        0
    } else {
        ((a + b - 1) / (b as int)) as nat
    }
}

fn power_of_two(n: u32) -> (p: bool)
    ensures
        p == is_power_of_two(n as nat),
{
    let mut m = n;
    while m > 1 && m % 2 == 0
        invariant
            is_power_of_two(n as nat) == is_power_of_two(m as nat),
        decreases m,
    {
        m = m / 2;
    }
    m == 1
}

/// The layout of a filesystem on a device: sizes, counts and addresses.
#[derive(Debug, Clone, Copy, PartialEq, Eq)]
pub struct E5FSFilesystemBuilder {
    pub device_size: AddressSize,
    pub superblock_size: AddressSize,
    pub inode_size: AddressSize,
    pub block_size: AddressSize,
    pub inodes_count: AddressSize,
    pub blocks_count: AddressSize,
    pub inode_table_size: AddressSize,
    pub filesystem_size: AddressSize,
    pub blocks_needed_for_fbl: AddressSize,
    pub first_inode_address: AddressSize,
    pub first_block_address: AddressSize,
    pub block_table_size: AddressSize,
    pub block_data_size: AddressSize,
    pub free_blocks_count: AddressSize,
    pub address_size: AddressSize,
    pub block_numbers_per_fbl_chunk: AddressSize,
    /// Share of the device given to the inode table, as the bits of an
    /// IEEE 754 single-precision number
    pub inode_table_percentage: u32,
    pub first_fbl_block_number: AddressSize,
    pub first_fbl_block_address: AddressSize,
    pub root_inode_number: AddressSize,
}

/// The layout's fields agree with each other: the inode table follows the
/// superblock, the blocks follow the inode table, and the free blocks list
/// takes the last blocks, with one four-byte slot per block.
pub open spec fn layout_wf(b: E5FSFilesystemBuilder) -> bool {
    &&& b.superblock_size == SUPERBLOCK_SIZE
    &&& b.inode_size == INODE_SIZE
    &&& b.address_size == ADDRESS_SIZE
    &&& b.root_inode_number == 0
    &&& b.block_size == b.block_data_size
    &&& b.block_data_size >= 512
    &&& is_power_of_two(b.block_data_size as nat)
    &&& b.block_numbers_per_fbl_chunk == b.block_data_size / 4
    &&& b.inode_table_size == INODE_SIZE * b.inodes_count
    &&& b.first_inode_address == SUPERBLOCK_SIZE
    &&& b.first_block_address == SUPERBLOCK_SIZE + b.inode_table_size
    &&& b.block_table_size == b.block_size * b.blocks_count
    &&& b.filesystem_size == b.first_block_address + b.block_table_size
    &&& b.blocks_needed_for_fbl == ceil_div(b.blocks_count as nat, b.block_numbers_per_fbl_chunk as nat)
    &&& 1 <= b.blocks_needed_for_fbl < b.blocks_count
    &&& b.free_blocks_count == b.blocks_count - b.blocks_needed_for_fbl
    &&& b.first_fbl_block_number == b.free_blocks_count
    &&& b.first_fbl_block_address == b.first_block_address + b.first_fbl_block_number * b.block_size
}

/// What the layout checks find wrong with the given sizes, if anything.
pub open spec fn layout_error(blocks_count: nat, block_data_size: nat) -> Option<Seq<char>> {
    if !is_power_of_two(block_data_size) {
        Some("block_data_size must be power of 2"@)
    } else if block_data_size < 512 {
        Some("block_data_size can't be less than 512"@)
    } else if ceil_div(blocks_count, block_data_size / 4) < 1 {
        Some("blocks_needed_for_fbl can't be less than 1"@)
    } else if ceil_div(blocks_count, block_data_size / 4) >= blocks_count {
        Some("disk size is too small: blocks_needed_for_fbl > blocks_count"@)
    } else {
        None
    }
}

/// The sizes fit the 32-bit addresses of the layout.
pub open spec fn layout_fits(inodes_count: nat, blocks_count: nat, block_data_size: nat) -> bool {
    SUPERBLOCK_SIZE + INODE_SIZE * inodes_count + block_data_size * blocks_count <= 0xFFFF_FFFF
}

impl E5FSFilesystemBuilder {
    /// Lays out a filesystem of `inodes_count` inodes and `blocks_count`
    /// blocks of `block_data_size` bytes on a device of `device_size` bytes.
    pub fn new(
        device_size: AddressSize,
        inodes_count: AddressSize,
        blocks_count: AddressSize,
        block_data_size: AddressSize,
        inode_table_percentage: u32,
    ) -> (result: Result<Self, &'static str>)
        requires
            is_power_of_two(block_data_size as nat) && block_data_size >= 512 ==> layout_fits(
                inodes_count as nat,
                blocks_count as nat,
                block_data_size as nat,
            ),
        ensures
            match result {
                Ok(b) => {
                    &&& layout_error(blocks_count as nat, block_data_size as nat) is None
                    &&& layout_wf(b)
                    &&& b.device_size == device_size
                    &&& b.inodes_count == inodes_count
                    &&& b.blocks_count == blocks_count
                    &&& b.block_data_size == block_data_size
                    &&& b.inode_table_percentage == inode_table_percentage
                },
                Err(message) => layout_error(blocks_count as nat, block_data_size as nat) == Some(
                    message@,
                ),
            },
    {
        if !power_of_two(block_data_size) {
            return Err("block_data_size must be power of 2");
        }
        if block_data_size < 512 {
            return Err("block_data_size can't be less than 512");
        }
        let superblock_size = SUPERBLOCK_SIZE;
        let inode_size = INODE_SIZE;
        let address_size = ADDRESS_SIZE;
        let block_size = block_data_size;
        proof {
            assert(inode_size * inodes_count <= 0xFFFF_FFFF) by (nonlinear_arith)
                requires
                    SUPERBLOCK_SIZE + INODE_SIZE * inodes_count + block_data_size * blocks_count
                        <= 0xFFFF_FFFF,
                    inode_size == INODE_SIZE,
            ;
            assert(block_size * blocks_count <= 0xFFFF_FFFF) by (nonlinear_arith)
                requires
                    SUPERBLOCK_SIZE + INODE_SIZE * inodes_count + block_data_size * blocks_count
                        <= 0xFFFF_FFFF,
                    block_size == block_data_size,
            ;
        }
        let inode_table_size = inode_size * inodes_count;
        let block_table_size = block_size * blocks_count;
        let filesystem_size = superblock_size + inode_table_size + block_table_size;
        let first_inode_address = superblock_size;
        let first_block_address = superblock_size + inode_table_size;
        let block_numbers_per_fbl_chunk = block_data_size / address_size;
        let chunk = block_numbers_per_fbl_chunk as u64;
        let q: u64 = (blocks_count as u64 + chunk - 1) / chunk;
        proof {
            assert(q <= blocks_count) by (nonlinear_arith)
                requires
                    chunk >= 128,
                    q == (blocks_count + chunk - 1) / (chunk as int),
            ;
        }
        let blocks_needed_for_fbl = q as u32;
        proof {
            assert(blocks_needed_for_fbl == ceil_div(blocks_count as nat, (block_data_size / 4) as nat));
        }
        if blocks_needed_for_fbl < 1 {
            return Err("blocks_needed_for_fbl can't be less than 1");
        }
        if blocks_needed_for_fbl >= blocks_count {
            return Err("disk size is too small: blocks_needed_for_fbl > blocks_count");
        }
        let free_blocks_count = blocks_count - blocks_needed_for_fbl;
        let first_fbl_block_number = free_blocks_count;
        proof {
            assert(first_fbl_block_number * block_size <= blocks_count * block_size) by (nonlinear_arith)
                requires first_fbl_block_number <= blocks_count;
        }
        let first_fbl_block_address = superblock_size + inode_table_size + first_fbl_block_number
            * block_size;
        Ok(E5FSFilesystemBuilder {
            device_size,
            superblock_size,
            inode_size,
            block_size,
            inodes_count,
            blocks_count,
            inode_table_size,
            filesystem_size,
            blocks_needed_for_fbl,
            first_inode_address,
            first_block_address,
            block_table_size,
            block_data_size,
            free_blocks_count,
            address_size,
            block_numbers_per_fbl_chunk,
            inode_table_percentage,
            first_fbl_block_number,
            first_fbl_block_address,
            root_inode_number: 0,
        })
    }
}

} // verus!

verus! {

/// Raw bytes of one block.
#[derive(Debug, Default, PartialEq, Eq)]
pub struct Block {
    pub data: Vec<u8>,
}

/// An e5fs filesystem on a device image held in memory.
pub struct E5FSFilesystem {
    pub superblock: Superblock,
    pub fs_info: E5FSFilesystemBuilder,
    pub device: Vec<u8>,
}

/// Where inode `n` is stored.
pub open spec fn inode_address(n: int) -> int {
    SUPERBLOCK_SIZE + INODE_SIZE * n
}

/// Where block `n` is stored.
pub open spec fn block_address(layout: E5FSFilesystemBuilder, n: int) -> int {
    layout.first_block_address + n * layout.block_size
}

/// Where the free blocks list slot of block `n` is stored.
pub open spec fn fbl_slot_address(layout: E5FSFilesystemBuilder, n: int) -> int {
    layout.first_fbl_block_address + ADDRESS_SIZE * n
}

/// The number of slots in the free blocks list.
pub open spec fn fbl_slots(layout: E5FSFilesystemBuilder) -> nat {
    (layout.block_numbers_per_fbl_chunk * layout.blocks_needed_for_fbl) as nat
}

/// The inode stored in the slot of inode `n`.
pub open spec fn inode_at(device: Seq<u8>, n: AddressSize) -> INode {
    choose|i: INode|
        decodes_inode(device.subrange(inode_address(n as int), inode_address(n as int) + INODE_RECORD_SIZE), i)
            && i.number == n
}

/// The value in the free blocks list slot `n`.
pub open spec fn fbl_slot(layout: E5FSFilesystemBuilder, device: Seq<u8>, n: int) -> u32 {
    le32_at(device, fbl_slot_address(layout, n))
}

/// The free blocks list of a freshly made filesystem: each block before the
/// list's own blocks free, every other slot `NO_ADDRESS`.
pub open spec fn fresh_fbl(layout: E5FSFilesystemBuilder) -> Seq<u32> {
    Seq::new(
        fbl_slots(layout),
        |i: int| if i < layout.first_fbl_block_number { i as u32 } else { NO_ADDRESS },
    )
}

/// The layout's regions lie in order and inside the addresses the device
/// can have.
pub proof fn lemma_layout_bounds(layout: E5FSFilesystemBuilder)
    requires
        layout_wf(layout),
    ensures
        inode_address(layout.inodes_count as int) == layout.first_block_address,
        layout.blocks_count >= 2,
        layout.block_size >= 512,
        layout.block_size % 4 == 0,
        layout.first_fbl_block_address + 4 * fbl_slots(layout) == layout.filesystem_size,
        fbl_slots(layout) >= layout.blocks_count,
        layout.first_block_address + layout.block_size * layout.blocks_count == layout.filesystem_size,
        layout.first_fbl_block_address >= layout.first_block_address,
        layout.first_block_address + 1024 <= layout.filesystem_size,
        layout.first_fbl_block_address >= layout.first_block_address + layout.block_size,
        forall|n: int| 0 <= n <= layout.blocks_count ==> block_address(layout, n) <= layout.filesystem_size,
        forall|n: int| 0 <= n < layout.blocks_count ==> #[trigger] block_address(layout, n) + layout.block_size
            <= layout.filesystem_size,
{
    let bs = layout.block_size as int;
    let bc = layout.blocks_count as int;
    let k = layout.block_numbers_per_fbl_chunk as int;
    let m = layout.blocks_needed_for_fbl as int;
    let f = layout.first_fbl_block_number as int;
    assert(bs % 4 == 0) by {
        lemma_power_of_two_mod4(bs as nat);
    }
    assert(k * 4 == bs);
    assert(m == (bc + k - 1) / k);
    assert(k * m >= bc) by (nonlinear_arith)
        requires
            k >= 128,
            m == (bc + k - 1) / k,
    ;
    assert(4 * (k * m) == bs * m) by (nonlinear_arith)
        requires
            k * 4 == bs,
    ;
    assert(f + m == bc);
    assert(bs * f + bs * m == bs * bc) by (nonlinear_arith)
        requires
            f + m == bc,
    ;
    assert(f * bs == bs * f) by (nonlinear_arith);
    assert(f * bs >= bs) by (nonlinear_arith)
        requires
            f >= 1,
            bs >= 0,
    ;
    assert(bs * bc >= 1024) by (nonlinear_arith)
        requires
            bs >= 512,
            bc >= 2,
    ;
    assert forall|n: int| 0 <= n <= bc implies block_address(layout, n) <= layout.filesystem_size by {
        assert(n * bs <= bc * bs) by (nonlinear_arith)
            requires
                n <= bc,
                bs >= 0,
        ;
    }
    assert forall|n: int| 0 <= n < bc implies #[trigger] block_address(layout, n) + bs
        <= layout.filesystem_size by {
        assert(n * bs + bs <= bc * bs) by (nonlinear_arith)
            requires
                n < bc,
                bs >= 0,
        ;
    }
}

proof fn lemma_power_of_two_mod4(n: nat)
    requires
        is_power_of_two(n),
        n >= 4,
    ensures
        n % 4 == 0,
    decreases n,
{
    if n / 2 >= 4 {
        lemma_power_of_two_mod4(n / 2);
    } else {
        assert(n / 2 == 2) by {
            reveal_with_fuel(is_power_of_two, 3);
        }
    }
}

impl E5FSFilesystem {
    /// The layout is sound and the device holds all of it, with room for one
    /// block past its end.
    pub open spec fn wf(&self) -> bool {
        &&& layout_wf(self.fs_info)
        &&& self.device@.len() >= self.fs_info.filesystem_size
        &&& self.fs_info.filesystem_size + self.fs_info.block_size <= usize::MAX
    }

    /// Reads the superblock at the start of a device image.
    pub fn read_superblock(device: &Vec<u8>) -> (superblock: Option<Superblock>)
        ensures
            match superblock {
                Some(s) => decodes_superblock(device@.subrange(0, SUPERBLOCK_SIZE as int), s),
                None => device@.len() < SUPERBLOCK_SIZE,
            },
    {
        match read_bytes_at(device, 0, 120) {
            Some(bytes) => Some(superblock_from_bytes(&bytes)),
            None => None,
        }
    }

    /// Writes the superblock at the start of the device.
    pub fn write_superblock(&mut self, superblock: &Superblock) -> (result: Result<(), Errno>)
        requires
            old(self).wf(),
        ensures
            final(self).wf(),
            result is Ok,
            final(self).device@ == write_at(old(self).device@, 0, superblock_bytes(*superblock)),
            final(self).fs_info == old(self).fs_info,
            final(self).superblock == old(self).superblock,
    {
        let bytes = superblock_to_bytes(superblock);
        proof {
            lemma_superblock_bytes_decode(*superblock);
            lemma_layout_bounds(self.fs_info);
        }
        write_bytes_at(&mut self.device, 0, bytes.as_slice());
        Ok(())
    }

    /// Reads inode `inode_number` from the inode table.
    pub fn read_inode(&self, inode_number: AddressSize) -> (inode: INode)
        requires
            self.wf(),
            inode_number <= self.fs_info.inodes_count,
        ensures
            inode == inode_at(self.device@, inode_number),
            decodes_inode(
                self.device@.subrange(inode_address(inode_number as int), inode_address(inode_number as int) + INODE_RECORD_SIZE),
                inode,
            ),
            inode.number == inode_number,
    {
        proof {
            lemma_layout_bounds(self.fs_info);
            assert(INODE_SIZE * inode_number <= INODE_SIZE * self.fs_info.inodes_count);
        }
        let address = 120 + inode_number as usize * 112;
        let bytes = read_bytes_at(&self.device, address, 106).unwrap();
        let inode = inode_from_bytes(&bytes, inode_number);
        proof {
            let i = inode_at(self.device@, inode_number);
            lemma_decodes_inode_unique(bytes@, i, inode);
        }
        inode
    }

    /// Writes `inode` into the slot of inode `inode_number`.
    pub fn write_inode(&mut self, inode: &INode, inode_number: AddressSize) -> (result: Result<(), Errno>)
        requires
            old(self).wf(),
        ensures
            final(self).wf(),
            final(self).fs_info == old(self).fs_info,
            final(self).superblock == old(self).superblock,
            inode_number > old(self).fs_info.inodes_count ==> (result matches Err(Errno::ENOENT(m))
                && m@ == "write_inode: inode_number out of bounds"@
                && final(self).device@ == old(self).device@),
            inode_number <= old(self).fs_info.inodes_count ==> result is Ok
                && final(self).device@ == write_at(old(self).device@, inode_address(inode_number as int), inode_bytes(*inode)),
    {
        if inode_number > self.fs_info.inodes_count {
            return Err(Errno::ENOENT("write_inode: inode_number out of bounds".to_owned()));
        }
        proof {
            lemma_layout_bounds(self.fs_info);
            lemma_inode_bytes_decode(*inode);
        }
        let bytes = inode_to_bytes(inode);
        proof {
            assert(INODE_SIZE * inode_number <= INODE_SIZE * self.fs_info.inodes_count);
        }
        let address = 120 + inode_number as usize * 112;
        write_bytes_at(&mut self.device, address, bytes.as_slice());
        Ok(())
    }
}

/// A superblock written at the start of a device reads back as itself.
pub proof fn lemma_read_superblock_after_write(device: Seq<u8>, s: Superblock, t: Superblock)
    requires
        decodes_superblock(write_at(device, 0, superblock_bytes(s)).subrange(0, SUPERBLOCK_SIZE as int), t),
    ensures
        t == s,
{
    lemma_superblock_bytes_decode(s);
    lemma_write_at_read_back(device, 0, superblock_bytes(s));
    lemma_decodes_superblock_unique(write_at(device, 0, superblock_bytes(s)).subrange(0, SUPERBLOCK_SIZE as int), s, t);
}

/// An inode written to its slot reads back as itself.
pub proof fn lemma_read_inode_after_write(device: Seq<u8>, inode: INode, n: AddressSize)
    requires
        inode.number == n,
    ensures
        inode_at(write_at(device, inode_address(n as int), inode_bytes(inode)), n) == inode,
{
    lemma_inode_bytes_decode(inode);
    lemma_write_at_read_back(device, inode_address(n as int), inode_bytes(inode));
    let d = write_at(device, inode_address(n as int), inode_bytes(inode));
    let b = d.subrange(inode_address(n as int), inode_address(n as int) + INODE_RECORD_SIZE);
    assert(decodes_inode(b, inode));
    let i = inode_at(d, n);
    lemma_decodes_inode_unique(b, i, inode);
}

/// Writing one inode leaves the others as they were.
pub proof fn lemma_read_inode_after_other_write(device: Seq<u8>, inode: INode, n: AddressSize, m: AddressSize)
    requires
        n != m,
        inode_address(m as int) + INODE_RECORD_SIZE <= device.len(),
    ensures
        inode_at(write_at(device, inode_address(n as int), inode_bytes(inode)), m) == inode_at(device, m),
{
    lemma_inode_bytes_decode(inode);
    let d = write_at(device, inode_address(n as int), inode_bytes(inode));
    let lo = inode_address(m as int);
    let hi = lo + INODE_RECORD_SIZE;
    if n < m {
        assert(inode_address(n as int) + 112 <= lo);
    } else {
        assert(hi <= inode_address(n as int));
    }
    lemma_write_at_frame(device, inode_address(n as int), inode_bytes(inode), lo, hi);
}

} // verus!

verus! {

/// Whether a free blocks list slot holds a free block.
fn is_free_slot(n: AddressSize) -> (free: bool)
    ensures
        free == (n != NO_ADDRESS),
{
    n != NO_ADDRESS
}

/// The values of the free blocks list slots.
pub open spec fn fbl_values(layout: E5FSFilesystemBuilder, device: Seq<u8>) -> Seq<u32> {
    Seq::new(fbl_slots(layout), |i: int| fbl_slot(layout, device, i))
}

/// `v` is the value of the first slot of `values` that is not `NO_ADDRESS`.
pub open spec fn first_free_value(values: Seq<u32>, v: u32) -> bool {
    exists|i: int|
        0 <= i < values.len() && values[i] == v && v != NO_ADDRESS && forall|j: int|
            0 <= j < i ==> #[trigger] values[j] == NO_ADDRESS
}

impl E5FSFilesystem {
    /// Reads block `block_number`.
    pub fn read_block(&self, block_number: AddressSize) -> (block: Block)
        requires
            self.wf(),
            block_number < self.fs_info.blocks_count,
        ensures
            block.data@ == self.device@.subrange(
                block_address(self.fs_info, block_number as int),
                block_address(self.fs_info, block_number as int) + self.fs_info.block_size,
            ),
    {
        proof {
            lemma_layout_bounds(self.fs_info);
            assert(block_address(self.fs_info, block_number as int) + self.fs_info.block_size
                <= self.fs_info.filesystem_size);
        }
        let address = self.fs_info.first_block_address as usize + block_number as usize
            * self.fs_info.block_size as usize;
        let data = read_bytes_at(&self.device, address, self.fs_info.block_size as usize).unwrap();
        Block { data }
    }

    /// Writes `block` as block `block_number`.
    pub fn write_block(&mut self, block: &Block, block_number: AddressSize) -> (result: Result<(), Errno>)
        requires
            old(self).wf(),
        ensures
            final(self).wf(),
            final(self).fs_info == old(self).fs_info,
            final(self).superblock == old(self).superblock,
            block_number >= old(self).fs_info.blocks_count ==> (result matches Err(Errno::ENOENT(m))
                && m@ == "write_block: block_number out of bounds"@),
            block_number < old(self).fs_info.blocks_count && block.data@.len() > old(self).fs_info.block_data_size
                ==> (result matches Err(Errno::ENOENT(m)) && m@ == "write_block: block.data should be "@
                + decimal(old(self).fs_info.block_data_size as nat) + ", was "@ + decimal(block.data@.len())),
            result is Err ==> final(self).device@ == old(self).device@,
            block_number < old(self).fs_info.blocks_count && block.data@.len() <= old(self).fs_info.block_data_size
                ==> result is Ok && final(self).device@ == write_at(
                old(self).device@,
                block_address(old(self).fs_info, block_number as int),
                block.data@,
            ),
    {
        if block_number >= self.fs_info.blocks_count {
            return Err(Errno::ENOENT("write_block: block_number out of bounds".to_owned()));
        }
        if block.data.len() > self.fs_info.block_data_size as usize {
            let mut message = "write_block: block.data should be ".to_owned();
            let expected = decimal_string(self.fs_info.block_data_size as u64);
            message.append(expected.as_str());
            message.append(", was ");
            let was = decimal_string(block.data.len() as u64);
            message.append(was.as_str());
            return Err(Errno::ENOENT(message));
        }
        proof {
            lemma_layout_bounds(self.fs_info);
            assert(block_address(self.fs_info, block_number as int) <= self.fs_info.filesystem_size);
        }
        let address = self.fs_info.first_block_address as usize + block_number as usize
            * self.fs_info.block_size as usize;
        write_bytes_at(&mut self.device, address, block.data.as_slice());
        Ok(())
    }

    /// The free blocks list of a freshly made filesystem.
    pub fn generate_fbl(&self) -> (fbl: Vec<AddressSize>)
        requires
            self.wf(),
        ensures
            fbl@ == fresh_fbl(self.fs_info),
    {
        proof {
            lemma_layout_bounds(self.fs_info);
        }
        let slots = self.fs_info.block_numbers_per_fbl_chunk as usize
            * self.fs_info.blocks_needed_for_fbl as usize;
        let mut fbl: Vec<AddressSize> = Vec::new();
        let mut i: usize = 0;
        while i < slots
            invariant
                slots == fbl_slots(self.fs_info),
                i <= slots,
                fbl@ =~= fresh_fbl(self.fs_info).take(i as int),
            decreases slots - i,
        {
            if i < self.fs_info.first_fbl_block_number as usize {
                fbl.push(i as u32);
            } else {
                fbl.push(NO_ADDRESS);
            }
            i = i + 1;
        }
        fbl
    }

    /// Writes the free blocks list of a freshly made filesystem into its
    /// blocks.
    pub fn write_fbl(&mut self)
        requires
            old(self).wf(),
        ensures
            final(self).wf(),
            final(self).fs_info == old(self).fs_info,
            final(self).superblock == old(self).superblock,
            final(self).device@ == write_at(
                old(self).device@,
                old(self).fs_info.first_fbl_block_address as int,
                words_bytes(fresh_fbl(old(self).fs_info)),
            ),
    {
        let fbl = self.generate_fbl();
        let mut bytes: Vec<u8> = Vec::new();
        push_words(&mut bytes, fbl.as_slice());
        proof {
            lemma_layout_bounds(self.fs_info);
            lemma_words_bytes(fbl@);
            assert(bytes@ =~= words_bytes(fbl@));
        }
        write_bytes_at(&mut self.device, self.fs_info.first_fbl_block_address as usize, bytes.as_slice());
    }

    /// The block numbers stored in a block of the free blocks list.
    pub fn parse_block_numbers_from_block(block: &Block) -> (numbers: Vec<AddressSize>)
        requires
            block.data@.len() % 4 == 0,
        ensures
            numbers@.len() == block.data@.len() / 4,
            forall|k: int| 0 <= k < numbers@.len() ==> #[trigger] numbers@[k] == le32_at(block.data@, 4 * k),
    {
        read_words(&block.data, 0, block.data.len() / 4)
    }

    /// The value of the first free blocks list slot that `f` accepts.
    pub fn find_block_in_fbl<F: Fn(AddressSize) -> bool>(&self, f: F) -> (result: Result<AddressSize, Errno>)
        requires
            self.wf(),
            forall|x: AddressSize| #[trigger] f.requires((x,)),
        ensures
            match result {
                Ok(v) => exists|i: int|
                    0 <= i < fbl_slots(self.fs_info) && fbl_slot(self.fs_info, self.device@, i) == v
                        && f.ensures((v,), true) && forall|j: int| 0 <= j < i ==> f.ensures(
                        (#[trigger] fbl_slot(self.fs_info, self.device@, j),),
                        false,
                    ),
                Err(Errno::ENOSPC(m)) => m@ == "e5fs::find_block_in_fbl: not found"@ && forall|j: int|
                    0 <= j < fbl_slots(self.fs_info) ==> f.ensures(
                        (#[trigger] fbl_slot(self.fs_info, self.device@, j),),
                        false,
                    ),
                Err(_) => false,
            },
    {
        proof {
            lemma_layout_bounds(self.fs_info);
        }
        let slots = self.fs_info.block_numbers_per_fbl_chunk as usize
            * self.fs_info.blocks_needed_for_fbl as usize;
        let start = self.fs_info.first_fbl_block_address as usize;
        let mut i: usize = 0;
        while i < slots
            invariant
                self.wf(),
                slots == fbl_slots(self.fs_info),
                start == self.fs_info.first_fbl_block_address,
                start + 4 * slots <= self.device.len(),
                i <= slots,
                forall|x: AddressSize| #[trigger] f.requires((x,)),
                forall|j: int| 0 <= j < i ==> f.ensures((#[trigger] fbl_slot(self.fs_info, self.device@, j),), false),
            decreases slots - i,
        {
            let v = read_u32_at(&self.device, start + 4 * i);
            if f(v) {
                proof {
                    assert(fbl_slot(self.fs_info, self.device@, i as int) == v);
                }
                return Ok(v);
            }
            i = i + 1;
        }
        Err(Errno::ENOSPC("e5fs::find_block_in_fbl: not found".to_owned()))
    }

    /// Claims the first free block of the free blocks list: marks its slot
    /// `NO_ADDRESS` and returns its number.
    pub fn claim_free_block(&mut self) -> (result: Result<AddressSize, Errno>)
        requires
            old(self).wf(),
        ensures
            final(self).wf(),
            final(self).fs_info == old(self).fs_info,
            final(self).superblock == old(self).superblock,
            match result {
                Ok(v) => {
                    &&& first_free_value(fbl_values(old(self).fs_info, old(self).device@), v)
                    &&& v < old(self).fs_info.blocks_count
                    &&& final(self).device@ == write_at(
                        old(self).device@,
                        fbl_slot_address(old(self).fs_info, v as int),
                        spec_u32_to_le_bytes(NO_ADDRESS),
                    )
                },
                Err(Errno::ENOSPC(_)) => final(self).device@ == old(self).device@ && forall|j: int|
                    0 <= j < fbl_slots(old(self).fs_info) ==> #[trigger] fbl_slot(old(self).fs_info, old(self).device@, j)
                        == NO_ADDRESS,
                Err(Errno::EIO(_)) => final(self).device@ == old(self).device@ && exists|v: u32|
                    first_free_value(fbl_values(old(self).fs_info, old(self).device@), v) && v
                        >= old(self).fs_info.blocks_count,
                Err(_) => false,
            },
    {
        let ghost values = fbl_values(self.fs_info, self.device@);
        let block_number = match self.find_block_in_fbl(is_free_slot) {
            Ok(v) => v,
            Err(e) => {
                return Err(e);
            },
        };
        proof {
            let i = choose|i: int|
                0 <= i < fbl_slots(self.fs_info) && fbl_slot(self.fs_info, self.device@, i) == block_number
                    && forall|j: int| 0 <= j < i ==> #[trigger] fbl_slot(self.fs_info, self.device@, j) == NO_ADDRESS;
            assert(values[i] == block_number);
            assert forall|j: int| 0 <= j < i implies #[trigger] values[j] == NO_ADDRESS by {
                assert(values[j] == fbl_slot(self.fs_info, self.device@, j));
            }
            assert(block_number != NO_ADDRESS);
            assert(first_free_value(values, block_number));
        }
        if block_number >= self.fs_info.blocks_count {
            return Err(Errno::EIO("e5fs::claim_free_block: free blocks list names a block past the end".to_owned()));
        }
        proof {
            lemma_layout_bounds(self.fs_info);
        }
        let address = self.fs_info.first_fbl_block_address as usize + 4 * block_number as usize;
        let bytes = u32_to_le_bytes(NO_ADDRESS);
        write_bytes_at(&mut self.device, address, bytes.as_slice());
        Ok(block_number)
    }

    /// Returns block `block_number` to the free blocks list.
    pub fn release_block(&mut self, block_number: AddressSize) -> (result: Result<(), Errno>)
        requires
            old(self).wf(),
        ensures
            final(self).wf(),
            final(self).fs_info == old(self).fs_info,
            final(self).superblock == old(self).superblock,
            block_number < old(self).fs_info.blocks_count ==> result is Ok && final(self).device@ == write_at(
                old(self).device@,
                fbl_slot_address(old(self).fs_info, block_number as int),
                spec_u32_to_le_bytes(block_number),
            ),
            block_number >= old(self).fs_info.blocks_count ==> result is Err && final(self).device@ == old(self).device@,
    {
        if block_number >= self.fs_info.blocks_count {
            return Err(Errno::EIO("e5fs::release_block: no such block".to_owned()));
        }
        proof {
            lemma_layout_bounds(self.fs_info);
        }
        let address = self.fs_info.first_fbl_block_address as usize + 4 * block_number as usize;
        let bytes = u32_to_le_bytes(block_number);
        write_bytes_at(&mut self.device, address, bytes.as_slice());
        Ok(())
    }
}

} // verus!

verus! {

/// The number of leading block numbers that are not `NO_ADDRESS`.
pub open spec fn prefix_len(blocks: Seq<u32>) -> nat
    decreases blocks.len(),
{
    if blocks.len() == 0 || blocks[0] == NO_ADDRESS {
        0
    } else {
        1 + prefix_len(blocks.drop_first())
    }
}

/// The blocks of a file: its direct block numbers up to the first
/// `NO_ADDRESS`.
pub open spec fn block_prefix(inode: INode) -> Seq<u32> {
    inode.direct_block_numbers@.take(prefix_len(inode.direct_block_numbers@) as int)
}

pub proof fn lemma_prefix_len(blocks: Seq<u32>)
    ensures
        prefix_len(blocks) <= blocks.len(),
        forall|k: int| 0 <= k < prefix_len(blocks) ==> #[trigger] blocks[k] != NO_ADDRESS,
        prefix_len(blocks) < blocks.len() ==> blocks[prefix_len(blocks) as int] == NO_ADDRESS,
    decreases blocks.len(),
{
    if blocks.len() > 0 && blocks[0] != NO_ADDRESS {
        lemma_prefix_len(blocks.drop_first());
        assert forall|k: int| 0 <= k < prefix_len(blocks) implies #[trigger] blocks[k] != NO_ADDRESS by {
            if k > 0 {
                assert(blocks[k] == blocks.drop_first()[k - 1]);
            }
        }
    }
}

/// The leading run of block numbers is as long as the first `NO_ADDRESS`
/// says.
pub proof fn lemma_prefix_len_exact(blocks: Seq<u32>, p: int)
    requires
        0 <= p <= blocks.len(),
        forall|k: int| 0 <= k < p ==> #[trigger] blocks[k] != NO_ADDRESS,
        p < blocks.len() ==> blocks[p] == NO_ADDRESS,
    ensures
        prefix_len(blocks) == p,
    decreases blocks.len(),
{
    if p > 0 {
        assert forall|k: int| 0 <= k < p - 1 implies #[trigger] blocks.drop_first()[k] != NO_ADDRESS by {
            assert(blocks.drop_first()[k] == blocks[k + 1]);
        }
        lemma_prefix_len_exact(blocks.drop_first(), p - 1);
    }
}

/// The bytes of the given blocks, one after another.
pub open spec fn blocks_content(layout: E5FSFilesystemBuilder, device: Seq<u8>, blocks: Seq<u32>) -> Seq<u8>
    decreases blocks.len(),
{
    if blocks.len() == 0 {
        Seq::empty()
    } else {
        blocks_content(layout, device, blocks.drop_last()) + device.subrange(
            block_address(layout, blocks.last() as int),
            block_address(layout, blocks.last() as int) + layout.block_size,
        )
    }
}

/// The contents of a file: the bytes of its blocks, cut to its size.
pub open spec fn file_data(layout: E5FSFilesystemBuilder, device: Seq<u8>, inode: INode) -> Seq<u8> {
    let content = blocks_content(layout, device, block_prefix(inode));
    if inode.file_size <= content.len() {
        content.take(inode.file_size as int)
    } else {
        content
    }
}

impl E5FSFilesystem {
    /// The number of blocks a file has: its leading direct block numbers.
    pub fn get_inode_blocks_count(&self, inode_number: AddressSize) -> (count: AddressSize)
        requires
            self.wf(),
            inode_number <= self.fs_info.inodes_count,
        ensures
            count == prefix_len(inode_at(self.device@, inode_number).direct_block_numbers@),
    {
        let inode = self.read_inode(inode_number);
        proof {
            lemma_prefix_len(inode.direct_block_numbers@);
        }
        let mut count: usize = 0;
        while count < 12 && inode.direct_block_numbers[count] != NO_ADDRESS
            invariant
                count <= 12,
                forall|k: int| 0 <= k < count ==> #[trigger] inode.direct_block_numbers@[k] != NO_ADDRESS,
            decreases 12 - count,
        {
            count = count + 1;
        }
        proof {
            lemma_prefix_len_exact(inode.direct_block_numbers@, count as int);
        }
        count as u32
    }

    /// Reads a file's contents: the bytes of its blocks, cut to its size.
    pub fn read_data_i(&self, inode_number: AddressSize) -> (result: Result<Vec<u8>, Errno>)
        requires
            self.wf(),
            inode_number <= self.fs_info.inodes_count,
        ensures
            match result {
                Ok(data) => data@ == file_data(self.fs_info, self.device@, inode_at(self.device@, inode_number))
                    && forall|k: int| 0 <= k < block_prefix(inode_at(self.device@, inode_number)).len()
                        ==> #[trigger] block_prefix(inode_at(self.device@, inode_number))[k] < self.fs_info.blocks_count,
                Err(Errno::EIO(_)) => exists|k: int| 0 <= k < block_prefix(inode_at(self.device@, inode_number)).len()
                    && #[trigger] block_prefix(inode_at(self.device@, inode_number))[k] >= self.fs_info.blocks_count,
                Err(_) => false,
            },
    {
        let inode = self.read_inode(inode_number);
        let count = self.get_inode_blocks_count(inode_number) as usize;
        let ghost prefix = block_prefix(inode);
        proof {
            lemma_prefix_len(inode.direct_block_numbers@);
        }
        let mut content: Vec<u8> = Vec::new();
        let mut k: usize = 0;
        while k < count
            invariant
                self.wf(),
                count == prefix.len(),
                count <= 12,
                prefix == block_prefix(inode),
                prefix_len(inode.direct_block_numbers@) <= 12,
                inode == inode_at(self.device@, inode_number),
                k <= count,
                content@ == blocks_content(self.fs_info, self.device@, prefix.take(k as int)),
                forall|j: int| 0 <= j < k ==> #[trigger] prefix[j] < self.fs_info.blocks_count,
            decreases count - k,
        {
            let block_number = inode.direct_block_numbers[k];
            assert(block_number == prefix[k as int]);
            if block_number >= self.fs_info.blocks_count {
                return Err(Errno::EIO("e5fs::read_data_i: inode names a block past the end".to_owned()));
            }
            let mut block = self.read_block(block_number);
            proof {
                assert(prefix.take(k + 1).drop_last() =~= prefix.take(k as int));
            }
            content.append(&mut block.data);
            k = k + 1;
        }
        proof {
            assert(prefix.take(count as int) =~= prefix);
        }
        let size = inode.file_size as usize;
        if size <= content.len() {
            content.truncate(size);
        }
        proof {
            assert(content@ =~= file_data(self.fs_info, self.device@, inode));
        }
        Ok(content)
    }
}

} // verus!

verus! {

/// `n` is the first entry of the free inode numbers cache that is not
/// `NO_ADDRESS`, and it stands at index `k`.
pub open spec fn first_cached_at(cache: Seq<u32>, k: int, n: u32) -> bool {
    0 <= k < cache.len() && cache[k] == n && n != NO_ADDRESS && forall|j: int|
        0 <= j < k ==> #[trigger] cache[j] == NO_ADDRESS
}

/// `inode` with its mode's free flag set to `flag`.
pub open spec fn with_free_flag(inode: INode, flag: u8) -> INode {
    INode { mode: FileMode(spliced(inode.mode.0, 15, 1, flag) as u16), ..inode }
}

impl E5FSFilesystem {
    /// Takes the first inode number from the superblock's cache of free
    /// inodes, saves the superblock, and marks that inode used.
    pub fn claim_free_inode(&mut self) -> (result: Result<AddressSize, Errno>)
        requires
            old(self).wf(),
        ensures
            final(self).wf(),
            final(self).fs_info == old(self).fs_info,
            match result {
                Ok(n) => exists|k: int|
                    first_cached_at(old(self).superblock.free_inode_numbers@, k, n)
                        && n <= old(self).fs_info.inodes_count
                        && final(self).superblock == (Superblock {
                            free_inode_numbers: final(self).superblock.free_inode_numbers,
                            ..old(self).superblock
                        })
                        && final(self).superblock.free_inode_numbers@ == old(self).superblock.free_inode_numbers@.update(k, NO_ADDRESS)
                        && final(self).device@ == write_at(
                            write_at(old(self).device@, 0, superblock_bytes(final(self).superblock)),
                            inode_address(n as int),
                            inode_bytes(with_free_flag(inode_at(old(self).device@, n), 0)),
                        ),
                Err(Errno::ENOSPC(m)) => m@ == "no free inodes left (in cache, todo: fix me)"@
                    && final(self).device@ == old(self).device@ && final(self).superblock == old(self).superblock
                    && forall|k: int| 0 <= k < 16 ==> #[trigger] old(self).superblock.free_inode_numbers@[k] == NO_ADDRESS,
                Err(Errno::ENOENT(m)) => m@ == "write_inode: inode_number out of bounds"@
                    && exists|k: int, n: u32| first_cached_at(old(self).superblock.free_inode_numbers@, k, n)
                        && n > old(self).fs_info.inodes_count,
                Err(_) => false,
            },
    {
        let mut k: usize = 0;
        while k < 16 && self.superblock.free_inode_numbers[k] == NO_ADDRESS
            invariant
                k <= 16,
                forall|j: int| 0 <= j < k ==> #[trigger] self.superblock.free_inode_numbers@[j] == NO_ADDRESS,
            decreases 16 - k,
        {
            k = k + 1;
        }
        if k == 16 {
            return Err(Errno::ENOSPC("no free inodes left (in cache, todo: fix me)".to_owned()));
        }
        let inode_number = self.superblock.free_inode_numbers[k];
        let ghost old_device = self.device@;
        proof {
            assert(first_cached_at(old(self).superblock.free_inode_numbers@, k as int, inode_number));
        }
        self.superblock.free_inode_numbers[k] = NO_ADDRESS;
        let superblock = self.superblock;
        let _ = self.write_superblock(&superblock);
        if inode_number > self.fs_info.inodes_count {
            return Err(Errno::ENOENT("write_inode: inode_number out of bounds".to_owned()));
        }
        let mut inode = self.read_inode(inode_number);
        proof {
            lemma_superblock_bytes_decode(superblock);
            lemma_layout_bounds(self.fs_info);
            lemma_write_at_frame(
                old_device,
                0,
                superblock_bytes(superblock),
                inode_address(inode_number as int),
                inode_address(inode_number as int) + INODE_RECORD_SIZE,
            );
            lemma_with_free_reads_back(inode.mode.0, 0);
        }
        inode.mode = inode.mode.with_free(0);
        let _ = self.write_inode(&inode, inode_number);
        proof {
            assert(inode == with_free_flag(inode_at(old_device, inode_number), 0));
        }
        Ok(inode_number)
    }

    /// Marks inode `inode_number` free.
    pub fn release_inode(&mut self, inode_number: AddressSize) -> (result: Result<(), Errno>)
        requires
            old(self).wf(),
        ensures
            final(self).wf(),
            final(self).fs_info == old(self).fs_info,
            final(self).superblock == old(self).superblock,
            inode_number <= old(self).fs_info.inodes_count ==> result is Ok && final(self).device@ == write_at(
                old(self).device@,
                inode_address(inode_number as int),
                inode_bytes(with_free_flag(inode_at(old(self).device@, inode_number), 1)),
            ),
            inode_number > old(self).fs_info.inodes_count ==> (result matches Err(Errno::ENOENT(m))
                && m@ == "write_inode: inode_number out of bounds"@ && final(self).device@ == old(self).device@),
    {
        if inode_number > self.fs_info.inodes_count {
            return Err(Errno::ENOENT("write_inode: inode_number out of bounds".to_owned()));
        }
        let mut inode = self.read_inode(inode_number);
        proof {
            lemma_with_free_reads_back(inode.mode.0, 1);
        }
        inode.mode = inode.mode.with_free(1);
        self.write_inode(&inode, inode_number)
    }

    /// The mode of inode `inode_number`.
    pub fn read_mode(&self, inode_number: AddressSize) -> (mode: FileMode)
        requires
            self.wf(),
            inode_number <= self.fs_info.inodes_count,
        ensures
            mode == inode_at(self.device@, inode_number).mode,
    {
        self.read_inode(inode_number).mode
    }

    /// Replaces the mode of inode `inode_number`.
    pub fn write_mode_i(&mut self, inode_number: AddressSize, mode: FileMode) -> (result: Result<(), Errno>)
        requires
            old(self).wf(),
        ensures
            final(self).wf(),
            final(self).fs_info == old(self).fs_info,
            final(self).superblock == old(self).superblock,
            inode_number <= old(self).fs_info.inodes_count ==> result is Ok && final(self).device@ == write_at(
                old(self).device@,
                inode_address(inode_number as int),
                inode_bytes(INode { mode, ..inode_at(old(self).device@, inode_number) }),
            ),
            inode_number > old(self).fs_info.inodes_count ==> (result matches Err(Errno::ENOENT(m))
                && m@ == "write_inode: inode_number out of bounds"@ && final(self).device@ == old(self).device@),
    {
        if inode_number > self.fs_info.inodes_count {
            return Err(Errno::ENOENT("write_inode: inode_number out of bounds".to_owned()));
        }
        let mut inode = self.read_inode(inode_number);
        inode.mode = mode;
        self.write_inode(&inode, inode_number)
    }

    /// Replaces the links count of inode `inode_number`.
    pub fn write_links_count_i(&mut self, inode_number: AddressSize, links_count: AddressSize) -> (result: Result<INode, Errno>)
        requires
            old(self).wf(),
        ensures
            final(self).wf(),
            final(self).fs_info == old(self).fs_info,
            final(self).superblock == old(self).superblock,
            inode_number <= old(self).fs_info.inodes_count ==> (result matches Ok(inode)
                && inode == (INode { links_count, ..inode_at(old(self).device@, inode_number) })
                && inode.number == inode_number
                && final(self).device@ == write_at(old(self).device@, inode_address(inode_number as int), inode_bytes(inode))),
            inode_number > old(self).fs_info.inodes_count ==> (result matches Err(Errno::ENOENT(m))
                && m@ == "write_inode: inode_number out of bounds"@ && final(self).device@ == old(self).device@),
    {
        if inode_number > self.fs_info.inodes_count {
            return Err(Errno::ENOENT("write_inode: inode_number out of bounds".to_owned()));
        }
        let mut inode = self.read_inode(inode_number);
        inode.links_count = links_count;
        match self.write_inode(&inode, inode_number) {
            Ok(()) => Ok(inode),
            Err(e) => Err(e),
        }
    }
}

} // verus!

verus! {

/// A block's worth of zeros.
fn zeros(len: usize) -> (bytes: Vec<u8>)
    ensures
        bytes@ == Seq::new(len as nat, |i: int| 0u8),
{
    let mut bytes: Vec<u8> = Vec::new();
    let mut i: usize = 0;
    while i < len
        invariant
            i <= len,
            bytes@ =~= Seq::new(i as nat, |j: int| 0u8),
        decreases len - i,
    {
        bytes.push(0u8);
        i = i + 1;
    }
    bytes
}

/// A write inside the free blocks list leaves every inode slot and every
/// block before the list as it was.
pub proof fn lemma_fbl_write_frame(layout: E5FSFilesystemBuilder, device: Seq<u8>, slot: int, bytes: Seq<u8>, lo: int, hi: int)
    requires
        layout_wf(layout),
        device.len() >= layout.filesystem_size,
        0 <= slot,
        0 <= lo <= hi <= layout.first_fbl_block_address,
    ensures
        write_at(device, fbl_slot_address(layout, slot), bytes).subrange(lo, hi) == device.subrange(lo, hi),
{
    lemma_layout_bounds(layout);
    lemma_write_at_frame(device, fbl_slot_address(layout, slot), bytes, lo, hi);
}

/// The mode a newly allocated file gets.
pub open spec fn new_file_mode() -> FileMode {
    FileMode(0b0_000_000_110_000_000)
}

impl E5FSFilesystem {
    /// Allocates a new file: claims an inode and a block, and initializes
    /// the inode with that one block.
    #[verifier::spinoff_prover]
    #[verifier::rlimit(60)]
    pub fn allocate_file(&mut self) -> (result: Result<(AddressSize, INode), Errno>)
        requires
            old(self).wf(),
        ensures
            final(self).wf(),
            final(self).fs_info == old(self).fs_info,
            match result {
                Ok((n, inode)) => {
                    &&& inode.number == n
                    &&& n <= old(self).fs_info.inodes_count
                    &&& exists|k: int| first_cached_at(old(self).superblock.free_inode_numbers@, k, n)
                    &&& inode.mode == new_file_mode()
                    &&& inode.links_count == 0
                    &&& inode.file_size == 0
                    &&& inode.uid == NOBODY
                    &&& inode.gid == NOBODY
                    &&& inode.direct_block_numbers@[0] < old(self).fs_info.blocks_count
                    &&& forall|k: int| 1 <= k < 12 ==> #[trigger] inode.direct_block_numbers@[k] == NO_ADDRESS
                    &&& forall|k: int| 0 <= k < 3 ==> #[trigger] inode.indirect_block_numbers@[k] == NO_ADDRESS
                    &&& (n < old(self).fs_info.inodes_count || inode.direct_block_numbers@[0] != 0) ==> inode_at(
                        final(self).device@,
                        n,
                    ) == inode
                    &&& first_free_value(fbl_values(old(self).fs_info, old(self).device@), inode.direct_block_numbers@[0])
                    &&& exists|k: int| first_cached_at(old(self).superblock.free_inode_numbers@, k, n)
                        && final(self).superblock.free_inode_numbers@ == old(self).superblock.free_inode_numbers@.update(k, NO_ADDRESS)
                    &&& block_zeroed(*final(self), inode.direct_block_numbers@[0])
                    &&& final(self).superblock == (Superblock {
                        free_inode_numbers: final(self).superblock.free_inode_numbers,
                        ..old(self).superblock
                    })
                    &&& stores_superblock(*final(self))
                    &&& forall|q: AddressSize| q < old(self).fs_info.inodes_count && q != n ==> #[trigger] inode_at(
                        final(self).device@,
                        q,
                    ) == inode_at(old(self).device@, q)
                    &&& inode.direct_block_numbers@[0] < old(self).fs_info.first_fbl_block_number ==> fbl_slot(
                        final(self).fs_info,
                        final(self).device@,
                        inode.direct_block_numbers@[0] as int,
                    ) == NO_ADDRESS
                    &&& inode.direct_block_numbers@[0] < old(self).fs_info.first_fbl_block_number ==> fbl_values(
                        final(self).fs_info,
                        final(self).device@,
                    ) == fbl_values(old(self).fs_info, old(self).device@).update(
                        inode.direct_block_numbers@[0] as int,
                        NO_ADDRESS,
                    )
                },
                Err(Errno::ENOENT(_)) => true,
                Err(Errno::EIO(_)) => true,
                Err(_) => false,
            },
            (forall|k: int| 0 <= k < 16 ==> #[trigger] old(self).superblock.free_inode_numbers@[k] == NO_ADDRESS) ==> (
                result matches Err(Errno::ENOENT(m)) && m@ == "no free inodes left (in cache, todo: fix me)"@),
            result is Ok <==> can_allocate(*old(self)),
            result matches Err(Errno::EIO(_)) ==> exists|v: u32| #[trigger] first_free_value(
                fbl_values(old(self).fs_info, old(self).device@),
                v,
            ) && v >= old(self).fs_info.blocks_count,
            (exists|k: int, n: u32| #[trigger] first_cached_at(old(self).superblock.free_inode_numbers@, k, n)
                && n <= old(self).fs_info.inodes_count) && (forall|j: int| 0 <= j < fbl_slots(old(self).fs_info)
                ==> #[trigger] fbl_slot(old(self).fs_info, old(self).device@, j) == NO_ADDRESS) ==> result matches Err(
                Errno::ENOENT(_)),
    {
        let ghost start = *self;
        let inode_number = match self.claim_free_inode() {
            Ok(n) => n,
            Err(Errno::ENOSPC(m)) => {
                return Err(Errno::ENOENT(m));
            },
            Err(e) => {
                return Err(e);
            },
        };
        let ghost claimed_superblock = self.superblock;
        proof {
            lemma_layout_bounds(self.fs_info);
            lemma_superblock_bytes_decode(self.superblock);
            let sb = write_at(start.device@, 0, superblock_bytes(self.superblock));
            lemma_low_write_keeps_fbl(self.fs_info, start.device@, 0, superblock_bytes(self.superblock));
            lemma_inode_bytes_decode(with_free_flag(inode_at(start.device@, inode_number), 0));
            lemma_low_write_keeps_fbl(
                self.fs_info,
                sb,
                inode_address(inode_number as int),
                inode_bytes(with_free_flag(inode_at(start.device@, inode_number), 0)),
            );
            assert(fbl_values(self.fs_info, self.device@) == fbl_values(start.fs_info, start.device@));
        }
        proof {
            lemma_with_free_reads_back(0b0_000_000_110_000_000, 0);
            vstd::arithmetic::power2::lemma2_to64();
            reveal_with_fuel(crate::eunix::fs::bit_length, 2);
        }
        let mode = FileMode::default().with_free(0);
        proof {
            assert(crate::eunix::fs::padded_length(0, 1) == 1);
            assert(vstd::arithmetic::power2::pow2(16) == 65536 && vstd::arithmetic::power2::pow2(15) == 32768);
            assert(384int / 65536 == 0 && 384int % 32768 == 384);
            let a: int = 384int / vstd::arithmetic::power2::pow2(15 + 1) as int;
            assert(a == 0);
            let b: int = 384int % vstd::arithmetic::power2::pow2(15) as int;
            assert(b == 384);
            let c: int = vstd::arithmetic::power2::pow2(15 + crate::eunix::fs::padded_length(0, 1)) as int;
            assert(a * c == 0) by (nonlinear_arith)
                requires
                    a == 0,
            ;
            assert(spliced(384, 15, 1, 0) == a * c + 0 + b);
            assert(spliced(384, 15, 1, 0) == 384);
            assert(mode == new_file_mode());
        }
        let mut inode = INode {
            mode,
            links_count: 0,
            file_size: 0,
            uid: NOBODY,
            gid: NOBODY,
            atime: crate::util::unixtime(),
            mtime: crate::util::unixtime(),
            ctime: crate::util::unixtime(),
            btime: crate::util::unixtime(),
            direct_block_numbers: [NO_ADDRESS; 12],
            indirect_block_numbers: [NO_ADDRESS; 3],
            number: inode_number,
        };
        proof {
            vstd::array::axiom_spec_array_fill_for_copy_type::<AddressSize, 12>(NO_ADDRESS);
            vstd::array::axiom_spec_array_fill_for_copy_type::<AddressSize, 3>(NO_ADDRESS);
        }
        assert(forall|k: int| 0 <= k < 12 ==> #[trigger] inode.direct_block_numbers@[k] == NO_ADDRESS);
        assert(forall|k: int| 0 <= k < 3 ==> #[trigger] inode.indirect_block_numbers@[k] == NO_ADDRESS);
        let ghost before_claim = self.device@;
        let block_number = match self.claim_free_block() {
            Ok(b) => b,
            Err(e) => {
                let e = match e {
                    Errno::ENOSPC(m) => Errno::ENOENT(m),
                    other => other,
                };
                proof {
                    let values = fbl_values(start.fs_info, start.device@);
                    if can_allocate(start) {
                        let v = choose|v: u32| first_free_value(values, v) && v < start.fs_info.blocks_count;
                        let i = choose|i: int| 0 <= i < values.len() && values[i] == v && v != NO_ADDRESS && forall|j: int|
                            0 <= j < i ==> #[trigger] values[j] == NO_ADDRESS;
                        assert(values[i] == fbl_slot(start.fs_info, start.device@, i));
                        if e is EIO {
                            let w = choose|w: u32| first_free_value(values, w) && w >= start.fs_info.blocks_count;
                            let i2 = choose|i2: int| 0 <= i2 < values.len() && values[i2] == w && w != NO_ADDRESS
                                && forall|j: int| 0 <= j < i2 ==> #[trigger] values[j] == NO_ADDRESS;
                            assert(i == i2);
                        }
                    }
                }
                return Err(e);
            },
        };
        inode.direct_block_numbers[0] = block_number;
        assert(forall|k: int| 1 <= k < 12 ==> #[trigger] inode.direct_block_numbers@[k] == NO_ADDRESS);
        let ghost before_inode = self.device@;
        match self.write_inode(&inode, inode_number) {
            Ok(()) => {},
            Err(e) => {
                return Err(e);
            },
        }
        let ghost after_inode = self.device@;
        let zero_block = Block { data: zeros(self.fs_info.block_data_size as usize) };
        let ghost before_zero = self.device@;
        match self.write_block(&zero_block, block_number) {
            Ok(()) => {},
            Err(e) => {
                return Err(e);
            },
        }
        proof {
            lemma_layout_bounds(self.fs_info);
            lemma_write_at_read_back(before_zero, block_address(self.fs_info, block_number as int), zero_block.data@);
            assert(block_zeroed(*self, block_number));
            lemma_allocation_keeps_other_inodes(
                self.fs_info,
                start.device@,
                superblock_bytes(claimed_superblock),
                inode_number,
                inode_bytes(with_free_flag(inode_at(start.device@, inode_number), 0)),
                before_claim,
                block_number,
                before_inode,
                inode,
                after_inode,
                zero_block.data@,
                self.device@,
            );
            if block_number < self.fs_info.first_fbl_block_number {
                lemma_inode_bytes_decode(inode);
                lemma_low_write_keeps_fbl(self.fs_info, before_inode, inode_address(inode_number as int), inode_bytes(inode));
                let bs = self.fs_info.block_size as int;
                assert(block_number * bs + bs <= self.fs_info.first_fbl_block_number * bs) by (nonlinear_arith)
                    requires
                        block_number < self.fs_info.first_fbl_block_number,
                        bs >= 0,
                ;
                lemma_low_write_keeps_fbl(
                    self.fs_info,
                    after_inode,
                    block_address(self.fs_info, block_number as int),
                    zero_block.data@,
                );
                assert(fbl_values(self.fs_info, self.device@)[block_number as int] == fbl_slot(
                    self.fs_info,
                    before_inode,
                    block_number as int,
                ));
                assert(fbl_slots(self.fs_info) >= self.fs_info.blocks_count);
                lemma_fbl_slot_write(self.fs_info, before_claim, block_number as int, NO_ADDRESS);
                lemma_auto_spec_u32_to_from_le_bytes();
                lemma_write_at_read_back(
                    before_claim,
                    fbl_slot_address(self.fs_info, block_number as int),
                    spec_u32_to_le_bytes(NO_ADDRESS),
                );
            }
        }
        proof {
            if inode_number < self.fs_info.inodes_count || block_number != 0 {
                lemma_layout_bounds(self.fs_info);
                lemma_read_inode_after_write(before_inode, inode, inode_number);
                let lo = inode_address(inode_number as int);
                let hi = lo + INODE_RECORD_SIZE;
                let bs = self.fs_info.block_size as int;
                assert(block_number * bs >= 0) by (nonlinear_arith)
                    requires
                        bs >= 0,
                ;
                if block_number != 0 {
                    assert(block_number * bs >= bs) by (nonlinear_arith)
                        requires
                            block_number >= 1,
                            bs >= 0,
                    ;
                }
                assert(block_address(self.fs_info, block_number as int) >= self.fs_info.first_block_address);
                assert(hi <= self.fs_info.first_block_address || hi <= block_address(self.fs_info, block_number as int));
                lemma_write_at_frame(
                    after_inode,
                    block_address(self.fs_info, block_number as int),
                    zero_block.data@,
                    lo,
                    hi,
                );
                lemma_inode_slot_determines(after_inode, self.device@, inode_number);
                assert(inode_at(self.device@, inode_number) == inode);
            }
        }
        proof {
            let cache = start.superblock.free_inode_numbers@;
            let k2 = choose|k2: int| first_cached_at(cache, k2, inode_number);
            assert(first_cached_at(cache, k2, inode_number));
            let values = fbl_values(start.fs_info, start.device@);
            assert(first_free_value(values, block_number));
        }
        proof {
            lemma_layout_bounds(self.fs_info);
            lemma_superblock_bytes_decode(claimed_superblock);
            let sb = write_at(start.device@, 0, superblock_bytes(claimed_superblock));
            lemma_write_at_read_back(start.device@, 0, superblock_bytes(claimed_superblock));
            assert(sb.subrange(0, SUPERBLOCK_SIZE as int) == superblock_bytes(claimed_superblock));
            lemma_high_write_keeps_superblock(
                sb,
                inode_address(inode_number as int),
                inode_bytes(with_free_flag(inode_at(start.device@, inode_number), 0)),
            );
            lemma_high_write_keeps_superblock(
                before_claim,
                fbl_slot_address(self.fs_info, block_number as int),
                spec_u32_to_le_bytes(NO_ADDRESS),
            );
            lemma_high_write_keeps_superblock(before_inode, inode_address(inode_number as int), inode_bytes(inode));
            lemma_high_write_keeps_superblock(
                after_inode,
                block_address(self.fs_info, block_number as int),
                zero_block.data@,
            );
            assert(stores_superblock(*self));
        }
        Ok((inode_number, inode))
    }
}

/// The start of the device holds the bytes of the superblock `fs` keeps.
pub open spec fn stores_superblock(fs: E5FSFilesystem) -> bool {
    fs.device@.subrange(0, SUPERBLOCK_SIZE as int) == superblock_bytes(fs.superblock)
}

/// A write that starts after the superblock leaves the superblock's bytes
/// as they were.
pub proof fn lemma_high_write_keeps_superblock(device: Seq<u8>, offset: int, bytes: Seq<u8>)
    requires
        device.len() >= SUPERBLOCK_SIZE,
        offset >= SUPERBLOCK_SIZE,
    ensures
        write_at(device, offset, bytes).subrange(0, SUPERBLOCK_SIZE as int) == device.subrange(
            0,
            SUPERBLOCK_SIZE as int,
        ),
{
    lemma_write_at_frame(device, offset, bytes, 0, SUPERBLOCK_SIZE as int);
}

/// The block `b` of `fs` holds zeros alone.
pub open spec fn block_zeroed(fs: E5FSFilesystem, b: u32) -> bool {
    let at = block_address(fs.fs_info, b as int);
    fs.device@.subrange(at, at + fs.fs_info.block_size) == Seq::new(fs.fs_info.block_size as nat, |i: int| 0u8)
}

/// Whether a file can be allocated in `fs`: the cache of free inodes names
/// an inode of the table first, and the free blocks list names a block of
/// the device first.
pub open spec fn can_allocate(fs: E5FSFilesystem) -> bool {
    &&& exists|k: int, n: u32| #[trigger] first_cached_at(fs.superblock.free_inode_numbers@, k, n)
        && n <= fs.fs_info.inodes_count
    &&& exists|v: u32| #[trigger] first_free_value(fbl_values(fs.fs_info, fs.device@), v) && v < fs.fs_info.blocks_count
}

/// A write that ends before the free blocks list leaves the list as it was.
pub proof fn lemma_low_write_keeps_fbl(layout: E5FSFilesystemBuilder, device: Seq<u8>, offset: int, bytes: Seq<u8>)
    requires
        layout_wf(layout),
        device.len() >= layout.filesystem_size,
        0 <= offset,
        offset + bytes.len() <= layout.first_fbl_block_address,
    ensures
        fbl_values(layout, write_at(device, offset, bytes)) == fbl_values(layout, device),
{
    lemma_layout_bounds(layout);
    let d = write_at(device, offset, bytes);
    let f = layout.first_fbl_block_address as int;
    let t = layout.filesystem_size as int;
    lemma_write_at_frame(device, offset, bytes, f, t);
    assert forall|i: int| 0 <= i < fbl_slots(layout) implies #[trigger] fbl_slot(layout, d, i) == fbl_slot(
        layout,
        device,
        i,
    ) by {
        let a = fbl_slot_address(layout, i);
        assert(f <= a && a + 4 <= t);
        assert(d.subrange(a, a + 4) =~= device.subrange(a, a + 4)) by {
            assert forall|j: int| 0 <= j < 4 implies #[trigger] d.subrange(a, a + 4)[j] == device.subrange(a, a + 4)[j] by {
                assert(d.subrange(f, t)[a + j - f] == device.subrange(f, t)[a + j - f]);
            }
        }
    }
    assert(fbl_values(layout, d) =~= fbl_values(layout, device));
}

/// The inode in a slot depends only on the bytes of the slot.
pub proof fn lemma_inode_slot_determines(a: Seq<u8>, b: Seq<u8>, n: AddressSize)
    requires
        inode_address(n as int) + INODE_RECORD_SIZE <= a.len(),
        inode_address(n as int) + INODE_RECORD_SIZE <= b.len(),
        a.subrange(inode_address(n as int), inode_address(n as int) + INODE_RECORD_SIZE)
            == b.subrange(inode_address(n as int), inode_address(n as int) + INODE_RECORD_SIZE),
    ensures
        inode_at(a, n) == inode_at(b, n),
{
}

} // verus!

verus! {

impl E5FSFilesystem {
    /// Gives a file `blocks_count` more blocks, claimed from the free blocks
    /// list, in the direct block slots after its last block.
    pub fn grow_file(&mut self, inode_number: AddressSize, blocks_count: AddressSize) -> (result: Result<INode, Errno>)
        requires
            old(self).wf(),
        ensures
            final(self).wf(),
            final(self).fs_info == old(self).fs_info,
            final(self).superblock == old(self).superblock,
            inode_number > old(self).fs_info.inodes_count ==> (result matches Err(Errno::ENOENT(m))
                && m@ == "write_inode: inode_number out of bounds"@ && final(self).device@ == old(self).device@),
            inode_number <= old(self).fs_info.inodes_count ==> ({
                let before = inode_at(old(self).device@, inode_number);
                let slot = prefix_len(before.direct_block_numbers@);
                &&& slot == 12 ==> (result matches Err(Errno::EIO(m))
                    && m@ == "no more empty block slots in inode"@ && final(self).device@ == old(self).device@)
                &&& slot < 12 && 11 - slot < blocks_count ==> (result matches Err(Errno::EIO(m))
                    && m@ == "not enough empty block slots in inode"@ && final(self).device@ == old(self).device@)
                &&& result matches Ok(grown) ==> {
                    &&& slot + blocks_count <= 11
                    &&& grown == (INode { direct_block_numbers: grown.direct_block_numbers, ..before })
                    &&& forall|k: int| 0 <= k < 12 && !(slot <= k < slot + blocks_count)
                        ==> #[trigger] grown.direct_block_numbers@[k] == before.direct_block_numbers@[k]
                    &&& forall|k: int| slot <= k < slot + blocks_count
                        ==> #[trigger] grown.direct_block_numbers@[k] < old(self).fs_info.blocks_count
                    &&& inode_at(final(self).device@, inode_number) == grown
                }
            }),
    {
        if inode_number > self.fs_info.inodes_count {
            return Err(Errno::ENOENT("write_inode: inode_number out of bounds".to_owned()));
        }
        let mut inode = self.read_inode(inode_number);
        let ghost before = inode;
        let slot = self.get_inode_blocks_count(inode_number);
        proof {
            lemma_prefix_len(inode.direct_block_numbers@);
        }
        if slot >= 12 {
            return Err(Errno::EIO("no more empty block slots in inode".to_owned()));
        }
        let free_slots_count = 12 - (slot + 1);
        if free_slots_count < blocks_count {
            return Err(Errno::EIO("not enough empty block slots in inode".to_owned()));
        }
        proof {
            lemma_layout_bounds(self.fs_info);
        }
        let mut claimed: Vec<AddressSize> = Vec::new();
        let mut k: u32 = 0;
        while k < blocks_count
            invariant
                self.wf(),
                self.fs_info == old(self).fs_info,
                self.superblock == old(self).superblock,
                inode_number <= self.fs_info.inodes_count,
                slot == prefix_len(inode_at(old(self).device@, inode_number).direct_block_numbers@),
                slot < 12,
                11 - slot >= blocks_count,
                old(self).wf(),
                k <= blocks_count,
                claimed@.len() == k,
                forall|j: int| 0 <= j < k ==> #[trigger] claimed@[j] < self.fs_info.blocks_count,
                self.device@.subrange(inode_address(inode_number as int), inode_address(inode_number as int) + INODE_RECORD_SIZE)
                    == old(self).device@.subrange(inode_address(inode_number as int), inode_address(inode_number as int) + INODE_RECORD_SIZE),
            decreases blocks_count - k,
        {
            let ghost d = self.device@;
            let block_number = match self.claim_free_block() {
                Ok(b) => b,
                Err(e) => {
                    return Err(e);
                },
            };
            proof {
                lemma_layout_bounds(self.fs_info);
                lemma_fbl_write_frame(
                    self.fs_info,
                    d,
                    block_number as int,
                    spec_u32_to_le_bytes(NO_ADDRESS),
                    inode_address(inode_number as int),
                    inode_address(inode_number as int) + INODE_RECORD_SIZE,
                );
            }
            claimed.push(block_number);
            k = k + 1;
        }
        proof {
            lemma_inode_slot_determines(old(self).device@, self.device@, inode_number);
        }
        let mut k: usize = 0;
        while k < blocks_count as usize
            invariant
                slot + blocks_count <= 11,
                claimed@.len() == blocks_count,
                k <= blocks_count,
                inode == (INode { direct_block_numbers: inode.direct_block_numbers, ..before }),
                forall|j: int| 0 <= j < 12 && !(slot <= j < slot + k) ==> #[trigger] inode.direct_block_numbers@[j]
                    == before.direct_block_numbers@[j],
                forall|j: int| slot <= j < slot + k ==> #[trigger] inode.direct_block_numbers@[j] == claimed@[j - slot],
            decreases blocks_count - k,
        {
            inode.direct_block_numbers[slot as usize + k] = claimed[k];
            k = k + 1;
        }
        let ghost before_write = self.device@;
        match self.write_inode(&inode, inode_number) {
            Ok(()) => {},
            Err(e) => {
                return Err(e);
            },
        }
        proof {
            lemma_read_inode_after_write(before_write, inode, inode_number);
            assert forall|j: int| slot <= j < slot + blocks_count implies #[trigger] inode.direct_block_numbers@[j]
                < old(self).fs_info.blocks_count by {
                assert(claimed@[j - slot] < self.fs_info.blocks_count);
            }
        }
        Ok(inode)
    }
}

} // verus!

verus! {

/// The leading run of block numbers is at least as long as any run of
/// numbers that are not `NO_ADDRESS` at the front.
pub proof fn lemma_prefix_len_at_least(blocks: Seq<u32>, m: int)
    requires
        0 <= m <= blocks.len(),
        forall|k: int| 0 <= k < m ==> #[trigger] blocks[k] != NO_ADDRESS,
    ensures
        prefix_len(blocks) >= m,
    decreases m,
{
    if m > 0 {
        assert forall|k: int| 0 <= k < m - 1 implies #[trigger] blocks.drop_first()[k] != NO_ADDRESS by {
            assert(blocks.drop_first()[k] == blocks[k + 1]);
        }
        lemma_prefix_len_at_least(blocks.drop_first(), m - 1);
    }
}

/// The block numbers are all different and all name blocks of the layout.
pub open spec fn distinct_blocks(layout: E5FSFilesystemBuilder, blocks: Seq<u32>) -> bool {
    &&& forall|k: int| 0 <= k < blocks.len() ==> #[trigger] blocks[k] < layout.blocks_count
    &&& forall|i: int, j: int| 0 <= i < j < blocks.len() ==> #[trigger] blocks[i] != #[trigger] blocks[j]
}

/// Two different blocks do not overlap.
pub proof fn lemma_blocks_disjoint(layout: E5FSFilesystemBuilder, a: int, b: int)
    requires
        layout_wf(layout),
        0 <= a < b,
    ensures
        block_address(layout, a) + layout.block_size <= block_address(layout, b),
{
    let bs = layout.block_size as int;
    assert(a * bs + bs <= b * bs) by (nonlinear_arith)
        requires
            a < b,
            bs >= 0,
    ;
}

/// Byte `j * block_size + r` of the blocks' bytes is byte `r` of block `j`.
pub proof fn lemma_blocks_content_index(layout: E5FSFilesystemBuilder, device: Seq<u8>, blocks: Seq<u32>, j: int, r: int)
    requires
        layout_wf(layout),
        device.len() >= layout.filesystem_size,
        forall|k: int| 0 <= k < blocks.len() ==> #[trigger] blocks[k] < layout.blocks_count,
        0 <= j < blocks.len(),
        0 <= r < layout.block_size,
    ensures
        blocks_content(layout, device, blocks).len() == blocks.len() * layout.block_size,
        blocks_content(layout, device, blocks)[j * layout.block_size + r] == device[block_address(layout, blocks[j] as int) + r],
    decreases blocks.len(),
{
    lemma_layout_bounds(layout);
    let bs = layout.block_size as int;
    let front = blocks.drop_last();
    lemma_blocks_content_len(layout, device, front);
    assert(block_address(layout, blocks.last() as int) + bs <= layout.filesystem_size);
    if j < blocks.len() - 1 {
        lemma_blocks_content_index(layout, device, front, j, r);
        assert(j * bs + r < front.len() * bs) by (nonlinear_arith)
            requires
                0 <= j < front.len(),
                0 <= r < bs,
        ;
    } else {
        assert(j * bs == front.len() * bs);
    }
    assert(blocks.len() * bs == front.len() * bs + bs) by (nonlinear_arith)
        requires
            blocks.len() == front.len() + 1,
    ;
}

/// The blocks' bytes are a block's worth per block.
pub proof fn lemma_blocks_content_len(layout: E5FSFilesystemBuilder, device: Seq<u8>, blocks: Seq<u32>)
    requires
        layout_wf(layout),
        device.len() >= layout.filesystem_size,
        forall|k: int| 0 <= k < blocks.len() ==> #[trigger] blocks[k] < layout.blocks_count,
    ensures
        blocks_content(layout, device, blocks).len() == blocks.len() * layout.block_size,
    decreases blocks.len(),
{
    if blocks.len() > 0 {
        lemma_layout_bounds(layout);
        let front = blocks.drop_last();
        lemma_blocks_content_len(layout, device, front);
        assert(block_address(layout, blocks.last() as int) + layout.block_size <= layout.filesystem_size);
        assert(blocks.len() * layout.block_size == front.len() * layout.block_size + layout.block_size)
            by (nonlinear_arith)
            requires
                blocks.len() == front.len() + 1,
        ;
    }
}

/// The bytes of `data` from `start` to `end`.
fn copy_range(data: &Vec<u8>, start: usize, end: usize) -> (out: Vec<u8>)
    requires
        start <= end <= data@.len(),
    ensures
        out@ == data@.subrange(start as int, end as int),
{
    let mut out: Vec<u8> = Vec::new();
    let mut i = start;
    while i < end
        invariant
            start <= i <= end <= data@.len(),
            out@ == data@.subrange(start as int, i as int),
        decreases end - i,
    {
        out.push(data[i]);
        proof {
            assert(out@ =~= data@.subrange(start as int, i + 1));
        }
        i = i + 1;
    }
    out
}

/// What a successful write of `data` to the file of inode `inode_number`
/// leaves: the inode it wrote, with the file's new size and the old inode's
/// mode, links, owners, birth time and indirect blocks, stored in its slot;
/// blocks enough for the data; and the data as the file's contents, where
/// the file's blocks are distinct.
pub open spec fn wrote_data(
    layout: E5FSFilesystemBuilder,
    before_device: Seq<u8>,
    after_device: Seq<u8>,
    inode_number: AddressSize,
    data: Seq<u8>,
    written: INode,
) -> bool {
    let before = inode_at(before_device, inode_number);
    &&& inode_number <= layout.inodes_count
    &&& written.number == inode_number
    &&& written.file_size == data.len() as u32
    &&& written.mode == before.mode
    &&& written.links_count == before.links_count
    &&& written.uid == before.uid
    &&& written.gid == before.gid
    &&& written.btime == before.btime
    &&& written.indirect_block_numbers == before.indirect_block_numbers
    &&& inode_at(after_device, inode_number) == written
    &&& block_prefix(written).len() * layout.block_size >= data.len()
    &&& (inode_number < layout.inodes_count && data.len() <= 0xFFFF_FFFF && distinct_blocks(layout, block_prefix(written)))
        ==> file_data(layout, after_device, written) == data
}

/// Data of `len` bytes fits in the blocks the file of inode `n` already has,
/// and each of those blocks is on the device.
pub open spec fn fits_in_place(fs: E5FSFilesystem, n: AddressSize, len: nat) -> bool {
    let blocks = block_prefix(inode_at(fs.device@, n));
    &&& n <= fs.fs_info.inodes_count
    &&& len <= blocks.len() * fs.fs_info.block_size
    &&& forall|k: int| 0 <= k < blocks.len() ==> #[trigger] blocks[k] < fs.fs_info.blocks_count
}

impl E5FSFilesystem {
    /// Writes `data` as the whole contents of a file, growing the file by as
    /// many blocks as the data needs, and stamps its times.
    pub fn write_data_i(&mut self, data: Vec<u8>, inode_number: AddressSize, append: bool) -> (result: Result<INode, Errno>)
        requires
            old(self).wf(),
        ensures
            final(self).wf(),
            final(self).fs_info == old(self).fs_info,
            final(self).superblock == old(self).superblock,
            inode_number > old(self).fs_info.inodes_count ==> (result matches Err(Errno::ENOENT(m))
                && m@ == "write_inode: inode_number out of bounds"@ && final(self).device@ == old(self).device@),
            result matches Ok(written) ==> wrote_data(old(self).fs_info, old(self).device@, final(self).device@,
                inode_number, data@, written),
            fits_in_place(*old(self), inode_number, data@.len()) ==> result is Ok,
            fits_in_place(*old(self), inode_number, data@.len()) ==> final(self).device@.subrange(
                0,
                SUPERBLOCK_SIZE as int,
            ) == old(self).device@.subrange(0, SUPERBLOCK_SIZE as int),
            fits_in_place(*old(self), inode_number, data@.len()) ==> forall|q: AddressSize|
                q < old(self).fs_info.inodes_count && q != inode_number ==> #[trigger] inode_at(final(self).device@, q)
                    == inode_at(old(self).device@, q),
            fits_in_place(*old(self), inode_number, data@.len()) ==> (result matches Ok(w) && w.direct_block_numbers
                == inode_at(old(self).device@, inode_number).direct_block_numbers),
            fits_in_place(*old(self), inode_number, data@.len()) && inode_number < old(self).fs_info.inodes_count
                && below_free_list(old(self).fs_info, block_prefix(inode_at(old(self).device@, inode_number))) ==> fbl_values(
                final(self).fs_info,
                final(self).device@,
            ) == fbl_values(old(self).fs_info, old(self).device@),
    {
        if inode_number > self.fs_info.inodes_count {
            return Err(Errno::ENOENT("write_inode: inode_number out of bounds".to_owned()));
        }
        let ghost before = inode_at(self.device@, inode_number);
        let ghost fits = fits_in_place(*self, inode_number, data@.len());
        let count = self.get_inode_blocks_count(inode_number);
        let bs = self.fs_info.block_size;
        proof {
            lemma_layout_bounds(self.fs_info);
            lemma_prefix_len(before.direct_block_numbers@);
        }
        proof {
            assert(count as int * bs as int <= 12 * 0xFFFF_FFFF) by (nonlinear_arith)
                requires
                    count <= 12,
                    bs <= 0xFFFF_FFFF,
            ;
        }
        let have: u64 = count as u64 * bs as u64;
        proof {
            assert(block_prefix(before).len() == count);
        }
        if data.len() as u64 > have {
            let difference: u64 = data.len() as u64 - have;
            proof {
                assert(difference as int / (bs as int) <= difference as int / 512) by (nonlinear_arith)
                    requires
                        bs >= 512,
                ;
            }
            let wanted: u64 = difference / bs as u64 + if difference % bs as u64 != 0 { 1u64 } else { 0u64 };
            proof {
                assert(wanted == (difference as int + bs - 1) / (bs as int)) by (nonlinear_arith)
                    requires
                        bs > 0,
                        wanted == (difference as int) / (bs as int) + if (difference as int) % (bs as int) != 0 { 1int } else { 0int },
                ;
            }
            let grow = if wanted > 0xFFFF_FFFF { 0xFFFF_FFFFu32 } else { wanted as u32 };
            match self.grow_file(inode_number, grow) {
                Ok(grown) => {
                    proof {
                        let slot = count as int;
                        assert forall|k: int| 0 <= k < slot + grow implies #[trigger] grown.direct_block_numbers@[k]
                            != NO_ADDRESS by {
                            if k < slot {
                                assert(grown.direct_block_numbers@[k] == before.direct_block_numbers@[k]);
                            } else {
                                assert(grown.direct_block_numbers@[k] < self.fs_info.blocks_count);
                            }
                        }
                        lemma_prefix_len_at_least(grown.direct_block_numbers@, slot + grow);
                        assert((slot + grow) * bs >= data@.len()) by (nonlinear_arith)
                            requires
                                wanted == (difference + bs - 1) / (bs as int),
                                grow == wanted,
                                difference == data@.len() - slot * bs,
                                bs > 0,
                        ;
                        assert(prefix_len(grown.direct_block_numbers@) * bs >= data@.len()) by (nonlinear_arith)
                            requires
                                prefix_len(grown.direct_block_numbers@) >= slot + grow,
                                (slot + grow) * bs >= data@.len(),
                                bs > 0,
                        ;
                    }
                },
                Err(e) => {
                    return Err(e);
                },
            }
        }
        let mut inode = self.read_inode(inode_number);
        let ghost prefix = block_prefix(inode);
        proof {
            lemma_prefix_len(inode.direct_block_numbers@);
            assert(prefix.len() * bs >= data@.len());
            if fits {
                assert(inode == before);
            }
        }
        let len = data.len();
        let mut offset: usize = 0;
        let mut k: usize = 0;
        while offset < len
            invariant
                self.wf(),
                self.fs_info == old(self).fs_info,
                self.superblock == old(self).superblock,
                bs == self.fs_info.block_size,
                len == data@.len(),
                inode_number <= self.fs_info.inodes_count,
                prefix == block_prefix(inode),
                prefix_len(inode.direct_block_numbers@) <= 12,
                prefix.len() <= 12,
                prefix.len() * bs >= len,
                fits == fits_in_place(*old(self), inode_number, data@.len()),
                fits && inode_number < old(self).fs_info.inodes_count && below_free_list(
                    old(self).fs_info,
                    block_prefix(inode_at(old(self).device@, inode_number)),
                ) ==> prefix == block_prefix(inode_at(old(self).device@, inode_number)) && fbl_values(
                    self.fs_info,
                    self.device@,
                ) == fbl_values(old(self).fs_info, old(self).device@),
                fits ==> forall|q: AddressSize| q < self.fs_info.inodes_count && q != inode_number ==> #[trigger] inode_at(
                    self.device@,
                    q,
                ) == inode_at(old(self).device@, q),
                fits ==> forall|j: int| 0 <= j < prefix.len() ==> #[trigger] prefix[j] < self.fs_info.blocks_count,
                fits ==> self.device@.subrange(0, SUPERBLOCK_SIZE as int) == old(self).device@.subrange(
                    0,
                    SUPERBLOCK_SIZE as int,
                ),
                offset == k * bs || (offset == len && k * bs >= len),
                offset <= len,
                k <= prefix.len(),
                distinct_blocks(self.fs_info, prefix) ==> forall|j: int, r: int|
                    0 <= j < k && 0 <= r < bs && j * bs + r < len ==> self.device@[block_address(self.fs_info, #[trigger] prefix[j] as int) + r]
                        == data@[#[trigger] (j * bs + r)],
            decreases len - offset,
        {
            proof {
                assert(k < prefix.len()) by (nonlinear_arith)
                    requires
                        offset == k * bs,
                        offset < len,
                        prefix.len() * bs >= len,
                        bs > 0,
                ;
            }
            let end = if len - offset > bs as usize { offset + bs as usize } else { len };
            let chunk = copy_range(&data, offset, end);
            let ghost chunk_view = chunk@;
            let block_number = inode.direct_block_numbers[k];
            assert(block_number == prefix[k as int]);
            let ghost d = self.device@;
            match self.write_block(&Block { data: chunk }, block_number) {
                Ok(()) => {},
                Err(e) => {
                    proof {
                        lemma_layout_bounds(self.fs_info);
                        assert(chunk_view.len() <= bs);
                        if fits {
                            assert(prefix[k as int] < self.fs_info.blocks_count);
                        }
                    }
                    return Err(e);
                },
            }
            proof {
                if fits && inode_number < old(self).fs_info.inodes_count && below_free_list(
                    old(self).fs_info,
                    block_prefix(inode_at(old(self).device@, inode_number)),
                ) {
                    lemma_layout_bounds(self.fs_info);
                    let bsi = bs as int;
                    assert(prefix[k as int] < self.fs_info.first_fbl_block_number);
                    assert(block_number * bsi + bsi <= self.fs_info.first_fbl_block_number * bsi) by (nonlinear_arith)
                        requires
                            block_number < self.fs_info.first_fbl_block_number,
                            bsi >= 0,
                    ;
                    assert(chunk_view.len() <= bsi);
                    lemma_low_write_keeps_fbl(self.fs_info, d, block_address(self.fs_info, block_number as int), chunk_view);
                }
                if fits {
                    lemma_layout_bounds(self.fs_info);
                    lemma_high_write_keeps_superblock(d, block_address(self.fs_info, block_number as int), chunk_view);
                    assert forall|q: AddressSize| q < self.fs_info.inodes_count && q != inode_number implies #[trigger] inode_at(
                        self.device@,
                        q,
                    ) == inode_at(old(self).device@, q) by {
                        let bsi = bs as int;
                        assert(block_number * bsi >= 0) by (nonlinear_arith)
                            requires
                                bsi >= 0,
                        ;
                        assert(inode_address(q as int) + INODE_RECORD_SIZE <= self.fs_info.first_block_address);
                        lemma_write_keeps_slot(d, block_address(self.fs_info, block_number as int), chunk_view, q);
                    }
                }
                if distinct_blocks(self.fs_info, prefix) {
                    let bk = block_number as int;
                    assert(bk < self.fs_info.blocks_count);
                    assert(chunk_view.len() <= bs);
                    assert(self.device@ == write_at(d, block_address(self.fs_info, bk), chunk_view));
                    assert forall|j: int, r: int|
                        0 <= j < k + 1 && 0 <= r < bs && j * bs + r < len implies self.device@[block_address(self.fs_info, #[trigger] prefix[j] as int) + r]
                            == data@[#[trigger] (j * bs + r)] by {
                        let bj = prefix[j] as int;
                        lemma_layout_bounds(self.fs_info);
                        assert(bj < self.fs_info.blocks_count);
                        assert(block_address(self.fs_info, bj) + bs <= self.fs_info.filesystem_size);
                        if j < k {
                            assert(bj != bk);
                            if bj < bk {
                                lemma_blocks_disjoint(self.fs_info, bj, bk);
                            } else {
                                lemma_blocks_disjoint(self.fs_info, bk, bj);
                            }
                            assert(d[block_address(self.fs_info, bj) + r] == data@[j * bs + r]);
                        } else {
                            assert(j == k);
                            assert(offset + r < end);
                            assert(chunk_view[r] == data@[offset + r]);
                        }
                    }
                }
            }
            proof {
                if end == offset + bs {
                    assert((k + 1) * bs == k * bs + bs) by (nonlinear_arith);
                } else {
                    assert(end == len);
                    assert((k + 1) * bs >= len) by (nonlinear_arith)
                        requires
                            offset == k * bs,
                            len - offset <= bs,
                    ;
                }
            }
            offset = end;
            k = k + 1;
        }
        inode.file_size = len as u32;
        inode.atime = crate::util::unixtime();
        inode.mtime = crate::util::unixtime();
        inode.ctime = crate::util::unixtime();
        let ghost before_write = self.device@;
        match self.write_inode(&inode, inode_number) {
            Ok(()) => {},
            Err(e) => {
                return Err(e);
            },
        }
        proof {
            if fits {
                lemma_layout_bounds(self.fs_info);
                lemma_high_write_keeps_superblock(before_write, inode_address(inode_number as int), inode_bytes(inode));
                assert forall|q: AddressSize| q < self.fs_info.inodes_count && q != inode_number implies #[trigger] inode_at(
                    self.device@,
                    q,
                ) == inode_at(old(self).device@, q) by {
                    lemma_read_inode_after_other_write(before_write, inode, inode_number, q);
                }
                if inode_number < self.fs_info.inodes_count {
                    lemma_inode_bytes_decode(inode);
                    lemma_low_write_keeps_fbl(self.fs_info, before_write, inode_address(inode_number as int), inode_bytes(inode));
                }
            }
        }
        proof {
            assert(k * bs >= len);
            lemma_read_inode_after_write(before_write, inode, inode_number);
            if inode_number < self.fs_info.inodes_count && len <= 0xFFFF_FFFF && distinct_blocks(self.fs_info, prefix) {
                lemma_blocks_content_len(self.fs_info, self.device@, prefix);
                let content = blocks_content(self.fs_info, self.device@, prefix);
                assert(content.len() >= len) by (nonlinear_arith)
                    requires
                        content.len() == prefix.len() * bs,
                        prefix.len() * bs >= len,
                ;
                assert forall|idx: int| 0 <= idx < len implies content[idx] == data@[idx] by {
                    let j = idx / (bs as int);
                    let r = idx % (bs as int);
                    assert(idx == j * bs + r) by (nonlinear_arith)
                        requires
                            bs > 0,
                            j == idx / (bs as int),
                            r == idx % (bs as int),
                    ;
                    assert(0 <= r < bs);
                    assert(0 <= j);
                    assert(j < k) by (nonlinear_arith)
                        requires
                            idx == j * bs + r,
                            idx < len,
                            0 <= r,
                            k * bs >= len,
                            bs > 0,
                    ;
                    lemma_blocks_content_index(self.fs_info, self.device@, prefix, j, r);
                    let addr = block_address(self.fs_info, prefix[j] as int) + r;
                    lemma_layout_bounds(self.fs_info);
                    assert(prefix[j] < self.fs_info.blocks_count);
                    assert(block_address(self.fs_info, prefix[j] as int) + bs <= self.fs_info.filesystem_size);
                    assert(addr >= self.fs_info.first_block_address);
                    assert(inode_address(inode_number as int) + INODE_SIZE <= self.fs_info.first_block_address);
                    assert(self.device@ == write_at(before_write, inode_address(inode_number as int), inode_bytes(inode)));
                    lemma_inode_bytes_decode(inode);
                    assert(addr < before_write.len());
                    assert(!(inode_address(inode_number as int) <= addr < inode_address(inode_number as int) + inode_bytes(inode).len()));
                    assert(self.device@[addr] == before_write[addr]);
                    assert(before_write[block_address(self.fs_info, prefix[j] as int) + r] == data@[j * bs + r]);
                    assert(content[j * bs + r] == self.device@[addr]);
                }
                assert(file_data(self.fs_info, self.device@, inode) =~= data@);
            }
        }
        Ok(inode)
    }
}

} // verus!

verus! {

/// What a directory entry holds: its inode number, record length, name
/// length in bytes, and name.
pub type EntryView = (AddressSize, u16, u8, Seq<char>);

/// A directory entry as it is stored: the inode number, the length of the
/// record, the length of the name in bytes, and the name.
#[derive(Debug, PartialEq, Eq)]
pub struct DirectoryEntry {
    pub inode_number: AddressSize,
    pub rec_len: u16,
    pub name_len: u8,
    pub name: String,
}

impl View for DirectoryEntry {
    type V = EntryView;

    open spec fn view(&self) -> EntryView {
        (self.inode_number, self.rec_len, self.name_len, self.name@)
    }
}

impl Named for DirectoryEntry {
    open spec fn spec_name(&self) -> Seq<char> {
        self.name@
    }

    fn name_str(&self) -> (s: &str) {
        self.name.as_str()
    }
}

/// The name length an entry records is the length of its name in bytes.
pub open spec fn entry_wf(e: EntryView) -> bool {
    e.2 as nat == encode_utf8(e.3).len()
}

/// The entry `DirectoryEntry::new` makes for a name of `len` bytes.
pub open spec fn new_entry(inode_number: AddressSize, name: Seq<char>) -> EntryView {
    let len = encode_utf8(name).len();
    (inode_number, (7 + len) as u16, len as u8, name)
}

impl DirectoryEntry {
    /// An entry for `name`, leading to inode `inode_number`; its record
    /// length counts the inode number, the record and name lengths and the
    /// name.
    pub fn new(inode_number: AddressSize, name: &str) -> (result: Result<Self, Errno>)
        ensures
            encode_utf8(name@).len() > 255 ==> (result matches Err(Errno::ENAMETOOLONG(m))
                && m@ == "DirectoryEntry::new: name can't be bigger than 255"@),
            encode_utf8(name@).len() <= 255 ==> (result matches Ok(e) && e@ == new_entry(inode_number, name@)),
    {
        let len = name.as_bytes().len();
        if len > 255 {
            return Err(Errno::ENAMETOOLONG("DirectoryEntry::new: name can't be bigger than 255".to_owned()));
        }
        Ok(DirectoryEntry {
            inode_number,
            rec_len: (7 + len) as u16,
            name_len: len as u8,
            name: name.to_owned(),
        })
    }
}

/// A directory as e5fs stores it: entries sorted by name, none twice, and
/// their count.
#[derive(Debug, PartialEq, Eq)]
pub struct Directory {
    pub entries_count: AddressSize,
    pub entries: Vec<DirectoryEntry>,
}

impl View for Directory {
    type V = Map<Seq<char>, EntryView>;

    /// Each name in the directory, with its entry.
    open spec fn view(&self) -> Map<Seq<char>, EntryView> {
        Map::new(
            |n: Seq<char>| lookup_named(self.entries@, n) is Some,
            |n: Seq<char>| lookup_named(self.entries@, n).unwrap()@,
        )
    }
}

impl Directory {
    /// Entries sorted by name and none twice, each with its name length,
    /// and counted.
    pub open spec fn wf(&self) -> bool {
        &&& sorted_names(names_of(self.entries@))
        &&& self.entries_count == self.entries@.len()
        &&& forall|k: int| 0 <= k < self.entries@.len() ==> entry_wf(#[trigger] self.entries@[k]@)
    }

    /// An empty directory.
    pub fn new() -> (dir: Self)
        ensures
            dir.wf(),
            dir@ == Map::<Seq<char>, EntryView>::empty(),
            dir.entries@.len() == 0,
    {
        let dir = Directory { entries_count: 0, entries: Vec::new() };
        proof {
            assert forall|n: Seq<char>| !dir@.contains_key(n) by {
                lemma_lookup_named_some(dir.entries@, n);
            }
            assert(dir@ =~= Map::<Seq<char>, EntryView>::empty());
        }
        dir
    }

    /// The inode number the entry `name` leads to, if there is one.
    pub fn get(&self, name: &str) -> (inode_number: Option<AddressSize>)
        requires
            self.wf(),
        ensures
            self@.contains_key(name@) ==> inode_number == Some(self@[name@].0),
            !self@.contains_key(name@) ==> inode_number is None,
    {
        proof {
            lemma_lookup_named_some(self.entries@, name@);
        }
        match find_named(&self.entries, name) {
            Some(i) => Some(self.entries[i].inode_number),
            None => None,
        }
    }

    /// Adds an entry `name` for inode `inode_number`.
    pub fn insert(&mut self, inode_number: AddressSize, name: &str) -> (result: Result<(), Errno>)
        requires
            old(self).wf(),
            old(self).entries@.len() < 0xFFFF_FFFF,
        ensures
            final(self).wf(),
            old(self)@.contains_key(name@) ==> (result matches Err(Errno::EEXIST(m))
                && m@ == "e5fs::Directory: entry "@ + name@ + " already exists"@
                && final(self).entries@ == old(self).entries@),
            !old(self)@.contains_key(name@) && encode_utf8(name@).len() > 255 ==> (result matches Err(
                Errno::ENAMETOOLONG(m)) && m@ == "DirectoryEntry::new: name can't be bigger than 255"@
                && final(self).entries@ == old(self).entries@),
            !old(self)@.contains_key(name@) && encode_utf8(name@).len() <= 255 ==> (result is Ok
                && final(self)@ == old(self)@.insert(name@, new_entry(inode_number, name@))
                && final(self).entries@.len() == old(self).entries@.len() + 1),
    {
        proof {
            lemma_lookup_named_some(self.entries@, name@);
        }
        if find_named(&self.entries, name).is_some() {
            let mut message = "e5fs::Directory: entry ".to_owned();
            message.append(name);
            message.append(" already exists");
            return Err(Errno::EEXIST(message));
        }
        let entry = match DirectoryEntry::new(inode_number, name) {
            Ok(e) => e,
            Err(e) => {
                return Err(e);
            },
        };
        let ghost e = entry;
        let ghost before = self.entries@;
        let ghost old_view = self@;
        insert_named(&mut self.entries, entry);
        self.entries_count = self.entries_count + 1;
        proof {
            let pos = choose|pos: int| 0 <= pos <= before.len() && self.entries@ == before.insert(pos, e);
            lemma_lookup_named_at(self.entries@, pos);
            assert forall|k: int| 0 <= k < self.entries@.len() implies entry_wf(#[trigger] self.entries@[k]@) by {
                if k < pos {
                    assert(self.entries@[k] == before[k]);
                } else if k > pos {
                    assert(self.entries@[k] == before[k - 1]);
                }
            }
            assert forall|other: Seq<char>| other != name@ implies lookup_named(self.entries@, other)
                == lookup_named(before, other) by {
                lemma_insert_keeps_other(before, pos, e, other);
            }
            assert(self@ =~= old_view.insert(name@, new_entry(inode_number, name@)));
        }
        Ok(())
    }

    /// Removes the entry named `name`.
    pub fn remove(&mut self, name: &str) -> (result: Result<(), Errno>)
        requires
            old(self).wf(),
        ensures
            final(self).wf(),
            !old(self)@.contains_key(name@) ==> (result matches Err(Errno::ENOENT(m))
                && m@ == "no such file in directory"@ && final(self).entries@ == old(self).entries@),
            old(self)@.contains_key(name@) ==> (result is Ok && final(self)@ == old(self)@.remove(name@)
                && final(self).entries@.len() + 1 == old(self).entries@.len()),
    {
        proof {
            lemma_lookup_named_some(self.entries@, name@);
        }
        let ghost before = self.entries@;
        let ghost old_view = self@;
        match remove_named(&mut self.entries, name) {
            None => Err(Errno::ENOENT("no such file in directory".to_owned())),
            Some(removed) => {
                self.entries_count = self.entries_count - 1;
                proof {
                    let pos = choose|pos: int| 0 <= pos < before.len() && before[pos] == removed
                        && self.entries@ == before.remove(pos);
                    assert forall|k: int| 0 <= k < self.entries@.len() implies entry_wf(#[trigger] self.entries@[k]@) by {
                        if k < pos {
                            assert(self.entries@[k] == before[k]);
                        } else {
                            assert(self.entries@[k] == before[k + 1]);
                        }
                    }
                    lemma_lookup_named_some(self.entries@, name@);
                    assert(!names_of(self.entries@).to_set().contains(name@));
                    if has_name(names_of(self.entries@), name@) {
                        let k = choose|k: int| 0 <= k < names_of(self.entries@).len() && names_of(self.entries@)[k] == name@;
                        assert(names_of(self.entries@).to_set().contains(names_of(self.entries@)[k]));
                    }
                    assert forall|other: Seq<char>| other != name@ implies lookup_named(self.entries@, other)
                        == lookup_named(before, other) by {
                        lemma_remove_keeps_other(before, pos, other);
                    }
                    assert(self@ =~= old_view.remove(name@));
                }
                Ok(())
            },
        }
    }
}

} // verus!

verus! {

/// How an entry is stored: the inode number and the record length, little
/// endian, the name length, and the name in UTF-8.
pub open spec fn entry_bytes(e: EntryView) -> Seq<u8> {
    spec_u32_to_le_bytes(e.0) + spec_u16_to_le_bytes(e.1) + seq![e.2] + encode_utf8(e.3)
}

/// Entries stored one after another.
pub open spec fn entries_bytes(es: Seq<EntryView>) -> Seq<u8>
    decreases es.len(),
{
    if es.len() == 0 {
        Seq::empty()
    } else {
        entry_bytes(es[0]) + entries_bytes(es.drop_first())
    }
}

/// The entries of a directory, in their stored order.
pub open spec fn entry_views(entries: Seq<DirectoryEntry>) -> Seq<EntryView> {
    entries.map_values(|e: DirectoryEntry| e@)
}

/// How a directory is stored: its entry count, little endian, then its
/// entries.
pub open spec fn directory_bytes(d: Directory) -> Seq<u8> {
    spec_u32_to_le_bytes(d.entries_count) + entries_bytes(entry_views(d.entries@))
}

/// The entry at the start of `data` and the number of bytes it takes, if
/// one is there whole, its name is UTF-8, its inode number is below the
/// last inode, and its record length is at least that of a one-byte name.
pub open spec fn parse_entry(data: Seq<u8>, inodes_count: AddressSize) -> Option<(EntryView, nat)> {
    if data.len() < 7 {
        None
    } else {
        let inode_number = le32_at(data, 0);
        let rec_len = le16_at(data, 4);
        let name_len = data[6];
        if data.len() < 7 + name_len {
            None
        } else {
            let name_bytes = data.subrange(7, 7 + name_len);
            if !valid_utf8(name_bytes) {
                None
            } else if inode_number + 1 >= inodes_count {
                None
            } else if rec_len < 8 {
                None
            } else {
                Some(((inode_number, rec_len, name_len, decode_utf8(name_bytes)), (7 + name_len) as nat))
            }
        }
    }
}

/// Up to `count` entries read one after another from `data`, stopping at
/// the first place no entry can be read.
pub open spec fn parse_entries(data: Seq<u8>, count: nat, inodes_count: AddressSize) -> Seq<EntryView>
    decreases count,
{
    if count == 0 {
        Seq::empty()
    } else {
        match parse_entry(data, inodes_count) {
            None => Seq::empty(),
            Some((e, used)) => seq![e] + parse_entries(data.skip(used as int), (count - 1) as nat, inodes_count),
        }
    }
}

/// Each name among the entries with its last entry.
pub open spec fn entries_map(es: Seq<EntryView>) -> Map<Seq<char>, EntryView>
    decreases es.len(),
{
    if es.len() == 0 {
        Map::empty()
    } else {
        entries_map(es.drop_last()).insert(es.last().3, es.last())
    }
}

/// An entry that a directory of a filesystem with `inodes_count` inodes can
/// store and read back.
pub open spec fn entry_storable(e: EntryView, inodes_count: AddressSize) -> bool {
    &&& e.0 + 1 < inodes_count
    &&& e.1 >= 8
    &&& entry_wf(e)
}

/// Stored entries read back as themselves, whatever follows them.
pub proof fn lemma_parse_entries_bytes(es: Seq<EntryView>, rest: Seq<u8>, inodes_count: AddressSize)
    requires
        forall|k: int| 0 <= k < es.len() ==> entry_storable(#[trigger] es[k], inodes_count),
    ensures
        parse_entries(entries_bytes(es) + rest, es.len(), inodes_count) == es,
    decreases es.len(),
{
    if es.len() > 0 {
        let e = es[0];
        assert(entry_storable(es[0], inodes_count));
        let tail = es.drop_first();
        assert forall|k: int| 0 <= k < tail.len() implies entry_storable(#[trigger] tail[k], inodes_count) by {
            assert(tail[k] == es[k + 1]);
        }
        lemma_parse_entries_bytes(tail, rest, inodes_count);
        let data = entries_bytes(es) + rest;
        let name = encode_utf8(e.3);
        lemma_auto_spec_u32_to_from_le_bytes();
        lemma_auto_spec_u16_to_from_le_bytes();
        assert(data =~= spec_u32_to_le_bytes(e.0) + spec_u16_to_le_bytes(e.1) + seq![e.2] + name + (entries_bytes(tail) + rest));
        assert(data.subrange(0, 4) =~= spec_u32_to_le_bytes(e.0));
        assert(data.subrange(4, 6) =~= spec_u16_to_le_bytes(e.1));
        assert(data[6] == e.2);
        assert(data.subrange(7, 7 + e.2) =~= name);
        vstd::utf8::encode_utf8_valid_utf8(e.3);
        vstd::utf8::encode_utf8_decode_utf8(e.3);
        assert(data.skip(7 + e.2) =~= entries_bytes(tail) + rest);
        assert(parse_entry(data, inodes_count) == Some((e, (7 + e.2) as nat)));
        assert(seq![e] + tail =~= es);
    }
}

/// In a directory, each name's entry is its last and only one.
pub proof fn lemma_entries_map_sorted(entries: Seq<DirectoryEntry>)
    requires
        sorted_names(names_of(entries)),
    ensures
        entries_map(entry_views(entries)) == Map::new(
            |n: Seq<char>| lookup_named(entries, n) is Some,
            |n: Seq<char>| lookup_named(entries, n).unwrap()@,
        ),
    decreases entries.len(),
{
    let m = Map::new(
        |n: Seq<char>| lookup_named(entries, n) is Some,
        |n: Seq<char>| lookup_named(entries, n).unwrap()@,
    );
    if entries.len() == 0 {
        assert forall|n: Seq<char>| !m.contains_key(n) by {
            lemma_lookup_named_some(entries, n);
        }
        assert(entries_map(entry_views(entries)) =~= m);
    } else {
        let front = entries.drop_last();
        let last = entries.last();
        assert(sorted_names(names_of(front))) by {
            assert forall|i: int, j: int| 0 <= i < j < names_of(front).len() implies crate::text::seq_lt(
                #[trigger] names_of(front)[i],
                #[trigger] names_of(front)[j],
            ) by {
                assert(names_of(front)[i] == names_of(entries)[i]);
                assert(names_of(front)[j] == names_of(entries)[j]);
            }
        }
        lemma_entries_map_sorted(front);
        assert(entry_views(entries).drop_last() =~= entry_views(front));
        assert(front.insert(front.len() as int, last) =~= entries);
        lemma_lookup_named_at(entries, entries.len() - 1);
        assert forall|n: Seq<char>| n != last.spec_name() implies lookup_named(entries, n) == lookup_named(front, n) by {
            lemma_insert_keeps_other(front, front.len() as int, last, n);
        }
        assert(entries_map(entry_views(entries)) =~= m);
    }
}

/// A directory whose entries it can store reads back from its bytes as
/// itself.
pub proof fn lemma_directory_bytes_parse(d: Directory, inodes_count: AddressSize)
    requires
        d.wf(),
        forall|k: int| 0 <= k < d.entries@.len() ==> entry_storable(#[trigger] d.entries@[k]@, inodes_count),
    ensures
        directory_bytes(d).len() >= 4,
        entries_map(parse_entries(directory_bytes(d).skip(4), le32_at(directory_bytes(d), 0) as nat, inodes_count))
            == d@,
{
    let views = entry_views(d.entries@);
    let bytes = directory_bytes(d);
    lemma_auto_spec_u32_to_from_le_bytes();
    assert(bytes.subrange(0, 4) =~= spec_u32_to_le_bytes(d.entries_count));
    assert(bytes.skip(4) =~= entries_bytes(views) + Seq::<u8>::empty());
    assert forall|k: int| 0 <= k < views.len() implies entry_storable(#[trigger] views[k], inodes_count) by {
        assert(views[k] == d.entries@[k]@);
    }
    lemma_parse_entries_bytes(views, Seq::empty(), inodes_count);
    lemma_entries_map_sorted(d.entries@);
}

/// Appending an entry's bytes extends the stored entries by it.
proof fn lemma_entries_bytes_push(es: Seq<EntryView>, e: EntryView)
    ensures
        entries_bytes(es.push(e)) == entries_bytes(es) + entry_bytes(e),
    decreases es.len(),
{
    if es.len() == 0 {
        assert(es.push(e).drop_first() =~= Seq::<EntryView>::empty());
        assert(es.push(e)[0] == e);
        assert(entries_bytes(Seq::<EntryView>::empty()) == Seq::<u8>::empty());
        assert(entries_bytes(es.push(e)) =~= entry_bytes(e));
    } else {
        lemma_entries_bytes_push(es.drop_first(), e);
        assert(es.push(e).drop_first() =~= es.drop_first().push(e));
        assert(entries_bytes(es.push(e)) =~= entries_bytes(es) + entry_bytes(e));
    }
}

/// The bytes a directory is stored as.
pub fn directory_to_bytes(dir: &Directory) -> (bytes: Vec<u8>)
    ensures
        bytes@ == directory_bytes(*dir),
{
    let mut out = u32_to_le_bytes(dir.entries_count);
    let ghost views = entry_views(dir.entries@);
    let mut i: usize = 0;
    while i < dir.entries.len()
        invariant
            i <= dir.entries@.len(),
            views == entry_views(dir.entries@),
            out@ == spec_u32_to_le_bytes(dir.entries_count) + entries_bytes(views.take(i as int)),
        decreases dir.entries.len() - i,
    {
        let entry = &dir.entries[i];
        let ghost before = out@;
        let mut number = u32_to_le_bytes(entry.inode_number);
        out.append(&mut number);
        let mut rec_len = u16_to_le_bytes(entry.rec_len);
        out.append(&mut rec_len);
        out.push(entry.name_len);
        let mut name = vstd::slice::slice_to_vec(entry.name.as_str().as_bytes());
        out.append(&mut name);
        proof {
            assert(views[i as int] == entry@);
            assert(views.take(i + 1) =~= views.take(i as int).push(entry@));
            lemma_entries_bytes_push(views.take(i as int), entry@);
            assert(out@ =~= before + entry_bytes(entry@));
        }
        i = i + 1;
    }
    proof {
        assert(views.take(dir.entries@.len() as int) =~= views);
    }
    out
}

/// Reads the entry at `pos` of `data`, and the number of bytes it takes.
fn parse_entry_at(data: &Vec<u8>, pos: usize, inodes_count: AddressSize) -> (result: Option<(DirectoryEntry, usize)>)
    requires
        pos <= data@.len(),
    ensures
        match result {
            Some((e, used)) => parse_entry(data@.skip(pos as int), inodes_count) == Some((e@, used as nat))
                && pos + used <= data@.len(),
            None => parse_entry(data@.skip(pos as int), inodes_count) is None,
        },
{
    let ghost rest = data@.skip(pos as int);
    if data.len() - pos < 7 {
        return None;
    }
    let inode_number = read_u32_at(data, pos);
    let rec_len = read_u16_at(data, pos + 4);
    let name_len = data[pos + 6];
    proof {
        assert(rest.subrange(0, 4) =~= data@.subrange(pos as int, pos + 4));
        assert(rest.subrange(4, 6) =~= data@.subrange(pos + 4, pos + 6));
        assert(rest[6] == name_len);
    }
    if data.len() - pos - 7 < name_len as usize {
        return None;
    }
    let bytes = match read_bytes_at(data, pos + 7, name_len as usize) {
        Some(b) => b,
        None => {
            return None;
        },
    };
    proof {
        assert(bytes@ =~= rest.subrange(7, 7 + name_len));
    }
    let name = match utf8_to_string(bytes) {
        Some(n) => n,
        None => {
            return None;
        },
    };
    if inode_number as u64 + 1 >= inodes_count as u64 {
        return None;
    }
    if rec_len < 8 {
        return None;
    }
    Some((DirectoryEntry { inode_number, rec_len, name_len, name }, 7 + name_len as usize))
}

/// The directory stored as `data`: none where the bytes end inside the entry
/// count, no entries where there are no bytes at all.
pub open spec fn dir_of_bytes(data: Seq<u8>, inodes_count: AddressSize) -> Option<Map<Seq<char>, EntryView>> {
    if data.len() == 0 {
        Some(Map::empty())
    } else if data.len() >= 4 {
        Some(entries_map(parse_entries(data.skip(4), le32_at(data, 0) as nat, inodes_count)))
    } else {
        None
    }
}

/// Reads a directory from its stored bytes: the entry count, then entries
/// until the count is reached or one cannot be read; a later entry of a
/// name replaces an earlier one. No bytes at all hold no entries.
pub fn parse_directory(fs_info: &E5FSFilesystemBuilder, data: Vec<u8>) -> (result: Result<Directory, Errno>)
    ensures
        match dir_of_bytes(data@, fs_info.inodes_count) {
            Some(m) => result matches Ok(d) && d.wf() && d@ == m,
            None => result matches Err(Errno::EILSEQ(x)) && x@ == "can't parse entries_count from dir"@,
        },
{
    if data.len() == 0 {
        return Ok(Directory::new());
    }
    if data.len() < 4 {
        return Err(Errno::EILSEQ("can't parse entries_count from dir".to_owned()));
    }
    let entries_count = read_u32_at(&data, 0);
    let ghost all = parse_entries(data@.skip(4), entries_count as nat, fs_info.inodes_count);
    let ghost mut parsed: Seq<EntryView> = Seq::empty();
    let mut entries: Vec<DirectoryEntry> = Vec::new();
    let mut pos: usize = 4;
    let mut index: u32 = 0;
    proof {
        assert(parsed + all =~= all);
    }
    while index < entries_count
        invariant
            4 <= pos <= data@.len(),
            index <= entries_count,
            parsed + parse_entries(data@.skip(pos as int), (entries_count - index) as nat, fs_info.inodes_count)
                == all,
            all == parse_entries(data@.skip(4), entries_count as nat, fs_info.inodes_count),
            sorted_names(names_of(entries@)),
            entries@.len() <= index,
            forall|k: int| 0 <= k < entries@.len() ==> entry_wf(#[trigger] entries@[k]@),
            Map::new(
                |n: Seq<char>| lookup_named(entries@, n) is Some,
                |n: Seq<char>| lookup_named(entries@, n).unwrap()@,
            ) == entries_map(parsed),
        ensures
            sorted_names(names_of(entries@)),
            entries@.len() <= entries_count,
            forall|k: int| 0 <= k < entries@.len() ==> entry_wf(#[trigger] entries@[k]@),
            Map::new(
                |n: Seq<char>| lookup_named(entries@, n) is Some,
                |n: Seq<char>| lookup_named(entries@, n).unwrap()@,
            ) == entries_map(all),
        decreases entries_count - index,
    {
        let ghost rest = data@.skip(pos as int);
        let ghost remaining = (entries_count - index) as nat;
        match parse_entry_at(&data, pos, fs_info.inodes_count) {
            None => {
                proof {
                    assert(parse_entries(rest, remaining, fs_info.inodes_count) =~= Seq::<EntryView>::empty());
                    assert(parsed =~= all);
                }
                break;
            },
            Some((entry, used)) => {
                let ghost e = entry@;
                assert(pos + used <= data@.len() && data@.len() == data.len());
                let next: usize = pos + used;
                let ghost before = entries@;
                let ghost old_map = entries_map(parsed);
                proof {
                    let bytes = rest.subrange(7, 7 + e.2);
                    vstd::utf8::decode_utf8_encode_utf8(bytes);
                    assert(entry_wf(e));
                    assert(rest.skip(used as int) =~= data@.skip(pos + used));
                    assert(parse_entries(rest, remaining, fs_info.inodes_count) == seq![e] + parse_entries(
                        data@.skip(pos + used),
                        (remaining - 1) as nat,
                        fs_info.inodes_count,
                    ));
                    assert(parsed.push(e) + parse_entries(data@.skip(pos + used), (remaining - 1) as nat, fs_info.inodes_count)
                        =~= parsed + parse_entries(rest, remaining, fs_info.inodes_count));
                    assert(parsed.push(e).drop_last() =~= parsed);
                }
                upsert_named(&mut entries, entry);
                proof {
                    parsed = parsed.push(e);
                    assert forall|k: int| 0 <= k < entries@.len() implies entry_wf(#[trigger] entries@[k]@) by {
                        let n = entries@[k].spec_name();
                        lemma_lookup_named_at(entries@, k);
                        if n != e.3 {
                            lemma_lookup_named_some(before, n);
                            let j = crate::text::first_index_of(names_of(before), n);
                            crate::text::lemma_first_index_of(names_of(before), n);
                            assert(entry_wf(before[j]@));
                        }
                    }
                    let m = Map::new(
                        |n: Seq<char>| lookup_named(entries@, n) is Some,
                        |n: Seq<char>| lookup_named(entries@, n).unwrap()@,
                    );
                    assert(m =~= old_map.insert(e.3, e));
                }
                pos = next;
                index = index + 1;
            },
        }
    }
    let count = entries.len() as u32;
    let dir = Directory { entries_count: count, entries };
    Ok(dir)
}

impl E5FSFilesystem {
    /// The contents of the file of inode `inode_number`.
    pub open spec fn stored_data(&self, inode_number: AddressSize) -> Seq<u8> {
        file_data(self.fs_info, self.device@, inode_at(self.device@, inode_number))
    }

    /// Every block the file of inode `inode_number` names is on the device.
    pub open spec fn blocks_in_range(&self, inode_number: AddressSize) -> bool {
        let blocks = block_prefix(inode_at(self.device@, inode_number));
        forall|k: int| 0 <= k < blocks.len() ==> #[trigger] blocks[k] < self.fs_info.blocks_count
    }

    /// Stores `dir` as the contents of the file of inode `inode_number`.
    pub fn write_dir_i(&mut self, dir: &Directory, inode_number: AddressSize) -> (result: Result<INode, Errno>)
        requires
            old(self).wf(),
        ensures
            final(self).wf(),
            final(self).fs_info == old(self).fs_info,
            final(self).superblock == old(self).superblock,
            inode_number > old(self).fs_info.inodes_count ==> (result matches Err(Errno::ENOENT(m))
                && m@ == "write_inode: inode_number out of bounds"@ && final(self).device@ == old(self).device@),
            result matches Ok(written) ==> wrote_data(old(self).fs_info, old(self).device@, final(self).device@,
                inode_number, directory_bytes(*dir), written),
            fits_in_place(*old(self), inode_number, directory_bytes(*dir).len()) ==> result is Ok,
            fits_in_place(*old(self), inode_number, directory_bytes(*dir).len()) ==> final(self).device@.subrange(
                0,
                SUPERBLOCK_SIZE as int,
            ) == old(self).device@.subrange(0, SUPERBLOCK_SIZE as int),
            fits_in_place(*old(self), inode_number, directory_bytes(*dir).len()) ==> forall|q: AddressSize|
                q < old(self).fs_info.inodes_count && q != inode_number ==> #[trigger] inode_at(final(self).device@, q)
                    == inode_at(old(self).device@, q),
            fits_in_place(*old(self), inode_number, directory_bytes(*dir).len()) ==> (result matches Ok(w)
                && w.direct_block_numbers == inode_at(old(self).device@, inode_number).direct_block_numbers),
            fits_in_place(*old(self), inode_number, directory_bytes(*dir).len()) && inode_number < old(
                self,
            ).fs_info.inodes_count && below_free_list(
                old(self).fs_info,
                block_prefix(inode_at(old(self).device@, inode_number)),
            ) ==> fbl_values(final(self).fs_info, final(self).device@) == fbl_values(old(self).fs_info, old(self).device@),
            result matches Ok(written) ==> (inode_number < old(self).fs_info.inodes_count
                && directory_bytes(*dir).len() <= 0xFFFF_FFFF && distinct_blocks(
                old(self).fs_info,
                block_prefix(written),
            ) && dir.wf() && (forall|k: int| 0 <= k < dir.entries@.len() ==> entry_storable(
                #[trigger] dir.entries@[k]@,
                old(self).fs_info.inodes_count,
            )) ==> final(self).dir_view(inode_number) == Some(dir@)),
    {
        let data = directory_to_bytes(dir);
        let ghost before = *self;
        let result = self.write_data_i(data, inode_number, false);
        proof {
            if result is Ok {
                let written = result->Ok_0;
                if inode_number < before.fs_info.inodes_count && directory_bytes(*dir).len() <= 0xFFFF_FFFF
                    && distinct_blocks(before.fs_info, block_prefix(written)) && dir.wf() && (forall|k: int|
                    0 <= k < dir.entries@.len() ==> entry_storable(
                        #[trigger] dir.entries@[k]@,
                        before.fs_info.inodes_count,
                    )) {
                    lemma_write_dir_then_read(before, *self, inode_number, *dir, written);
                }
            }
        }
        result
    }

    /// Reads the file of inode `inode_number` as a directory.
    pub fn read_as_dir_i(&self, inode_number: AddressSize) -> (result: Result<Directory, Errno>)
        requires
            self.wf(),
            inode_number <= self.fs_info.inodes_count,
        ensures
            !self.blocks_in_range(inode_number) ==> result matches Err(Errno::EIO(_)),
            self.blocks_in_range(inode_number) ==> match dir_of_bytes(self.stored_data(inode_number), self.fs_info.inodes_count) {
                Some(m) => result matches Ok(d) && d.wf() && d@ == m,
                None => result matches Err(Errno::EILSEQ(x)) && x@ == "can't parse entries_count from dir"@,
            },
            match result {
                Ok(d) => self.dir_view(inode_number) == Some(d@),
                Err(_) => self.dir_view(inode_number) is None,
            },
    {
        let data = self.read_data_i(inode_number)?;
        parse_directory(&self.fs_info, data)
    }
}

} // verus!

verus! {

/// How the filesystem layer sees an inode.
pub open spec fn vinode_of(inode: INode) -> VINode {
    VINode {
        mode: inode.mode,
        links_count: inode.links_count,
        uid: inode.uid,
        gid: inode.gid,
        file_size: inode.file_size,
        atime: inode.atime,
        mtime: inode.mtime,
        ctime: inode.ctime,
        btime: inode.btime,
        number: inode.number,
    }
}

/// The view of `inode` the filesystem layer gets.
pub fn vinode_from(inode: &INode) -> (vinode: VINode)
    ensures
        vinode == vinode_of(*inode),
        vinode.mode == inode.mode && vinode.links_count == inode.links_count && vinode.uid == inode.uid
            && vinode.gid == inode.gid && vinode.file_size == inode.file_size && vinode.number == inode.number,
        vinode.atime == inode.atime && vinode.mtime == inode.mtime && vinode.ctime == inode.ctime
            && vinode.btime == inode.btime,
{
    VINode {
        mode: inode.mode,
        links_count: inode.links_count,
        uid: inode.uid,
        gid: inode.gid,
        file_size: inode.file_size,
        atime: inode.atime,
        mtime: inode.mtime,
        ctime: inode.ctime,
        btime: inode.btime,
        number: inode.number,
    }
}

/// The filesystem layer sees each field of an inode as stored: its mode,
/// links, owners, size, number, and its access, modification, change and
/// birth times, each in its own place.
pub proof fn lemma_vinode_of_fields(inode: INode)
    ensures
        vinode_of(inode).mode == inode.mode,
        vinode_of(inode).links_count == inode.links_count,
        vinode_of(inode).uid == inode.uid,
        vinode_of(inode).gid == inode.gid,
        vinode_of(inode).file_size == inode.file_size,
        vinode_of(inode).number == inode.number,
        vinode_of(inode).atime == inode.atime,
        vinode_of(inode).mtime == inode.mtime,
        vinode_of(inode).ctime == inode.ctime,
        vinode_of(inode).btime == inode.btime,
{
}

/// A file found by its path carries the times, mode, owners, size and
/// links of the inode stored for it, field for field.
pub proof fn lemma_lookup_gives_stored_inode(fs: E5FSFilesystem, pathname: Seq<char>, result: Result<VINode, Errno>)
    requires
        e5fs_lookup_path(fs, pathname, result),
        result is Ok,
    ensures
        ({
            let v = result->Ok_0;
            let stored = inode_at(fs.device@, v.number);
            &&& fs.resolve(pathname) == Some(v.number)
            &&& v.atime == stored.atime
            &&& v.mtime == stored.mtime
            &&& v.ctime == stored.ctime
            &&& v.btime == stored.btime
            &&& v.mode == stored.mode
            &&& v.uid == stored.uid
            &&& v.gid == stored.gid
            &&& v.file_size == stored.file_size
            &&& v.links_count == stored.links_count
        }),
{
    let v = result->Ok_0;
    lemma_vinode_of_fields(inode_at(fs.device@, v.number));
}

/// Entries read from bytes name inodes below the last one and record the
/// byte length of their names.
pub proof fn lemma_parse_entries_storable(data: Seq<u8>, count: nat, inodes_count: AddressSize)
    ensures
        forall|k: int| 0 <= k < parse_entries(data, count, inodes_count).len() ==> {
            let e = #[trigger] parse_entries(data, count, inodes_count)[k];
            e.0 + 1 < inodes_count && entry_wf(e)
        },
    decreases count,
{
    if count > 0 {
        match parse_entry(data, inodes_count) {
            Some((e, used)) => {
                lemma_parse_entries_storable(data.skip(used as int), (count - 1) as nat, inodes_count);
                vstd::utf8::decode_utf8_encode_utf8(data.subrange(7, 7 + data[6]));
                let es = parse_entries(data, count, inodes_count);
                let rest = parse_entries(data.skip(used as int), (count - 1) as nat, inodes_count);
                assert forall|k: int| 0 <= k < es.len() implies {
                    let x = #[trigger] es[k];
                    x.0 + 1 < inodes_count && entry_wf(x)
                } by {
                    if k > 0 {
                        assert(es[k] == rest[k - 1]);
                    }
                }
            },
            None => {},
        }
    }
}

/// Each name's entry in the map is one of the entries, and has that name.
pub proof fn lemma_entries_map_values(es: Seq<EntryView>)
    ensures
        forall|n: Seq<char>| #[trigger] entries_map(es).contains_key(n) ==> entries_map(es)[n].3 == n
            && exists|k: int| 0 <= k < es.len() && es[k] == entries_map(es)[n],
    decreases es.len(),
{
    if es.len() > 0 {
        let front = es.drop_last();
        lemma_entries_map_values(front);
        assert forall|n: Seq<char>| #[trigger] entries_map(es).contains_key(n) implies entries_map(es)[n].3 == n
            && exists|k: int| 0 <= k < es.len() && es[k] == entries_map(es)[n] by {
            if n == es.last().3 {
                assert(es[es.len() - 1] == entries_map(es)[n]);
            } else {
                assert(entries_map(front).contains_key(n));
                let k = choose|k: int| 0 <= k < front.len() && front[k] == entries_map(front)[n];
                assert(es[k] == entries_map(es)[n]);
            }
        }
    }
}

impl E5FSFilesystem {
    /// The directory `read_as_dir_i` reads from the file of inode `n`, as a
    /// map from names to entries, when it reads one.
    pub open spec fn dir_view(&self, n: AddressSize) -> Option<Map<Seq<char>, EntryView>> {
        if n <= self.fs_info.inodes_count && self.blocks_in_range(n) {
            dir_of_bytes(self.stored_data(n), self.fs_info.inodes_count)
        } else {
            None
        }
    }

    /// The inode reached from inode `start` by looking each component up
    /// in the directory reached so far.
    pub open spec fn walk(&self, start: AddressSize, components: Seq<Seq<char>>) -> Option<AddressSize>
        decreases components.len(),
    {
        if components.len() == 0 {
            Some(start)
        } else {
            match self.dir_view(start) {
                Some(m) => if m.contains_key(components[0]) {
                    self.walk(m[components[0]].0, components.drop_first())
                } else {
                    None
                },
                None => None,
            }
        }
    }

    /// The inode a path leads to from the root directory: the root itself
    /// for `/`.
    pub open spec fn resolve(&self, pathname: Seq<char>) -> Option<AddressSize> {
        let (dirs, last) = spec_split_path(pathname);
        if dirs.len() == 0 && last == seq!['/'] {
            Some(self.fs_info.root_inode_number)
        } else {
            self.walk(self.fs_info.root_inode_number, dirs.push(last))
        }
    }

    /// Every directory a walk from inode `start` through `components` passes
    /// through can be read, as far as the walk goes.
    pub open spec fn readable_walk(&self, start: AddressSize, components: Seq<Seq<char>>) -> bool
        decreases components.len(),
    {
        components.len() == 0 || (self.dir_view(start) matches Some(m) && (m.contains_key(components[0])
            ==> self.readable_walk(m[components[0]].0, components.drop_first())))
    }

    /// The entries of a directory that can be read name inodes below the
    /// last one.
    pub proof fn lemma_dir_view_bounded(&self, n: AddressSize)
        ensures
            self.dir_view(n) matches Some(m) ==> forall|name: Seq<char>| #[trigger] m.contains_key(name)
                ==> m[name].0 + 1 < self.fs_info.inodes_count && entry_wf(m[name]) && m[name].3 == name,
    {
        if self.dir_view(n) is Some && self.stored_data(n).len() >= 4 {
            let es = parse_entries(
                self.stored_data(n).skip(4),
                le32_at(self.stored_data(n), 0) as nat,
                self.fs_info.inodes_count,
            );
            lemma_parse_entries_storable(
                self.stored_data(n).skip(4),
                le32_at(self.stored_data(n), 0) as nat,
                self.fs_info.inodes_count,
            );
            lemma_entries_map_values(es);
            assert forall|name: Seq<char>| #[trigger] entries_map(es).contains_key(name) implies entries_map(es)[name].0 + 1
                < self.fs_info.inodes_count && entry_wf(entries_map(es)[name]) && entries_map(es)[name].3 == name by {
                let k = choose|k: int| 0 <= k < es.len() && es[k] == entries_map(es)[name];
                assert(es[k].0 + 1 < self.fs_info.inodes_count && entry_wf(es[k]));
            }
        }
    }

    /// A walk from an inode of the table ends at an inode of the table.
    pub proof fn lemma_walk_bounded(&self, start: AddressSize, components: Seq<Seq<char>>)
        requires
            start <= self.fs_info.inodes_count,
        ensures
            self.walk(start, components) matches Some(n) ==> n <= self.fs_info.inodes_count,
        decreases components.len(),
    {
        if components.len() > 0 {
            self.lemma_dir_view_bounded(start);
            if let Some(m) = self.dir_view(start) {
                if m.contains_key(components[0]) {
                    self.lemma_walk_bounded(m[components[0]].0, components.drop_first());
                }
            }
        }
    }


}

} // verus!

verus! {

/// Two record lists with the same names find each name at the same index.
proof fn lemma_same_names_lookup<E: Named, F: Named>(a: Seq<E>, b: Seq<F>, n: Seq<char>)
    requires
        names_of(a) == names_of(b),
    ensures
        lookup_named(a, n) is Some == lookup_named(b, n) is Some,
        lookup_named(a, n) is Some ==> exists|k: int| 0 <= k < a.len() && lookup_named(a, n) == Some(a[k])
            && lookup_named(b, n) == Some(b[k]),
{
    crate::text::lemma_first_index_of(names_of(a), n);
    let k = crate::text::first_index_of(names_of(a), n);
    if k >= 0 {
        assert(names_of(a).len() == a.len() && names_of(b).len() == b.len());
    }
}

/// The listing of a stored directory: each name with the inode it leads to,
/// in the same order.
pub fn vdirectory_from(dir: &Directory) -> (listing: VDirectory)
    requires
        dir.wf(),
    ensures
        listing.wf(),
        listing@ == dir@.map_values(|e: EntryView| e.0),
        listing.entries@.len() == dir.entries@.len(),
        forall|k: int| 0 <= k < listing.entries@.len() ==> (#[trigger] listing.entries@[k]).name@ == dir.entries@[k].name@,
{
    let mut entries: Vec<VDirectoryEntry> = Vec::new();
    let mut i: usize = 0;
    while i < dir.entries.len()
        invariant
            i <= dir.entries@.len(),
            entries@.len() == i,
            forall|k: int| 0 <= k < i ==> (#[trigger] entries@[k]).name@ == dir.entries@[k].name@
                && entries@[k].inode_number == dir.entries@[k].inode_number,
        decreases dir.entries.len() - i,
    {
        let e = VDirectoryEntry::new(dir.entries[i].inode_number, dir.entries[i].name.as_str());
        entries.push(e);
        i = i + 1;
    }
    let listing = VDirectory { entries };
    proof {
        assert(names_of(listing.entries@) =~= names_of(dir.entries@));
        assert forall|n: Seq<char>| #[trigger] listing@.contains_key(n) == dir@.map_values(|e: EntryView| e.0).contains_key(n)
            && (listing@.contains_key(n) ==> listing@[n] == dir@.map_values(|e: EntryView| e.0)[n]) by {
            lemma_same_names_lookup(listing.entries@, dir.entries@, n);
        }
        assert(listing@ =~= dir@.map_values(|e: EntryView| e.0));
    }
    listing
}

/// The stored directory of a listing whose names all fit in an entry: each
/// name with a fresh entry for its inode, in the same order.
pub fn directory_from(listing: &VDirectory) -> (dir: Directory)
    requires
        listing.wf(),
        listing.entries@.len() <= 0xFFFF_FFFF,
        forall|k: int| 0 <= k < listing.entries@.len() ==> encode_utf8(#[trigger] listing.entries@[k].name@).len() <= 255,
    ensures
        dir.wf(),
        dir@ == Map::new(
            |n: Seq<char>| listing@.contains_key(n),
            |n: Seq<char>| new_entry(listing@[n], n),
        ),
{
    let mut entries: Vec<DirectoryEntry> = Vec::new();
    let mut i: usize = 0;
    while i < listing.entries.len()
        invariant
            i <= listing.entries@.len(),
            entries@.len() == i,
            forall|k: int| 0 <= k < listing.entries@.len() ==> encode_utf8(#[trigger] listing.entries@[k].name@).len() <= 255,
            forall|k: int| 0 <= k < i ==> (#[trigger] entries@[k])@ == new_entry(
                listing.entries@[k].inode_number,
                listing.entries@[k].name@,
            ),
        decreases listing.entries.len() - i,
    {
        assert(encode_utf8(listing.entries@[i as int].name@).len() <= 255);
        let e = match DirectoryEntry::new(listing.entries[i].inode_number, listing.entries[i].name.as_str()) {
            Ok(e) => e,
            Err(_) => {
                proof {
                    assert(false);
                }
                return Directory::new();
            },
        };
        entries.push(e);
        i = i + 1;
    }
    let dir = Directory { entries_count: entries.len() as u32, entries };
    proof {
        assert(names_of(dir.entries@) =~= names_of(listing.entries@));
        assert forall|k: int| 0 <= k < dir.entries@.len() implies entry_wf(#[trigger] dir.entries@[k]@) by {
            assert(dir.entries@[k]@ == new_entry(listing.entries@[k].inode_number, listing.entries@[k].name@));
        }
        let m = Map::new(|n: Seq<char>| listing@.contains_key(n), |n: Seq<char>| new_entry(listing@[n], n));
        assert forall|n: Seq<char>| #[trigger] dir@.contains_key(n) == m.contains_key(n) && (dir@.contains_key(n)
            ==> dir@[n] == m[n]) by {
            lemma_same_names_lookup(dir.entries@, listing.entries@, n);
            crate::text::lemma_lookup_named_some(listing.entries@, n);
        }
        assert(dir@ =~= m);
    }
    dir
}

/// The free inode numbers a new filesystem starts with: the first sixteen
/// inodes, as far as there are that many.
pub open spec fn fresh_inode_cache(inodes_count: AddressSize) -> Seq<u32> {
    Seq::new(16, |i: int| if i < inodes_count { i as u32 } else { NO_ADDRESS })
}

/// The device holds an e5fs that can be opened: a superblock whose layout
/// fits 32-bit addresses, has no layout error, and fits the device and
/// memory.
pub open spec fn opens_as_e5fs(device: Seq<u8>) -> bool {
    device.len() >= SUPERBLOCK_SIZE && {
        let s = choose|s: Superblock| decodes_superblock(device.subrange(0, SUPERBLOCK_SIZE as int), s);
        &&& device.len() <= 0xFFFF_FFFF
        &&& layout_fits(s.inodes_count as nat, s.blocks_count as nat, s.block_data_size as nat)
        &&& layout_error(s.blocks_count as nat, s.block_data_size as nat) is None
        &&& SUPERBLOCK_SIZE + INODE_SIZE * s.inodes_count + s.block_data_size * s.blocks_count <= device.len()
        &&& SUPERBLOCK_SIZE + INODE_SIZE * s.inodes_count + s.block_data_size * s.blocks_count + s.block_data_size
            <= usize::MAX
    }
}

/// The superblock `s` describes a new filesystem of layout `layout`: its
/// type, sizes and counts, every inode and block counted free.
pub open spec fn describes_layout(s: Superblock, layout: E5FSFilesystemBuilder) -> bool {
    &&& s.filesystem_type@ == seq![0x65u8, 0x35, 0x66, 0x73, 0, 0, 0, 0, 0, 0, 0, 0, 0, 0, 0, 0]
    &&& s.filesystem_size == layout.filesystem_size
    &&& s.inode_table_size == layout.inode_table_size
    &&& s.inode_table_percentage == layout.inode_table_percentage
    &&& s.free_inodes_count == layout.inodes_count
    &&& s.free_blocks_count == layout.blocks_count
    &&& s.inodes_count == layout.inodes_count
    &&& s.blocks_count == layout.blocks_count
    &&& s.block_size == layout.block_size
    &&& s.block_data_size == layout.block_data_size
    &&& s.first_fbl_block_number == layout.free_blocks_count
}

impl Superblock {
    /// The superblock of a new filesystem with layout `fs_info`.
    pub fn new(fs_info: &E5FSFilesystemBuilder) -> (s: Self)
        ensures
            s.filesystem_type@ == seq![0x65u8, 0x35, 0x66, 0x73, 0, 0, 0, 0, 0, 0, 0, 0, 0, 0, 0, 0],
            s.filesystem_size == fs_info.filesystem_size,
            s.inode_table_size == fs_info.inode_table_size,
            s.inode_table_percentage == fs_info.inode_table_percentage,
            s.free_inodes_count == fs_info.inodes_count,
            s.free_blocks_count == fs_info.blocks_count,
            s.inodes_count == fs_info.inodes_count,
            s.blocks_count == fs_info.blocks_count,
            s.block_size == fs_info.block_size,
            s.block_data_size == fs_info.block_data_size,
            s.free_inode_numbers@ == fresh_inode_cache(fs_info.inodes_count),
            s.first_fbl_block_number == fs_info.free_blocks_count,
    {
        let mut free_inodes: [AddressSize; 16] = [0; 16];
        let mut i: u32 = 0;
        while i < 16
            invariant
                i <= 16,
                forall|k: int| 0 <= k < i ==> #[trigger] free_inodes@[k] == fresh_inode_cache(fs_info.inodes_count)[k],
            decreases 16 - i,
        {
            free_inodes[i as usize] = if i < fs_info.inodes_count { i } else { NO_ADDRESS };
            i = i + 1;
        }
        proof {
            assert(free_inodes@ =~= fresh_inode_cache(fs_info.inodes_count));
        }
        let s = Superblock {
            filesystem_type: [0x65u8, 0x35, 0x66, 0x73, 0, 0, 0, 0, 0, 0, 0, 0, 0, 0, 0, 0],
            filesystem_size: fs_info.filesystem_size,
            inode_table_size: fs_info.inode_table_size,
            inode_table_percentage: fs_info.inode_table_percentage,
            free_inodes_count: fs_info.inodes_count,
            free_blocks_count: fs_info.blocks_count,
            inodes_count: fs_info.inodes_count,
            blocks_count: fs_info.blocks_count,
            block_size: fs_info.block_size,
            block_data_size: fs_info.block_data_size,
            free_inode_numbers: free_inodes,
            first_fbl_block_number: fs_info.free_blocks_count,
        };
        proof {
            assert(s.filesystem_type@ =~= seq![0x65u8, 0x35, 0x66, 0x73, 0, 0, 0, 0, 0, 0, 0, 0, 0, 0, 0, 0]);
        }
        s
    }
}

} // verus!

verus! {

/// What looking up `pathname` in an e5fs returns.
pub open spec fn e5fs_lookup_path(fs: E5FSFilesystem, pathname: Seq<char>, result: Result<VINode, Errno>) -> bool {
    &&& (path_error(pathname) matches Some(m) ==> (result matches Err(Errno::EINVAL(x)) && x@ == m))
    &&& (path_error(pathname) is None ==> (result is Ok <==> fs.resolve(pathname) is Some))
    &&& (result matches Ok(v) ==> (fs.resolve(pathname) matches Some(n) && n <= fs.fs_info.inodes_count
            && v == vinode_of(inode_at(fs.device@, n)) && v.number == n))
    &&& (path_error(pathname) is None && fs.resolve(pathname) is None && fs.readable_walk(
            fs.fs_info.root_inode_number,
            spec_split_path(pathname).0.push(spec_split_path(pathname).1),
        ) ==> result matches Err(Errno::ENOENT(_)))
}

/// What reading the file at `pathname` does to an e5fs and returns.
pub open spec fn e5fs_read_file(before: E5FSFilesystem, after: E5FSFilesystem, pathname: Seq<char>, result: Result<Vec<u8>, Errno>) -> bool {
    &&& (after.fs_info == before.fs_info)
    &&& (after.device@ == before.device@)
    &&& (after.superblock == before.superblock)
    &&& (path_error(pathname) matches Some(m) ==> (result matches Err(Errno::EINVAL(x)) && x@ == m))
    &&& (path_error(pathname) is None && before.resolve(pathname) is None ==> result is Err)
    &&& (path_error(pathname) is None ==> (before.resolve(pathname) matches Some(n) ==> {
            let inode = inode_at(before.device@, n);
            &&& type_of(inode.mode.0) == 1 ==> (result matches Err(Errno::EISDIR(x))
                && x@ == "read_file: "@ + pathname + ": is a directory"@)
            &&& type_of(inode.mode.0) != 1 && before.blocks_in_range(n) ==> (result matches Ok(data)
                && data@ == before.stored_data(n))
            &&& type_of(inode.mode.0) != 1 && !before.blocks_in_range(n) ==> (result matches Err(Errno::EIO(_)))
        }))
}

/// What writing `data` as the file at `pathname` does to an e5fs and returns.
pub open spec fn e5fs_write_file(before: E5FSFilesystem, after: E5FSFilesystem, pathname: Seq<char>, data: Seq<u8>, result: Result<VINode, Errno>) -> bool {
    &&& (after.fs_info == before.fs_info)
    &&& (after.superblock == before.superblock)
    &&& (path_error(pathname) matches Some(m) ==> (result matches Err(Errno::EINVAL(x)) && x@ == m
            && after.device@ == before.device@))
    &&& (path_error(pathname) is None && before.resolve(pathname) is None ==> (result is Err
            && after.device@ == before.device@))
    &&& (path_error(pathname) is None && (before.resolve(pathname) matches Some(n)
            && type_of(inode_at(before.device@, n).mode.0) == 1) ==> (result matches Err(Errno::EISDIR(x))
            && x@ == "e5fs::write_file: is a directory"@ && after.device@ == before.device@))
    &&& (result matches Ok(v) ==> (before.resolve(pathname) matches Some(n)
            && type_of(inode_at(before.device@, n).mode.0) != 1
            && wrote_data(before.fs_info, before.device@, after.device@, n, data,
                inode_at(after.device@, n))
            && v == vinode_of(inode_at(after.device@, n))))
    &&& (path_error(pathname) is None && (before.resolve(pathname) matches Some(n)
            && type_of(inode_at(before.device@, n).mode.0) != 1 && fits_in_place(before, n, data.len())) ==> result is Ok)
}

/// What listing the directory at `pathname` in an e5fs returns.
pub open spec fn e5fs_read_dir(fs: E5FSFilesystem, pathname: Seq<char>, result: Result<VDirectory, Errno>) -> bool {
    &&& (path_error(pathname) matches Some(m) ==> (result matches Err(Errno::EINVAL(x)) && x@ == m))
    &&& (path_error(pathname) is None ==> (result is Ok <==> (fs.resolve(pathname) matches Some(n)
            && fs.dir_view(n) is Some)))
    &&& (result matches Ok(listing) ==> (fs.resolve(pathname) matches Some(n)
            && fs.dir_view(n) matches Some(m)
            && listing@ == m.map_values(|e: EntryView| e.0)
            && listing.entries@.len() <= 0xFFFF_FFFF
            && forall|k: int| 0 <= k < listing.entries@.len() ==> encode_utf8(
                #[trigger] listing.entries@[k].name@,
            ).len() <= 255))
}

/// What reporting on the file at `pathname` in an e5fs returns.
pub open spec fn e5fs_stat(fs: E5FSFilesystem, pathname: Seq<char>, result: Result<FileStat, Errno>) -> bool {
    &&& (path_error(pathname) matches Some(m) ==> (result matches Err(Errno::EINVAL(x)) && x@ == m))
    &&& (path_error(pathname) is None ==> (result is Ok <==> fs.resolve(pathname) is Some))
    &&& (result matches Ok(st) ==> (fs.resolve(pathname) matches Some(n) && {
            let inode = inode_at(fs.device@, n);
            st == (FileStat {
                mode: inode.mode,
                size: inode.file_size,
                inode_number: n,
                links_count: inode.links_count,
                uid: inode.uid,
                gid: inode.gid,
                block_size: fs.fs_info.block_size,
                atime: inode.atime,
                mtime: inode.mtime,
                ctime: inode.ctime,
                btime: inode.btime,
            })
        }))
}

/// What replacing the mode of the file at `pathname` with `mode` does to an e5fs and returns.
pub open spec fn e5fs_change_mode(before: E5FSFilesystem, after: E5FSFilesystem, pathname: Seq<char>, mode: FileMode, result: Result<(), Errno>) -> bool {
    &&& (after.fs_info == before.fs_info)
    &&& (after.superblock == before.superblock)
    &&& (path_error(pathname) matches Some(m) ==> (result matches Err(Errno::EINVAL(x)) && x@ == m
            && after.device@ == before.device@))
    &&& (path_error(pathname) is None ==> (result is Ok <==> before.resolve(pathname) is Some))
    &&& (result is Err ==> after.device@ == before.device@)
    &&& (result is Ok ==> (before.resolve(pathname) matches Some(n) && after.device@ == write_at(
            before.device@,
            inode_address(n as int),
            inode_bytes(INode { mode, ..inode_at(before.device@, n) }),
        )))
}

/// What replacing the times of the file at `pathname` with `times` does to an e5fs and returns.
pub open spec fn e5fs_change_times(before: E5FSFilesystem, after: E5FSFilesystem, pathname: Seq<char>, times: Times, result: Result<(), Errno>) -> bool {
    &&& (after.fs_info == before.fs_info)
    &&& (after.superblock == before.superblock)
    &&& (path_error(pathname) matches Some(m) ==> (result matches Err(Errno::EINVAL(x)) && x@ == m
            && after.device@ == before.device@))
    &&& (path_error(pathname) is None ==> (result is Ok <==> before.resolve(pathname) is Some))
    &&& (result is Err ==> after.device@ == before.device@)
    &&& (result is Ok ==> (before.resolve(pathname) matches Some(n) && after.device@ == write_at(
            before.device@,
            inode_address(n as int),
            inode_bytes(INode {
                atime: times.atime,
                mtime: times.mtime,
                ctime: times.ctime,
                btime: times.btime,
                ..inode_at(before.device@, n)
            }),
        )))
}

/// What creating a file at `pathname` does to an e5fs and returns.
pub open spec fn e5fs_create_file(before: E5FSFilesystem, after: E5FSFilesystem, pathname: Seq<char>, result: Result<VINode, Errno>) -> bool {
    &&& (after.fs_info == before.fs_info)
    &&& (path_error(pathname) matches Some(m) ==> (result matches Err(Errno::EINVAL(x)) && x@ == m
            && after.device@ == before.device@))
    &&& (path_error(pathname) is None && before.resolve(spec_parent_dir(pathname)) is None ==> (result is Err
            && after.device@ == before.device@))
    &&& (path_error(pathname) is None ==> (before.resolve(spec_parent_dir(pathname)) matches Some(p) ==> (
            before.dir_view(p) matches Some(m) ==> (m.contains_key(spec_split_path(pathname).1) ==> (
            result matches Err(Errno::EINVAL(x)) && x@ == "e5fs::create_file: file "@ + spec_split_path(
            pathname).1 + " already exists in "@ + spec_parent_dir(pathname)
            && after.device@ == before.device@)))))
    &&& (result matches Ok(v) ==> (before.resolve(spec_parent_dir(pathname)) matches Some(p)
            && before.dir_view(p) matches Some(m) && !m.contains_key(spec_split_path(pathname).1)
            && v.links_count == 1 && v.number <= before.fs_info.inodes_count
            && v == vinode_of(inode_at(after.device@, v.number))))
    &&& (result matches Ok(v) ==> lists_new_file(before, after, pathname, v.number))
    &&& (can_create(before, pathname) ==> result is Ok)
    &&& (result matches Ok(v) ==> first_cached(before, v.number))
}

/// Creating a file at `pathname` is owed success: the path is absolute,
/// its parent is a directory that can be read and has no entry of that
/// name, the name fits an entry, a file can be allocated but not as the
/// parent's own inode, and the parent's blocks have room for one more
/// entry of any name.
pub open spec fn can_create(fs: E5FSFilesystem, pathname: Seq<char>) -> bool {
    let last = spec_split_path(pathname).1;
    &&& path_error(pathname) is None
    &&& fs.resolve(spec_parent_dir(pathname)) matches Some(p)
    &&& fs.dir_view(p) matches Some(m)
    &&& !m.contains_key(last)
    &&& encode_utf8(last).len() <= 255
    &&& can_allocate(fs)
    &&& !first_cached(fs, p)
    &&& room_for(fs, p, m.dom().len() + 1)
}

/// Inode `q` is the one the cache of free inodes names first.
pub open spec fn first_cached(fs: E5FSFilesystem, q: u32) -> bool {
    exists|k: int| #[trigger] first_cached_at(fs.superblock.free_inode_numbers@, k, q)
}

/// The directory of inode `p` can hold `count` entries of any names in the
/// blocks it has, all of them on the device.
pub open spec fn room_for(fs: E5FSFilesystem, p: AddressSize, count: nat) -> bool {
    let blocks = block_prefix(inode_at(fs.device@, p));
    &&& p < fs.fs_info.inodes_count
    &&& 4 + 262 * count <= blocks.len() * fs.fs_info.block_size
    &&& forall|k: int| 0 <= k < blocks.len() ==> #[trigger] blocks[k] < fs.fs_info.blocks_count
}

/// After a file of inode `n` was created at `pathname`, its parent
/// directory lists it under its name, beside what it listed before; where
/// the new inode is not the parent's, the entries can be stored, and the
/// blocks the parent ends with are distinct blocks of the device.
pub open spec fn lists_new_file(before: E5FSFilesystem, after: E5FSFilesystem, pathname: Seq<char>, n: AddressSize) -> bool {
    let last = spec_split_path(pathname).1;
    before.resolve(spec_parent_dir(pathname)) matches Some(p) && before.dir_view(p) matches Some(m) && ((
        n != p
        && n + 1 < before.fs_info.inodes_count
        && p < before.fs_info.inodes_count
        && (forall|name: Seq<char>| #[trigger] m.contains_key(name) ==> entry_storable(m[name], before.fs_info.inodes_count))
        && distinct_blocks(after.fs_info, block_prefix(inode_at(after.device@, p))))
        ==> after.dir_view(p) == Some(m.insert(last, new_entry(n, last))))
}

/// What removing the file at `pathname` does to an e5fs and returns.
pub open spec fn e5fs_remove_file(before: E5FSFilesystem, after: E5FSFilesystem, pathname: Seq<char>, result: Result<(), Errno>) -> bool {
    &&& (after.fs_info == before.fs_info)
    &&& (path_error(pathname) matches Some(m) ==> (result matches Err(Errno::EINVAL(x)) && x@ == m
            && after.device@ == before.device@))
    &&& (path_error(pathname) is None && before.resolve(spec_parent_dir(pathname)) is None ==> (result is Err
            && after.device@ == before.device@))
    &&& (path_error(pathname) is None ==> (before.resolve(spec_parent_dir(pathname)) matches Some(p) ==> (
            before.dir_view(p) matches Some(m) ==> {
                let last = spec_split_path(pathname).1;
                &&& (last == "."@ || last == ".."@) ==> (result matches Err(Errno::EINVAL(x))
                    && x@ == "e5fs::remove_file: you cannot remove self or parent-reference"@
                    && after.device@ == before.device@)
                &&& (last != "."@ && last != ".."@ && !m.contains_key(last)) ==> (result matches Err(
                    Errno::ENOENT(x)) && x@ == "e5fs::remove_file: no such file or directory '"@ + last + "'"@
                    && after.device@ == before.device@)
            })))
    &&& (result is Ok ==> (before.resolve(spec_parent_dir(pathname)) matches Some(p)
            && before.dir_view(p) matches Some(m) && m.contains_key(spec_split_path(pathname).1)))
    &&& (result is Ok ==> unlists_file(before, after, pathname))
    &&& (can_remove(before, pathname) ==> result is Ok && unlinks_inode(before, after, pathname))
}

/// Removing the file at `pathname` is owed success: the path is absolute,
/// its parent is a directory that can be read and lists that name, which
/// is neither `.` nor `..` and leads to an inode other than the parent's;
/// the parent's blocks can hold what it lists, and the blocks of the file
/// are on the device.
pub open spec fn can_remove(fs: E5FSFilesystem, pathname: Seq<char>) -> bool {
    let last = spec_split_path(pathname).1;
    &&& path_error(pathname) is None
    &&& fs.resolve(spec_parent_dir(pathname)) matches Some(p)
    &&& fs.dir_view(p) matches Some(m)
    &&& m.contains_key(last)
    &&& last != "."@ && last != ".."@
    &&& m[last].0 != p
    &&& room_for(fs, p, m.dom().len())
    &&& forall|k: int| 0 <= k < block_prefix(inode_at(fs.device@, m[last].0)).len() ==> #[trigger] block_prefix(
        inode_at(fs.device@, m[last].0),
    )[k] < fs.fs_info.blocks_count
}

/// The inode the removed name led to lost one link and keeps its block
/// numbers; once it has none left, it is marked free and each of its blocks
/// is back in the free blocks list.
pub open spec fn unlinks_inode(before: E5FSFilesystem, after: E5FSFilesystem, pathname: Seq<char>) -> bool {
    let last = spec_split_path(pathname).1;
    before.resolve(spec_parent_dir(pathname)) matches Some(p) && before.dir_view(p) matches Some(m) && {
        let e = m[last].0;
        let was = inode_at(before.device@, e);
        let now = inode_at(after.device@, e);
        &&& now.links_count == if was.links_count == 0 { 0 } else { (was.links_count - 1) as u32 }
        &&& now.direct_block_numbers == was.direct_block_numbers
        &&& now.links_count == 0 ==> crate::eunix::fs::free_of(now.mode.0) == 1
        &&& now.links_count == 0 ==> blocks_released(after, block_prefix(was))
    }
}

/// Each of `blocks` is free again: its slot of the free blocks list holds
/// its own number.
pub open spec fn blocks_released(fs: E5FSFilesystem, blocks: Seq<u32>) -> bool {
    forall|k: int| 0 <= k < blocks.len() ==> #[trigger] fbl_values(fs.fs_info, fs.device@)[blocks[k] as int]
        == blocks[k]
}

/// After the file at `pathname` was removed, its parent directory lists
/// every other name it listed, each with a fresh entry for its inode; where
/// the names it listed are not empty and the blocks the parent ends with
/// are distinct blocks before the free blocks list.
pub open spec fn unlists_file(before: E5FSFilesystem, after: E5FSFilesystem, pathname: Seq<char>) -> bool {
    let last = spec_split_path(pathname).1;
    before.resolve(spec_parent_dir(pathname)) matches Some(p) && before.dir_view(p) matches Some(m) && ((
        p < before.fs_info.inodes_count
        && (forall|name: Seq<char>| #[trigger] m.contains_key(name) ==> name.len() > 0)
        && distinct_blocks(after.fs_info, block_prefix(inode_at(after.device@, p)))
        && below_free_list(after.fs_info, block_prefix(inode_at(after.device@, p))))
        ==> after.dir_view(p) == Some(Map::new(
            |name: Seq<char>| m.contains_key(name) && name != last,
            |name: Seq<char>| new_entry(m[name].0, name),
        )))
}

/// The blocks all lie before the free blocks list.
pub open spec fn below_free_list(layout: E5FSFilesystemBuilder, blocks: Seq<u32>) -> bool {
    forall|k: int| 0 <= k < blocks.len() ==> #[trigger] blocks[k] < layout.first_fbl_block_number
}

/// What creating a directory at `pathname` does to an e5fs and returns.
pub open spec fn e5fs_create_dir(before: E5FSFilesystem, after: E5FSFilesystem, pathname: Seq<char>, result: Result<VINode, Errno>) -> bool {
    &&& (after.fs_info == before.fs_info)
    &&& (path_error(pathname) matches Some(m) ==> (result matches Err(Errno::EINVAL(x)) && x@ == m
            && after.device@ == before.device@))
    &&& (path_error(pathname) is None && before.resolve(spec_parent_dir(pathname)) is None ==> (result is Err
            && after.device@ == before.device@))
    &&& (result matches Ok(v) ==> (before.resolve(spec_parent_dir(pathname)) matches Some(p)
            && before.dir_view(p) matches Some(m) && !m.contains_key(spec_split_path(pathname).1)
            && v.links_count == 1))
    &&& (result matches Ok(v) ==> lists_dot_entries(after, v.number))
}

/// The entries of a new directory of inode `n` whose parent is inode
/// `parent`: `..` for the parent and `.` for itself.
pub open spec fn dot_entries(n: AddressSize, parent: AddressSize) -> Map<Seq<char>, EntryView> {
    Map::<Seq<char>, EntryView>::empty().insert(".."@, new_entry(parent, ".."@)).insert("."@, new_entry(n, "."@))
}

/// The directory of inode `n` holds `.` and `..` alone, `.` for itself;
/// where its inode is not the last and its blocks are distinct blocks of
/// the device.
pub open spec fn lists_dot_entries(fs: E5FSFilesystem, n: AddressSize) -> bool {
    (n + 1 < fs.fs_info.inodes_count && distinct_blocks(fs.fs_info, block_prefix(inode_at(fs.device@, n))))
        ==> exists|parent: AddressSize| parent + 1 < fs.fs_info.inodes_count && fs.dir_view(n) == Some(
        #[trigger] dot_entries(n, parent))
}

impl Filesystem for E5FSFilesystem {
    open spec fn fs_wf(&self) -> bool {
        self.wf()
    }

    /// Finds the file at `pathname`, one directory at a time from the root.
    fn lookup_path(&self, pathname: &str) -> (result: Result<VINode, Errno>)
        ensures
            e5fs_lookup_path(*self, pathname@, result),
    {
        let (dirs, last) = split_path(pathname)?;
        let ghost comps = views(dirs@).push(last@);
        let root = self.fs_info.root_inode_number;
        proof {
            lemma_layout_bounds(self.fs_info);
            reveal_strlit("/");
            self.lemma_walk_bounded(root, comps);
        }
        assert(pathname@.len() > 0 && pathname@[0] == '/');
        assert("/"@ =~= seq!['/']);
        if dirs.len() == 0 && crate::text::str_eq(last.as_str(), "/") {
            assert(views(dirs@) =~= Seq::<Seq<char>>::empty());
            assert(self.resolve(pathname@) == Some(root));
            let inode = self.read_inode(root);
            let v = vinode_from(&inode);
            assert(v == vinode_of(inode));
            return Ok(v);
        }
        assert(self.resolve(pathname@) == self.walk(root, comps));
        let mut inode_number = root;
        let mut i: usize = 0;
        proof {
            assert(comps.skip(0) =~= comps);
        }
        while i < dirs.len()
            invariant
                self.wf(),
                pathname@.len() > 0 && pathname@[0] == '/',
                i <= dirs@.len(),
                inode_number <= self.fs_info.inodes_count,
                comps == views(dirs@).push(last@),
                self.resolve(pathname@) == self.walk(root, comps),
                self.walk(root, comps) == self.walk(inode_number, comps.skip(i as int)),
                self.readable_walk(root, comps) ==> self.readable_walk(inode_number, comps.skip(i as int)),
                comps == spec_split_path(pathname@).0.push(spec_split_path(pathname@).1),
                root == self.fs_info.root_inode_number,
                path_error(pathname@) is None,
            decreases dirs.len() - i,
        {
            let ghost rest = comps.skip(i as int);
            proof {
                assert(rest[0] == dirs@[i as int]@);
                assert(rest.drop_first() =~= comps.skip(i + 1));
                assert(rest.len() > 0);
            }
            let dir = self.read_as_dir_i(inode_number)?;
            proof {
                self.lemma_dir_view_bounded(inode_number);
            }
            match dir.get(dirs[i].as_str()) {
                Some(n) => {
                    inode_number = n;
                },
                None => {
                    let mut message = "e5fs.lookup_path: no such component: ".to_owned();
                    message.append(dirs[i].as_str());
                    return Err(Errno::ENOENT(message));
                },
            }
            i = i + 1;
        }
        let ghost rest = comps.skip(i as int);
        proof {
            assert(rest[0] == last@);
            assert(rest.drop_first() =~= Seq::<Seq<char>>::empty());
        }
        let dir = self.read_as_dir_i(inode_number)?;
        proof {
            self.lemma_dir_view_bounded(inode_number);
        }
        match dir.get(last.as_str()) {
            Some(n) => {
                assert(self.walk(n, rest.drop_first()) == Some(n));
                assert(self.walk(inode_number, rest) == Some(n));
                let inode = self.read_inode(n);
                let v = vinode_from(&inode);
                assert(v == vinode_of(inode));
                Ok(v)
            },
            None => {
                assert(self.walk(inode_number, rest) is None);
                let mut message = "e5fs.lookup_path: no such file or directory ".to_owned();
                message.append(last.as_str());
                message.append(" (get(final_component))");
                Err(Errno::ENOENT(message))
            },
        }
    }

    /// Reads the contents of the file at `pathname`; a directory cannot be
    /// read this way.
    fn read_file(&mut self, pathname: &str, count: AddressSize) -> (result: Result<Vec<u8>, Errno>)
        ensures
            e5fs_read_file(*old(self), *final(self), pathname@, result),
    {
        let vinode = self.lookup_path(pathname)?;
        if vinode.mode.file_type() == 1 {
            let mut message = "read_file: ".to_owned();
            message.append(pathname);
            message.append(": is a directory");
            return Err(Errno::EISDIR(message));
        }
        self.read_data_i(vinode.number)
    }

    /// Replaces the contents of the file at `pathname` with `data`; a
    /// directory cannot be written this way.
    fn write_file(&mut self, pathname: &str, data: &[u8]) -> (result: Result<VINode, Errno>)
        ensures
            e5fs_write_file(*old(self), *final(self), pathname@, data@, result),
    {
        let vinode = self.lookup_path(pathname)?;
        if vinode.mode.file_type() == 1 {
            return Err(Errno::EISDIR("e5fs::write_file: is a directory".to_owned()));
        }
        let bytes = vstd::slice::slice_to_vec(data);
        let inode = self.write_data_i(bytes, vinode.number, false)?;
        Ok(vinode_from(&inode))
    }

    /// Lists the directory at `pathname`.
    fn read_dir(&self, pathname: &str) -> (result: Result<VDirectory, Errno>)
        ensures
            e5fs_read_dir(*self, pathname@, result),
    {
        let n = self.lookup_path(pathname)?.number;
        let dir = self.read_as_dir_i(n)?;
        let listing = vdirectory_from(&dir);
        proof {
            assert forall|k: int| 0 <= k < listing.entries@.len() implies encode_utf8(
                #[trigger] listing.entries@[k].name@,
            ).len() <= 255 by {
                assert(entry_wf(dir.entries@[k]@));
            }
        }
        Ok(listing)
    }

    /// Reports on the file at `pathname`.
    fn stat(&self, pathname: &str) -> (result: Result<FileStat, Errno>)
        ensures
            e5fs_stat(*self, pathname@, result),
    {
        let n = self.lookup_path(pathname)?.number;
        let inode = self.read_inode(n);
        Ok(FileStat {
            mode: inode.mode,
            size: inode.file_size,
            inode_number: n,
            links_count: inode.links_count,
            uid: inode.uid,
            gid: inode.gid,
            block_size: self.fs_info.block_size,
            atime: inode.atime,
            mtime: inode.mtime,
            ctime: inode.ctime,
            btime: inode.btime,
        })
    }

    /// Replaces the mode of the file at `pathname`.
    fn change_mode(&mut self, pathname: &str, mode: FileMode) -> (result: Result<(), Errno>)
        ensures
            e5fs_change_mode(*old(self), *final(self), pathname@, mode, result),
    {
        let n = self.lookup_path(pathname)?.number;
        self.write_mode_i(n, mode)
    }

    /// Replaces the four times of the file at `pathname`.
    fn change_times(&mut self, pathname: &str, times: Times) -> (result: Result<(), Errno>)
        ensures
            e5fs_change_times(*old(self), *final(self), pathname@, times, result),
    {
        let n = self.lookup_path(pathname)?.number;
        let mut inode = self.read_inode(n);
        inode.atime = times.atime;
        inode.mtime = times.mtime;
        inode.ctime = times.ctime;
        inode.btime = times.btime;
        self.write_inode(&inode, inode.number)
    }

    /// The driver's name: `e5fs`.
    fn name(&self) -> (name: String)
        ensures
            name@ == "e5fs"@,
    {
        "e5fs".to_owned()
    }

    /// Creates an empty file at `pathname`: allocates an inode, enters it in
    /// the parent directory, and gives it one link.
    #[verifier::spinoff_prover]
    #[verifier::rlimit(40)]
    fn create_file(&mut self, pathname: &str) -> (result: Result<VINode, Errno>)
        ensures
            e5fs_create_file(*old(self), *final(self), pathname@, result),
    {
        let (_dirs, last) = split_path(pathname)?;
        let parent = parent_dir(pathname)?;
        let parent_inode = self.lookup_path(parent.as_str())?;
        let mut dir = self.read_as_dir_i(parent_inode.number)?;
        if dir.get(last.as_str()).is_some() {
            let mut message = "e5fs::create_file: file ".to_owned();
            message.append(last.as_str());
            message.append(" already exists in ");
            message.append(parent.as_str());
            return Err(Errno::EINVAL(message));
        }
        proof {
            lemma_dir_count(dir);
            lemma_layout_bounds(self.fs_info);
            if can_create(*self, pathname@) {
                let blocks = block_prefix(inode_at(self.device@, parent_inode.number));
                lemma_prefix_len(inode_at(self.device@, parent_inode.number).direct_block_numbers@);
                let c = dir.entries@.len();
                let bs = self.fs_info.block_size;
                assert(self.dir_view(parent_inode.number) == Some(dir@));
                assert(blocks.len() <= 12);
                assert(blocks.len() * bs <= 12 * bs) by (nonlinear_arith)
                    requires
                        blocks.len() <= 12,
                ;
                assert(262 * (c + 1) <= 12 * bs);
                assert(c < 0xFFFF_FFFF) by (nonlinear_arith)
                    requires
                        262 * (c + 1) <= 12 * bs,
                        bs <= 0xFFFF_FFFF,
                ;
            }
        }
        if dir.entries.len() >= 0xFFFF_FFFF {
            return Err(Errno::ENOSPC("e5fs::create_file: directory is full".to_owned()));
        }
        let ghost listed = dir@;
        let ghost before_alloc = *self;
        let (_, inode) = self.allocate_file()?;
        dir.insert(inode.number, last.as_str())?;
        let ghost mid = *self;
        proof {
            let p = parent_inode.number;
            if can_create(before_alloc, pathname@) {
                assert(inode.number != p);
                assert(inode_at(self.device@, p) == inode_at(before_alloc.device@, p));
                lemma_dir_bytes_bound(dir);
                assert(fits_in_place(*self, p, directory_bytes(dir).len()));
            }
        }
        let written = self.write_dir_i(&dir, parent_inode.number)?;
        let ghost after_dir = *self;
        let ghost before_link = self.device@;
        let linked = self.write_links_count_i(inode.number, 1)?;
        proof {
            lemma_read_inode_after_write(before_link, linked, inode.number);
            let p = parent_inode.number;
            let n = inode.number;
            let ic = self.fs_info.inodes_count;
            if n != p && n + 1 < ic && p < ic && (forall|name: Seq<char>| #[trigger] listed.contains_key(name)
                ==> entry_storable(listed[name], ic)) && distinct_blocks(self.fs_info, block_prefix(
                inode_at(self.device@, p))) {
                lemma_layout_bounds(self.fs_info);
                lemma_read_inode_after_other_write(before_link, linked, n, p);
                assert(inode_at(self.device@, p) == written);
                lemma_distinct_blocks_count(self.fs_info, block_prefix(written));
                let count = block_prefix(written).len();
                let bs = self.fs_info.block_size;
                let bc = self.fs_info.blocks_count;
                assert(count * bs <= bs * bc) by (nonlinear_arith)
                    requires
                        count <= bc,
                ;
                assert(directory_bytes(dir).len() <= count * bs);
                assert(bs * bc == self.fs_info.block_table_size);
                lemma_last_component_nonempty(pathname@);
                assert forall|k: int| 0 <= k < dir.entries@.len() implies entry_storable(
                    #[trigger] dir.entries@[k]@,
                    ic,
                ) by {
                    crate::text::lemma_lookup_named_at(dir.entries@, k);
                    let nm = dir.entries@[k].name@;
                    assert(dir@.contains_key(nm));
                    assert(dir@[nm] == dir.entries@[k]@);
                    if nm != last@ {
                        assert(listed.contains_key(nm));
                    } else {
                        assert(encode_utf8(last@).len() >= 1) by {
                            reveal_with_fuel(encode_utf8, 2);
                        }
                    }
                }
                lemma_write_dir_then_read(mid, after_dir, p, dir, written);
                lemma_inode_write_keeps_dir_view(after_dir, *self, n, linked, p);
            }
        }
        let inode = self.read_inode(inode.number);
        Ok(vinode_from(&inode))
    }

    /// Removes the file at `pathname` from its parent directory; a file left
    /// with no links gives its blocks back and its inode is marked free.
    fn remove_file(&mut self, pathname: &str) -> (result: Result<(), Errno>)
        ensures
            e5fs_remove_file(*old(self), *final(self), pathname@, result),
    {
        let parent = parent_dir(pathname)?;
        let (_dirs, last) = split_path(pathname)?;
        let parent_vinode = self.lookup_path(parent.as_str())?;
        let mut listing = self.read_dir(parent.as_str())?;
        proof {
            reveal_strlit(".");
            reveal_strlit("..");
        }
        if crate::text::str_eq(last.as_str(), ".") || crate::text::str_eq(last.as_str(), "..") {
            return Err(Errno::EINVAL("e5fs::remove_file: you cannot remove self or parent-reference".to_owned()));
        }
        let ghost before = listing@;
        let entry = match listing.remove(last.as_str()) {
            Some(e) => e,
            None => {
                let mut message = "e5fs::remove_file: no such file or directory '".to_owned();
                message.append(last.as_str());
                message.append("'");
                return Err(Errno::ENOENT(message));
            },
        };
        proof {
            let p = parent_vinode.number;
            self.lemma_dir_view_bounded(p);
            assert(before.contains_key(last@));
            assert forall|k: int| 0 <= k < listing.entries@.len() implies encode_utf8(
                #[trigger] listing.entries@[k].name@,
            ).len() <= 255 by {
                let nm = listing.entries@[k].name@;
                crate::text::lemma_lookup_named_at(listing.entries@, k);
                assert(listing@.contains_key(nm));
                assert(before.contains_key(nm));
                let m = self.dir_view(p).unwrap();
                assert(m.contains_key(nm));
                assert(entry_wf(m[nm]) && m[nm].3 == nm);
            }
        }
        let dir = directory_from(&listing);
        let ghost s1 = *self;
        let ghost can = can_remove(*old(self), pathname@);
        proof {
            if can {
                let p = parent_vinode.number;
                let m = old(self).dir_view(p).unwrap();
                lemma_dir_count(dir);
                assert(dir@.dom() =~= m.dom().remove(last@));
                assert(m.dom() =~= dir@.dom().insert(last@));
                lemma_dir_bytes_bound(dir);
                assert(dir.entries@.len() + 1 == m.dom().len());
                assert(fits_in_place(*self, p, directory_bytes(dir).len()));
            }
        }
        let written = self.write_dir_i(&dir, parent_vinode.number)?;
        let ghost s2 = *self;
        proof {
            let m = old(self).dir_view(parent_vinode.number).unwrap();
            old(self).lemma_dir_view_bounded(parent_vinode.number);
            assert(m.contains_key(last@));
        }
        let ghost parent_number = old(self).resolve(spec_parent_dir(pathname@)).unwrap();
        let ghost parent_dir_view = old(self).dir_view(parent_number).unwrap();
        assert(old(self).resolve(spec_parent_dir(pathname@)) == Some(parent_number));
        assert(old(self).dir_view(parent_number) == Some(parent_dir_view));
        assert(parent_dir_view.contains_key(spec_split_path(pathname@).1));
        assert(spec_split_path(pathname@).1 != "."@ && spec_split_path(pathname@).1 != ".."@);
        let mut inode = self.read_inode(entry.inode_number);
        let ghost read = inode;
        proof {
            if can {
                old(self).lemma_dir_view_bounded(parent_number);
                assert(read == inode_at(old(self).device@, entry.inode_number));
            }
        }
        inode.links_count = inode.links_count.saturating_sub(1);
        inode.ctime = crate::util::unixtime();
        let ghost low = self.fs_info.first_fbl_block_address as int;
        if inode.links_count < 1 {
            let mut k: usize = 0;
            while k < 12 && inode.direct_block_numbers[k] != NO_ADDRESS
                invariant
                    self.wf(),
                    self.fs_info == old(self).fs_info,
                    path_error(pathname@) is None,
                    old(self).resolve(spec_parent_dir(pathname@)) == Some(parent_number),
                    old(self).dir_view(parent_number) == Some(parent_dir_view),
                    parent_dir_view.contains_key(spec_split_path(pathname@).1),
                    spec_split_path(pathname@).1 != "."@ && spec_split_path(pathname@).1 != ".."@,
                    k <= 12,
                    low == self.fs_info.first_fbl_block_address,
                    self.device@.subrange(0, low) == s2.device@.subrange(0, low),
                    forall|j: int| 0 <= j < k ==> #[trigger] inode.direct_block_numbers@[j] != NO_ADDRESS,
                    inode.direct_block_numbers == read.direct_block_numbers,
                    can == can_remove(*old(self), pathname@),
                    can ==> forall|j: int| 0 <= j < block_prefix(read).len() ==> #[trigger] block_prefix(read)[j]
                        < self.fs_info.blocks_count,
                    forall|j: int| 0 <= j < k ==> #[trigger] fbl_values(self.fs_info, self.device@)[
                        inode.direct_block_numbers@[j] as int] == inode.direct_block_numbers@[j],
                    forall|j: int| 0 <= j < k ==> #[trigger] inode.direct_block_numbers@[j]
                        < self.fs_info.blocks_count,
                decreases 12 - k,
            {
                let ghost prev = self.device@;
                proof {
                    lemma_prefix_len(read.direct_block_numbers@);
                    lemma_prefix_len_at_least(read.direct_block_numbers@, k + 1);
                    assert(block_prefix(read)[k as int] == read.direct_block_numbers@[k as int]);
                }
                self.release_block(inode.direct_block_numbers[k])?;
                proof {
                    let b = inode.direct_block_numbers@[k as int];
                    lemma_layout_bounds(self.fs_info);
                    lemma_fbl_write_frame(self.fs_info, prev, b as int, spec_u32_to_le_bytes(b), 0, low);
                    lemma_fbl_slot_write(self.fs_info, prev, b as int, b);
                    assert forall|j: int| 0 <= j < k + 1 implies #[trigger] fbl_values(self.fs_info, self.device@)[
                        inode.direct_block_numbers@[j] as int] == inode.direct_block_numbers@[j] by {
                        let c = inode.direct_block_numbers@[j];
                        if c != b {
                            assert(fbl_values(self.fs_info, self.device@)[c as int] == fbl_values(
                                self.fs_info,
                                prev,
                            )[c as int]);
                        }
                    }
                }
                k = k + 1;
            }
            proof {
                lemma_with_free_reads_back(inode.mode.0, 1);
                lemma_prefix_len_exact(read.direct_block_numbers@, k as int);
                assert forall|j: int| 0 <= j < block_prefix(read).len() implies #[trigger] fbl_values(
                    self.fs_info,
                    self.device@,
                )[block_prefix(read)[j] as int] == block_prefix(read)[j] by {
                    assert(block_prefix(read)[j] == inode.direct_block_numbers@[j]);
                }
                assert(blocks_released(*self, block_prefix(read)));
            }
            inode.mode = inode.mode.with_free(1);
        }
        let ghost s3 = *self;
        let result = self.write_inode(&inode, inode.number);
        proof {
            if can {
                lemma_read_inode_after_write(s3.device@, inode, inode.number);
                lemma_layout_bounds(self.fs_info);
                lemma_inode_bytes_decode(inode);
                if inode.number <= self.fs_info.inodes_count {
                    lemma_low_write_keeps_fbl(
                        self.fs_info,
                        s3.device@,
                        inode_address(inode.number as int),
                        inode_bytes(inode),
                    );
                }
                assert(inode_at(self.device@, entry.inode_number) == inode);
                assert(result is Ok);
                assert(unlinks_inode(*old(self), *self, pathname@));
            }
            if result is Ok {
                assert(read == inode_at(s2.device@, entry.inode_number));
                lemma_remove_unlists(
                    *old(self),
                    s2,
                    s3,
                    *self,
                    parent_number,
                    parent_dir_view,
                    last@,
                    listing@,
                    dir,
                    written,
                    inode,
                );
            }
        }
        result
    }

    /// Creates an empty directory at `pathname`: a file holding the entries
    /// `..` and `.`, of directory type, with two links, and one more link for
    /// its parent.
    fn create_dir(&mut self, pathname: &str) -> (result: Result<VINode, Errno>)
        ensures
            e5fs_create_dir(*old(self), *final(self), pathname@, result),
    {
        let vinode = self.create_file(pathname)?;
        let parent = parent_dir(pathname)?;
        let parent_vinode = self.lookup_path(parent.as_str())?;
        let mut dir = Directory::new();
        dir.insert(parent_vinode.number, "..")?;
        dir.insert(vinode.number, ".")?;
        let ghost s1 = *self;
        let written = self.write_dir_i(&dir, vinode.number)?;
        let ghost s2 = *self;
        proof {
            lemma_with_type_reads_back(vinode.mode.0, 1);
        }
        let dir_mode = vinode.mode.with_file_type(1);
        self.write_mode_i(vinode.number, dir_mode)?;
        let ghost s3 = *self;
        let linked = self.write_links_count_i(vinode.number, 2)?;
        let ghost s4 = *self;
        let parent_linked = self.write_links_count_i(parent_vinode.number, parent_vinode.links_count.saturating_add(1))?;
        proof {
            let n = vinode.number;
            let q = parent_vinode.number;
            let ic = self.fs_info.inodes_count;
            reveal_strlit(".");
            reveal_strlit("..");
            assert(dir@ == dot_entries(n, q));
            if n + 1 < ic && distinct_blocks(self.fs_info, block_prefix(inode_at(self.device@, n))) {
                lemma_layout_bounds(self.fs_info);
                let mode_written = INode { mode: dir_mode, ..inode_at(s2.device@, n) };
                lemma_inode_rewrite_keeps_dir_view(s2, s3, n, mode_written);
                lemma_read_inode_after_write(s2.device@, mode_written, n);
                lemma_inode_rewrite_keeps_dir_view(s3, s4, n, linked);
                lemma_read_inode_after_write(s3.device@, linked, n);
                if q == n {
                    lemma_inode_rewrite_keeps_dir_view(s4, *self, n, parent_linked);
                    lemma_read_inode_after_write(s4.device@, parent_linked, n);
                } else {
                    s1.lemma_resolve_below(parent@);
                    lemma_inode_write_keeps_dir_view(s4, *self, q, parent_linked, n);
                    lemma_read_inode_after_other_write(s4.device@, parent_linked, q, n);
                }
                assert(block_prefix(inode_at(self.device@, n)) == block_prefix(written));
                s1.lemma_resolve_below(parent@);
                lemma_distinct_blocks_count(self.fs_info, block_prefix(written));
                let count = block_prefix(written).len();
                let bs = self.fs_info.block_size;
                let bc = self.fs_info.blocks_count;
                assert(count * bs <= bs * bc) by (nonlinear_arith)
                    requires
                        count <= bc,
                ;
                assert(bs * bc == self.fs_info.block_table_size);
                assert forall|k: int| 0 <= k < dir.entries@.len() implies entry_storable(
                    #[trigger] dir.entries@[k]@,
                    ic,
                ) by {
                    crate::text::lemma_lookup_named_at(dir.entries@, k);
                    let nm = dir.entries@[k].name@;
                    assert(dir@.contains_key(nm));
                    assert(dir@[nm] == dir.entries@[k]@);
                    assert(encode_utf8("."@).len() >= 1 && encode_utf8(".."@).len() >= 1) by {
                        reveal_with_fuel(encode_utf8, 2);
                    }
                }
                lemma_write_dir_then_read(s1, s2, n, dir, written);
                assert(self.dir_view(n) == Some(dot_entries(n, q)));
            }
        }
        Ok(vinode)
    }
}

} // verus!

verus! {

/// The sizes fit the 32-bit addresses of a layout, checked without
/// overflow.
fn layout_fits_exec(inodes_count: AddressSize, blocks_count: AddressSize, block_data_size: AddressSize) -> (fits: bool)
    ensures
        fits == layout_fits(inodes_count as nat, blocks_count as nat, block_data_size as nat),
{
    proof {
        vstd::arithmetic::mul::lemma_mul_upper_bound(
            block_data_size as int,
            0xFFFF_FFFF,
            blocks_count as int,
            0xFFFF_FFFF,
        );
    }
    let blocks_bytes: u64 = block_data_size as u64 * blocks_count as u64;
    if blocks_bytes > 0xFFFF_FFFF {
        return false;
    }
    let total: u64 = 120 + 112 * inodes_count as u64 + blocks_bytes;
    total <= 0xFFFF_FFFF
}

/// The fields a root directory's mode has: in use, a directory, and
/// `rwxr-xr-x`.
pub open spec fn is_root_mode(mode: FileMode) -> bool {
    &&& crate::eunix::fs::free_of(mode.0) == 0
    &&& type_of(mode.0) == 1
    &&& crate::eunix::fs::user_of(mode.0) == 7
    &&& crate::eunix::fs::group_of(mode.0) == 5
    &&& crate::eunix::fs::others_of(mode.0) == 5
}

impl E5FSFilesystem {
    /// Opens the filesystem stored on `device`, laid out as its superblock
    /// says.
    pub fn from(device: Vec<u8>) -> (result: Result<Self, Errno>)
        ensures
            device@.len() < SUPERBLOCK_SIZE ==> result matches Err(Errno::EBADFS(_)),
            result matches Ok(fs) ==> {
                &&& fs.wf()
                &&& fs.device@ == device@
                &&& decodes_superblock(device@.subrange(0, SUPERBLOCK_SIZE as int), fs.superblock)
                &&& fs.fs_info.inodes_count == fs.superblock.inodes_count
                &&& fs.fs_info.blocks_count == fs.superblock.blocks_count
                &&& fs.fs_info.block_data_size == fs.superblock.block_data_size
                &&& fs.fs_info.inode_table_percentage == fs.superblock.inode_table_percentage
                &&& fs.fs_info.device_size == device@.len()
            },
            opens_as_e5fs(device@) <==> result is Ok,
    {
        let superblock = match E5FSFilesystem::read_superblock(&device) {
            Some(s) => s,
            None => {
                return Err(Errno::EBADFS("e5fs::from: device is too small to hold a superblock".to_owned()));
            },
        };
        let ghost s = choose|s: Superblock| decodes_superblock(device@.subrange(0, SUPERBLOCK_SIZE as int), s);
        proof {
            lemma_decodes_superblock_unique(device@.subrange(0, SUPERBLOCK_SIZE as int), s, superblock);
        }
        if device.len() > 0xFFFF_FFFF {
            return Err(Errno::EBADFS("e5fs::from: device is too large".to_owned()));
        }
        if !layout_fits_exec(superblock.inodes_count, superblock.blocks_count, superblock.block_data_size) {
            return Err(Errno::EBADFS("e5fs::from: layout does not fit in 32-bit addresses".to_owned()));
        }
        let fs_info = match E5FSFilesystemBuilder::new(
            device.len() as u32,
            superblock.inodes_count,
            superblock.blocks_count,
            superblock.block_data_size,
            superblock.inode_table_percentage,
        ) {
            Ok(b) => b,
            Err(message) => {
                return Err(Errno::EBADFS(message.to_owned()));
            },
        };
        if (device.len() as u64) < fs_info.filesystem_size as u64 {
            return Err(Errno::EBADFS("e5fs::from: device is smaller than the filesystem".to_owned()));
        }
        if fs_info.filesystem_size as u64 + fs_info.block_size as u64 > usize::MAX as u64 {
            return Err(Errno::EBADFS("e5fs::from: filesystem does not fit in memory".to_owned()));
        }
        Ok(E5FSFilesystem { superblock, fs_info, device })
    }

    /// Makes a new filesystem of `inodes_count` inodes and `blocks_count`
    /// blocks of `block_data_size` bytes on `device`, which grows with zeros
    /// where it is too small to hold them: writes the superblock, the free
    /// blocks list, and a root directory with the entries `..` and `.` that
    /// lead to it.
    pub fn mkfs(
        device: Vec<u8>,
        inodes_count: AddressSize,
        blocks_count: AddressSize,
        block_data_size: AddressSize,
        inode_table_percentage: u32,
    ) -> (result: Result<Self, Errno>)
        ensures
            !layout_fits(inodes_count as nat, blocks_count as nat, block_data_size as nat) ==> (result matches Err(
                Errno::EINVAL(m)) && m@ == "e5fs::mkfs: layout does not fit in 32-bit addresses"@),
            layout_fits(inodes_count as nat, blocks_count as nat, block_data_size as nat) ==> (
                layout_error(blocks_count as nat, block_data_size as nat) matches Some(message) ==> (result matches Err(
                Errno::EINVAL(m)) && m@ == message)),
            result matches Ok(fs) ==> {
                &&& fs.wf()
                &&& layout_fits(inodes_count as nat, blocks_count as nat, block_data_size as nat)
                &&& layout_error(blocks_count as nat, block_data_size as nat) is None
                &&& fs.fs_info.inodes_count == inodes_count
                &&& fs.fs_info.blocks_count == blocks_count
                &&& fs.fs_info.block_data_size == block_data_size
                &&& fs.fs_info.inode_table_percentage == inode_table_percentage
                &&& fs.fs_info.device_size == (if device@.len() > 0xFFFF_FFFF { 0xFFFF_FFFF } else { device@.len() })
                &&& inodes_count >= 1
                &&& {
                    let root = inode_at(fs.device@, 0);
                    &&& is_root_mode(root.mode)
                    &&& root.links_count == 2
                    &&& root.uid == 0
                    &&& root.gid == 0
                    &&& root.number == 0
                }
            },
            layout_fits(inodes_count as nat, blocks_count as nat, block_data_size as nat) && layout_error(
                blocks_count as nat,
                block_data_size as nat,
            ) is None && inodes_count >= 1 && SUPERBLOCK_SIZE + INODE_SIZE * inodes_count + block_data_size
                * blocks_count + block_data_size <= usize::MAX ==> result is Ok,
            inodes_count >= 2 ==> (result matches Ok(fs) ==> fs.dir_view(0) == Some(dot_entries(0, 0))),
            result matches Ok(fs) ==> fbl_values(fs.fs_info, fs.device@) == fresh_fbl(fs.fs_info).update(0, NO_ADDRESS),
            result matches Ok(fs) ==> stores_superblock(fs) && describes_layout(fs.superblock, fs.fs_info)
                && fs.superblock.free_inode_numbers@ == fresh_inode_cache(inodes_count).update(0, NO_ADDRESS),
    {
        if !layout_fits_exec(inodes_count, blocks_count, block_data_size) {
            return Err(Errno::EINVAL("e5fs::mkfs: layout does not fit in 32-bit addresses".to_owned()));
        }
        let device_size: u32 = if device.len() > 0xFFFF_FFFF { 0xFFFF_FFFF } else { device.len() as u32 };
        let fs_info = match E5FSFilesystemBuilder::new(
            device_size,
            inodes_count,
            blocks_count,
            block_data_size,
            inode_table_percentage,
        ) {
            Ok(b) => b,
            Err(message) => {
                return Err(Errno::EINVAL(message.to_owned()));
            },
        };
        if fs_info.filesystem_size as u64 + fs_info.block_size as u64 > usize::MAX as u64 {
            return Err(Errno::EINVAL("e5fs::mkfs: filesystem does not fit in memory".to_owned()));
        }
        let mut device = device;
        let needed = fs_info.filesystem_size as usize;
        while device.len() < needed
            invariant
                needed == fs_info.filesystem_size,
            decreases needed - device.len(),
        {
            device.push(0);
        }
        let superblock = Superblock::new(&fs_info);
        assert(describes_layout(superblock, fs_info));
        let mut e5fs = E5FSFilesystem { superblock, fs_info, device };
        let _ = e5fs.write_superblock(&superblock);
        let ghost before_fbl = e5fs.device@;
        e5fs.write_fbl();
        proof {
            lemma_fresh_fbl_reads_back(e5fs.fs_info, before_fbl);
            lemma_layout_bounds(e5fs.fs_info);
            let values = fbl_values(e5fs.fs_info, e5fs.device@);
            assert(values[0] == 0u32);
            assert(first_free_value(values, 0u32));
            if inodes_count >= 1 {
                assert(first_cached_at(e5fs.superblock.free_inode_numbers@, 0, 0u32));
            }
        }
        e5fs.make_root_dir()?;
        proof {
            let values = fresh_fbl(e5fs.fs_info);
            assert forall|w: u32| first_free_value(values, w) implies w == 0 by {
                let i = choose|i: int| 0 <= i < values.len() && values[i] == w && w != NO_ADDRESS && forall|j: int|
                    0 <= j < i ==> #[trigger] values[j] == NO_ADDRESS;
                if i > 0 {
                    assert(values[0] == NO_ADDRESS);
                }
            }
        }
        Ok(e5fs)
    }

    /// Makes the root directory of a new filesystem: its inode, taken first
    /// from the fresh cache of free inodes, and the entries `..` and `.`.
    fn make_root_dir(&mut self) -> (result: Result<(), Errno>)
        requires
            old(self).wf(),
            old(self).superblock.free_inode_numbers@ == fresh_inode_cache(old(self).fs_info.inodes_count),
        ensures
            final(self).wf(),
            final(self).fs_info == old(self).fs_info,
            result is Ok ==> {
                let root = inode_at(final(self).device@, 0);
                &&& old(self).fs_info.inodes_count >= 1
                &&& is_root_mode(root.mode)
                &&& root.links_count == 2
                &&& root.uid == 0
                &&& root.gid == 0
                &&& root.number == 0
            },
            result is Ok <==> can_allocate(*old(self)),
            result is Ok ==> stores_superblock(*final(self)) && final(self).superblock == (Superblock {
                free_inode_numbers: final(self).superblock.free_inode_numbers,
                ..old(self).superblock
            }) && final(self).superblock.free_inode_numbers@ == old(self).superblock.free_inode_numbers@.update(
                0,
                NO_ADDRESS,
            ),
            result is Ok && old(self).fs_info.inodes_count >= 2 ==> final(self).dir_view(0) == Some(dot_entries(0, 0)),
            result is Ok ==> exists|b: u32| #[trigger] first_free_value(fbl_values(old(self).fs_info, old(self).device@), b)
                && (b < old(self).fs_info.first_fbl_block_number ==> fbl_values(final(self).fs_info, final(self).device@)
                == fbl_values(old(self).fs_info, old(self).device@).update(b as int, NO_ADDRESS)),
    {
        let (root_inode_number, allocated) = self.allocate_file()?;
        let ghost s1 = *self;
        proof {
            let cache = old(self).superblock.free_inode_numbers@;
            let k = choose|k: int| first_cached_at(cache, k, root_inode_number)
                && self.superblock.free_inode_numbers@ == cache.update(k, NO_ADDRESS);
            if k > 0 {
                assert(cache[0] == fresh_inode_cache(old(self).fs_info.inodes_count)[0]);
                assert(cache[0] == NO_ADDRESS);
            }
            assert(k == 0);
        }
        proof {
            let cache = old(self).superblock.free_inode_numbers@;
            assert(cache[0] == fresh_inode_cache(old(self).fs_info.inodes_count)[0]);
            if old(self).fs_info.inodes_count == 0 {
                assert forall|j: int| 0 <= j < 16 implies #[trigger] cache[j] == NO_ADDRESS by {
                    assert(cache[j] == fresh_inode_cache(old(self).fs_info.inodes_count)[j]);
                }
            }
        }
        let mut root_dir = Directory::new();
        proof {
            reveal_strlit(".");
            reveal_strlit("..");
            lemma_dot_names_encode();
        }
        root_dir.insert(root_inode_number, "..")?;
        root_dir.insert(root_inode_number, ".")?;
        proof {
            let n = root_inode_number;
            assert(root_dir@ == dot_entries(n, n));
            lemma_layout_bounds(self.fs_info);
            let blocks = allocated.direct_block_numbers@;
            assert(blocks[0] < self.fs_info.blocks_count);
            assert(blocks[0] != NO_ADDRESS);
            assert(blocks.drop_first()[0] == blocks[1]);
            assert(prefix_len(blocks.drop_first()) == 0);
            assert(prefix_len(blocks) == 1);
            assert(inode_at(self.device@, n) == allocated);
            assert(block_prefix(allocated) =~= seq![blocks[0]]);
            assert forall|k: int| 0 <= k < root_dir.entries@.len() implies #[trigger] root_dir.entries@[k]@.3 == "."@
                || root_dir.entries@[k]@.3 == ".."@ by {
                crate::text::lemma_lookup_named_at(root_dir.entries@, k);
                let nm = root_dir.entries@[k].name@;
                assert(root_dir@.contains_key(nm));
                assert(root_dir@[nm] == root_dir.entries@[k]@);
            }
            lemma_small_dir_bytes(root_dir);
            assert(fits_in_place(*self, n, directory_bytes(root_dir).len()));
        }
        let ghost s1 = *self;
        let written = self.write_dir_i(&root_dir, root_inode_number)?;
        let ghost s2 = *self;
        let ghost b = allocated.direct_block_numbers@[0];
        proof {
            if b < self.fs_info.first_fbl_block_number {
                let blocks = allocated.direct_block_numbers@;
                assert(blocks.drop_first()[0] == blocks[1]);
                assert(prefix_len(blocks.drop_first()) == 0);
                assert(block_prefix(inode_at(s1.device@, root_inode_number)) =~= seq![b]);
                assert(below_free_list(s1.fs_info, block_prefix(inode_at(s1.device@, root_inode_number))));
                assert(fbl_values(s2.fs_info, s2.device@) == fbl_values(s1.fs_info, s1.device@));
            }
        }
        proof {
            if self.fs_info.inodes_count >= 2 {
                let n = root_inode_number;
                assert(n == 0);
                lemma_layout_bounds(self.fs_info);
                let blocks = allocated.direct_block_numbers@;
                assert(blocks.drop_first()[0] == blocks[1]);
                assert(prefix_len(blocks.drop_first()) == 0);
                assert(block_prefix(written) =~= seq![blocks[0]]);
                assert(distinct_blocks(self.fs_info, block_prefix(written)));
                assert forall|k: int| 0 <= k < root_dir.entries@.len() implies entry_storable(
                    #[trigger] root_dir.entries@[k]@,
                    self.fs_info.inodes_count,
                ) by {
                    crate::text::lemma_lookup_named_at(root_dir.entries@, k);
                    let nm = root_dir.entries@[k].name@;
                    assert(root_dir@.contains_key(nm));
                    assert(root_dir@[nm] == root_dir.entries@[k]@);
                }
                lemma_small_dir_bytes(root_dir);
                lemma_write_dir_then_read(s1, s2, n, root_dir, written);
            }
        }
        let mut root_inode = self.read_inode(root_inode_number);
        proof {
            lemma_with_free_reads_back(0, 0);
        }
        let m0 = FileMode::zero().with_free(0);
        proof {
            lemma_with_type_reads_back(m0.0, 1);
        }
        let m1 = m0.with_file_type(1);
        proof {
            crate::eunix::fs::lemma_with_user_reads_back(m1.0, 7);
        }
        let m2 = m1.with_user(7);
        proof {
            crate::eunix::fs::lemma_with_group_reads_back(m2.0, 5);
        }
        let m3 = m2.with_group(5);
        proof {
            crate::eunix::fs::lemma_with_others_reads_back(m3.0, 5);
        }
        let mode = m3.with_others(5);
        root_inode.mode = mode;
        root_inode.atime = crate::util::unixtime();
        root_inode.mtime = crate::util::unixtime();
        root_inode.ctime = crate::util::unixtime();
        root_inode.btime = crate::util::unixtime();
        root_inode.links_count = 2;
        root_inode.uid = 0;
        root_inode.gid = 0;
        let ghost before = self.device@;
        self.write_inode(&root_inode, root_inode_number)?;
        proof {
            lemma_high_write_keeps_superblock(before, inode_address(root_inode_number as int), inode_bytes(root_inode));
            assert(stores_superblock(*self));
            lemma_read_inode_after_write(before, root_inode, root_inode_number);
            if self.fs_info.inodes_count >= 2 {
                lemma_inode_rewrite_keeps_dir_view(s2, *self, root_inode_number, root_inode);
            }
            lemma_layout_bounds(self.fs_info);
            lemma_inode_bytes_decode(root_inode);
            lemma_low_write_keeps_fbl(self.fs_info, before, inode_address(root_inode_number as int), inode_bytes(root_inode));
            assert(first_free_value(fbl_values(old(self).fs_info, old(self).device@), b));
        }
        Ok(())
    }

    /// Gives back the last `blocks_count` blocks of a file's leading run of
    /// direct blocks, counted as the slots from the end as long as the run.
    pub fn shrink_file(&mut self, inode_number: AddressSize, blocks_count: AddressSize) -> (result: Result<(), Errno>)
        requires
            old(self).wf(),
            inode_number <= old(self).fs_info.inodes_count,
        ensures
            final(self).wf(),
            final(self).fs_info == old(self).fs_info,
            final(self).superblock == old(self).superblock,
            ({
                let blocks = inode_at(old(self).device@, inode_number).direct_block_numbers@;
                &&& prefix_len(blocks) == 12 ==> (result matches Err(Errno::EIO(m))
                    && m@ == "no block slots used in inode - can't shrink"@ && final(self).device@ == old(self).device@)
                &&& prefix_len(blocks) < 12 && blocks_count > prefix_len(blocks) ==> (result matches Err(Errno::EIO(m))
                    && m@ == "not enough used slots in inode - can't shrink"@ && final(self).device@ == old(self).device@)
            }),
    {
        let mut inode = self.read_inode(inode_number);
        proof {
            lemma_prefix_len(inode.direct_block_numbers@);
        }
        let mut used: usize = 0;
        while used < 12 && inode.direct_block_numbers[used] != NO_ADDRESS
            invariant
                used <= 12,
                forall|k: int| 0 <= k < used ==> #[trigger] inode.direct_block_numbers@[k] != NO_ADDRESS,
            decreases 12 - used,
        {
            used = used + 1;
        }
        proof {
            lemma_prefix_len_exact(inode.direct_block_numbers@, used as int);
        }
        if used == 12 {
            return Err(Errno::EIO("no block slots used in inode - can't shrink".to_owned()));
        }
        if blocks_count as usize > used {
            return Err(Errno::EIO("not enough used slots in inode - can't shrink".to_owned()));
        }
        let first_used_slot: usize = 11 - used;
        let mut k: usize = first_used_slot;
        while k < 12
            invariant
                self.wf(),
                self.fs_info == old(self).fs_info,
                self.superblock == old(self).superblock,
                prefix_len(inode_at(old(self).device@, inode_number).direct_block_numbers@) < 12,
                blocks_count <= prefix_len(inode_at(old(self).device@, inode_number).direct_block_numbers@),
                first_used_slot <= k <= 12,
            decreases 12 - k,
        {
            self.release_block(inode.direct_block_numbers[k])?;
            inode.direct_block_numbers[k] = NO_ADDRESS;
            k = k + 1;
        }
        self.write_inode(&inode, inode_number)
    }

    /// The direct block numbers of a file, in slot order.
    pub fn iter_blocks_i(&self, inode_number: AddressSize) -> (blocks: Vec<AddressSize>)
        requires
            self.wf(),
            inode_number <= self.fs_info.inodes_count,
        ensures
            blocks@ == inode_at(self.device@, inode_number).direct_block_numbers@,
    {
        let inode = self.read_inode(inode_number);
        let mut blocks: Vec<AddressSize> = Vec::new();
        let mut k: usize = 0;
        while k < 12
            invariant
                k <= 12,
                blocks@ == inode.direct_block_numbers@.take(k as int),
            decreases 12 - k,
        {
            blocks.push(inode.direct_block_numbers[k]);
            proof {
                assert(inode.direct_block_numbers@.take(k + 1) =~= inode.direct_block_numbers@.take(k as int).push(
                    inode.direct_block_numbers@[k as int],
                ));
            }
            k = k + 1;
        }
        proof {
            assert(inode.direct_block_numbers@.take(12) =~= inode.direct_block_numbers@);
        }
        blocks
    }
}

} // verus!

verus! {

/// After `data` was written as the contents of the file of inode `n`, the
/// file reads back as `data` and keeps its type, where the blocks the write
/// left it with are distinct blocks of the device.
pub proof fn lemma_write_then_read(
    before: E5FSFilesystem,
    after: E5FSFilesystem,
    n: AddressSize,
    data: Seq<u8>,
    written: INode,
)
    requires
        after.fs_info == before.fs_info,
        wrote_data(before.fs_info, before.device@, after.device@, n, data, written),
        n < before.fs_info.inodes_count,
        data.len() <= 0xFFFF_FFFF,
        distinct_blocks(before.fs_info, block_prefix(written)),
    ensures
        after.blocks_in_range(n),
        after.stored_data(n) == data,
        inode_at(after.device@, n).mode == inode_at(before.device@, n).mode,
{
}

} // verus!

verus! {

/// A directory written as the contents of the file of inode `n` reads back
/// as that directory, where its entries can be stored and the blocks the
/// write left the file with are distinct blocks of the device.
pub proof fn lemma_write_dir_then_read(
    before: E5FSFilesystem,
    after: E5FSFilesystem,
    n: AddressSize,
    dir: Directory,
    written: INode,
)
    requires
        after.fs_info == before.fs_info,
        dir.wf(),
        forall|k: int| 0 <= k < dir.entries@.len() ==> entry_storable(#[trigger] dir.entries@[k]@, before.fs_info.inodes_count),
        wrote_data(before.fs_info, before.device@, after.device@, n, directory_bytes(dir), written),
        n < before.fs_info.inodes_count,
        directory_bytes(dir).len() <= 0xFFFF_FFFF,
        distinct_blocks(before.fs_info, block_prefix(written)),
    ensures
        after.dir_view(n) == Some(dir@),
{
    lemma_write_then_read(before, after, n, directory_bytes(dir), written);
    lemma_directory_bytes_parse(dir, before.fs_info.inodes_count);
}

} // verus!

verus! {

/// The bytes of blocks below block `top` depend only on the part of the
/// device those blocks take.
pub proof fn lemma_blocks_content_frame(layout: E5FSFilesystemBuilder, a: Seq<u8>, b: Seq<u8>, blocks: Seq<u32>, top: int)
    requires
        layout_wf(layout),
        a.len() >= layout.filesystem_size,
        b.len() >= layout.filesystem_size,
        top <= layout.blocks_count,
        forall|k: int| 0 <= k < blocks.len() ==> #[trigger] blocks[k] < top,
        a.subrange(layout.first_block_address as int, block_address(layout, top)) == b.subrange(
            layout.first_block_address as int,
            block_address(layout, top),
        ),
    ensures
        blocks_content(layout, a, blocks) == blocks_content(layout, b, blocks),
    decreases blocks.len(),
{
    if blocks.len() > 0 {
        let rest = blocks.drop_last();
        assert forall|k: int| 0 <= k < rest.len() implies #[trigger] rest[k] < top by {
            assert(rest[k] == blocks[k]);
        }
        lemma_blocks_content_frame(layout, a, b, rest, top);
        lemma_layout_bounds(layout);
        let n = blocks.last() as int;
        assert(blocks.last() == blocks[blocks.len() - 1]);
        let bs = layout.block_size as int;
        assert(n * bs >= 0 && n * bs + bs <= top * bs) by (nonlinear_arith)
            requires
                n >= 0,
                bs >= 0,
                n < top,
        ;
        let lo = block_address(layout, n);
        let hi = lo + bs;
        let f = layout.first_block_address as int;
        let t = block_address(layout, top);
        assert(f <= lo && hi <= t);
        assert(t <= layout.filesystem_size) by {
            assert(top * bs <= layout.blocks_count * bs) by (nonlinear_arith)
                requires
                    top <= layout.blocks_count,
                    bs >= 0,
            ;
        }
        assert forall|i: int| 0 <= i < hi - lo implies a.subrange(lo, hi)[i] == b.subrange(lo, hi)[i] by {
            assert(a.subrange(f, t)[lo + i - f] == b.subrange(f, t)[lo + i - f]);
        }
        assert(a.subrange(lo, hi) =~= b.subrange(lo, hi));
    }
}

/// Writing the slot of inode `n` leaves the directory of every other inode
/// as it read.
pub proof fn lemma_inode_write_keeps_dir_view(
    before: E5FSFilesystem,
    after: E5FSFilesystem,
    n: AddressSize,
    inode: INode,
    p: AddressSize,
)
    requires
        before.wf(),
        after.fs_info == before.fs_info,
        n < before.fs_info.inodes_count,
        n != p,
        after.device@ == write_at(before.device@, inode_address(n as int), inode_bytes(inode)),
    ensures
        after.dir_view(p) == before.dir_view(p),
{
    let layout = before.fs_info;
    lemma_layout_bounds(layout);
    if p <= layout.inodes_count {
        assert(inode_address(p as int) + INODE_RECORD_SIZE <= before.device@.len());
        lemma_read_inode_after_other_write(before.device@, inode, n, p);
        assert(inode_at(after.device@, p) == inode_at(before.device@, p));
        lemma_inode_bytes_decode(inode);
        assert(inode_address(n as int) + inode_bytes(inode).len() <= layout.first_block_address);
        lemma_write_at_frame(
            before.device@,
            inode_address(n as int),
            inode_bytes(inode),
            layout.first_block_address as int,
            layout.filesystem_size as int,
        );
        let ip = inode_at(before.device@, p);
        if before.blocks_in_range(p) {
            let blocks = block_prefix(ip);
            assert forall|k: int| 0 <= k < blocks.len() implies #[trigger] blocks[k] < layout.blocks_count by {}
            lemma_block_table_end(layout);
            lemma_block_table_end(layout);
        lemma_blocks_content_frame(layout, after.device@, before.device@, blocks, layout.blocks_count as int);
            assert(after.stored_data(p) == before.stored_data(p));
        }
    }
}

/// Distinct blocks of a device are no more than the blocks it has.
pub proof fn lemma_distinct_blocks_count(layout: E5FSFilesystemBuilder, blocks: Seq<u32>)
    requires
        distinct_blocks(layout, blocks),
    ensures
        blocks.len() <= layout.blocks_count,
{
    let ints = blocks.map_values(|b: u32| b as int);
    assert(ints.no_duplicates()) by {
        assert forall|i: int, j: int| 0 <= i < ints.len() && 0 <= j < ints.len() && i != j implies ints[i]
            != ints[j] by {
            if i < j {
                assert(blocks[i] != blocks[j]);
            } else {
                assert(blocks[j] != blocks[i]);
            }
        }
    }
    ints.unique_seq_to_set();
    let range = vstd::set_lib::set_int_range(0, layout.blocks_count as int);
    vstd::set_lib::lemma_int_range(0, layout.blocks_count as int);
    assert(ints.to_set().subset_of(range)) by {
        assert forall|x: int| ints.to_set().contains(x) implies range.contains(x) by {
            let k = choose|k: int| 0 <= k < ints.len() && ints[k] == x;
            assert(blocks[k] < layout.blocks_count);
        }
    }
    vstd::set_lib::lemma_len_subset(ints.to_set(), range);
}

/// The last component of a path is never empty.
pub proof fn lemma_last_component_nonempty(pathname: Seq<char>)
    ensures
        spec_split_path(pathname).1.len() > 0,
{
    let pieces = crate::text::split_on(pathname, '/');
    let keep = |p: Seq<char>| p.len() > 0;
    let components = crate::eunix::fs::path_components(pathname);
    if components.len() > 0 {
        assert(components == pieces.filter(keep));
        pieces.lemma_filter_pred(keep, components.len() - 1);
    }
}

/// Rewriting the slot of inode `n` with the same blocks and size leaves its
/// directory as it read.
pub proof fn lemma_inode_rewrite_keeps_dir_view(before: E5FSFilesystem, after: E5FSFilesystem, n: AddressSize, inode: INode)
    requires
        before.wf(),
        after.fs_info == before.fs_info,
        n < before.fs_info.inodes_count,
        inode.number == n,
        inode.direct_block_numbers == inode_at(before.device@, n).direct_block_numbers,
        inode.file_size == inode_at(before.device@, n).file_size,
        after.device@ == write_at(before.device@, inode_address(n as int), inode_bytes(inode)),
    ensures
        after.dir_view(n) == before.dir_view(n),
{
    let layout = before.fs_info;
    lemma_layout_bounds(layout);
    lemma_read_inode_after_write(before.device@, inode, n);
    lemma_inode_bytes_decode(inode);
    assert(inode_address(n as int) + inode_bytes(inode).len() <= layout.first_block_address);
    lemma_write_at_frame(
        before.device@,
        inode_address(n as int),
        inode_bytes(inode),
        layout.first_block_address as int,
        layout.filesystem_size as int,
    );
    let blocks = block_prefix(inode);
    assert(blocks == block_prefix(inode_at(before.device@, n)));
    if before.blocks_in_range(n) {
        assert forall|k: int| 0 <= k < blocks.len() implies #[trigger] blocks[k] < layout.blocks_count by {}
        lemma_block_table_end(layout);
        lemma_blocks_content_frame(layout, after.device@, before.device@, blocks, layout.blocks_count as int);
        assert(after.stored_data(n) == before.stored_data(n));
    }
}

impl E5FSFilesystem {
    /// A path leads to the root or to an inode below the last one.
    pub proof fn lemma_resolve_below(&self, pathname: Seq<char>)
        requires
            self.wf(),
        ensures
            self.resolve(pathname) matches Some(q) ==> q == 0 || q + 1 < self.fs_info.inodes_count,
    {
        let (dirs, last) = spec_split_path(pathname);
        if !(dirs.len() == 0 && last == seq!['/']) {
            self.lemma_walk_below(self.fs_info.root_inode_number, dirs.push(last));
        }
    }

    /// A walk of at least one step ends below the last inode.
    pub proof fn lemma_walk_below(&self, start: AddressSize, components: Seq<Seq<char>>)
        requires
            components.len() > 0,
        ensures
            self.walk(start, components) matches Some(q) ==> q + 1 < self.fs_info.inodes_count,
        decreases components.len(),
    {
        self.lemma_dir_view_bounded(start);
        if let Some(m) = self.dir_view(start) {
            if m.contains_key(components[0]) && components.len() > 1 {
                self.lemma_walk_below(m[components[0]].0, components.drop_first());
            }
        }
    }
}

/// The block table ends where the filesystem does.
pub proof fn lemma_block_table_end(layout: E5FSFilesystemBuilder)
    requires
        layout_wf(layout),
    ensures
        block_address(layout, layout.blocks_count as int) == layout.filesystem_size,
{
    assert(layout.blocks_count * layout.block_size == layout.block_size * layout.blocks_count) by (nonlinear_arith);
}

/// Devices that agree before the free blocks list hold the same inodes.
pub proof fn lemma_low_frame_keeps_inode(a: E5FSFilesystem, b: E5FSFilesystem, n: AddressSize)
    requires
        a.wf(),
        b.fs_info == a.fs_info,
        b.device@.len() >= a.fs_info.filesystem_size,
        n <= a.fs_info.inodes_count,
        a.device@.subrange(0, a.fs_info.first_fbl_block_address as int) == b.device@.subrange(
            0,
            a.fs_info.first_fbl_block_address as int,
        ),
    ensures
        inode_at(b.device@, n) == inode_at(a.device@, n),
{
    let layout = a.fs_info;
    lemma_layout_bounds(layout);
    let lo = inode_address(n as int);
    let hi = lo + INODE_RECORD_SIZE;
    let f = layout.first_fbl_block_address as int;
    assert(hi <= f);
    assert(a.device@.subrange(lo, hi) =~= b.device@.subrange(lo, hi)) by {
        assert forall|i: int| 0 <= i < hi - lo implies a.device@.subrange(lo, hi)[i] == b.device@.subrange(lo, hi)[i] by {
            assert(a.device@.subrange(0, f)[lo + i] == b.device@.subrange(0, f)[lo + i]);
        }
    }
    lemma_inode_slot_determines(a.device@, b.device@, n);
}

/// Devices that agree before the free blocks list read the same directory
/// for an inode whose blocks all lie before the list.
pub proof fn lemma_low_frame_keeps_dir_view(a: E5FSFilesystem, b: E5FSFilesystem, p: AddressSize)
    requires
        a.wf(),
        b.fs_info == a.fs_info,
        b.device@.len() >= a.fs_info.filesystem_size,
        p <= a.fs_info.inodes_count,
        a.device@.subrange(0, a.fs_info.first_fbl_block_address as int) == b.device@.subrange(
            0,
            a.fs_info.first_fbl_block_address as int,
        ),
        below_free_list(a.fs_info, block_prefix(inode_at(a.device@, p))),
    ensures
        b.dir_view(p) == a.dir_view(p),
{
    let layout = a.fs_info;
    lemma_layout_bounds(layout);
    lemma_low_frame_keeps_inode(a, b, p);
    let blocks = block_prefix(inode_at(a.device@, p));
    let top = layout.first_fbl_block_number as int;
    let f = layout.first_block_address as int;
    let t = block_address(layout, top);
    assert(t == layout.first_fbl_block_address);
    assert(a.device@.subrange(f, t) =~= b.device@.subrange(f, t)) by {
        assert forall|i: int| 0 <= i < t - f implies a.device@.subrange(f, t)[i] == b.device@.subrange(f, t)[i] by {
            assert(a.device@.subrange(0, t)[f + i] == b.device@.subrange(0, t)[f + i]);
        }
    }
    assert forall|k: int| 0 <= k < blocks.len() implies #[trigger] blocks[k] < top by {}
    lemma_blocks_content_frame(layout, a.device@, b.device@, blocks, top);
}

/// The parent directory that `remove_file` rewrites reads back without the
/// removed name, whatever happens afterwards to the free blocks list and to
/// the removed file's inode.
proof fn lemma_remove_unlists(
    before: E5FSFilesystem,
    s2: E5FSFilesystem,
    s3: E5FSFilesystem,
    after: E5FSFilesystem,
    p: AddressSize,
    m: Map<Seq<char>, EntryView>,
    last: Seq<char>,
    listing: Map<Seq<char>, AddressSize>,
    dir: Directory,
    written: INode,
    inode: INode,
)
    requires
        before.wf(),
        s2.wf(),
        s3.wf(),
        s2.fs_info == before.fs_info,
        s3.fs_info == before.fs_info,
        after.fs_info == before.fs_info,
        p <= before.fs_info.inodes_count,
        before.dir_view(p) == Some(m),
        m.contains_key(last),
        listing == m.map_values(|e: EntryView| e.0).remove(last),
        dir.wf(),
        dir@ == Map::new(|n: Seq<char>| listing.contains_key(n), |n: Seq<char>| new_entry(listing[n], n)),
        wrote_data(before.fs_info, before.device@, s2.device@, p, directory_bytes(dir), written),
        s3.device@.subrange(0, before.fs_info.first_fbl_block_address as int) == s2.device@.subrange(
            0,
            before.fs_info.first_fbl_block_address as int,
        ),
        inode.number == m[last].0,
        inode.direct_block_numbers == inode_at(s2.device@, inode.number).direct_block_numbers,
        inode.file_size == inode_at(s2.device@, inode.number).file_size,
        after.device@ == write_at(s3.device@, inode_address(inode.number as int), inode_bytes(inode)),
    ensures
        (p < before.fs_info.inodes_count
            && (forall|name: Seq<char>| #[trigger] m.contains_key(name) ==> name.len() > 0)
            && distinct_blocks(after.fs_info, block_prefix(inode_at(after.device@, p)))
            && below_free_list(after.fs_info, block_prefix(inode_at(after.device@, p))))
            ==> after.dir_view(p) == Some(Map::new(
                |name: Seq<char>| m.contains_key(name) && name != last,
                |name: Seq<char>| new_entry(m[name].0, name),
            )),
{
    let e = inode.number;
    let ic = before.fs_info.inodes_count;
    let after_blocks = block_prefix(inode_at(after.device@, p));
    if p < ic && (forall|name: Seq<char>| #[trigger] m.contains_key(name) ==> name.len() > 0)
        && distinct_blocks(after.fs_info, after_blocks) && below_free_list(after.fs_info, after_blocks) {
        lemma_layout_bounds(before.fs_info);
        before.lemma_dir_view_bounded(p);
        let mm = before.dir_view(p).unwrap();
        assert(mm == m);
        assert(mm.contains_key(last));
        assert(mm[last].0 + 1 < ic);
        assert(m.contains_key(last) ==> m[last].0 + 1 < ic && entry_wf(m[last]) && m[last].3 == last);
        assert(e + 1 < ic);
        lemma_low_frame_keeps_inode(s2, s3, p);
        lemma_low_frame_keeps_inode(s2, s3, e);
        if e == p {
            lemma_read_inode_after_write(s3.device@, inode, p);
        } else {
            lemma_read_inode_after_other_write(s3.device@, inode, e, p);
        }
        assert(block_prefix(inode_at(after.device@, p)) == block_prefix(written));
        assert(block_prefix(inode_at(s2.device@, p)) == block_prefix(written));
        lemma_distinct_blocks_count(before.fs_info, block_prefix(written));
        let count = block_prefix(written).len();
        let bs = before.fs_info.block_size;
        let bc = before.fs_info.blocks_count;
        assert(count * bs <= bs * bc) by (nonlinear_arith)
            requires
                count <= bc,
        ;
        assert(bs * bc == before.fs_info.block_table_size);
        let target = Map::new(
            |name: Seq<char>| m.contains_key(name) && name != last,
            |name: Seq<char>| new_entry(m[name].0, name),
        );
        assert(dir@ =~= target);
        assert forall|k: int| 0 <= k < dir.entries@.len() implies entry_storable(#[trigger] dir.entries@[k]@, ic) by {
            crate::text::lemma_lookup_named_at(dir.entries@, k);
            let nm = dir.entries@[k].name@;
            assert(dir@.contains_key(nm));
            assert(dir@[nm] == dir.entries@[k]@);
            assert(m.contains_key(nm));
            assert(m.contains_key(nm) ==> m[nm].0 + 1 < ic && entry_wf(m[nm]) && m[nm].3 == nm);
            assert(encode_utf8(nm).len() >= 1) by {
                reveal_with_fuel(encode_utf8, 2);
            }
            assert(entry_wf(m[nm]) && m[nm].3 == nm);
        }
        lemma_write_dir_then_read(before, s2, p, dir, written);
        lemma_low_frame_keeps_dir_view(s2, s3, p);
        if e == p {
            lemma_inode_rewrite_keeps_dir_view(s3, after, p, inode);
        } else {
            lemma_inode_write_keeps_dir_view(s3, after, e, inode, p);
        }
    }
}

/// `.` and `..` take one and two bytes.
proof fn lemma_dot_names_encode()
    ensures
        encode_utf8("."@).len() == 1,
        encode_utf8(".."@).len() == 2,
{
    reveal_strlit(".");
    reveal_strlit("..");
    assert("."@ =~= seq!['.']);
    assert(".."@ =~= seq!['.', '.']);
    reveal_with_fuel(encode_utf8, 3);
    assert(vstd::utf8::has_width_1_encoding('.' as u32));
    assert(vstd::utf8::encode_scalar('.' as u32).len() == 1);
    assert(seq!['.', '.'].drop_first() =~= seq!['.']);
    assert(seq!['.'].drop_first() =~= Seq::<char>::empty());
    assert(encode_utf8(seq!['.']).len() == 1);
    assert(encode_utf8(seq!['.', '.']).len() == 2);
}

/// A directory of two entries named `.` or `..` takes at most 32 bytes.
proof fn lemma_small_dir_bytes(d: Directory)
    requires
        d.entries@.len() == 2,
        forall|k: int| 0 <= k < d.entries@.len() ==> #[trigger] d.entries@[k]@.3 == "."@ || d.entries@[k]@.3 == ".."@,
    ensures
        directory_bytes(d).len() <= 32,
{
    lemma_dot_names_encode();
    lemma_auto_spec_u32_to_from_le_bytes();
    lemma_auto_spec_u16_to_from_le_bytes();
    let es = entry_views(d.entries@);
    assert(es[0] == d.entries@[0]@);
    assert(es[1] == d.entries@[1]@);
    assert(d.entries@[0]@.3 == "."@ || d.entries@[0]@.3 == ".."@);
    assert(d.entries@[1]@.3 == "."@ || d.entries@[1]@.3 == ".."@);
    assert(entry_bytes(es[0]).len() <= 9);
    assert(entry_bytes(es[1]).len() <= 9);
    let rest = es.drop_first();
    assert(rest[0] == es[1]);
    assert(rest.drop_first().len() == 0);
    assert(entries_bytes(rest.drop_first()).len() == 0);
    assert(entries_bytes(rest).len() <= 9);
    assert(entries_bytes(es).len() <= 18);
}

/// A write that misses the slot of inode `q` leaves that inode as it was.
pub proof fn lemma_write_keeps_slot(a: Seq<u8>, offset: int, bytes: Seq<u8>, q: AddressSize)
    requires
        inode_address(q as int) + INODE_RECORD_SIZE <= a.len(),
        0 <= offset,
        offset + bytes.len() <= inode_address(q as int) || inode_address(q as int) + INODE_RECORD_SIZE <= offset,
    ensures
        inode_at(write_at(a, offset, bytes), q) == inode_at(a, q),
{
    let lo = inode_address(q as int);
    let hi = lo + INODE_RECORD_SIZE;
    lemma_write_at_frame(a, offset, bytes, lo, hi);
    lemma_inode_slot_determines(write_at(a, offset, bytes), a, q);
}

/// The writes of an allocation of inode `n` leave every other inode of the
/// table as it was: the superblock, the slot of `n`, a slot of the free
/// blocks list, the slot of `n` again and the claimed block.
proof fn lemma_allocation_keeps_other_inodes(
    layout: E5FSFilesystemBuilder,
    d0: Seq<u8>,
    superblock: Seq<u8>,
    n: AddressSize,
    claimed: Seq<u8>,
    d1: Seq<u8>,
    b: AddressSize,
    d2: Seq<u8>,
    inode: INode,
    d3: Seq<u8>,
    zero: Seq<u8>,
    d4: Seq<u8>,
)
    requires
        layout_wf(layout),
        d0.len() >= layout.filesystem_size,
        superblock.len() == SUPERBLOCK_SIZE,
        claimed.len() == INODE_RECORD_SIZE,
        d1 == write_at(write_at(d0, 0, superblock), inode_address(n as int), claimed),
        b < layout.blocks_count,
        d2 == write_at(d1, fbl_slot_address(layout, b as int), spec_u32_to_le_bytes(NO_ADDRESS)),
        d3 == write_at(d2, inode_address(n as int), inode_bytes(inode)),
        d4 == write_at(d3, block_address(layout, b as int), zero),
        n <= layout.inodes_count,
    ensures
        forall|q: AddressSize| q < layout.inodes_count && q != n ==> #[trigger] inode_at(d4, q) == inode_at(d0, q),
{
    lemma_layout_bounds(layout);
    assert forall|q: AddressSize| q < layout.inodes_count && q != n implies #[trigger] inode_at(d4, q) == inode_at(d0, q) by {
        let bs = layout.block_size as int;
        assert(inode_address(q as int) + INODE_RECORD_SIZE <= layout.first_block_address);
        assert(b * bs >= 0) by (nonlinear_arith)
            requires
                bs >= 0,
        ;
        lemma_write_keeps_slot(d0, 0, superblock, q);
        let sb = write_at(d0, 0, superblock);
        lemma_inode_bytes_decode(inode);
        lemma_read_inode_after_other_write_bytes(sb, claimed, n, q);
        lemma_write_keeps_slot(d1, fbl_slot_address(layout, b as int), spec_u32_to_le_bytes(NO_ADDRESS), q);
        lemma_read_inode_after_other_write(d2, inode, n, q);
        lemma_write_keeps_slot(d3, block_address(layout, b as int), zero, q);
    }
}

/// Writing a record into the slot of inode `n` leaves any other inode as it
/// was.
proof fn lemma_read_inode_after_other_write_bytes(a: Seq<u8>, bytes: Seq<u8>, n: AddressSize, q: AddressSize)
    requires
        n != q,
        bytes.len() == INODE_RECORD_SIZE,
        inode_address(q as int) + INODE_RECORD_SIZE <= a.len(),
    ensures
        inode_at(write_at(a, inode_address(n as int), bytes), q) == inode_at(a, q),
{
    if n < q {
        assert(inode_address(n as int) + 112 <= inode_address(q as int));
    } else {
        assert(inode_address(q as int) + 112 <= inode_address(n as int));
    }
    lemma_write_keeps_slot(a, inode_address(n as int), bytes, q);
}

/// Stored entries take at most 262 bytes each.
pub proof fn lemma_entries_bytes_bound(es: Seq<EntryView>)
    requires
        forall|k: int| 0 <= k < es.len() ==> entry_wf(#[trigger] es[k]),
    ensures
        entries_bytes(es).len() <= 262 * es.len(),
    decreases es.len(),
{
    if es.len() > 0 {
        let rest = es.drop_first();
        assert forall|k: int| 0 <= k < rest.len() implies entry_wf(#[trigger] rest[k]) by {
            assert(rest[k] == es[k + 1]);
        }
        lemma_entries_bytes_bound(rest);
        lemma_auto_spec_u32_to_from_le_bytes();
        lemma_auto_spec_u16_to_from_le_bytes();
        assert(entry_wf(es[0]));
        assert(entry_bytes(es[0]).len() <= 262);
    }
}

/// A directory's bytes: four for the count and at most 262 per entry.
pub proof fn lemma_dir_bytes_bound(d: Directory)
    requires
        d.wf(),
    ensures
        directory_bytes(d).len() <= 4 + 262 * d.entries@.len(),
{
    let es = entry_views(d.entries@);
    assert forall|k: int| 0 <= k < es.len() implies entry_wf(#[trigger] es[k]) by {
        assert(es[k] == d.entries@[k]@);
    }
    lemma_entries_bytes_bound(es);
    lemma_auto_spec_u32_to_from_le_bytes();
}

/// A directory lists as many names as it has entries.
pub proof fn lemma_dir_count(d: Directory)
    requires
        d.wf(),
    ensures
        d@.dom().finite(),
        d@.dom().len() == d.entries@.len(),
{
    let names = names_of(d.entries@);
    assert(names.no_duplicates()) by {
        assert forall|i: int, j: int| 0 <= i < names.len() && 0 <= j < names.len() && i != j implies names[i]
            != names[j] by {
            if names[i] == names[j] {
                crate::text::lemma_sorted_names_distinct(names, i, j);
            }
        }
    }
    names.unique_seq_to_set();
    assert(d@.dom() =~= names.to_set()) by {
        assert forall|x: Seq<char>| d@.dom().contains(x) <==> names.to_set().contains(x) by {
            lemma_lookup_named_some(d.entries@, x);
        }
    }
    vstd::seq_lib::seq_to_set_is_finite(names);
}

/// After the fresh free blocks list was written, its slots read back as
/// that list.
pub proof fn lemma_fresh_fbl_reads_back(layout: E5FSFilesystemBuilder, device: Seq<u8>)
    requires
        layout_wf(layout),
        device.len() >= layout.filesystem_size,
    ensures
        fbl_values(layout, write_at(device, layout.first_fbl_block_address as int, words_bytes(fresh_fbl(layout))))
            == fresh_fbl(layout),
{
    lemma_layout_bounds(layout);
    let f = layout.first_fbl_block_address as int;
    let w = words_bytes(fresh_fbl(layout));
    lemma_words_bytes(fresh_fbl(layout));
    let d = write_at(device, f, w);
    lemma_write_at_read_back(device, f, w);
    assert forall|i: int| 0 <= i < fbl_slots(layout) implies #[trigger] fbl_slot(layout, d, i) == fresh_fbl(layout)[i] by {
        let a = fbl_slot_address(layout, i);
        assert(d.subrange(a, a + 4) =~= w.subrange(4 * i, 4 * i + 4)) by {
            assert forall|j: int| 0 <= j < 4 implies #[trigger] d.subrange(a, a + 4)[j] == w.subrange(4 * i, 4 * i + 4)[j] by {
                assert(d.subrange(f, f + w.len())[4 * i + j] == w[4 * i + j]);
            }
        }
        assert(le32_at(w, 4 * i) == fresh_fbl(layout)[i]);
    }
    assert(fbl_values(layout, d) =~= fresh_fbl(layout));
}

/// Writing a value into slot `b` of the free blocks list changes that slot
/// alone.
pub proof fn lemma_fbl_slot_write(layout: E5FSFilesystemBuilder, d: Seq<u8>, b: int, value: u32)
    requires
        layout_wf(layout),
        d.len() >= layout.filesystem_size,
        0 <= b < fbl_slots(layout),
    ensures
        fbl_values(layout, write_at(d, fbl_slot_address(layout, b), spec_u32_to_le_bytes(value))) == fbl_values(
            layout,
            d,
        ).update(b, value),
{
    lemma_layout_bounds(layout);
    lemma_auto_spec_u32_to_from_le_bytes();
    let bytes = spec_u32_to_le_bytes(value);
    let w = write_at(d, fbl_slot_address(layout, b), bytes);
    assert forall|i: int| 0 <= i < fbl_slots(layout) implies #[trigger] fbl_slot(layout, w, i) == fbl_values(
        layout,
        d,
    ).update(b, value)[i] by {
        let a = fbl_slot_address(layout, i);
        if i == b {
            lemma_write_at_read_back(d, a, bytes);
        } else {
            lemma_write_at_frame(d, fbl_slot_address(layout, b), bytes, a, a + 4);
        }
    }
    assert(fbl_values(layout, w) =~= fbl_values(layout, d).update(b, value));
}

} // verus!
