//! What a SimpleFS volume looks like on disk.

use vstd::prelude::*;
use crate::device::BLOCK_SIZE;
use crate::le::{
    copy_into, read_u32, read_u64, u32_at, u32_bytes, u64_at, u64_bytes, write_u32, write_u64,
};

verus! {

pub const SUPERBLOCK_LBA: u64 = 0;

pub const DIR_START_LBA: u64 = 1;

pub const DIR_BLOCKS: u64 = 16;

pub const DATA_START_LBA: u64 = 17;

/// Eight entries of 64 bytes per directory sector.
pub const MAX_FILES: usize = 128;

/// "SIMPLEFS" in ASCII.
pub const SFS_MAGIC: u64 = 0x5349_4d50_4c45_4653;

/// Capacity of the volume in sectors (1 GiB).
pub const MAX_BLOCKS: u64 = 2_097_152;

/// The superblock.
#[derive(Clone, Copy)]
pub struct Superblock {
    /// Should match `SFS_MAGIC`.
    pub magic: u64,
    /// The next sector where file content can be written.
    pub next_free_block: u64,
    /// Number of active files.
    pub file_count: u32,
    /// Fills the sector.
    pub padding: [u8; 492],
}

/// A directory entry.
#[derive(Clone, Copy)]
pub struct FileEntry {
    /// File name, null-terminated.
    pub name: [u8; 47],
    /// The first sector of the file.
    pub start_block: u64,
    /// The file size in bytes.
    pub size: u64,
    /// 1 if active, 0 if free.
    pub in_use: u8,
}

/// A file as a listing shows it.
pub struct PublicFileEntry {
    pub name: String,
    pub size: u64,
    pub start_block: u64,
}

/// The mathematical value of a [`Superblock`].
#[verifier::ext_equal]
pub struct SuperblockView {
    pub magic: u64,
    pub next_free: u64,
    pub file_count: u32,
    pub padding: Seq<u8>,
}

/// The mathematical value of a [`FileEntry`].
#[verifier::ext_equal]
pub struct EntryView {
    pub name: Seq<u8>,
    pub start: u64,
    pub size: u64,
    pub in_use: u8,
}

impl View for Superblock {
    type V = SuperblockView;

    open spec fn view(&self) -> SuperblockView {
        SuperblockView {
            magic: self.magic,
            next_free: self.next_free_block,
            file_count: self.file_count,
            padding: self.padding@,
        }
    }
}

impl View for FileEntry {
    type V = EntryView;

    open spec fn view(&self) -> EntryView {
        EntryView {
            name: self.name@,
            start: self.start_block,
            size: self.size,
            in_use: self.in_use,
        }
    }
}

/// The superblock that the bytes of a sector spell.
#[verifier::opaque]
pub open spec fn superblock_from(b: Seq<u8>) -> SuperblockView {
    SuperblockView {
        magic: u64_at(b, 0),
        next_free: u64_at(b, 8),
        file_count: u32_at(b, 16),
        padding: b.subrange(20, 512),
    }
}

/// The bytes of a superblock.
#[verifier::opaque]
pub open spec fn superblock_bytes(sb: SuperblockView) -> Seq<u8> {
    u64_bytes(sb.magic) + u64_bytes(sb.next_free) + u32_bytes(sb.file_count) + sb.padding
}

/// The entry that 64 bytes spell.
#[verifier::opaque]
pub open spec fn entry_from(b: Seq<u8>) -> EntryView {
    EntryView {
        name: b.subrange(0, 47),
        start: u64_at(b, 47),
        size: u64_at(b, 55),
        in_use: b[63],
    }
}

/// The 64 bytes of an entry.
#[verifier::opaque]
pub open spec fn entry_bytes(e: EntryView) -> Seq<u8> {
    e.name + u64_bytes(e.start) + u64_bytes(e.size) + seq![e.in_use]
}

/// The entry of a free slot.
pub open spec fn free_entry() -> EntryView {
    EntryView { name: Seq::new(47, |i: int| 0u8), start: 0, size: 0, in_use: 0 }
}

/// What was written as an entry reads back as that entry.
pub proof fn lemma_entry_round_trip(e: EntryView)
    requires
        e.name.len() == 47,
    ensures
        entry_bytes(e).len() == 64,
        entry_from(entry_bytes(e)) == e,
{
    reveal(entry_from);
    reveal(entry_bytes);
    crate::le::lemma_u64_round_trip(e.start);
    crate::le::lemma_u64_round_trip(e.size);
    let b = entry_bytes(e);
    assert(b.subrange(47, 55) == u64_bytes(e.start));
    assert(b.subrange(55, 63) == u64_bytes(e.size));
    crate::le::lemma_u64_at(b, 47, e.start);
    crate::le::lemma_u64_at(b, 55, e.size);
    assert(b.subrange(0, 47) == e.name);
}

/// The parts of a sector, by where they lie in it.
proof fn lemma_superblock_parts(x: Seq<u8>, y: Seq<u8>, z: Seq<u8>, rest: Seq<u8>)
    requires
        x.len() == 8,
        y.len() == 8,
        z.len() == 4,
        rest.len() == 492,
    ensures
        (x + y + z + rest).len() == 512,
        (x + y + z + rest).subrange(0, 8) == x,
        (x + y + z + rest).subrange(8, 16) == y,
        (x + y + z + rest).subrange(16, 20) == z,
        (x + y + z + rest).subrange(20, 512) == rest,
{
}

/// What was written as a superblock reads back as that superblock.
pub proof fn lemma_superblock_round_trip(sb: SuperblockView)
    requires
        sb.padding.len() == 492,
    ensures
        superblock_bytes(sb).len() == BLOCK_SIZE,
        superblock_from(superblock_bytes(sb)) == sb,
{
    reveal(superblock_from);
    reveal(superblock_bytes);
    crate::le::lemma_u64_round_trip(sb.magic);
    crate::le::lemma_u64_round_trip(sb.next_free);
    crate::le::lemma_u32_round_trip(sb.file_count);
    let b = superblock_bytes(sb);
    lemma_superblock_parts(
        u64_bytes(sb.magic),
        u64_bytes(sb.next_free),
        u32_bytes(sb.file_count),
        sb.padding,
    );
    crate::le::lemma_u64_at(b, 0, sb.magic);
    crate::le::lemma_u64_at(b, 8, sb.next_free);
    crate::le::lemma_u32_at(b, 16, sb.file_count);
}

impl FileEntry {
    /// Decodes the 64 bytes of `b` from `off` on.
    pub fn from_bytes(b: &[u8], off: usize) -> (e: FileEntry)
        requires
            off + 64 <= b@.len(),
        ensures
            e@ == entry_from(b@.subrange(off as int, off + 64)),
    {
        assert(b.len() == b@.len());
        let ghost s = b@.subrange(off as int, off + 64);
        let mut name: [u8; 47] = [0u8; 47];
        let mut i: usize = 0;
        while i < 47
            invariant
                i <= 47,
                off + 64 <= b@.len(),
                b@.len() == b.len(),
                s == b@.subrange(off as int, off + 64),
                forall|j: int| 0 <= j < i ==> #[trigger] name@[j] == s[j],
            decreases 47 - i,
        {
            name[i] = b[off + i];
            i += 1;
        }
        assert(name@ == s.subrange(0, 47));
        let start_block: u64 = read_u64(b, off + 47);
        let size: u64 = read_u64(b, off + 55);
        assert(forall|k: int| 0 <= k < 64 ==> s[k] == b@[off + k]);
        assert(start_block == u64_at(s, 47));
        assert(size == u64_at(s, 55));
        reveal(entry_from);
        FileEntry { name, start_block, size, in_use: b[off + 63] }
    }

    /// Encodes the entry.
    pub fn to_bytes(&self) -> (b: [u8; 64])
        ensures
            b@ == entry_bytes(self@),
    {
        let mut b: [u8; 64] = [0u8; 64];
        copy_into(&mut b, 0, &self.name);
        write_u64(&mut b, 47, self.start_block);
        write_u64(&mut b, 55, self.size);
        b[63] = self.in_use;
        reveal(entry_bytes);
        assert(b@ == entry_bytes(self@));
        b
    }
}

impl Superblock {
    /// Decodes a sector.
    pub fn from_bytes(b: &[u8; 512]) -> (sb: Superblock)
        ensures
            sb@ == superblock_from(b@),
    {
        let mut padding: [u8; 492] = [0u8; 492];
        let mut i: usize = 0;
        while i < 492
            invariant
                i <= 492,
                forall|j: int| 0 <= j < i ==> #[trigger] padding@[j] == b@[20 + j],
            decreases 492 - i,
        {
            padding[i] = b[20 + i];
            i += 1;
        }
        assert(padding@ == b@.subrange(20, 512));
        reveal(superblock_from);
        Superblock {
            magic: read_u64(b, 0),
            next_free_block: read_u64(b, 8),
            file_count: read_u32(b, 16),
            padding,
        }
    }

    /// Encodes the superblock as a sector.
    pub fn to_bytes(&self) -> (b: [u8; 512])
        ensures
            b@ == superblock_bytes(self@),
    {
        let mut b: [u8; 512] = [0u8; 512];
        write_u64(&mut b, 0, self.magic);
        write_u64(&mut b, 8, self.next_free_block);
        write_u32(&mut b, 16, self.file_count);
        copy_into(&mut b, 20, &self.padding);
        reveal(superblock_bytes);
        assert(b@ == superblock_bytes(self@));
        b
    }
}

/// A directory entry and a superblock stand for their own fields, one by one.
pub proof fn law_fields(e: FileEntry, sb: Superblock)
    ensures
        e@.name == e.name@ && e@.start == e.start_block && e@.size == e.size && e@.in_use
            == e.in_use,
        sb@.magic == sb.magic && sb@.next_free == sb.next_free_block && sb@.file_count
            == sb.file_count && sb@.padding == sb.padding@,
{
}

/// A volume has one GiB. Its first sector is the superblock, sixteen sectors of
/// eight slots each are the directory, and the rest is for contents.
pub proof fn law_volume_size()
    ensures
        MAX_BLOCKS * 512 == 0x4000_0000,
        MAX_FILES == 16 * 8,
        SUPERBLOCK_LBA == 0 && DIR_START_LBA == 1 && DIR_BLOCKS == 16 && DATA_START_LBA == 17,
{
}

} // verus!
