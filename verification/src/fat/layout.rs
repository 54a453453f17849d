//! The on-disk layout of KAGFAT16.

use vstd::prelude::*;
use crate::device::BLOCK_SIZE;
use crate::le::{
    copy_into, lemma_u16_at, lemma_u16_round_trip, lemma_u32_at, lemma_u32_round_trip, lemma_u64_at,
    lemma_u64_round_trip, read_u16, read_u32, read_u64, u16_at, u16_bytes, u32_at, u32_bytes,
    u64_at, u64_bytes, write_u16, write_u32, write_u64,
};

verus! {

pub const SECTORS_PER_CLUSTER: u32 = 8;

/// Bytes of a cluster.
pub const CLUSTER_SIZE: usize = 4096;

pub const FAT_SECTORS: u32 = 64;

pub const FAT_START_LBA: u64 = 1;

pub const ROOT_DIR_SECTORS: u32 = 16;

pub const ROOT_DIR_START_LBA: u64 = 65;

pub const DATA_START_LBA: u64 = 81;

pub const ROOT_DIR_ENTRIES: usize = 256;

/// Sectors of the disk that `format_disk` lays the volume out for.
pub const TOTAL_SECTORS: u64 = 2_097_152;

/// A cluster that belongs to no file.
pub const FAT_ENTRY_FREE: u16 = 0x0000;

/// The last cluster of a file.
pub const FAT_ENTRY_EOC: u16 = 0xFFFF;

/// From here on values do not stand for clusters.
pub const FAT_ENTRY_RESERVED: u16 = 0xFFF0;

/// The text `KAGFAT16` as a number.
pub const FAT_MAGIC: u64 = 0x4B41_4746_4154_3136;

/// The first sector of a volume.
#[derive(Debug, Clone, Copy, PartialEq, Eq, Structural)]
pub struct BootSector {
    pub magic: u64,
    pub bytes_per_sector: u16,
    pub sectors_per_cluster: u32,
    pub fat_start_lba: u32,
    pub fat_sectors: u32,
    pub root_dir_start_lba: u32,
    pub root_dir_sectors: u32,
    pub data_start_lba: u32,
    pub total_clusters: u32,
}

/// An entry of the root directory.
#[derive(Debug, Clone, Copy)]
pub struct FatDirEntry {
    pub name: [u8; 22],
    pub first_cluster: u16,
    pub size: u32,
    pub in_use: u8,
}

/// The mathematical value of a [`FatDirEntry`].
#[verifier::ext_equal]
pub struct DirEntryView {
    pub name: Seq<u8>,
    pub first_cluster: u16,
    pub size: u32,
    pub in_use: u8,
}

impl View for FatDirEntry {
    type V = DirEntryView;

    open spec fn view(&self) -> DirEntryView {
        DirEntryView {
            name: self.name@,
            first_cluster: self.first_cluster,
            size: self.size,
            in_use: self.in_use,
        }
    }
}

/// The boot sector that the bytes of a sector spell.
#[verifier::opaque]
pub open spec fn boot_sector_from(b: Seq<u8>) -> BootSector {
    BootSector {
        magic: u64_at(b, 0),
        bytes_per_sector: u16_at(b, 8),
        sectors_per_cluster: u32_at(b, 10),
        fat_start_lba: u32_at(b, 14),
        fat_sectors: u32_at(b, 18),
        root_dir_start_lba: u32_at(b, 22),
        root_dir_sectors: u32_at(b, 26),
        data_start_lba: u32_at(b, 30),
        total_clusters: u32_at(b, 34),
    }
}

/// The bytes of a boot sector.
#[verifier::opaque]
pub open spec fn boot_sector_bytes(s: BootSector) -> Seq<u8> {
    u64_bytes(s.magic) + u16_bytes(s.bytes_per_sector) + u32_bytes(s.sectors_per_cluster)
        + u32_bytes(s.fat_start_lba) + u32_bytes(s.fat_sectors) + u32_bytes(s.root_dir_start_lba)
        + u32_bytes(s.root_dir_sectors) + u32_bytes(s.data_start_lba) + u32_bytes(s.total_clusters)
        + Seq::new(474, |i: int| 0u8)
}

/// The entry that 32 bytes spell.
#[verifier::opaque]
pub open spec fn dir_entry_from(b: Seq<u8>) -> DirEntryView {
    DirEntryView {
        name: b.subrange(0, 22),
        first_cluster: u16_at(b, 22),
        size: u32_at(b, 24),
        in_use: b[28],
    }
}

/// The 32 bytes of an entry.
#[verifier::opaque]
pub open spec fn dir_entry_bytes(e: DirEntryView) -> Seq<u8> {
    e.name + u16_bytes(e.first_cluster) + u32_bytes(e.size) + seq![e.in_use, 0u8, 0u8, 0u8]
}

/// The entry of a free slot.
pub open spec fn empty_dir_entry() -> DirEntryView {
    DirEntryView {
        name: Seq::new(22, |i: int| 0u8),
        first_cluster: 0,
        size: 0,
        in_use: 0,
    }
}

/// The parts of a boot sector, by where they lie in it.
proof fn lemma_boot_sector_parts(
    p0: Seq<u8>,
    p1: Seq<u8>,
    p2: Seq<u8>,
    p3: Seq<u8>,
    p4: Seq<u8>,
    p5: Seq<u8>,
    p6: Seq<u8>,
    p7: Seq<u8>,
    p8: Seq<u8>,
    p9: Seq<u8>,
)
    requires
        p0.len() == 8,
        p1.len() == 2,
        p2.len() == 4,
        p3.len() == 4,
        p4.len() == 4,
        p5.len() == 4,
        p6.len() == 4,
        p7.len() == 4,
        p8.len() == 4,
        p9.len() == 474,
    ensures
        ({
            let b = p0 + p1 + p2 + p3 + p4 + p5 + p6 + p7 + p8 + p9;
            &&& b.len() == 512
            &&& b.subrange(0, 8) == p0
            &&& b.subrange(8, 10) == p1
            &&& b.subrange(10, 14) == p2
            &&& b.subrange(14, 18) == p3
            &&& b.subrange(18, 22) == p4
            &&& b.subrange(22, 26) == p5
            &&& b.subrange(26, 30) == p6
            &&& b.subrange(30, 34) == p7
            &&& b.subrange(34, 38) == p8
        }),
{
    let b = p0 + p1 + p2 + p3 + p4 + p5 + p6 + p7 + p8 + p9;
    assert(b.subrange(0, 8) =~= p0);
    assert(b.subrange(8, 10) =~= p1);
    assert(b.subrange(10, 14) =~= p2);
    assert(b.subrange(14, 18) =~= p3);
    assert(b.subrange(18, 22) =~= p4);
    assert(b.subrange(22, 26) =~= p5);
    assert(b.subrange(26, 30) =~= p6);
    assert(b.subrange(30, 34) =~= p7);
    assert(b.subrange(34, 38) =~= p8);
}

/// A boot sector that was written is read back.
pub proof fn law_boot_sector_round_trip(s: BootSector)
    ensures
        boot_sector_bytes(s).len() == BLOCK_SIZE,
        boot_sector_from(boot_sector_bytes(s)) == s,
{
    reveal(boot_sector_from);
    reveal(boot_sector_bytes);
    let b = boot_sector_bytes(s);
    lemma_u64_round_trip(s.magic);
    lemma_u16_round_trip(s.bytes_per_sector);
    lemma_u32_round_trip(s.sectors_per_cluster);
    lemma_u32_round_trip(s.fat_start_lba);
    lemma_u32_round_trip(s.fat_sectors);
    lemma_u32_round_trip(s.root_dir_start_lba);
    lemma_u32_round_trip(s.root_dir_sectors);
    lemma_u32_round_trip(s.data_start_lba);
    lemma_u32_round_trip(s.total_clusters);
    lemma_boot_sector_parts(
        u64_bytes(s.magic),
        u16_bytes(s.bytes_per_sector),
        u32_bytes(s.sectors_per_cluster),
        u32_bytes(s.fat_start_lba),
        u32_bytes(s.fat_sectors),
        u32_bytes(s.root_dir_start_lba),
        u32_bytes(s.root_dir_sectors),
        u32_bytes(s.data_start_lba),
        u32_bytes(s.total_clusters),
        Seq::new(474, |i: int| 0u8),
    );
    lemma_u64_at(b, 0, s.magic);
    lemma_u16_at(b, 8, s.bytes_per_sector);
    lemma_u32_at(b, 10, s.sectors_per_cluster);
    lemma_u32_at(b, 14, s.fat_start_lba);
    lemma_u32_at(b, 18, s.fat_sectors);
    lemma_u32_at(b, 22, s.root_dir_start_lba);
    lemma_u32_at(b, 26, s.root_dir_sectors);
    lemma_u32_at(b, 30, s.data_start_lba);
    lemma_u32_at(b, 34, s.total_clusters);
}

/// A directory entry that was written is read back.
pub proof fn law_dir_entry_round_trip(e: DirEntryView)
    requires
        e.name.len() == 22,
    ensures
        dir_entry_bytes(e).len() == 32,
        dir_entry_from(dir_entry_bytes(e)) == e,
{
    reveal(dir_entry_from);
    reveal(dir_entry_bytes);
    let b = dir_entry_bytes(e);
    lemma_u16_round_trip(e.first_cluster);
    lemma_u32_round_trip(e.size);
    assert(b.subrange(0, 22) == e.name);
    assert(b.subrange(22, 24) == u16_bytes(e.first_cluster));
    assert(b.subrange(24, 28) == u32_bytes(e.size));
    lemma_u16_at(b, 22, e.first_cluster);
    lemma_u32_at(b, 24, e.size);
}

impl BootSector {
    /// Reads a boot sector.
    pub fn from_bytes(bytes: &[u8; 512]) -> (s: BootSector)
        ensures
            s == boot_sector_from(bytes@),
    {
        proof {
            reveal(boot_sector_from);
        }
        BootSector {
            magic: read_u64(bytes, 0),
            bytes_per_sector: read_u16(bytes, 8),
            sectors_per_cluster: read_u32(bytes, 10),
            fat_start_lba: read_u32(bytes, 14),
            fat_sectors: read_u32(bytes, 18),
            root_dir_start_lba: read_u32(bytes, 22),
            root_dir_sectors: read_u32(bytes, 26),
            data_start_lba: read_u32(bytes, 30),
            total_clusters: read_u32(bytes, 34),
        }
    }

    /// Writes a boot sector.
    pub fn to_bytes(&self) -> (bytes: [u8; 512])
        ensures
            bytes@ == boot_sector_bytes(*self),
    {
        let mut bytes: [u8; 512] = [0u8; 512];
        write_u64(&mut bytes, 0, self.magic);
        write_u16(&mut bytes, 8, self.bytes_per_sector);
        write_u32(&mut bytes, 10, self.sectors_per_cluster);
        write_u32(&mut bytes, 14, self.fat_start_lba);
        write_u32(&mut bytes, 18, self.fat_sectors);
        write_u32(&mut bytes, 22, self.root_dir_start_lba);
        write_u32(&mut bytes, 26, self.root_dir_sectors);
        write_u32(&mut bytes, 30, self.data_start_lba);
        write_u32(&mut bytes, 34, self.total_clusters);
        proof {
            reveal(boot_sector_bytes);
            assert(bytes@ =~= boot_sector_bytes(*self));
        }
        bytes
    }
}

impl FatDirEntry {
    /// Reads an entry.
    pub fn from_bytes(bytes: &[u8; 32]) -> (e: FatDirEntry)
        ensures
            e@ == dir_entry_from(bytes@),
    {
        proof {
            reveal(dir_entry_from);
        }
        let mut name: [u8; 22] = [0u8; 22];
        let mut i: usize = 0;
        while i < 22
            invariant
                i <= 22,
                forall|j: int| 0 <= j < i ==> name@[j] == bytes@[j],
            decreases 22 - i,
        {
            name[i] = bytes[i];
            i += 1;
        }
        assert(name@ == bytes@.subrange(0, 22));
        FatDirEntry {
            name,
            first_cluster: read_u16(bytes, 22),
            size: read_u32(bytes, 24),
            in_use: bytes[28],
        }
    }

    /// Writes an entry.
    pub fn to_bytes(&self) -> (bytes: [u8; 32])
        ensures
            bytes@ == dir_entry_bytes(self@),
    {
        let mut bytes: [u8; 32] = [0u8; 32];
        copy_into(&mut bytes, 0, &self.name);
        write_u16(&mut bytes, 22, self.first_cluster);
        write_u32(&mut bytes, 24, self.size);
        bytes[28] = self.in_use;
        proof {
            reveal(dir_entry_bytes);
            assert(bytes@ =~= dir_entry_bytes(self@));
        }
        bytes
    }
}

/// A directory entry stands for its own fields, one by one.
pub proof fn law_entry_fields(e: FatDirEntry)
    ensures
        e@.name == e.name@ && e@.first_cluster == e.first_cluster && e@.size == e.size && e@.in_use
            == e.in_use,
{
}

} // verus!
