//! KAGFAT16 volumes in disk images: formatting, listing and inserting files.

pub mod disk;
pub mod laws;
pub mod layout;
pub mod model;
pub mod places;
pub mod report;

use vstd::prelude::*;
use vstd::utf8::encode_utf8;
use crate::device::BLOCK_SIZE;
use crate::fat::disk::{Disk, DiskError, DiskResult, DiskState};
use crate::fat::layout::{
    BootSector, CLUSTER_SIZE, DATA_START_LBA, DirEntryView, FAT_ENTRY_EOC, FAT_ENTRY_FREE,
    FAT_ENTRY_RESERVED, FAT_MAGIC, FAT_SECTORS, FAT_START_LBA, FatDirEntry, ROOT_DIR_ENTRIES,
    ROOT_DIR_SECTORS, ROOT_DIR_START_LBA, SECTORS_PER_CLUSTER, TOTAL_SECTORS, empty_dir_entry,
};
use crate::fat::model::{
    alloc_outcome, clear_sectors, cluster_data, cluster_lba, clusters_for, create_outcome,
    delete_outcome, fat_get, fat_offset, fat_put, format_outcome, free_cluster, free_outcome,
    free_slot, insert_outcome, is_cluster, is_file, lemma_fat_set, lemma_freeing_counts_down,
    load_boot_sector, lookup, max_cluster, name_field, new_boot_sector, new_entry, search,
    slot_entry, slot_lba, slot_offset, slot_put, store_outcome, taken_count, zero_sector,
};
use crate::fs::name_matches;
use crate::le::{copy_into, read_u16, write_u16};

verus! {

/// The sector where the contents of `cluster` begin.
pub fn cluster_to_lba(cluster: u16) -> (lba: u64)
    requires
        cluster >= 2,
    ensures
        lba == cluster_lba(cluster as int),
{
    let index: u64 = cluster as u64 - 2;
    assert(index * SECTORS_PER_CLUSTER <= 0x1_0000 * SECTORS_PER_CLUSTER);
    DATA_START_LBA + index * SECTORS_PER_CLUSTER as u64
}

/// Reads the allocation table's entry for `cluster`.
pub fn read_fat_entry(disk: &Disk, cluster: u16) -> (r: DiskResult<u16>)
    ensures
        r == fat_get(disk@, cluster as int),
{
    let lba: u64 = FAT_START_LBA + (cluster / 256) as u64;
    let offset: usize = (cluster % 256) as usize * 2;
    let mut buf: [u8; 512] = [0u8; 512];
    match disk.read_block(lba, &mut buf) {
        Err(e) => Err(e),
        Ok(_) => {
            proof {
                let s = disk@.sector(lba as int);
                assert(lba * BLOCK_SIZE + offset == fat_offset(cluster as int));
                assert(s[offset as int] == disk@.bytes[fat_offset(cluster as int)]);
                assert(s[offset + 1] == disk@.bytes[fat_offset(cluster as int) + 1]);
            }
            Ok(read_u16(&buf, offset))
        },
    }
}

/// Writes the allocation table's entry for `cluster`.
pub fn write_fat_entry(disk: &mut Disk, cluster: u16, value: u16) -> (r: DiskResult<()>)
    ensures
        (r, final(disk)@) == fat_put(old(disk)@, cluster as int, value),
{
    let lba: u64 = FAT_START_LBA + (cluster / 256) as u64;
    let offset: usize = (cluster % 256) as usize * 2;
    let mut buf: [u8; 512] = [0u8; 512];
    match disk.read_block(lba, &mut buf) {
        Err(e) => Err(e),
        Ok(_) => {
            write_u16(&mut buf, offset, value);
            disk.write_block(lba, &buf);
            Ok(())
        },
    }
}

/// Takes the first free cluster of a volume of `total_clusters` clusters.
pub fn alloc_cluster(disk: &mut Disk, total_clusters: u32) -> (r: DiskResult<u16>)
    requires
        total_clusters + 2 <= u32::MAX,
    ensures
        (r, final(disk)@) == alloc_outcome(old(disk)@, total_clusters),
        r matches Ok(c) ==> c >= 2,
{
    let last: u32 = (total_clusters + 1) % 0x1_0000;
    let mut cluster: u32 = 2;
    while cluster <= last
        invariant
            2 <= cluster <= 0x1_0000,
            last < 0x1_0000,
            last == max_cluster(total_clusters),
            disk@ == old(disk)@,
            free_cluster(disk@, 2, last as int) == free_cluster(disk@, cluster as int, last as int),
        decreases 0x1_0000 - cluster,
    {
        match read_fat_entry(disk, cluster as u16) {
            Err(e) => {
                return Err(e);
            },
            Ok(entry) => {
                if entry == FAT_ENTRY_FREE {
                    return match write_fat_entry(disk, cluster as u16, FAT_ENTRY_EOC) {
                        Err(e) => Err(e),
                        Ok(_) => Ok(cluster as u16),
                    };
                }
            },
        }
        cluster += 1;
    }
    Err(DiskError::DiskFull)
}

/// Gives back the clusters of the chain that begins with `first_cluster`.
pub fn free_cluster_chain(disk: &mut Disk, first_cluster: u16) -> (r: DiskResult<()>)
    ensures
        (r, final(disk)@) == free_outcome(old(disk)@, first_cluster),
{
    let mut current: u16 = first_cluster;
    while current >= 2 && current < FAT_ENTRY_RESERVED
        invariant
            free_outcome(old(disk)@, first_cluster) == free_outcome(disk@, current),
        decreases taken_count(disk@.bytes, 0x1_0000), is_cluster(current) as int,
    {
        match read_fat_entry(disk, current) {
            Err(e) => {
                return Err(e);
            },
            Ok(next) => {
                proof {
                    if is_cluster(next) {
                        lemma_freeing_counts_down(disk@, current);
                    }
                }
                match write_fat_entry(disk, current, FAT_ENTRY_FREE) {
                    Err(e) => {
                        return Err(e);
                    },
                    Ok(_) => {},
                }
                if next < 2 || next >= FAT_ENTRY_RESERVED {
                    return Ok(());
                }
                current = next;
            },
        }
    }
    Ok(())
}

/// Reads directory slot `index`.
pub fn read_dir_entry(disk: &Disk, index: usize) -> (r: DiskResult<FatDirEntry>)
    requires
        index < ROOT_DIR_ENTRIES,
    ensures
        match r {
            Ok(e) => disk@.readable(slot_lba(index as int)) && e@ == slot_entry(
                disk@,
                index as int,
            ),
            Err(x) => !disk@.readable(slot_lba(index as int)) && x == DiskError::UnexpectedEnd,
        },
{
    let lba: u64 = ROOT_DIR_START_LBA + (index / 16) as u64;
    let offset: usize = (index % 16) * 32;
    let mut buf: [u8; 512] = [0u8; 512];
    match disk.read_block(lba, &mut buf) {
        Err(e) => Err(e),
        Ok(_) => {
            let mut bytes: [u8; 32] = [0u8; 32];
            let mut i: usize = 0;
            while i < 32
                invariant
                    i <= 32,
                    offset <= 480,
                    forall|j: int| 0 <= j < i ==> bytes@[j] == buf@[offset + j],
                decreases 32 - i,
            {
                bytes[i] = buf[offset + i];
                i += 1;
            }
            proof {
                let at = slot_offset(index as int);
                assert(lba * BLOCK_SIZE + offset == at);
                assert(bytes@ =~= disk@.bytes.subrange(at, at + 32));
            }
            Ok(FatDirEntry::from_bytes(&bytes))
        },
    }
}

/// Writes directory slot `index`.
pub fn write_dir_entry(disk: &mut Disk, index: usize, entry: &FatDirEntry) -> (r: DiskResult<()>)
    requires
        index < ROOT_DIR_ENTRIES,
    ensures
        (r, final(disk)@) == slot_put(old(disk)@, index as int, entry@),
{
    let lba: u64 = ROOT_DIR_START_LBA + (index / 16) as u64;
    let offset: usize = (index % 16) * 32;
    let mut buf: [u8; 512] = [0u8; 512];
    match disk.read_block(lba, &mut buf) {
        Err(e) => Err(e),
        Ok(_) => {
            let bytes: [u8; 32] = entry.to_bytes();
            copy_into(&mut buf, offset, &bytes);
            disk.write_block(lba, &buf);
            Ok(())
        },
    }
}

/// Finds the first active file called `name`.
pub fn find_file(disk: &Disk, name: &str) -> (r: DiskResult<Option<(usize, FatDirEntry)>>)
    ensures
        match r {
            Ok(None) => lookup(disk@, encode_utf8(name@)) == Ok::<Option<usize>, DiskError>(None),
            Ok(Some(p)) => lookup(disk@, encode_utf8(name@)) == Ok::<Option<usize>, DiskError>(
                Some(p.0),
            ) && p.1@ == slot_entry(disk@, p.0 as int) && p.0 < ROOT_DIR_ENTRIES,
            Err(e) => lookup(disk@, encode_utf8(name@)) == Err::<Option<usize>, DiskError>(e),
        },
{
    let name_bytes = name.as_bytes();
    if name_bytes.len() == 0 || name_bytes.len() > 21 {
        return Err(DiskError::InvalidName);
    }
    let ghost hit = |e: DirEntryView| is_file(e, encode_utf8(name@));
    let mut i: usize = 0;
    while i < ROOT_DIR_ENTRIES
        invariant
            i <= ROOT_DIR_ENTRIES,
            name_bytes@ == encode_utf8(name@),
            hit == (|e: DirEntryView| is_file(e, encode_utf8(name@))),
            lookup(disk@, encode_utf8(name@)) == search(disk@, hit, i as int),
        decreases ROOT_DIR_ENTRIES - i,
    {
        match read_dir_entry(disk, i) {
            Err(e) => {
                return Err(e);
            },
            Ok(entry) => {
                if entry.in_use == 1 && name_matches(&entry.name, name_bytes) {
                    assert(hit(slot_entry(disk@, i as int)));
                    return Ok(Some((i, entry)));
                }
                assert(!hit(slot_entry(disk@, i as int)));
            },
        }
        i += 1;
    }
    Ok(None)
}

/// Deletes the file called `name`, if there is one.
pub fn delete_file(disk: &mut Disk, name: &str) -> (r: DiskResult<()>)
    ensures
        (r, final(disk)@) == delete_outcome(old(disk)@, encode_utf8(name@)),
{
    match find_file(disk, name) {
        Err(e) => Err(e),
        Ok(None) => Ok(()),
        Ok(Some((index, entry))) => {
            if entry.first_cluster >= 2 {
                match free_cluster_chain(disk, entry.first_cluster) {
                    Err(e) => {
                        return Err(e);
                    },
                    Ok(_) => {},
                }
            }
            let empty = FatDirEntry { name: [0u8; 22], first_cluster: 0, size: 0, in_use: 0 };
            assert(empty@ =~= empty_dir_entry());
            write_dir_entry(disk, index, &empty)
        },
    }
}

/// Finds the first free directory slot.
pub fn find_free_slot(disk: &Disk) -> (r: DiskResult<Option<usize>>)
    ensures
        r == free_slot(disk@),
        r matches Ok(Some(i)) ==> i < ROOT_DIR_ENTRIES,
{
    let ghost hit = |e: DirEntryView| e.in_use == 0;
    let mut i: usize = 0;
    while i < ROOT_DIR_ENTRIES
        invariant
            i <= ROOT_DIR_ENTRIES,
            hit == (|e: DirEntryView| e.in_use == 0),
            free_slot(disk@) == search(disk@, hit, i as int),
        decreases ROOT_DIR_ENTRIES - i,
    {
        match read_dir_entry(disk, i) {
            Err(e) => {
                return Err(e);
            },
            Ok(entry) => {
                if entry.in_use == 0 {
                    assert(hit(slot_entry(disk@, i as int)));
                    return Ok(Some(i));
                }
                assert(!hit(slot_entry(disk@, i as int)));
            },
        }
        i += 1;
    }
    Ok(None)
}

/// Cluster `i` of the contents `data`, filled up with zero bytes.
fn cluster_buffer(data: &[u8], i: usize) -> (buf: Vec<u8>)
    requires
        i * CLUSTER_SIZE < data@.len(),
    ensures
        buf@ == cluster_data(data@, i as int),
{
    assert(data.len() == data@.len());
    let start: usize = i * CLUSTER_SIZE;
    let mut buf: Vec<u8> = Vec::new();
    let mut k: usize = 0;
    while k < CLUSTER_SIZE
        invariant
            k <= CLUSTER_SIZE,
            k == buf@.len(),
            start == i * CLUSTER_SIZE,
            start < data.len(),
            forall|j: int| 0 <= j < k ==> buf@[j] == cluster_data(data@, i as int)[j],
        decreases CLUSTER_SIZE - k,
    {
        if k < data.len() - start {
            buf.push(data[start + k]);
        } else {
            buf.push(0);
        }
        k += 1;
    }
    assert(buf@ =~= cluster_data(data@, i as int));
    buf
}

/// Stores the contents `data` in a chain of clusters and returns the first of
/// them, zero where there are no contents.
fn store_data(disk: &mut Disk, data: &[u8], total_clusters: u32) -> (r: DiskResult<u16>)
    requires
        total_clusters + 2 <= u32::MAX,
        data@.len() + CLUSTER_SIZE <= usize::MAX,
    ensures
        (r, final(disk)@) == store_outcome(old(disk)@, data@, total_clusters, 0, None, 0),
{
    let needed: usize = (data.len() + CLUSTER_SIZE - 1) / CLUSTER_SIZE;
    let mut prev: Option<u16> = None;
    let mut first: u16 = 0;
    let mut i: usize = 0;
    while i < needed
        invariant
            i <= needed,
            needed == clusters_for(data@.len() as int),
            total_clusters + 2 <= u32::MAX,
            data@.len() + CLUSTER_SIZE <= usize::MAX,
            store_outcome(old(disk)@, data@, total_clusters, 0, None, 0) == store_outcome(
                disk@,
                data@,
                total_clusters,
                i as int,
                prev,
                first,
            ),
        decreases needed - i,
    {
        let c: u16 = match alloc_cluster(disk, total_clusters) {
            Err(e) => {
                return Err(e);
            },
            Ok(c) => c,
        };
        if i == 0 {
            first = c;
        }
        match prev {
            None => {},
            Some(p) => {
                match write_fat_entry(disk, p, c) {
                    Err(e) => {
                        return Err(e);
                    },
                    Ok(_) => {},
                }
            },
        }
        prev = Some(c);
        let buf = cluster_buffer(data, i);
        let lba: u64 = cluster_to_lba(c);
        disk.write_blocks(lba, &buf);
        i += 1;
    }
    Ok(first)
}

/// Creates the file `name` with the contents `data` on a volume of
/// `total_clusters` clusters, over any file of that name.
pub fn create_file(disk: &mut Disk, name: &str, data: &[u8], total_clusters: u32) -> (r: DiskResult<
    (),
>)
    requires
        total_clusters + 2 <= u32::MAX,
        data@.len() + CLUSTER_SIZE <= usize::MAX,
    ensures
        (r, final(disk)@) == create_outcome(
            old(disk)@,
            encode_utf8(name@),
            data@,
            total_clusters,
        ),
{
    let name_bytes = name.as_bytes();
    if name_bytes.len() == 0 || name_bytes.len() > 21 {
        return Err(DiskError::InvalidName);
    }
    match delete_file(disk, name) {
        Err(e) => {
            return Err(e);
        },
        Ok(_) => {},
    }
    let slot: usize = match find_free_slot(disk) {
        Err(e) => {
            return Err(e);
        },
        Ok(None) => {
            return Err(DiskError::NoFreeSlot);
        },
        Ok(Some(i)) => i,
    };
    let first_cluster: u16 = match store_data(disk, data, total_clusters) {
        Err(e) => {
            return Err(e);
        },
        Ok(c) => c,
    };
    let mut field: [u8; 22] = [0u8; 22];
    copy_into(&mut field, 0, name_bytes);
    assert(field@ =~= name_field(encode_utf8(name@)));
    let size: u32 = (data.len() as u64 % 0x1_0000_0000) as u32;
    let entry = FatDirEntry { name: field, first_cluster, size, in_use: 1 };
    assert(entry@ =~= new_entry(encode_utf8(name@), first_cluster, data@.len() as int));
    write_dir_entry(disk, slot, &entry)
}

/// Clears `n` sectors from `lba` on.
fn clear(disk: &mut Disk, lba: u64, n: u64)
    requires
        lba + n <= 0x1000,
    ensures
        final(disk)@ == clear_sectors(old(disk)@, lba as int, n as int),
{
    let zero: [u8; 512] = [0u8; 512];
    assert(zero@ =~= zero_sector());
    let mut i: u64 = 0;
    while i < n
        invariant
            i <= n,
            lba + n <= 0x1000,
            zero@ == zero_sector(),
            disk@ == clear_sectors(old(disk)@, lba as int, i as int),
        decreases n - i,
    {
        disk.write_block(lba + i, &zero);
        i += 1;
    }
}

/// The image reaches as far as the sectors that were cleared, and further if it
/// did before.
proof fn lemma_clear_sectors_len(d: DiskState, lba: int, n: int)
    requires
        0 <= lba,
    ensures
        clear_sectors(d, lba, n).bytes.len() >= d.bytes.len(),
        n > 0 ==> clear_sectors(d, lba, n).bytes.len() >= (lba + n) * BLOCK_SIZE,
    decreases n,
{
    if n > 0 {
        lemma_clear_sectors_len(d, lba, n - 1);
    }
}

/// Lays a new volume over the disk.
pub fn format_disk(disk: &mut Disk)
    ensures
        final(disk)@ == format_outcome(old(disk)@),
{
    let total_clusters: u32 = ((TOTAL_SECTORS - DATA_START_LBA) / SECTORS_PER_CLUSTER as u64) as u32;
    let bs = BootSector {
        magic: FAT_MAGIC,
        bytes_per_sector: 512,
        sectors_per_cluster: SECTORS_PER_CLUSTER,
        fat_start_lba: FAT_START_LBA as u32,
        fat_sectors: FAT_SECTORS,
        root_dir_start_lba: ROOT_DIR_START_LBA as u32,
        root_dir_sectors: ROOT_DIR_SECTORS,
        data_start_lba: DATA_START_LBA as u32,
        total_clusters,
    };
    assert(bs == new_boot_sector());
    disk.write_block(0, &bs.to_bytes());
    proof {
        lemma_clear_sectors_len(disk@, FAT_START_LBA as int, FAT_SECTORS as int);
    }
    clear(disk, FAT_START_LBA, FAT_SECTORS as u64);
    proof {
        lemma_fat_set(disk@, 0, 0xFFF8);
    }
    let _ = write_fat_entry(disk, 0, 0xFFF8);
    let _ = write_fat_entry(disk, 1, FAT_ENTRY_EOC);
    clear(disk, ROOT_DIR_START_LBA, ROOT_DIR_SECTORS as u64);
}

/// Reads the boot sector of a formatted volume.
pub fn read_boot_sector(disk: &Disk) -> (r: DiskResult<BootSector>)
    ensures
        r == load_boot_sector(disk@),
{
    let mut buf: [u8; 512] = [0u8; 512];
    match disk.read_block(0, &mut buf) {
        Err(e) => Err(e),
        Ok(_) => {
            let bs = BootSector::from_bytes(&buf);
            if bs.magic != FAT_MAGIC {
                Err(DiskError::NotFormatted)
            } else {
                Ok(bs)
            }
        },
    }
}

/// Inserts the file `name` with the contents `data` into a formatted volume.
pub fn insert_file(disk: &mut Disk, name: &str, data: &[u8]) -> (r: DiskResult<()>)
    requires
        load_boot_sector(old(disk)@) matches Ok(bs) ==> bs.total_clusters + 2 <= u32::MAX,
        data@.len() + CLUSTER_SIZE <= usize::MAX,
    ensures
        (r, final(disk)@) == insert_outcome(old(disk)@, encode_utf8(name@), data@),
{
    match read_boot_sector(disk) {
        Err(e) => Err(e),
        Ok(bs) => create_file(disk, name, data, bs.total_clusters),
    }
}

} // verus!
