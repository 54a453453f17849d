//! KAGFAT16 volumes, as they are made in disk images: finding and reading files.

use vstd::prelude::*;
use vstd::utf8::encode_utf8;
use crate::device::{BlockDevice, DeviceState};
use crate::fat::layout::{
    BootSector, CLUSTER_SIZE, DirEntryView, FAT_ENTRY_RESERVED, FAT_MAGIC,
    FAT_START_LBA, FatDirEntry, ROOT_DIR_ENTRIES, ROOT_DIR_START_LBA, SECTORS_PER_CLUSTER,
    boot_sector_from, dir_entry_from,
};
use crate::fat::model::{cluster_lba, fat_lba, is_cluster, is_file, slot_lba};
use crate::fat::cluster_to_lba;
use crate::fs::error::{FsError, FsResult};
use crate::fs::layout::{EntryView, FileEntry, SFS_MAGIC, superblock_from};
use crate::fs::{name_matches, read_block, read_blocks};
use crate::le::{copy_into, read_u16, u16_at};

verus! {

/// Reading the boot sector.
pub open spec fn load_boot_sector(d: DeviceState) -> FsResult<BootSector> {
    match d.status(0, 1) {
        Err(x) => Err(x),
        Ok(_) => {
            let bs = boot_sector_from(d.blocks[0]);
            if bs.magic == FAT_MAGIC {
                Ok(bs)
            } else {
                Err(FsError::NotFormatted)
            }
        },
    }
}

/// The device holds a KAGFAT16 volume.
pub open spec fn is_fat(d: DeviceState) -> bool {
    load_boot_sector(d) is Ok
}

/// The entry in directory slot `i`.
pub open spec fn slot(d: DeviceState, i: int) -> DirEntryView {
    dir_entry_from(d.blocks[slot_lba(i)].subrange(32 * (i % 16), 32 * (i % 16) + 32))
}

/// Searches the directory from slot `i` on for the first active file named `q`;
/// a sector that cannot be read ends the search.
pub open spec fn search(d: DeviceState, q: Seq<u8>, i: int) -> FsResult<Option<usize>>
    decreases ROOT_DIR_ENTRIES - i,
{
    if i >= ROOT_DIR_ENTRIES {
        Ok(None)
    } else {
        match d.status(slot_lba(i), 1) {
            Err(x) => Err(x),
            Ok(_) => if is_file(slot(d, i), q) {
                Ok(Some(i as usize))
            } else {
                search(d, q, i + 1)
            },
        }
    }
}

/// Reading the allocation table's entry for cluster `c`.
pub open spec fn next_cluster(d: DeviceState, c: int) -> FsResult<u16> {
    match d.status(fat_lba(c), 1) {
        Err(x) => Err(x),
        Ok(_) => Ok(u16_at(d.blocks[fat_lba(c)], 2 * (c % 256))),
    }
}

/// Reading `size` bytes of the chain that begins with cluster `c`; a chain that
/// ends before the bytes do is a fault.
pub open spec fn read_chain(d: DeviceState, c: u16, size: int) -> FsResult<Seq<u8>>
    decreases size,
{
    if size <= 0 {
        Ok(Seq::empty())
    } else if !is_cluster(c) {
        Err(FsError::DeviceError)
    } else {
        let n = SECTORS_PER_CLUSTER as int;
        match d.status(cluster_lba(c as int), n) {
            Err(x) => Err(x),
            Ok(_) => {
                let part = d.bytes(cluster_lba(c as int), n);
                if size <= CLUSTER_SIZE {
                    Ok(part.take(size))
                } else {
                    match next_cluster(d, c as int) {
                        Err(x) => Err(x),
                        Ok(next) => match read_chain(d, next, size - CLUSTER_SIZE) {
                            Err(x) => Err(x),
                            Ok(rest) => Ok(part + rest),
                        },
                    }
                }
            },
        }
    }
}

/// Reading the file `q`.
pub open spec fn read_outcome(d: DeviceState, q: Seq<u8>) -> FsResult<Seq<u8>> {
    match search(d, q, 0) {
        Err(x) => Err(x),
        Ok(None) => Err(FsError::FileNotFound),
        Ok(Some(i)) => {
            let e = slot(d, i as int);
            read_chain(d, e.first_cluster, e.size as int)
        },
    }
}

/// How a directory entry shows as one of the kernel's: the name filled up with
/// zero bytes, and the sector where its first cluster begins, zero where it has
/// none.
pub open spec fn shown_entry(e: DirEntryView) -> EntryView {
    EntryView {
        name: e.name + Seq::new(25, |i: int| 0u8),
        start: if is_cluster(e.first_cluster) {
            cluster_lba(e.first_cluster as int) as u64
        } else {
            0
        },
        size: e.size as u64,
        in_use: e.in_use,
    }
}

/// A SimpleFS volume is no KAGFAT16 volume.
pub proof fn lemma_simple_is_not_fat(d: DeviceState)
    requires
        superblock_from(d.blocks[0]).magic == SFS_MAGIC,
    ensures
        !is_fat(d),
{
    reveal(superblock_from);
    reveal(boot_sector_from);
}

/// Reads the boot sector of a KAGFAT16 volume.
pub fn read_boot_sector(dev: &BlockDevice) -> (r: FsResult<BootSector>)
    ensures
        r == load_boot_sector(dev@),
{
    let mut buf: [u8; 512] = [0u8; 512];
    match read_block(dev, 0, &mut buf) {
        Err(x) => Err(x),
        Ok(_) => {
            let bs = BootSector::from_bytes(&buf);
            if bs.magic == FAT_MAGIC {
                Ok(bs)
            } else {
                Err(FsError::NotFormatted)
            }
        },
    }
}

/// Reads directory slot `index`.
fn read_slot(dev: &BlockDevice, index: usize) -> (r: FsResult<FatDirEntry>)
    requires
        index < ROOT_DIR_ENTRIES,
    ensures
        match r {
            Ok(e) => dev@.status(slot_lba(index as int), 1) is Ok && e@ == slot(
                dev@,
                index as int,
            ),
            Err(x) => dev@.status(slot_lba(index as int), 1) == Err::<(), FsError>(x),
        },
{
    let lba: u64 = ROOT_DIR_START_LBA + (index / 16) as u64;
    let offset: usize = (index % 16) * 32;
    let mut buf: [u8; 512] = [0u8; 512];
    match read_block(dev, lba, &mut buf) {
        Err(x) => Err(x),
        Ok(_) => {
            let mut bytes: [u8; 32] = [0u8; 32];
            let mut i: usize = 0;
            while i < 32
                invariant
                    i <= 32,
                    offset <= 480,
                    forall|j: int| 0 <= j < i ==> bytes@[j] == buf@[offset + j],
                decreases 32 - i,
            {
                bytes[i] = buf[offset + i];
                i += 1;
            }
            assert(bytes@ =~= buf@.subrange(offset as int, offset + 32));
            Ok(FatDirEntry::from_bytes(&bytes))
        },
    }
}

/// Finds the first active file called `name`.
pub fn find_slot(dev: &BlockDevice, name: &str) -> (r: FsResult<Option<(usize, FatDirEntry)>>)
    ensures
        match r {
            Ok(None) => search(dev@, encode_utf8(name@), 0) == Ok::<Option<usize>, FsError>(None),
            Ok(Some(p)) => search(dev@, encode_utf8(name@), 0) == Ok::<Option<usize>, FsError>(
                Some(p.0),
            ) && p.1@ == slot(dev@, p.0 as int) && p.0 < ROOT_DIR_ENTRIES,
            Err(x) => search(dev@, encode_utf8(name@), 0) == Err::<Option<usize>, FsError>(x),
        },
{
    let name_bytes = name.as_bytes();
    let mut i: usize = 0;
    while i < ROOT_DIR_ENTRIES
        invariant
            i <= ROOT_DIR_ENTRIES,
            name_bytes@ == encode_utf8(name@),
            search(dev@, encode_utf8(name@), 0) == search(dev@, encode_utf8(name@), i as int),
        decreases ROOT_DIR_ENTRIES - i,
    {
        match read_slot(dev, i) {
            Err(x) => {
                return Err(x);
            },
            Ok(entry) => {
                if entry.in_use == 1 && name_matches(&entry.name, name_bytes) {
                    return Ok(Some((i, entry)));
                }
            },
        }
        i += 1;
    }
    Ok(None)
}

/// Reads the allocation table's entry for `cluster`.
fn read_next(dev: &BlockDevice, cluster: u16) -> (r: FsResult<u16>)
    ensures
        r == next_cluster(dev@, cluster as int),
{
    let lba: u64 = FAT_START_LBA + (cluster / 256) as u64;
    let offset: usize = (cluster % 256) as usize * 2;
    let mut buf: [u8; 512] = [0u8; 512];
    match read_block(dev, lba, &mut buf) {
        Err(x) => Err(x),
        Ok(_) => Ok(read_u16(&buf, offset)),
    }
}

/// Reads `size` bytes of the chain that begins with `first`.
fn read_clusters(dev: &BlockDevice, first: u16, size: u32) -> (r: FsResult<Vec<u8>>)
    ensures
        match r {
            Ok(v) => read_chain(dev@, first, size as int) == Ok::<Seq<u8>, FsError>(v@),
            Err(x) => read_chain(dev@, first, size as int) == Err::<Seq<u8>, FsError>(x),
        },
{
    let mut out: Vec<u8> = Vec::new();
    let mut current: u16 = first;
    let mut left: u32 = size;
    while left > 0
        invariant
            read_chain(dev@, first, size as int) == (match read_chain(
                dev@,
                current,
                left as int,
            ) {
                Ok(rest) => Ok::<Seq<u8>, FsError>(out@ + rest),
                Err(x) => Err(x),
            }),
        decreases left,
    {
        if current < 2 || current >= FAT_ENTRY_RESERVED {
            return Err(FsError::DeviceError);
        }
        let mut buf: [u8; 4096] = [0u8; 4096];
        match read_blocks(dev, cluster_to_lba(current), SECTORS_PER_CLUSTER, &mut buf) {
            Err(x) => {
                return Err(x);
            },
            Ok(_) => {},
        }
        let ghost part = dev@.bytes(cluster_lba(current as int), SECTORS_PER_CLUSTER as int);
        assert(buf@ =~= part);
        let ghost before = out@;
        if left <= CLUSTER_SIZE as u32 {
            out.extend_from_slice(vstd::slice::slice_subrange(&buf, 0, left as usize));
            assert(out@ =~= before + part.take(left as int));
            return Ok(out);
        }
        out.extend_from_slice(&buf);
        assert(out@ =~= before + part);
        match read_next(dev, current) {
            Err(x) => {
                return Err(x);
            },
            Ok(next) => {
                proof {
                    if let Ok(rest) = read_chain(dev@, next, left - CLUSTER_SIZE) {
                        assert(before + (part + rest) =~= out@ + rest);
                    }
                }
                current = next;
                left = left - CLUSTER_SIZE as u32;
            },
        }
    }
    assert(out@ + Seq::<u8>::empty() =~= out@);
    Ok(out)
}

/// Returns the contents of the file `name`.
pub fn read_contents(dev: &BlockDevice, name: &str) -> (r: FsResult<Vec<u8>>)
    ensures
        match r {
            Ok(v) => read_outcome(dev@, encode_utf8(name@)) == Ok::<Seq<u8>, FsError>(v@),
            Err(x) => read_outcome(dev@, encode_utf8(name@)) == Err::<Seq<u8>, FsError>(x),
        },
{
    match find_slot(dev, name) {
        Err(x) => Err(x),
        Ok(None) => Err(FsError::FileNotFound),
        Ok(Some((_, entry))) => read_clusters(dev, entry.first_cluster, entry.size),
    }
}

/// Shows a directory entry as one of the kernel's.
pub fn show_entry(e: &FatDirEntry) -> (r: FileEntry)
    ensures
        r@ == shown_entry(e@),
{
    let mut name: [u8; 47] = [0u8; 47];
    copy_into(&mut name, 0, &e.name);
    assert(name@ =~= e.name@ + Seq::new(25, |i: int| 0u8));
    let start_block: u64 = if e.first_cluster >= 2 && e.first_cluster < FAT_ENTRY_RESERVED {
        cluster_to_lba(e.first_cluster)
    } else {
        0
    };
    FileEntry { name, start_block, size: e.size as u64, in_use: e.in_use }
}

} // verus!
