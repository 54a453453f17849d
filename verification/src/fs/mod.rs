//! The kernel's file system.
//!
//! The kernel keeps its files on a SimpleFS volume, a flat one with contiguous
//! files, and also finds and reads files on a KAGFAT16 volume. Which of the two
//! a device holds, its first sector tells.
//!
//! SimpleFS: sector 0 holds the superblock, the next sixteen sectors hold the directory
//! (128 slots of 64 bytes), and file contents follow without gaps. Deleting a
//! file moves every file behind it down over the freed sectors.
//!
//! Every operation has exclusive use of the device while it runs.

pub mod check;
pub mod error;
pub mod layout;
pub mod healthy;
pub mod images;
pub mod kagfat;
pub mod laws;
pub mod lemmas;
pub mod model;
pub mod places;

use vstd::prelude::*;
use crate::device::{BLOCK_SIZE, BlockDevice};
use vstd::utf8::encode_utf8;
use crate::le::{copy_into, splice};
use crate::text::{show, shown_text};

pub use crate::fs::error::{FsError, FsResult};
pub use crate::fs::kagfat::read_boot_sector;
pub use crate::fs::layout::{
    FileEntry, PublicFileEntry, Superblock, DATA_START_LBA, DIR_BLOCKS, DIR_START_LBA, MAX_BLOCKS,
    MAX_FILES, SFS_MAGIC, SUPERBLOCK_LBA,
};

use crate::fs::kagfat::{find_slot, is_fat, read_contents, show_entry};
use crate::fs::layout::{EntryView, SuperblockView, free_entry, superblock_bytes};
use crate::fs::model::{
    Relocation, blocks_for, clear_directory, compact, compact_fits, copy_sectors, create_fits,
    create_outcome, delete_fits, delete_outcome, dir_lba, directory_status, entry_at, find_outcome,
    first_free, format_outcome, formatted, insert_by_start, is_file, load_superblock, lookup, put_block, put_entry,
    relocate, relocate_all, relocations, relocations_fit, scan, slot_offset, stores_name,
    valid_name, active_entries, add_file, empty_superblock, list_outcome, name_end, name_field,
    new_entry, padded, put_data, read_fits, read_outcome, remove_fits, remove_outcome, stored_name,
};

verus! {

/// A namespace is active.
pub fn is_ready(dev: &BlockDevice) -> (b: bool)
    ensures
        b == dev@.ready(),
{
    dev.nsid.is_some()
}

/// Bytes per sector.
pub fn block_size() -> (n: usize)
    ensures
        n == BLOCK_SIZE,
{
    BLOCK_SIZE
}

/// Reads `count` sectors from `lba` on into `buffer`; an empty buffer stands
/// for the absence of one.
pub fn read_blocks(dev: &BlockDevice, lba: u64, count: u32, buffer: &mut [u8]) -> (r: FsResult<()>)
    requires
        old(buffer)@.len() == 0 || old(buffer)@.len() >= count * BLOCK_SIZE,
    ensures
        r == (if count == 0 || old(buffer)@.len() == 0 {
            Err(FsError::InvalidArgument)
        } else {
            dev@.status(lba as int, count as int)
        }),
        final(buffer)@ == (if r is Ok {
            splice(old(buffer)@, 0, dev@.bytes(lba as int, count as int))
        } else {
            old(buffer)@
        }),
{
    dev.read_run(lba, count, buffer)
}

/// Writes the first `count` sectors' worth of `buffer` from sector `lba` on;
/// an empty buffer stands for the absence of one.
pub fn write_blocks(dev: &mut BlockDevice, lba: u64, count: u32, buffer: &[u8]) -> (r: FsResult<()>)
    requires
        buffer@.len() == 0 || buffer@.len() >= count * BLOCK_SIZE,
    ensures
        r == (if count == 0 || buffer@.len() == 0 {
            Err(FsError::InvalidArgument)
        } else {
            old(dev)@.status(lba as int, count as int)
        }),
        final(dev)@ == (if r is Ok {
            old(dev)@.write_run(lba as int, count as int, buffer@.subrange(0, count * BLOCK_SIZE))
        } else {
            old(dev)@
        }),
{
    dev.write_run(lba, count, buffer)
}

/// Reads one sector.
pub fn read_block(dev: &BlockDevice, lba: u64, buffer: &mut [u8; 512]) -> (r: FsResult<()>)
    ensures
        r == dev@.status(lba as int, 1),
        final(buffer)@ == (if r is Ok {
            dev@.blocks[lba as int]
        } else {
            old(buffer)@
        }),
{
    let r = read_blocks(dev, lba, 1, buffer);
    assert(r is Ok ==> buffer@ == dev@.blocks[lba as int]);
    r
}

/// Writes one sector.
pub fn write_block(dev: &mut BlockDevice, lba: u64, buffer: &[u8; 512]) -> (r: FsResult<()>)
    ensures
        (r, final(dev)@) == put_block(old(dev)@, lba as int, buffer@),
{
    let ghost before = dev@;
    let r = write_blocks(dev, lba, 1, buffer);
    assert(buffer@.subrange(0, 1 * BLOCK_SIZE) == buffer@);
    assert(buffer@.subrange(0, BLOCK_SIZE as int) == buffer@);
    assert(r is Ok ==> dev@.blocks == before.write(lba as int, buffer@).blocks);
    r
}

/// Reads the superblock of a formatted volume.
pub fn read_superblock(dev: &BlockDevice) -> (r: FsResult<Superblock>)
    ensures
        match r {
            Ok(sb) => load_superblock(dev@) == Ok::<SuperblockView, FsError>(sb@),
            Err(x) => load_superblock(dev@) == Err::<SuperblockView, FsError>(x),
        },
{
    if !is_ready(dev) {
        return Err(FsError::NotReady);
    }
    let mut buf: [u8; 512] = [0u8; 512];
    match read_block(dev, SUPERBLOCK_LBA, &mut buf) {
        Err(x) => Err(x),
        Ok(_) => {
            let sb = Superblock::from_bytes(&buf);
            if sb.magic == SFS_MAGIC {
                Ok(sb)
            } else {
                Err(FsError::NotFormatted)
            }
        },
    }
}

/// Writes the superblock.
pub fn write_superblock(dev: &mut BlockDevice, sb: &Superblock) -> (r: FsResult<()>)
    ensures
        (r, final(dev)@) == put_block(
            old(dev)@,
            SUPERBLOCK_LBA as int,
            superblock_bytes(sb@),
        ),
{
    if !is_ready(dev) {
        return Err(FsError::NotReady);
    }
    let buf: [u8; 512] = sb.to_bytes();
    write_block(dev, SUPERBLOCK_LBA, &buf)
}

/// Writes directory slot `index`.
pub fn write_directory_entry(dev: &mut BlockDevice, index: usize, entry: &FileEntry) -> (r:
    FsResult<()>)
    ensures
        (r, final(dev)@) == (if index >= MAX_FILES {
            (Err(FsError::InvalidArgument), old(dev)@)
        } else {
            put_entry(old(dev)@, index as int, entry@)
        }),
{
    if index >= MAX_FILES {
        return Err(FsError::InvalidArgument);
    }
    put_directory_entry(dev, index, entry)
}

/// The sector number and the byte offset of directory slot `index`.
fn slot_position(index: usize) -> (p: (u64, usize))
    ensures
        p.0 == dir_lba(index as int),
        p.1 == slot_offset(index as int),
        p.1 + 64 <= BLOCK_SIZE,
{
    (DIR_START_LBA + (index / 8) as u64, (index % 8) * 64)
}

/// Reads directory slot `index`.
pub(crate) fn read_directory_entry(dev: &BlockDevice, index: usize) -> (r: FsResult<FileEntry>)
    ensures
        match r {
            Ok(e) => dev@.status(dir_lba(index as int), 1) is Ok && e@ == entry_at(
                dev@,
                index as int,
            ),
            Err(x) => dev@.status(dir_lba(index as int), 1) == Err::<(), FsError>(x),
        },
{
    let (lba, offset) = slot_position(index);
    let mut buf: [u8; 512] = [0u8; 512];
    match read_block(dev, lba, &mut buf) {
        Err(x) => Err(x),
        Ok(_) => Ok(FileEntry::from_bytes(&buf, offset)),
    }
}

/// Writes directory slot `index`, leaving the rest of its sector alone.
pub(crate) fn put_directory_entry(dev: &mut BlockDevice, index: usize, entry: &FileEntry) -> (r: FsResult<()>)
    ensures
        (r, final(dev)@) == put_entry(old(dev)@, index as int, entry@),
{
    let (lba, offset) = slot_position(index);
    let mut buf: [u8; 512] = [0u8; 512];
    match read_block(dev, lba, &mut buf) {
        Err(x) => Err(x),
        Ok(_) => {
            let bytes: [u8; 64] = entry.to_bytes();
            copy_into(&mut buf, offset, &bytes);
            write_block(dev, lba, &buf)
        },
    }
}

/// Whether the name that `field` stores is `name`.
pub fn name_matches(field: &[u8], name: &[u8]) -> (b: bool)
    ensures
        b == stores_name(field@, name@),
{
    let mut len: usize = 0;
    while len < field.len() && field[len] != 0
        invariant
            len <= field@.len(),
            forall|i: int| 0 <= i < len ==> #[trigger] field@[i] != 0,
        decreases field@.len() - len,
    {
        len += 1;
    }
    if len != name.len() {
        proof {
            if stores_name(field@, name@) {
                if name@.len() < len {
                    assert(field@[name@.len() as int] == 0);
                } else {
                    assert(name@[len as int] == field@[len as int]);
                }
            }
        }
        return false;
    }
    let mut i: usize = 0;
    while i < len
        invariant
            i <= len == name@.len() <= field@.len(),
            forall|j: int| 0 <= j < len ==> #[trigger] field@[j] != 0,
            forall|j: int| 0 <= j < i ==> #[trigger] name@[j] == field@[j],
        decreases len - i,
    {
        if field[i] != name[i] {
            return false;
        }
        i += 1;
    }
    true
}

/// What a search gives back, with the entry's mathematical value.
pub open spec fn found(r: FsResult<Option<(usize, FileEntry)>>) -> FsResult<
    Option<(usize, EntryView)>,
> {
    match r {
        Err(x) => Err(x),
        Ok(None) => Ok(None),
        Ok(Some(p)) => Ok(Some((p.0, p.1@))),
    }
}

/// Finds the first active file called `name`.
pub fn find_file(dev: &BlockDevice, name: &str) -> (r: FsResult<Option<(usize, FileEntry)>>)
    ensures
        found(r) == find_outcome(dev@, encode_utf8(name@)),
{
    let name_bytes = name.as_bytes();
    if name_bytes.len() == 0 || name_bytes.len() > 46 {
        return Err(FsError::InvalidArgument);
    }
    if holds_fat(dev) {
        match find_slot(dev, name) {
            Err(x) => Err(x),
            Ok(None) => Ok(None),
            Ok(Some((i, e))) => Ok(Some((i, show_entry(&e)))),
        }
    } else {
        find_entry(dev, name)
    }
}

/// Whether the device holds a KAGFAT16 volume.
pub(crate) fn holds_fat(dev: &BlockDevice) -> (b: bool)
    ensures
        b == is_fat(dev@),
{
    match read_boot_sector(dev) {
        Ok(_) => true,
        Err(_) => false,
    }
}

/// Whether the device holds a volume, of either kind.
pub fn is_formatted(dev: &BlockDevice) -> (b: bool)
    ensures
        b == formatted(dev@),
{
    holds_fat(dev) || (match read_superblock(dev) {
        Ok(_) => true,
        Err(_) => false,
    })
}

/// Finds the first active file called `name` in a SimpleFS directory.
pub(crate) fn find_entry(dev: &BlockDevice, name: &str) -> (r: FsResult<Option<(usize, FileEntry)>>)
    ensures
        match r {
            Ok(None) => valid_name(encode_utf8(name@)) && lookup(dev@, encode_utf8(name@)) == Ok::<
                Option<usize>,
                FsError,
            >(None),
            Ok(Some(p)) => valid_name(encode_utf8(name@)) && lookup(dev@, encode_utf8(name@)) == Ok::<
                Option<usize>,
                FsError,
            >(Some(p.0)) && p.1@ == entry_at(dev@, p.0 as int) && p.0 < MAX_FILES,
            Err(x) => if !valid_name(encode_utf8(name@)) {
                x == FsError::InvalidArgument
            } else {
                lookup(dev@, encode_utf8(name@)) == Err::<Option<usize>, FsError>(x)
            },
        },
{
    let name_bytes = name.as_bytes();
    if name_bytes.len() == 0 || name_bytes.len() > 46 {
        return Err(FsError::InvalidArgument);
    }
    let ghost hit = |e: EntryView| is_file(e, encode_utf8(name@));
    let mut i: usize = 0;
    while i < MAX_FILES
        invariant
            i <= MAX_FILES,
            name_bytes@ == encode_utf8(name@),
            valid_name(encode_utf8(name@)),
            hit == (|e: EntryView| is_file(e, encode_utf8(name@))),
            lookup(dev@, encode_utf8(name@)) == scan(dev@, hit, i as int),
        decreases MAX_FILES - i,
    {
        match read_directory_entry(dev, i) {
            Err(x) => {
                return Err(x);
            },
            Ok(entry) => {
                if entry.in_use == 1 && name_matches(&entry.name, name_bytes) {
                    assert(hit(entry_at(dev@, i as int)));
                    return Ok(Some((i, entry)));
                }
                assert(!hit(entry_at(dev@, i as int)));
            },
        }
        i += 1;
    }
    Ok(None)
}

/// Finds the first free directory slot.
pub fn find_free_entry(dev: &BlockDevice) -> (r: FsResult<Option<usize>>)
    ensures
        r == first_free(dev@),
        r matches Ok(Some(i)) ==> i < MAX_FILES,
{
    let ghost hit = |e: EntryView| e.in_use == 0;
    let mut i: usize = 0;
    while i < MAX_FILES
        invariant
            i <= MAX_FILES,
            hit == (|e: EntryView| e.in_use == 0),
            first_free(dev@) == scan(dev@, hit, i as int),
        decreases MAX_FILES - i,
    {
        match read_directory_entry(dev, i) {
            Err(x) => {
                return Err(x);
            },
            Ok(entry) => {
                if entry.in_use == 0 {
                    assert(hit(entry_at(dev@, i as int)));
                    return Ok(Some(i));
                }
                assert(!hit(entry_at(dev@, i as int)));
            },
        }
        i += 1;
    }
    Ok(None)
}

/// Inserting behind the last file that begins no later than `m` is what
/// `insert_by_start` does.
proof fn lemma_insert_position(ms: Seq<Relocation>, m: Relocation, pos: int)
    requires
        0 <= pos <= ms.len(),
        pos > 0 ==> ms[pos - 1].start <= m.start,
        forall|j: int| pos <= j < ms.len() ==> #[trigger] ms[j].start > m.start,
    ensures
        insert_by_start(ms, m) == ms.insert(pos, m),
    decreases ms.len(),
{
    if pos == ms.len() {
        assert(ms.insert(pos, m) == ms.push(m));
    } else {
        assert(ms.last().start > m.start);
        lemma_insert_position(ms.drop_last(), m, pos);
        assert(ms.insert(pos, m) == ms.drop_last().insert(pos, m).push(ms.last()));
    }
}

/// Collects the files that begin behind sector `bound`, in the order in which
/// they have to move.
pub(crate) fn collect_relocations(dev: &BlockDevice, bound: u64) -> (r: FsResult<Vec<Relocation>>)
    ensures
        match r {
            Ok(ms) => directory_status(dev@) is Ok && ms@ == relocations(
                dev@,
                bound,
                MAX_FILES as int,
            ),
            Err(x) => directory_status(dev@) == Err::<(), FsError>(x),
        },
{
    let ghost hit = |e: EntryView| false;
    let mut active: Vec<Relocation> = Vec::new();
    let mut idx: usize = 0;
    while idx < MAX_FILES
        invariant
            idx <= MAX_FILES,
            hit == (|e: EntryView| false),
            scan(dev@, hit, 0) == scan(dev@, hit, idx as int),
            active@ == relocations(dev@, bound, idx as int),
        decreases MAX_FILES - idx,
    {
        match read_directory_entry(dev, idx) {
            Err(x) => {
                return Err(x);
            },
            Ok(ent) => {
                assert(!hit(entry_at(dev@, idx as int)));
                if ent.in_use == 1 && ent.start_block > bound {
                    let m = Relocation { index: idx, start: ent.start_block, size: ent.size };
                    let mut pos: usize = active.len();
                    while pos > 0 && active[pos - 1].start > m.start
                        invariant
                            pos <= active@.len(),
                            forall|j: int|
                                pos <= j < active@.len() ==> #[trigger] active@[j].start > m.start,
                        decreases pos,
                    {
                        pos -= 1;
                    }
                    proof {
                        lemma_insert_position(active@, m, pos as int);
                    }
                    active.insert(pos, m);
                }
            },
        }
        idx += 1;
    }
    Ok(active)
}

/// Copies `n` sectors from `from` to `to`, lowest first.
fn copy_down(dev: &mut BlockDevice, from: u64, to: u64, n: u64) -> (r: FsResult<()>)
    requires
        to <= from,
    ensures
        (r, final(dev)@) == copy_sectors(old(dev)@, from as int, to as int, 0, n as int),
{
    let mut i: u64 = 0;
    while i < n
        invariant
            i <= n,
            to <= from,
            i > 0 ==> from + i - 1 < dev.sectors.len(),
            copy_sectors(old(dev)@, from as int, to as int, 0, n as int) == copy_sectors(
                dev@,
                from as int,
                to as int,
                i as int,
                n as int,
            ),
        decreases n - i,
    {
        let mut temp: [u8; 512] = [0u8; 512];
        match read_block(dev, from + i, &mut temp) {
            Err(x) => {
                return Err(x);
            },
            Ok(_) => {},
        }
        let ghost before = dev@;
        match write_block(dev, to + i, &temp) {
            Err(x) => {
                return Err(x);
            },
            Ok(_) => {},
        }
        assert(dev@.blocks.len() == before.blocks.len());
        i += 1;
    }
    Ok(())
}

/// Moves one file down by `r` sectors: its contents, then its entry.
pub(crate) fn relocate_file(dev: &mut BlockDevice, m: Relocation, r: u64) -> (res: FsResult<()>)
    requires
        m.size + BLOCK_SIZE <= u64::MAX,
        m.start >= r,
    ensures
        (res, final(dev)@) == relocate(old(dev)@, m, r as int),
{
    let file_blocks: u64 = (m.size + BLOCK_SIZE as u64 - 1) / BLOCK_SIZE as u64;
    let new_start: u64 = m.start - r;
    match copy_down(dev, m.start, new_start, file_blocks) {
        Err(x) => {
            return Err(x);
        },
        Ok(_) => {},
    }
    match read_directory_entry(dev, m.index) {
        Err(x) => Err(x),
        Ok(mut ent) => {
            ent.start_block = new_start;
            put_directory_entry(dev, m.index, &ent)
        },
    }
}

/// Closes the gap of `r` sectors that a file at `bound` leaves.
fn close_gap(dev: &mut BlockDevice, bound: u64, r: u64) -> (res: FsResult<()>)
    requires
        compact_fits(old(dev)@, bound, r as int),
    ensures
        (res, final(dev)@) == compact(old(dev)@, bound, r as int),
{
    let active = match collect_relocations(dev, bound) {
        Err(x) => {
            return Err(x);
        },
        Ok(v) => v,
    };
    let ghost d0 = dev@;
    let mut k: usize = 0;
    while k < active.len()
        invariant
            k <= active@.len(),
            relocations_fit(dev@, active@, r as int, k as int),
            relocate_all(d0, active@, r as int, 0) == relocate_all(
                dev@,
                active@,
                r as int,
                k as int,
            ),
            directory_status(d0) is Ok,
            active@ == relocations(d0, bound, MAX_FILES as int),
            d0 == old(dev)@,
        decreases active@.len() - k,
    {
        let m: Relocation = active[k];
        match relocate_file(dev, m, r) {
            Err(x) => {
                return Err(x);
            },
            Ok(_) => {},
        }
        k += 1;
    }
    match read_superblock(dev) {
        Err(x) => Err(x),
        Ok(mut sb) => {
            sb.next_free_block = sb.next_free_block - r;
            write_superblock(dev, &sb)
        },
    }
}

/// Takes one file off the superblock's count.
pub(crate) fn uncount(dev: &mut BlockDevice) -> (res: FsResult<()>)
    ensures
        (res, final(dev)@) == crate::fs::model::uncount_file(old(dev)@),
{
    match read_superblock(dev) {
        Err(x) => Err(x),
        Ok(mut sb) => {
            if sb.file_count > 0 {
                sb.file_count = sb.file_count - 1;
                write_superblock(dev, &sb)
            } else {
                Ok(())
            }
        },
    }
}

/// Deletes the file in directory slot `index`; a free slot is left alone.
pub fn delete_file_at(dev: &mut BlockDevice, index: usize) -> (res: FsResult<()>)
    requires
        delete_fits(old(dev)@, index as int),
    ensures
        (res, final(dev)@) == delete_outcome(old(dev)@, index as int),
{
    let entry = match read_directory_entry(dev, index) {
        Err(x) => {
            return Err(x);
        },
        Ok(e) => e,
    };
    if entry.in_use == 0 {
        return Ok(());
    }
    let reclaimed: u64 = (entry.size + BLOCK_SIZE as u64 - 1) / BLOCK_SIZE as u64;
    let zero_entry = FileEntry { name: [0u8; 47], start_block: 0, size: 0, in_use: 0 };
    assert(zero_entry@ == free_entry());
    match put_directory_entry(dev, index, &zero_entry) {
        Err(x) => {
            return Err(x);
        },
        Ok(_) => {},
    }
    match uncount(dev) {
        Err(x) => {
            return Err(x);
        },
        Ok(_) => {},
    }
    if reclaimed > 0 {
        close_gap(dev, entry.start_block, reclaimed)
    } else {
        Ok(())
    }
}

/// Creates an empty volume.
pub fn format(dev: &mut BlockDevice) -> (res: FsResult<()>)
    ensures
        (res, final(dev)@) == format_outcome(old(dev)@),
{
    if !is_ready(dev) {
        return Err(FsError::NotReady);
    }
    let sb = Superblock {
        magic: SFS_MAGIC,
        next_free_block: DATA_START_LBA,
        file_count: 0,
        padding: [0u8; 492],
    };
    assert(sb@ == empty_superblock());
    match write_superblock(dev, &sb) {
        Err(x) => {
            return Err(x);
        },
        Ok(_) => {},
    }
    let zero_buf: [u8; 512] = [0u8; 512];
    assert(zero_buf@ == Seq::new(BLOCK_SIZE as nat, |i: int| 0u8));
    let ghost d1 = dev@;
    let mut b: u64 = 0;
    while b < DIR_BLOCKS
        invariant
            b <= DIR_BLOCKS,
            zero_buf@ == Seq::new(BLOCK_SIZE as nat, |i: int| 0u8),
            clear_directory(d1, 0) == clear_directory(dev@, b as int),
            format_outcome(old(dev)@) == clear_directory(d1, 0),
        decreases DIR_BLOCKS - b,
    {
        match write_block(dev, DIR_START_LBA + b, &zero_buf) {
            Err(x) => {
                return Err(x);
            },
            Ok(_) => {},
        }
        b += 1;
    }
    Ok(())
}

/// Writes the contents of a new file as one run of sectors.
fn write_data(dev: &mut BlockDevice, start: u64, blocks: usize, data: &[u8]) -> (res: FsResult<()>)
    requires
        blocks == blocks_for(data@.len() as int),
        blocks <= u32::MAX,
        data@.len() + BLOCK_SIZE <= usize::MAX,
    ensures
        (res, final(dev)@) == put_data(old(dev)@, start as int, data@),
{
    if blocks > 0 {
        let mut write_buf: Vec<u8> = vec![0u8; blocks * BLOCK_SIZE];
        copy_into(&mut write_buf, 0, data);
        assert(write_buf@ == padded(data@));
        assert(write_buf@.subrange(0, blocks * BLOCK_SIZE) == write_buf@);
        write_blocks(dev, start, blocks as u32, &write_buf)
    } else {
        Ok(())
    }
}

/// Builds the entry of a new file.
fn make_entry(name: &[u8], start: u64, size: u64) -> (e: FileEntry)
    requires
        name@.len() <= 46,
    ensures
        e@ == new_entry(name@, start, size as int),
{
    let mut field: [u8; 47] = [0u8; 47];
    copy_into(&mut field, 0, name);
    assert(field@ == name_field(name@));
    FileEntry { name: field, start_block: start, size, in_use: 1 }
}

/// Adds a file to a volume that has none of that name and whose superblock is
/// `sb`.
fn append_file(dev: &mut BlockDevice, sb: Superblock, name: &[u8], data: &[u8]) -> (res: FsResult<
    (),
>)
    requires
        valid_name(name@),
        data@.len() + BLOCK_SIZE <= usize::MAX,
        first_free(old(dev)@) matches Ok(Some(_)) ==> {
            let end = sb.next_free_block + blocks_for(data@.len() as int);
            &&& end <= u64::MAX
            &&& end <= MAX_BLOCKS ==> sb.file_count < u32::MAX
        },
    ensures
        (res, final(dev)@) == add_file(old(dev)@, sb@, name@, data@),
{
    let free_idx: usize = match find_free_entry(dev) {
        Err(x) => {
            return Err(x);
        },
        Ok(None) => {
            return Err(FsError::NoSpace);
        },
        Ok(Some(i)) => i,
    };
    let blocks_needed: usize = (data.len() + BLOCK_SIZE - 1) / BLOCK_SIZE;
    let start_block: u64 = sb.next_free_block;
    if start_block + blocks_needed as u64 > MAX_BLOCKS {
        return Err(FsError::NoSpace);
    }
    match write_data(dev, start_block, blocks_needed, data) {
        Err(x) => {
            return Err(x);
        },
        Ok(_) => {},
    }
    let entry = make_entry(name, start_block, data.len() as u64);
    match write_directory_entry(dev, free_idx, &entry) {
        Err(x) => {
            return Err(x);
        },
        Ok(_) => {},
    }
    let updated = Superblock {
        next_free_block: sb.next_free_block + blocks_needed as u64,
        file_count: sb.file_count + 1,
        ..sb
    };
    write_superblock(dev, &updated)
}

/// Creates the file `name` with the contents `data`; a file of that name is
/// deleted first.
pub fn create_file(dev: &mut BlockDevice, name: &str, data: &[u8]) -> (res: FsResult<()>)
    requires
        create_fits(old(dev)@, encode_utf8(name@), data@),
        data@.len() + BLOCK_SIZE <= usize::MAX,
    ensures
        (res, final(dev)@) == create_outcome(old(dev)@, encode_utf8(name@), data@),
{
    let name_bytes = name.as_bytes();
    if name_bytes.len() == 0 || name_bytes.len() > 46 {
        return Err(FsError::InvalidArgument);
    }
    let mut sb = match read_superblock(dev) {
        Err(x) => {
            return Err(x);
        },
        Ok(sb) => sb,
    };
    match find_entry(dev, name) {
        Err(x) => {
            return Err(x);
        },
        Ok(None) => {},
        Ok(Some((idx, _))) => {
            match delete_file_at(dev, idx) {
                Err(x) => {
                    return Err(x);
                },
                Ok(_) => {},
            }
            sb = match read_superblock(dev) {
                Err(x) => {
                    return Err(x);
                },
                Ok(sb) => sb,
            };
        },
    }
    append_file(dev, sb, name_bytes, data)
}

/// Returns the contents of the file `name`.
pub fn read_file(dev: &BlockDevice, name: &str) -> (res: FsResult<Vec<u8>>)
    requires
        read_fits(dev@, encode_utf8(name@)),
    ensures
        match res {
            Ok(v) => read_outcome(dev@, encode_utf8(name@)) == Ok::<Seq<u8>, FsError>(v@),
            Err(x) => read_outcome(dev@, encode_utf8(name@)) == Err::<Seq<u8>, FsError>(x),
        },
{
    let name_bytes = name.as_bytes();
    if name_bytes.len() == 0 || name_bytes.len() > 46 {
        return Err(FsError::InvalidArgument);
    }
    if holds_fat(dev) {
        return read_contents(dev, name);
    }
    match find_entry(dev, name) {
        Err(x) => Err(x),
        Ok(None) => Err(FsError::FileNotFound),
        Ok(Some((_, entry))) => {
            let size: usize = entry.size as usize;
            if size == 0 {
                return Ok(Vec::new());
            }
            let blocks_to_read: usize = (size + BLOCK_SIZE - 1) / BLOCK_SIZE;
            let mut buf: Vec<u8> = vec![0u8; blocks_to_read * BLOCK_SIZE];
            match read_blocks(dev, entry.start_block, blocks_to_read as u32, &mut buf) {
                Err(x) => {
                    return Err(x);
                },
                Ok(_) => {},
            }
            assert(buf@ == dev@.bytes(entry.start_block as int, blocks_to_read as int));
            buf.truncate(size);
            Ok(buf)
        },
    }
}

/// Deletes the file `name` of the SimpleFS directory.
pub fn delete_file(dev: &mut BlockDevice, name: &str) -> (res: FsResult<()>)
    requires
        remove_fits(old(dev)@, encode_utf8(name@)),
    ensures
        (res, final(dev)@) == remove_outcome(old(dev)@, encode_utf8(name@)),
{
    match find_entry(dev, name) {
        Err(x) => Err(x),
        Ok(None) => Err(FsError::FileNotFound),
        Ok(Some((idx, _))) => delete_file_at(dev, idx),
    }
}

/// What a listing shows of an entry.
pub open spec fn listed_as(p: PublicFileEntry, e: EntryView) -> bool {
    &&& p.name@ == shown_text(stored_name(e.name))
    &&& p.size == e.size
    &&& p.start_block == e.start
}

/// The bytes of the name that `field` stores.
pub fn name_of(field: &[u8]) -> (name: &[u8])
    ensures
        name@ == stored_name(field@),
{
    let mut len: usize = 0;
    while len < field.len() && field[len] != 0
        invariant
            len <= field@.len(),
            name_end(field@, 0) == name_end(field@, len as int),
        decreases field@.len() - len,
    {
        len += 1;
    }
    vstd::slice::slice_subrange(field, 0, len)
}

/// Lists the active files in slot order.
pub fn list_files(dev: &BlockDevice) -> (res: FsResult<Vec<PublicFileEntry>>)
    ensures
        match res {
            Ok(list) => list_outcome(dev@) matches Ok(es) && list@.len() == es.len() && forall|
                i: int,
            |
                0 <= i < es.len() ==> listed_as(#[trigger] list@[i], es[i]),
            Err(x) => list_outcome(dev@) == Err::<Seq<EntryView>, FsError>(x),
        },
{
    match read_superblock(dev) {
        Err(x) => {
            return Err(x);
        },
        Ok(_) => {},
    }
    let ghost hit = |e: EntryView| false;
    let mut list: Vec<PublicFileEntry> = Vec::new();
    let mut i: usize = 0;
    while i < MAX_FILES
        invariant
            i <= MAX_FILES,
            hit == (|e: EntryView| false),
            scan(dev@, hit, 0) == scan(dev@, hit, i as int),
            list@.len() == active_entries(dev@, i as int).len(),
            forall|j: int|
                0 <= j < list@.len() ==> listed_as(
                    #[trigger] list@[j],
                    active_entries(dev@, i as int)[j],
                ),
            load_superblock(dev@) is Ok,
        decreases MAX_FILES - i,
    {
        match read_directory_entry(dev, i) {
            Err(x) => {
                return Err(x);
            },
            Ok(entry) => {
                assert(!hit(entry_at(dev@, i as int)));
                if entry.in_use == 1 {
                    let name = show(name_of(&entry.name));
                    list.push(
                        PublicFileEntry { name, size: entry.size, start_block: entry.start_block },
                    );
                }
            },
        }
        i += 1;
    }
    Ok(list)
}

} // verus!
