//! What each operation does to a volume, as functions of the state of
//! the device: the result it returns and the state it leaves.

use vstd::prelude::*;
use crate::device::{BLOCK_SIZE, DeviceState};
use crate::fs::error::{FsError, FsResult};
use crate::fs::kagfat::{self, is_fat, shown_entry};
use crate::fs::layout::{
    EntryView, SuperblockView, entry_bytes, entry_from, free_entry, superblock_bytes,
    superblock_from, DATA_START_LBA, DIR_BLOCKS, DIR_START_LBA, MAX_BLOCKS, MAX_FILES, SFS_MAGIC,
    SUPERBLOCK_LBA,
};
use crate::le::splice;

verus! {

/// The sector that holds directory slot `i`.
pub open spec fn dir_lba(i: int) -> int {
    DIR_START_LBA + i / 8
}

/// Where slot `i` begins within its sector.
pub open spec fn slot_offset(i: int) -> int {
    (i % 8) * 64
}

/// The entry in directory slot `i`.
pub open spec fn entry_at(d: DeviceState, i: int) -> EntryView {
    entry_from(d.blocks[dir_lba(i)].subrange(slot_offset(i), slot_offset(i) + 64))
}

/// `q` is the name that the field `name` stores: the bytes before its first
/// zero byte.
pub open spec fn stores_name(name: Seq<u8>, q: Seq<u8>) -> bool {
    &&& q.len() <= name.len()
    &&& forall|i: int| 0 <= i < q.len() ==> #[trigger] q[i] == name[i] && q[i] != 0
    &&& q.len() < name.len() ==> name[q.len() as int] == 0
}

/// The index of the first zero byte of `name` from `i` on, or its length.
pub open spec fn name_end(name: Seq<u8>, i: int) -> int
    decreases name.len() - i,
{
    if i >= name.len() || name[i] == 0 {
        i
    } else {
        name_end(name, i + 1)
    }
}

/// The name that the field `name` stores.
pub open spec fn stored_name(name: Seq<u8>) -> Seq<u8> {
    name.subrange(0, name_end(name, 0))
}

/// The entry is active and named `q`.
pub open spec fn is_file(e: EntryView, q: Seq<u8>) -> bool {
    e.in_use == 1 && stores_name(e.name, q)
}

/// A name that a file can be given.
pub open spec fn valid_name(q: Seq<u8>) -> bool {
    1 <= q.len() <= 46
}

/// Searches the directory from slot `i` on for the first entry that `hit`
/// accepts; a sector that cannot be read ends the search.
pub open spec fn scan(d: DeviceState, hit: spec_fn(EntryView) -> bool, i: int) -> FsResult<
    Option<usize>,
>
    decreases MAX_FILES - i,
{
    if i >= MAX_FILES {
        Ok(None)
    } else {
        match d.status(dir_lba(i), 1) {
            Err(x) => Err(x),
            Ok(_) => if hit(entry_at(d, i)) {
                Ok(Some(i as usize))
            } else {
                scan(d, hit, i + 1)
            },
        }
    }
}

/// The first active file named `q`.
pub open spec fn lookup(d: DeviceState, q: Seq<u8>) -> FsResult<Option<usize>> {
    scan(d, |e: EntryView| is_file(e, q), 0)
}

/// The first free slot.
pub open spec fn first_free(d: DeviceState) -> FsResult<Option<usize>> {
    scan(d, |e: EntryView| e.in_use == 0, 0)
}

/// Reading the superblock.
pub open spec fn load_superblock(d: DeviceState) -> FsResult<SuperblockView> {
    match d.status(SUPERBLOCK_LBA as int, 1) {
        Err(x) => Err(x),
        Ok(_) => {
            let sb = superblock_from(d.blocks[SUPERBLOCK_LBA as int]);
            if sb.magic == SFS_MAGIC {
                Ok(sb)
            } else {
                Err(FsError::NotFormatted)
            }
        },
    }
}

/// The device holds a volume, of either kind.
pub open spec fn formatted(d: DeviceState) -> bool {
    is_fat(d) || load_superblock(d) is Ok
}

/// Writing the sector `lba`.
pub open spec fn put_block(d: DeviceState, lba: int, data: Seq<u8>) -> (FsResult<()>, DeviceState) {
    match d.status(lba, 1) {
        Err(x) => (Err(x), d),
        Ok(_) => (Ok(()), d.write(lba, data)),
    }
}

/// The state after slot `i` was overwritten with `e`.
pub open spec fn with_entry(d: DeviceState, i: int, e: EntryView) -> DeviceState {
    d.write(dir_lba(i), splice(d.blocks[dir_lba(i)], slot_offset(i), entry_bytes(e)))
}

/// Writing slot `i`.
pub open spec fn put_entry(d: DeviceState, i: int, e: EntryView) -> (FsResult<()>, DeviceState) {
    match d.status(dir_lba(i), 1) {
        Err(x) => (Err(x), d),
        Ok(_) => (Ok(()), with_entry(d, i, e)),
    }
}

/// Sectors that `size` bytes take.
pub open spec fn blocks_for(size: int) -> int {
    (size + (BLOCK_SIZE - 1)) / (BLOCK_SIZE as int)
}

// ---------------------------------------------------------------------------
// Deleting
// ---------------------------------------------------------------------------

/// A file that moves when the sectors before it are freed.
#[derive(Clone, Copy)]
pub struct Relocation {
    pub index: usize,
    pub start: u64,
    pub size: u64,
}

/// `ms`, which is ordered by first sector, with `m` put in its place: behind
/// every file that begins no later.
pub open spec fn insert_by_start(ms: Seq<Relocation>, m: Relocation) -> Seq<Relocation>
    decreases ms.len(),
{
    if ms.len() == 0 || ms.last().start <= m.start {
        ms.push(m)
    } else {
        insert_by_start(ms.drop_last(), m).push(ms.last())
    }
}

/// The active files among the first `n` slots that begin behind sector
/// `bound`, ordered by first sector, those that begin together by slot.
pub open spec fn relocations(d: DeviceState, bound: u64, n: int) -> Seq<Relocation>
    decreases n,
{
    if n <= 0 {
        Seq::empty()
    } else {
        let rest = relocations(d, bound, n - 1);
        let e = entry_at(d, n - 1);
        if e.in_use == 1 && e.start > bound {
            insert_by_start(
                rest,
                Relocation { index: (n - 1) as usize, start: e.start, size: e.size },
            )
        } else {
            rest
        }
    }
}

/// Copying the sectors `from + i .. from + n` to `to + i .. to + n` one by one.
pub open spec fn copy_sectors(d: DeviceState, from: int, to: int, i: int, n: int) -> (
    FsResult<()>,
    DeviceState,
)
    decreases n - i,
{
    if i >= n {
        (Ok(()), d)
    } else {
        match d.status(from + i, 1) {
            Err(x) => (Err(x), d),
            Ok(_) => match put_block(d, to + i, d.blocks[from + i]) {
                (Err(x), d1) => (Err(x), d1),
                (Ok(_), d1) => copy_sectors(d1, from, to, i + 1, n),
            },
        }
    }
}

/// Moving one file down by `r` sectors: its contents, then its entry.
pub open spec fn relocate(d: DeviceState, m: Relocation, r: int) -> (FsResult<()>, DeviceState) {
    match copy_sectors(d, m.start as int, m.start - r, 0, blocks_for(m.size as int)) {
        (Err(x), d1) => (Err(x), d1),
        (Ok(_), d1) => put_entry(
            d1,
            m.index as int,
            EntryView { start: (m.start - r) as u64, ..entry_at(d1, m.index as int) },
        ),
    }
}

/// Moving the files `ms[k ..]` down by `r` sectors, in order.
pub open spec fn relocate_all(d: DeviceState, ms: Seq<Relocation>, r: int, k: int) -> (
    FsResult<()>,
    DeviceState,
)
    decreases ms.len() - k,
{
    if k >= ms.len() {
        (Ok(()), d)
    } else {
        match relocate(d, ms[k], r) {
            (Err(x), d1) => (Err(x), d1),
            (Ok(_), d1) => relocate_all(d1, ms, r, k + 1),
        }
    }
}

/// No sector number computed while moving the files `ms[k ..]` leaves its
/// range.
pub open spec fn relocations_fit(d: DeviceState, ms: Seq<Relocation>, r: int, k: int) -> bool
    decreases ms.len() - k,
{
    k < ms.len() ==> {
        &&& ms[k].size + BLOCK_SIZE <= u64::MAX
        &&& ms[k].start >= r
        &&& match relocate(d, ms[k], r) {
            (Err(_), _) => true,
            (Ok(_), d1) => relocations_fit(d1, ms, r, k + 1),
        }
    }
}

/// Taking one file off the count, which never drops below zero.
pub open spec fn uncount_file(d: DeviceState) -> (FsResult<()>, DeviceState) {
    match load_superblock(d) {
        Err(x) => (Err(x), d),
        Ok(sb) => if sb.file_count > 0 {
            put_block(
                d,
                SUPERBLOCK_LBA as int,
                superblock_bytes(
                    SuperblockView { file_count: (sb.file_count - 1) as u32, ..sb },
                ),
            )
        } else {
            (Ok(()), d)
        },
    }
}

/// Giving `r` sectors back.
pub open spec fn return_sectors(d: DeviceState, r: int) -> (FsResult<()>, DeviceState) {
    match load_superblock(d) {
        Err(x) => (Err(x), d),
        Ok(sb) => put_block(
            d,
            SUPERBLOCK_LBA as int,
            superblock_bytes(SuperblockView { next_free: (sb.next_free - r) as u64, ..sb }),
        ),
    }
}

/// Every directory sector can be read.
pub open spec fn directory_status(d: DeviceState) -> FsResult<()> {
    match scan(d, |e: EntryView| false, 0) {
        Err(x) => Err(x),
        Ok(_) => Ok(()),
    }
}

/// Closing the gap of `r` sectors that a file at `bound` leaves.
pub open spec fn compact(d: DeviceState, bound: u64, r: int) -> (FsResult<()>, DeviceState) {
    match directory_status(d) {
        Err(x) => (Err(x), d),
        Ok(_) => match relocate_all(d, relocations(d, bound, MAX_FILES as int), r, 0) {
            (Err(x), d1) => (Err(x), d1),
            (Ok(_), d1) => return_sectors(d1, r),
        },
    }
}

/// Deleting the file in slot `i`: its entry is cleared, the count goes down,
/// and the files behind it close the gap.
pub open spec fn delete_outcome(d: DeviceState, i: int) -> (FsResult<()>, DeviceState) {
    match d.status(dir_lba(i), 1) {
        Err(x) => (Err(x), d),
        Ok(_) => {
            let e = entry_at(d, i);
            if e.in_use == 0 {
                (Ok(()), d)
            } else {
                match uncount_file(with_entry(d, i, free_entry())) {
                    (Err(x), d2) => (Err(x), d2),
                    (Ok(_), d2) => if blocks_for(e.size as int) == 0 {
                        (Ok(()), d2)
                    } else {
                        compact(d2, e.start, blocks_for(e.size as int))
                    },
                }
            }
        },
    }
}

/// No number computed while closing the gap leaves its range.
pub open spec fn compact_fits(d: DeviceState, bound: u64, r: int) -> bool {
    directory_status(d) is Ok ==> {
        let ms = relocations(d, bound, MAX_FILES as int);
        &&& relocations_fit(d, ms, r, 0)
        &&& match relocate_all(d, ms, r, 0) {
            (Err(_), _) => true,
            (Ok(_), d1) => load_superblock(d1) matches Ok(sb) ==> sb.next_free >= r,
        }
    }
}

/// No number computed while deleting the file in slot `i` leaves its range.
pub open spec fn delete_fits(d: DeviceState, i: int) -> bool {
    let e = entry_at(d, i);
    d.status(dir_lba(i), 1) is Ok && e.in_use != 0 ==> {
        &&& e.size + BLOCK_SIZE <= u64::MAX
        &&& match uncount_file(with_entry(d, i, free_entry())) {
            (Err(_), _) => true,
            (Ok(_), d2) => blocks_for(e.size as int) > 0 ==> compact_fits(
                d2,
                e.start,
                blocks_for(e.size as int),
            ),
        }
    }
}

// ---------------------------------------------------------------------------
// Creating, reading, formatting
// ---------------------------------------------------------------------------

/// `data` filled up with zero bytes to whole sectors.
pub open spec fn padded(data: Seq<u8>) -> Seq<u8> {
    data + Seq::new((blocks_for(data.len() as int) * BLOCK_SIZE - data.len()) as nat, |i: int| 0u8)
}

/// The name field that stores `q`.
pub open spec fn name_field(q: Seq<u8>) -> Seq<u8> {
    q + Seq::new((47 - q.len()) as nat, |i: int| 0u8)
}

/// The entry of a new file.
pub open spec fn new_entry(q: Seq<u8>, start: u64, size: int) -> EntryView {
    EntryView { name: name_field(q), start, size: size as u64, in_use: 1 }
}

/// Writing the contents of a new file.
pub open spec fn put_data(d: DeviceState, start: int, data: Seq<u8>) -> (FsResult<()>, DeviceState) {
    let n = blocks_for(data.len() as int);
    if n == 0 {
        (Ok(()), d)
    } else {
        match d.status(start, n) {
            Err(x) => (Err(x), d),
            Ok(_) => (Ok(()), d.write_run(start, n, padded(data))),
        }
    }
}

/// Storing a new file in slot `i` of a volume whose superblock is `sb`:
/// contents, then entry, then superblock.
pub open spec fn store_file(
    d: DeviceState,
    sb: SuperblockView,
    i: int,
    q: Seq<u8>,
    data: Seq<u8>,
) -> (FsResult<()>, DeviceState) {
    let n = blocks_for(data.len() as int);
    match put_data(d, sb.next_free as int, data) {
        (Err(x), d1) => (Err(x), d1),
        (Ok(_), d1) => match put_entry(d1, i, new_entry(q, sb.next_free, data.len() as int)) {
            (Err(x), d2) => (Err(x), d2),
            (Ok(_), d2) => put_block(
                d2,
                SUPERBLOCK_LBA as int,
                superblock_bytes(
                    SuperblockView {
                        next_free: (sb.next_free + n) as u64,
                        file_count: (sb.file_count + 1) as u32,
                        ..sb
                    },
                ),
            ),
        },
    }
}

/// Adding a file to a volume that has none of that name.
pub open spec fn add_file(d: DeviceState, sb: SuperblockView, q: Seq<u8>, data: Seq<u8>) -> (
    FsResult<()>,
    DeviceState,
) {
    match first_free(d) {
        Err(x) => (Err(x), d),
        Ok(None) => (Err(FsError::NoSpace), d),
        Ok(Some(i)) => if sb.next_free + blocks_for(data.len() as int) > MAX_BLOCKS {
            (Err(FsError::NoSpace), d)
        } else {
            store_file(d, sb, i as int, q, data)
        },
    }
}

/// Removing the file that a new one replaces, if there is one, and reading the
/// superblock as it then stands.
pub open spec fn make_room(d: DeviceState, q: Seq<u8>) -> (FsResult<SuperblockView>, DeviceState) {
    match load_superblock(d) {
        Err(x) => (Err(x), d),
        Ok(sb) => match lookup(d, q) {
            Err(x) => (Err(x), d),
            Ok(None) => (Ok(sb), d),
            Ok(Some(i)) => match delete_outcome(d, i as int) {
                (Err(x), d1) => (Err(x), d1),
                (Ok(_), d1) => (load_superblock(d1), d1),
            },
        },
    }
}

/// Creating the file `q` with the contents `data`, over any file of that name.
pub open spec fn create_outcome(d: DeviceState, q: Seq<u8>, data: Seq<u8>) -> (
    FsResult<()>,
    DeviceState,
) {
    if !valid_name(q) {
        (Err(FsError::InvalidArgument), d)
    } else {
        match make_room(d, q) {
            (Err(x), d1) => (Err(x), d1),
            (Ok(sb), d1) => add_file(d1, sb, q, data),
        }
    }
}

/// No number computed while creating the file leaves its range.
pub open spec fn create_fits(d: DeviceState, q: Seq<u8>, data: Seq<u8>) -> bool {
    valid_name(q) ==> {
        &&& load_superblock(d) is Ok ==> match lookup(d, q) {
            Ok(Some(i)) => delete_fits(d, i as int),
            _ => true,
        }
        &&& match make_room(d, q) {
            (Ok(sb), d1) => first_free(d1) matches Ok(Some(_)) ==> {
                let end = sb.next_free + blocks_for(data.len() as int);
                &&& end <= u64::MAX
                &&& end <= MAX_BLOCKS ==> sb.file_count < u32::MAX
            },
            _ => true,
        }
    }
}

/// Deleting the file `q` of the SimpleFS directory.
pub open spec fn remove_outcome(d: DeviceState, q: Seq<u8>) -> (FsResult<()>, DeviceState) {
    if !valid_name(q) {
        (Err(FsError::InvalidArgument), d)
    } else {
        match lookup(d, q) {
            Err(x) => (Err(x), d),
            Ok(None) => (Err(FsError::FileNotFound), d),
            Ok(Some(i)) => delete_outcome(d, i as int),
        }
    }
}

/// No number computed while deleting the file leaves its range.
pub open spec fn remove_fits(d: DeviceState, q: Seq<u8>) -> bool {
    valid_name(q) ==> match lookup(d, q) {
        Ok(Some(i)) => delete_fits(d, i as int),
        _ => true,
    }
}

/// Finding the file `q`: its slot and its entry.
pub open spec fn find_outcome(d: DeviceState, q: Seq<u8>) -> FsResult<Option<(usize, EntryView)>> {
    if !valid_name(q) {
        Err(FsError::InvalidArgument)
    } else if is_fat(d) {
        match kagfat::search(d, q, 0) {
            Err(x) => Err(x),
            Ok(None) => Ok(None),
            Ok(Some(i)) => Ok(Some((i, shown_entry(kagfat::slot(d, i as int))))),
        }
    } else {
        match lookup(d, q) {
            Err(x) => Err(x),
            Ok(None) => Ok(None),
            Ok(Some(i)) => Ok(Some((i, entry_at(d, i as int)))),
        }
    }
}

/// The contents of the file that `e` describes.
pub open spec fn read_entry(d: DeviceState, e: EntryView) -> FsResult<Seq<u8>> {
    let n = blocks_for(e.size as int);
    if n == 0 {
        Ok(Seq::empty())
    } else {
        match d.status(e.start as int, n) {
            Err(x) => Err(x),
            Ok(_) => Ok(d.bytes(e.start as int, n).subrange(0, e.size as int)),
        }
    }
}

/// Reading the file `q`.
pub open spec fn read_outcome(d: DeviceState, q: Seq<u8>) -> FsResult<Seq<u8>> {
    if !valid_name(q) {
        Err(FsError::InvalidArgument)
    } else if is_fat(d) {
        kagfat::read_outcome(d, q)
    } else {
        match lookup(d, q) {
            Err(x) => Err(x),
            Ok(None) => Err(FsError::FileNotFound),
            Ok(Some(i)) => read_entry(d, entry_at(d, i as int)),
        }
    }
}

/// The buffer for the file `q` has a size that the machine can represent.
pub open spec fn read_fits(d: DeviceState, q: Seq<u8>) -> bool {
    valid_name(q) && !is_fat(d) ==> match lookup(d, q) {
        Ok(Some(i)) => {
            let size = entry_at(d, i as int).size;
            size + BLOCK_SIZE <= usize::MAX && blocks_for(size as int) <= u32::MAX
        },
        _ => true,
    }
}

/// The active entries among the first `n` slots, in slot order.
pub open spec fn active_entries(d: DeviceState, n: int) -> Seq<EntryView>
    decreases n,
{
    if n <= 0 {
        Seq::empty()
    } else if entry_at(d, n - 1).in_use == 1 {
        active_entries(d, n - 1).push(entry_at(d, n - 1))
    } else {
        active_entries(d, n - 1)
    }
}

/// Listing the directory of a formatted volume.
pub open spec fn list_outcome(d: DeviceState) -> FsResult<Seq<EntryView>> {
    match load_superblock(d) {
        Err(x) => Err(x),
        Ok(_) => match directory_status(d) {
            Err(x) => Err(x),
            Ok(_) => Ok(active_entries(d, MAX_FILES as int)),
        },
    }
}

/// Clearing the directory sectors `b ..`.
pub open spec fn clear_directory(d: DeviceState, b: int) -> (FsResult<()>, DeviceState)
    decreases DIR_BLOCKS - b,
{
    if b >= DIR_BLOCKS {
        (Ok(()), d)
    } else {
        match put_block(d, DIR_START_LBA + b, Seq::new(BLOCK_SIZE as nat, |i: int| 0u8)) {
            (Err(x), d1) => (Err(x), d1),
            (Ok(_), d1) => clear_directory(d1, b + 1),
        }
    }
}

/// The superblock of an empty volume.
pub open spec fn empty_superblock() -> SuperblockView {
    SuperblockView {
        magic: SFS_MAGIC,
        next_free: DATA_START_LBA,
        file_count: 0,
        padding: Seq::new(492, |i: int| 0u8),
    }
}

/// Formatting: superblock, then directory.
pub open spec fn format_outcome(d: DeviceState) -> (FsResult<()>, DeviceState) {
    match put_block(d, SUPERBLOCK_LBA as int, superblock_bytes(empty_superblock())) {
        (Err(x), d1) => (Err(x), d1),
        (Ok(_), d1) => clear_directory(d1, 0),
    }
}

} // verus!
