//! What each operation does to a KAGFAT16 volume, as functions of the state of
//! the disk: the result it returns and the state it leaves.

use vstd::prelude::*;
use crate::device::BLOCK_SIZE;
use crate::fat::disk::{DiskError, DiskResult, DiskState};
use crate::fat::layout::{
    BootSector, CLUSTER_SIZE, DATA_START_LBA, DirEntryView, FAT_ENTRY_EOC, FAT_ENTRY_FREE,
    FAT_ENTRY_RESERVED, FAT_MAGIC, FAT_SECTORS, FAT_START_LBA, ROOT_DIR_ENTRIES, ROOT_DIR_SECTORS,
    ROOT_DIR_START_LBA, SECTORS_PER_CLUSTER, TOTAL_SECTORS, boot_sector_bytes, boot_sector_from,
    dir_entry_bytes, dir_entry_from, empty_dir_entry,
};
use crate::fs::model::stores_name;
use crate::le::{splice, u16_at, u16_bytes};

verus! {

// ---------------------------------------------------------------------------
// The allocation table
// ---------------------------------------------------------------------------

/// The sector that holds the table entry of cluster `c`.
pub open spec fn fat_lba(c: int) -> int {
    FAT_START_LBA + c / 256
}

/// Where the table entry of cluster `c` stands in the image.
pub open spec fn fat_offset(c: int) -> int {
    FAT_START_LBA * BLOCK_SIZE + 2 * c
}

/// The table entry of cluster `c`.
pub open spec fn fat_entry(d: DiskState, c: int) -> u16 {
    u16_at(d.bytes, fat_offset(c))
}

/// Reading the table entry of cluster `c`.
pub open spec fn fat_get(d: DiskState, c: int) -> DiskResult<u16> {
    if d.readable(fat_lba(c)) {
        Ok(fat_entry(d, c))
    } else {
        Err(DiskError::UnexpectedEnd)
    }
}

/// The state after the table entry of cluster `c` was set.
pub open spec fn fat_set(d: DiskState, c: int, value: u16) -> DiskState {
    d.write(fat_lba(c), splice(d.sector(fat_lba(c)), 2 * (c % 256), u16_bytes(value)))
}

/// Writing the table entry of cluster `c`.
pub open spec fn fat_put(d: DiskState, c: int, value: u16) -> (DiskResult<()>, DiskState) {
    if d.readable(fat_lba(c)) {
        (Ok(()), fat_set(d, c, value))
    } else {
        (Err(DiskError::UnexpectedEnd), d)
    }
}

/// The last cluster number that is tried on a volume of `total` clusters.
/// Numbers have sixteen bits, so that larger volumes wrap around.
pub open spec fn max_cluster(total: u32) -> int {
    (total + 1) % 0x1_0000
}

/// The first free cluster from `c` to `last`.
pub open spec fn free_cluster(d: DiskState, c: int, last: int) -> DiskResult<u16>
    decreases last - c + 1,
{
    if c > last {
        Err(DiskError::DiskFull)
    } else {
        match fat_get(d, c) {
            Err(e) => Err(e),
            Ok(x) => if x == FAT_ENTRY_FREE {
                Ok(c as u16)
            } else {
                free_cluster(d, c + 1, last)
            },
        }
    }
}

/// Taking a free cluster, which becomes the end of a chain.
pub open spec fn alloc_outcome(d: DiskState, total: u32) -> (DiskResult<u16>, DiskState) {
    match free_cluster(d, 2, max_cluster(total)) {
        Err(e) => (Err(e), d),
        Ok(c) => (Ok(c), fat_set(d, c as int, FAT_ENTRY_EOC)),
    }
}

/// The table entry of cluster `c` lies in the image and is not free.
pub open spec fn taken(b: Seq<u8>, c: int) -> bool {
    fat_offset(c) + 2 <= b.len() && u16_at(b, fat_offset(c)) != FAT_ENTRY_FREE
}

/// How many of the clusters below `n` are taken.
pub open spec fn taken_count(b: Seq<u8>, n: int) -> int
    decreases n,
{
    if n <= 0 {
        0
    } else {
        taken_count(b, n - 1) + (if taken(b, n - 1) {
            1int
        } else {
            0int
        })
    }
}

/// `c` is a number that stands for a cluster.
pub open spec fn is_cluster(c: u16) -> bool {
    2 <= c < FAT_ENTRY_RESERVED
}

/// Giving back the clusters of the chain that begins with `c`.
pub open spec fn free_outcome(d: DiskState, c: u16) -> (DiskResult<()>, DiskState)
    decreases taken_count(d.bytes, 0x1_0000),
{
    if !is_cluster(c) {
        (Ok(()), d)
    } else {
        match fat_get(d, c as int) {
            Err(e) => (Err(e), d),
            Ok(next) => {
                let d1 = fat_set(d, c as int, FAT_ENTRY_FREE);
                if is_cluster(next) {
                    proof {
                        lemma_freeing_counts_down(d, c);
                    }
                    free_outcome(d1, next)
                } else {
                    (Ok(()), d1)
                }
            },
        }
    }
}

/// Setting a table entry changes its two bytes of the image.
pub proof fn lemma_fat_set(d: DiskState, c: int, value: u16)
    requires
        0 <= c,
        d.readable(fat_lba(c)),
    ensures
        fat_set(d, c, value).bytes == splice(d.bytes, fat_offset(c), u16_bytes(value)),
        fat_offset(c) + 2 <= d.bytes.len(),
{
    let lba = fat_lba(c);
    let off = 2 * (c % 256);
    let data = splice(d.sector(lba), off, u16_bytes(value));
    assert(lba * BLOCK_SIZE + off == fat_offset(c));
    assert(data.len() == BLOCK_SIZE);
    let a = fat_set(d, c, value).bytes;
    let b = splice(d.bytes, fat_offset(c), u16_bytes(value));
    assert(a.len() == b.len());
    assert forall|i: int| 0 <= i < a.len() implies a[i] == b[i] by {
        if lba * BLOCK_SIZE <= i < lba * BLOCK_SIZE + BLOCK_SIZE {
            let k = i - lba * BLOCK_SIZE;
            assert(a[i] == data[k]);
            if !(off <= k < off + 2) {
                assert(data[k] == d.sector(lba)[k]);
            }
        }
    }
    assert(a =~= b);
}

/// Setting a table entry gives that entry its value and leaves the others.
pub proof fn lemma_fat_set_entry(d: DiskState, c: int, value: u16, k: int)
    requires
        0 <= c,
        0 <= k,
        d.readable(fat_lba(c)),
    ensures
        fat_set(d, c, value).bytes.len() == d.bytes.len(),
        fat_entry(fat_set(d, c, value), k) == (if k == c {
            value
        } else {
            fat_entry(d, k)
        }) || fat_offset(k) + 2 > d.bytes.len(),
{
    lemma_fat_set(d, c, value);
    let b = splice(d.bytes, fat_offset(c), u16_bytes(value));
    if fat_offset(k) + 2 <= d.bytes.len() {
        if k == c {
            crate::le::lemma_u16_round_trip(value);
            assert(b.subrange(fat_offset(c), fat_offset(c) + 2) =~= u16_bytes(value));
            crate::le::lemma_u16_at(b, fat_offset(c), value);
        } else {
            assert(b[fat_offset(k)] == d.bytes[fat_offset(k)]);
            assert(b[fat_offset(k) + 1] == d.bytes[fat_offset(k) + 1]);
        }
    }
}

proof fn lemma_taken_count(a: Seq<u8>, b: Seq<u8>, c: int, n: int)
    requires
        0 <= c,
        taken(a, c),
        !taken(b, c),
        forall|k: int| 0 <= k < n && k != c ==> taken(a, k) == #[trigger] taken(b, k),
    ensures
        taken_count(b, n) >= 0,
        taken_count(a, n) == taken_count(b, n) + (if c < n {
            1int
        } else {
            0int
        }),
    decreases n,
{
    if n > 0 {
        lemma_taken_count(a, b, c, n - 1);
        assert(n - 1 != c ==> taken(a, n - 1) == taken(b, n - 1));
    }
}

/// Following a chain frees one more cluster at each step.
pub proof fn lemma_freeing_counts_down(d: DiskState, c: u16)
    requires
        is_cluster(c),
        fat_get(d, c as int) matches Ok(next) && next != FAT_ENTRY_FREE,
    ensures
        0 <= taken_count(fat_set(d, c as int, FAT_ENTRY_FREE).bytes, 0x1_0000) < taken_count(
            d.bytes,
            0x1_0000,
        ),
{
    let d1 = fat_set(d, c as int, FAT_ENTRY_FREE);
    lemma_fat_set(d, c as int, FAT_ENTRY_FREE);
    lemma_fat_set_entry(d, c as int, FAT_ENTRY_FREE, c as int);
    assert forall|k: int| 0 <= k < 0x1_0000 && k != c implies taken(d.bytes, k) == #[trigger] taken(
        d1.bytes,
        k,
    ) by {
        lemma_fat_set_entry(d, c as int, FAT_ENTRY_FREE, k);
    }
    lemma_taken_count(d.bytes, d1.bytes, c as int, 0x1_0000);
}

// ---------------------------------------------------------------------------
// The root directory
// ---------------------------------------------------------------------------

/// The sector that holds directory slot `i`.
pub open spec fn slot_lba(i: int) -> int {
    ROOT_DIR_START_LBA + i / 16
}

/// Where directory slot `i` stands in the image.
pub open spec fn slot_offset(i: int) -> int {
    ROOT_DIR_START_LBA * BLOCK_SIZE + 32 * i
}

/// The entry in directory slot `i`.
pub open spec fn slot_entry(d: DiskState, i: int) -> DirEntryView {
    dir_entry_from(d.bytes.subrange(slot_offset(i), slot_offset(i) + 32))
}

/// The state after directory slot `i` was set.
pub open spec fn slot_set(d: DiskState, i: int, e: DirEntryView) -> DiskState {
    d.write(slot_lba(i), splice(d.sector(slot_lba(i)), 32 * (i % 16), dir_entry_bytes(e)))
}

/// Writing directory slot `i`.
pub open spec fn slot_put(d: DiskState, i: int, e: DirEntryView) -> (DiskResult<()>, DiskState) {
    if d.readable(slot_lba(i)) {
        (Ok(()), slot_set(d, i, e))
    } else {
        (Err(DiskError::UnexpectedEnd), d)
    }
}

/// Searches the directory from slot `i` on for the first entry that `hit`
/// accepts; a sector that is not there ends the search.
pub open spec fn search(d: DiskState, hit: spec_fn(DirEntryView) -> bool, i: int) -> DiskResult<
    Option<usize>,
>
    decreases ROOT_DIR_ENTRIES - i,
{
    if i >= ROOT_DIR_ENTRIES {
        Ok(None)
    } else if !d.readable(slot_lba(i)) {
        Err(DiskError::UnexpectedEnd)
    } else if hit(slot_entry(d, i)) {
        Ok(Some(i as usize))
    } else {
        search(d, hit, i + 1)
    }
}

/// A name that a file can be given.
pub open spec fn valid_name(q: Seq<u8>) -> bool {
    1 <= q.len() <= 21
}

/// The entry is active and named `q`.
pub open spec fn is_file(e: DirEntryView, q: Seq<u8>) -> bool {
    e.in_use == 1 && stores_name(e.name, q)
}

/// The first active file named `q`.
pub open spec fn lookup(d: DiskState, q: Seq<u8>) -> DiskResult<Option<usize>> {
    if !valid_name(q) {
        Err(DiskError::InvalidName)
    } else {
        search(d, |e: DirEntryView| is_file(e, q), 0)
    }
}

/// The first free slot.
pub open spec fn free_slot(d: DiskState) -> DiskResult<Option<usize>> {
    search(d, |e: DirEntryView| e.in_use == 0, 0)
}

// ---------------------------------------------------------------------------
// Files
// ---------------------------------------------------------------------------

/// Deleting the file `q`, if there is one.
pub open spec fn delete_outcome(d: DiskState, q: Seq<u8>) -> (DiskResult<()>, DiskState) {
    match lookup(d, q) {
        Err(e) => (Err(e), d),
        Ok(None) => (Ok(()), d),
        Ok(Some(i)) => match free_outcome(d, slot_entry(d, i as int).first_cluster) {
            (Err(e), d1) => (Err(e), d1),
            (Ok(_), d1) => slot_put(d1, i as int, empty_dir_entry()),
        },
    }
}

/// Where the contents of cluster `c` begin.
pub open spec fn cluster_lba(c: int) -> int {
    DATA_START_LBA + (c - 2) * SECTORS_PER_CLUSTER
}

/// Clusters that `size` bytes take.
pub open spec fn clusters_for(size: int) -> int {
    (size + (CLUSTER_SIZE - 1)) / (CLUSTER_SIZE as int)
}

/// What cluster `i` of a file with the contents `data` holds: its share of
/// them, filled up with zero bytes.
pub open spec fn cluster_data(data: Seq<u8>, i: int) -> Seq<u8> {
    Seq::new(
        CLUSTER_SIZE as nat,
        |k: int|
            if i * CLUSTER_SIZE + k < data.len() {
                data[i * CLUSTER_SIZE + k]
            } else {
                0
            },
    )
}

/// Linking cluster `c` behind cluster `prev`, if there is one.
pub open spec fn link_outcome(d: DiskState, prev: Option<u16>, c: u16) -> (
    DiskResult<()>,
    DiskState,
) {
    match prev {
        None => (Ok(()), d),
        Some(p) => fat_put(d, p as int, c),
    }
}

/// Storing the clusters `i ..` of `data` behind cluster `prev`: the first
/// cluster of the chain, which is `first` where it was stored before.
pub open spec fn store_outcome(
    d: DiskState,
    data: Seq<u8>,
    total: u32,
    i: int,
    prev: Option<u16>,
    first: u16,
) -> (DiskResult<u16>, DiskState)
    decreases clusters_for(data.len() as int) - i,
{
    if i >= clusters_for(data.len() as int) {
        (Ok(first), d)
    } else {
        match alloc_outcome(d, total) {
            (Err(e), d1) => (Err(e), d1),
            (Ok(c), d1) => match link_outcome(d1, prev, c) {
                (Err(e), d2) => (Err(e), d2),
                (Ok(_), d2) => store_outcome(
                    d2.write(cluster_lba(c as int), cluster_data(data, i)),
                    data,
                    total,
                    i + 1,
                    Some(c),
                    if i == 0 {
                        c
                    } else {
                        first
                    },
                ),
            },
        }
    }
}

/// The name field that stores `q`.
pub open spec fn name_field(q: Seq<u8>) -> Seq<u8> {
    q + Seq::new((22 - q.len()) as nat, |i: int| 0u8)
}

/// The entry of a new file. Sizes have 32 bits.
pub open spec fn new_entry(q: Seq<u8>, first: u16, size: int) -> DirEntryView {
    DirEntryView {
        name: name_field(q),
        first_cluster: first,
        size: (size % 0x1_0000_0000) as u32,
        in_use: 1,
    }
}

/// Creating the file `q` with the contents `data` on a volume of `total`
/// clusters, over any file of that name.
pub open spec fn create_outcome(d: DiskState, q: Seq<u8>, data: Seq<u8>, total: u32) -> (
    DiskResult<()>,
    DiskState,
) {
    match delete_outcome(d, q) {
        (Err(e), d1) => (Err(e), d1),
        (Ok(_), d1) => match free_slot(d1) {
            Err(e) => (Err(e), d1),
            Ok(None) => (Err(DiskError::NoFreeSlot), d1),
            Ok(Some(i)) => match store_outcome(d1, data, total, 0, None, 0) {
                (Err(e), d2) => (Err(e), d2),
                (Ok(first), d2) => slot_put(
                    d2,
                    i as int,
                    new_entry(q, first, data.len() as int),
                ),
            },
        },
    }
}

/// A sector of zero bytes.
pub open spec fn zero_sector() -> Seq<u8> {
    Seq::new(BLOCK_SIZE as nat, |i: int| 0u8)
}

/// The state after `n` sectors from `lba` on were cleared one by one.
pub open spec fn clear_sectors(d: DiskState, lba: int, n: int) -> DiskState
    decreases n,
{
    if n <= 0 {
        d
    } else {
        clear_sectors(d, lba, n - 1).write(lba + n - 1, zero_sector())
    }
}

/// The boot sector of a new volume.
pub open spec fn new_boot_sector() -> BootSector {
    BootSector {
        magic: FAT_MAGIC,
        bytes_per_sector: 512,
        sectors_per_cluster: SECTORS_PER_CLUSTER,
        fat_start_lba: FAT_START_LBA as u32,
        fat_sectors: FAT_SECTORS,
        root_dir_start_lba: ROOT_DIR_START_LBA as u32,
        root_dir_sectors: ROOT_DIR_SECTORS,
        data_start_lba: DATA_START_LBA as u32,
        total_clusters: ((TOTAL_SECTORS - DATA_START_LBA) / (SECTORS_PER_CLUSTER as int)) as u32,
    }
}

/// The state after formatting: boot sector, allocation table with its two
/// reserved entries, root directory.
pub open spec fn format_outcome(d: DiskState) -> DiskState {
    let d1 = d.write(0, boot_sector_bytes(new_boot_sector()));
    let d2 = clear_sectors(d1, FAT_START_LBA as int, FAT_SECTORS as int);
    let d3 = fat_set(d2, 0, 0xFFF8);
    let d4 = fat_set(d3, 1, FAT_ENTRY_EOC);
    clear_sectors(d4, ROOT_DIR_START_LBA as int, ROOT_DIR_SECTORS as int)
}

/// Reading the boot sector of a volume.
pub open spec fn load_boot_sector(d: DiskState) -> DiskResult<BootSector> {
    if !d.readable(0) {
        Err(DiskError::UnexpectedEnd)
    } else if boot_sector_from(d.sector(0)).magic != FAT_MAGIC {
        Err(DiskError::NotFormatted)
    } else {
        Ok(boot_sector_from(d.sector(0)))
    }
}

/// The active entries among the first `n` slots, in slot order.
pub open spec fn active_entries(d: DiskState, n: int) -> Seq<DirEntryView>
    decreases n,
{
    if n <= 0 {
        Seq::empty()
    } else if slot_entry(d, n - 1).in_use == 1 {
        active_entries(d, n - 1).push(slot_entry(d, n - 1))
    } else {
        active_entries(d, n - 1)
    }
}

/// Listing the directory of a formatted volume.
pub open spec fn list_outcome(d: DiskState) -> DiskResult<Seq<DirEntryView>> {
    match load_boot_sector(d) {
        Err(e) => Err(e),
        Ok(_) => match search(d, |e: DirEntryView| false, 0) {
            Err(e) => Err(e),
            Ok(_) => Ok(active_entries(d, ROOT_DIR_ENTRIES as int)),
        },
    }
}

/// The first slot from `i` on that cannot be read.
pub open spec fn slots_readable(d: DiskState, i: int) -> int
    decreases ROOT_DIR_ENTRIES - i,
{
    if i >= ROOT_DIR_ENTRIES || !d.readable(slot_lba(i)) {
        i
    } else {
        slots_readable(d, i + 1)
    }
}

/// Inserting a file into a formatted volume, with as many clusters as its boot
/// sector says.
pub open spec fn insert_outcome(d: DiskState, q: Seq<u8>, data: Seq<u8>) -> (
    DiskResult<()>,
    DiskState,
) {
    match load_boot_sector(d) {
        Err(e) => (Err(e), d),
        Ok(bs) => create_outcome(d, q, data, bs.total_clusters),
    }
}

} // verus!
