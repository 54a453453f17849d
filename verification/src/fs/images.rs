//! What the kernel finds on a device that holds a disk image: the files that
//! were inserted into the image read back as they were.

use vstd::prelude::*;
use crate::device::{BLOCK_SIZE, DeviceState};
use crate::fat::disk::DiskState;
use crate::fat::laws::{
    DATA_START, TABLE_CLUSTERS, absent, active, chain_ok, cluster_byte, cluster_offset, file_data,
    file_ok, free_count, has_free_slot, inside, law_create, law_create_keeps_boot_sector,
    lemma_nth_cluster, no_zero, sound, usable_end, volume_ok,
};
use crate::fat::layout::{
    BootSector, CLUSTER_SIZE, DirEntryView, ROOT_DIR_ENTRIES, SECTORS_PER_CLUSTER,
};
use crate::fat::model::{
    cluster_lba, clusters_for, delete_outcome, fat_entry, fat_lba, fat_offset, format_outcome,
    insert_outcome, is_file, load_boot_sector, max_cluster, new_boot_sector, slot_entry, slot_lba,
    slot_offset, valid_name,
};
use crate::fat;
use crate::fs::error::FsError;
use crate::fs::kagfat::{self, is_fat, next_cluster, read_chain, slot};
use crate::fs::model::read_outcome;

verus! {

/// The device holds the whole sectors of the image.
pub open spec fn shows(d: DeviceState, disk: DiskState) -> bool {
    &&& d.good.len() == d.blocks.len()
    &&& d.blocks.len() == disk.bytes.len() / BLOCK_SIZE as nat
    &&& forall|i: int| 0 <= i < d.blocks.len() ==> #[trigger] d.blocks[i] == disk.sector(i)
}

/// The device is there and without a fault.
pub open spec fn faultless(d: DeviceState) -> bool {
    &&& d.ready()
    &&& forall|i: int| 0 <= i < d.good.len() ==> #[trigger] d.good[i]
}

proof fn lemma_status(d: DeviceState, disk: DiskState, lba: int, n: int)
    requires
        shows(d, disk),
        faultless(d),
        0 <= lba,
        0 <= n,
        (lba + n) * BLOCK_SIZE <= disk.bytes.len(),
    ensures
        d.status(lba, n) is Ok,
        lba + n <= d.blocks.len(),
{
}

/// The boot sector is the image's.
proof fn lemma_boot(d: DeviceState, disk: DiskState)
    requires
        shows(d, disk),
        faultless(d),
        load_boot_sector(disk) is Ok,
    ensures
        is_fat(d),
        kagfat::load_boot_sector(d) == Ok::<BootSector, FsError>(load_boot_sector(disk)->Ok_0),
{
    lemma_status(d, disk, 0, 1);
    assert(d.blocks[0] == disk.sector(0));
}

/// Directory slots are the image's.
proof fn lemma_slot(d: DeviceState, disk: DiskState, i: int)
    requires
        shows(d, disk),
        faultless(d),
        disk.bytes.len() >= DATA_START,
        0 <= i < ROOT_DIR_ENTRIES,
    ensures
        d.status(slot_lba(i), 1) is Ok,
        slot(d, i) == slot_entry(disk, i),
{
    assert(i / 16 <= 15);
    lemma_status(d, disk, slot_lba(i), 1);
    let s = disk.sector(slot_lba(i));
    assert(d.blocks[slot_lba(i)] == s);
    assert(slot_lba(i) * BLOCK_SIZE + 32 * (i % 16) == slot_offset(i));
    assert(s.subrange(32 * (i % 16), 32 * (i % 16) + 32) =~= disk.bytes.subrange(
        slot_offset(i),
        slot_offset(i) + 32,
    ));
}

/// Searches end in the same place.
proof fn lemma_search(d: DeviceState, disk: DiskState, q: Seq<u8>, i: int)
    requires
        shows(d, disk),
        faultless(d),
        disk.bytes.len() >= DATA_START,
        0 <= i,
    ensures
        fat::model::search(disk, |e: DirEntryView| is_file(e, q), i) matches Ok(found)
            && kagfat::search(d, q, i) == Ok::<Option<usize>, FsError>(found) && (found matches Some(
            k,
        ) ==> k < ROOT_DIR_ENTRIES && is_file(slot_entry(disk, k as int), q)),
    decreases ROOT_DIR_ENTRIES - i,
{
    if i < ROOT_DIR_ENTRIES {
        lemma_slot(d, disk, i);
        assert(i / 16 <= 15);
        assert(disk.readable(slot_lba(i)));
        lemma_search(d, disk, q, i + 1);
    }
}

/// Entries of the allocation table are the image's.
proof fn lemma_next(d: DeviceState, disk: DiskState, c: int)
    requires
        shows(d, disk),
        faultless(d),
        disk.bytes.len() >= DATA_START,
        0 <= c < TABLE_CLUSTERS,
    ensures
        next_cluster(d, c) == Ok::<u16, FsError>(fat_entry(disk, c)),
{
    assert(c / 256 <= 63);
    lemma_status(d, disk, fat_lba(c), 1);
    let s = disk.sector(fat_lba(c));
    assert(d.blocks[fat_lba(c)] == s);
    assert(fat_lba(c) * BLOCK_SIZE + 2 * (c % 256) == fat_offset(c));
    assert(s[2 * (c % 256)] == disk.bytes[fat_offset(c)]);
    assert(s[2 * (c % 256) + 1] == disk.bytes[fat_offset(c) + 1]);
}

/// The contents of a cluster are the image's.
proof fn lemma_cluster(d: DeviceState, disk: DiskState, c: int)
    requires
        shows(d, disk),
        faultless(d),
        2 <= c,
        cluster_offset(c) + CLUSTER_SIZE <= disk.bytes.len(),
    ensures
        d.status(cluster_lba(c), SECTORS_PER_CLUSTER as int) is Ok,
        d.bytes(cluster_lba(c), SECTORS_PER_CLUSTER as int).len() == CLUSTER_SIZE,
        forall|m: int|
            0 <= m < CLUSTER_SIZE ==> #[trigger] d.bytes(
                cluster_lba(c),
                SECTORS_PER_CLUSTER as int,
            )[m] == cluster_byte(disk, c, m),
{
    lemma_status(d, disk, cluster_lba(c), SECTORS_PER_CLUSTER as int);
    assert forall|m: int| 0 <= m < CLUSTER_SIZE implies #[trigger] d.bytes(
        cluster_lba(c),
        SECTORS_PER_CLUSTER as int,
    )[m] == cluster_byte(disk, c, m) by {
        let b = cluster_lba(c) + m / 512;
        assert(d.blocks[b] == disk.sector(b));
        assert(disk.sector(b)[m % 512] == disk.bytes[b * 512 + m % 512]);
        assert(b * 512 + m % 512 == cluster_offset(c) + m);
    }
}

/// What is read from the chain `cs` from its cluster `k` on.
pub open spec fn chain_data(disk: DiskState, cs: Seq<u16>, k: int, size: int) -> Seq<u8> {
    Seq::new(
        size as nat,
        |j: int|
            cluster_byte(
                disk,
                cs[k + j / (CLUSTER_SIZE as int)] as int,
                j % (CLUSTER_SIZE as int),
            ),
    )
}

proof fn lemma_read_chain(
    d: DeviceState,
    disk: DiskState,
    first: u16,
    cs: Seq<u16>,
    k: int,
    size: int,
)
    requires
        shows(d, disk),
        faultless(d),
        disk.bytes.len() >= DATA_START,
        chain_ok(disk, first, cs),
        inside(disk, cs),
        0 <= k < cs.len(),
        0 < size <= (cs.len() - k) * CLUSTER_SIZE,
    ensures
        read_chain(d, cs[k], size) == Ok::<Seq<u8>, FsError>(chain_data(disk, cs, k, size)),
    decreases size,
{
    let c = cs[k];
    assert(2 <= cs[k] < TABLE_CLUSTERS);
    assert(cluster_offset(cs[k] as int) + CLUSTER_SIZE <= disk.bytes.len());
    lemma_cluster(d, disk, c as int);
    let part = d.bytes(cluster_lba(c as int), SECTORS_PER_CLUSTER as int);
    if size <= CLUSTER_SIZE {
        assert(part.take(size) =~= chain_data(disk, cs, k, size));
    } else {
        lemma_next(d, disk, c as int);
        assert(fat_entry(disk, cs[k] as int) == cs[k + 1]);
        let left = size - CLUSTER_SIZE;
        lemma_read_chain(d, disk, first, cs, k + 1, left);
        let rest = chain_data(disk, cs, k + 1, left);
        let all = chain_data(disk, cs, k, size);
        assert((part + rest).len() == all.len());
        assert forall|j: int| 0 <= j < all.len() implies (part + rest)[j] == all[j] by {
            if j >= CLUSTER_SIZE {
                let m = j - CLUSTER_SIZE;
                assert((part + rest)[j] == rest[m]);
                assert(j / 4096 == m / 4096 + 1);
                assert(j % 4096 == m % 4096);
            } else {
                assert((part + rest)[j] == part[j]);
                assert(j / 4096 == 0 && j % 4096 == j);
            }
        }
        assert(part + rest =~= all);
    }
}

/// The contents of a file are the image's.
proof fn lemma_contents(d: DeviceState, disk: DiskState, i: int, cs: Seq<u16>)
    requires
        shows(d, disk),
        faultless(d),
        disk.bytes.len() >= DATA_START,
        file_ok(disk, i, cs),
    ensures
        ({
            let e = slot_entry(disk, i);
            read_chain(d, e.first_cluster, e.size as int) == Ok::<Seq<u8>, FsError>(
                file_data(disk, e),
            )
        }),
{
    let e = slot_entry(disk, i);
    let all = file_data(disk, e);
    if e.size == 0 {
        assert(all =~= Seq::<u8>::empty());
    } else {
        assert(cs.len() > 0);
        lemma_read_chain(d, disk, e.first_cluster, cs, 0, e.size as int);
        let read = chain_data(disk, cs, 0, e.size as int);
        assert forall|j: int| 0 <= j < e.size implies read[j] == all[j] by {
            assert(0 <= j / 4096 < cs.len());
            lemma_nth_cluster(disk, e.first_cluster, cs, j / 4096);
        }
        assert(read =~= all);
    }
}

/// The kernel reads a sound image as it is: each file with its contents, and no
/// other.
pub proof fn law_image_is_read(d: DeviceState, disk: DiskState, q: Seq<u8>)
    requires
        sound(disk),
        load_boot_sector(disk) is Ok,
        shows(d, disk),
        faultless(d),
        valid_name(q),
    ensures
        is_fat(d),
        read_outcome(d, q) == (match fat::laws::read_file(disk, q) {
            Some(data) => Ok::<Seq<u8>, FsError>(data),
            None => Err::<Seq<u8>, FsError>(FsError::FileNotFound),
        }),
{
    let chains = choose|chains: Map<int, Seq<u16>>| volume_ok(disk, chains);
    lemma_boot(d, disk);
    lemma_search(d, disk, q, 0);
    if let Ok(Some(i)) = fat::model::lookup(disk, q) {
        assert(active(disk, i as int));
        lemma_slot(d, disk, i as int);
        lemma_contents(d, disk, i as int, chains[i as int]);
    }
}

/// A file that was inserted into an image is read back by the kernel as it was
/// given, and every other file as before.
pub proof fn law_inserted_file_is_read(
    d: DeviceState,
    disk: DiskState,
    q: Seq<u8>,
    data: Seq<u8>,
    p: Seq<u8>,
)
    requires
        sound(disk),
        load_boot_sector(disk) matches Ok(bs) && free_count(
            delete_outcome(disk, q).1,
            usable_end(bs.total_clusters),
        ) >= clusters_for(data.len() as int),
        valid_name(q),
        no_zero(q),
        data.len() <= u32::MAX,
        has_free_slot(disk) || !absent(disk, q),
        shows(d, insert_outcome(disk, q, data).1),
        faultless(d),
        valid_name(p),
    ensures
        insert_outcome(disk, q, data).0 is Ok,
        is_fat(d),
        read_outcome(d, q) == Ok::<Seq<u8>, FsError>(data),
        p != q ==> read_outcome(d, p) == (match fat::laws::read_file(disk, p) {
            Some(other) => Ok::<Seq<u8>, FsError>(other),
            None => Err::<Seq<u8>, FsError>(FsError::FileNotFound),
        }),
{
    let total = load_boot_sector(disk)->Ok_0.total_clusters;
    law_create(disk, q, data, total, p);
    law_create_keeps_boot_sector(disk, q, data, total);
    let end = insert_outcome(disk, q, data).1;
    law_image_is_read(d, end, q);
    law_image_is_read(d, end, p);
}

/// A file that was inserted into a freshly formatted image is read back by the
/// kernel as it was given.
pub proof fn law_formatted_image(d: DeviceState, disk: DiskState, q: Seq<u8>, data: Seq<u8>)
    requires
        valid_name(q),
        no_zero(q),
        data.len() <= (TABLE_CLUSTERS - 2) * CLUSTER_SIZE,
        shows(d, insert_outcome(format_outcome(disk), q, data).1),
        faultless(d),
    ensures
        insert_outcome(format_outcome(disk), q, data).0 is Ok,
        is_fat(d),
        read_outcome(d, q) == Ok::<Seq<u8>, FsError>(data),
{
    let disk1 = format_outcome(disk);
    fat::laws::law_format(disk, q);
    let total = new_boot_sector().total_clusters;
    assert(total == 262133);
    assert(max_cluster(total) == 65526);
    assert(usable_end(total) == TABLE_CLUSTERS);
    fat::laws::law_absent_is_not_deleted(disk1, q);
    law_inserted_file_is_read(d, disk1, q, data, q);
}

} // verus!
