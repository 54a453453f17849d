//! Where the parts of a KAGFAT16 volume stand, byte for byte, and which of the
//! free places an operation takes.

use vstd::prelude::*;
use crate::fat::disk::{DiskError, DiskState};
use crate::fat::layout::{
    BootSector, DirEntryView, boot_sector_bytes, boot_sector_from, dir_entry_bytes, dir_entry_from,
    empty_dir_entry, law_boot_sector_round_trip,
};
use crate::fat::laws::{
    absent, active, cluster_byte, free_count, has_free_slot, in_chain, inside, lemma_clear_sectors,
    lemma_free_chain, lemma_lookup, lemma_search, lemma_set_slot, lemma_store, names_differ,
    no_zero, stored, usable_end, volume_ok,
};
use crate::fat::model::{
    alloc_outcome, clear_sectors, cluster_data, cluster_lba, clusters_for, create_outcome,
    delete_outcome, fat_entry, fat_get, fat_lba, fat_put, fat_set, format_outcome, free_cluster, free_outcome,
    free_slot, insert_outcome, is_cluster, is_file, lemma_fat_set, lookup, max_cluster,
    new_boot_sector, new_entry, search, slot_entry, slot_put, slot_set, store_outcome, valid_name,
};
use crate::le::{
    lemma_u16_at, lemma_u32_at, lemma_u32_round_trip, lemma_u64_at, splice, u16_bytes, u32_at,
    u32_bytes, u64_at, u64_bytes,
};

verus! {

/// Writing to a disk puts the data at the sector's first byte and leaves the
/// other bytes; where the image was too short it grows, and a gap is filled with
/// zero bytes. The write is recorded behind those before it.
pub proof fn law_disk_write(d: DiskState, lba: int, data: Seq<u8>, i: int)
    requires
        0 <= lba,
    ensures
        ({
            let d1 = d.write(lba, data);
            let at = 512 * lba;
            &&& d1.bytes.len() == (if d.bytes.len() >= at + data.len() {
                d.bytes.len() as int
            } else {
                at + data.len()
            })
            &&& at <= i < at + data.len() ==> d1.bytes[i] == data[i - at]
            &&& 0 <= i < d.bytes.len() && !(at <= i < at + data.len()) ==> d1.bytes[i]
                == d.bytes[i]
            &&& d.bytes.len() <= i < at ==> (data.len() > 0 ==> d1.bytes[i] == 0)
            &&& d1.writes == d.writes.push((at as u64, data))
        }),
{
}

/// A sector is 512 bytes of the image, and can be read where the image holds
/// them all.
pub proof fn law_sector(d: DiskState, lba: int, k: int)
    requires
        0 <= lba,
        d.readable(lba),
        0 <= k < 512,
    ensures
        512 * (lba + 1) <= d.bytes.len(),
        d.sector(lba).len() == 512,
        d.sector(lba)[k] == d.bytes[512 * lba + k],
{
}

/// The directory begins at byte 33280 and has 32 bytes for each slot: 22 for
/// the name, two for the first cluster, four for the size and one that says
/// whether the slot is in use.
pub proof fn law_slot_place(d: DiskState, i: int, e: DirEntryView)
    requires
        0 <= i,
        33280 + 32 * i + 32 <= d.bytes.len(),
        ({
            let at = 33280 + 32 * i;
            &&& d.bytes.subrange(at, at + 22) == e.name
            &&& d.bytes.subrange(at + 22, at + 24) == u16_bytes(e.first_cluster)
            &&& d.bytes.subrange(at + 24, at + 28) == u32_bytes(e.size)
            &&& d.bytes[at + 28] == e.in_use
        }),
    ensures
        slot_entry(d, i) == e,
{
    reveal(dir_entry_from);
    let at = 33280 + 32 * i;
    let b = d.bytes.subrange(at, at + 32);
    assert(b.subrange(0, 22) =~= d.bytes.subrange(at, at + 22));
    assert(b.subrange(22, 24) =~= d.bytes.subrange(at + 22, at + 24));
    assert(b.subrange(24, 28) =~= d.bytes.subrange(at + 24, at + 28));
    lemma_u16_at(b, 22, e.first_cluster);
    lemma_u32_at(b, 24, e.size);
}

/// The three bytes at the end of a slot are zero.
pub proof fn law_slot_end(e: DirEntryView, k: int)
    requires
        e.name.len() == 22,
        29 <= k < 32,
    ensures
        dir_entry_bytes(e).len() == 32,
        dir_entry_bytes(e)[k] == 0,
{
    reveal(dir_entry_bytes);
    lemma_u32_round_trip(e.size);
}

/// The allocation table begins at byte 512 and has two bytes for each cluster,
/// the low one first. The contents of cluster two begin at byte 41472, and each
/// further cluster 4096 bytes on.
pub proof fn law_cluster_place(d: DiskState, c: int)
    requires
        0 <= c,
    ensures
        fat_entry(d, c) == d.bytes[512 + 2 * c] + 0x100 * d.bytes[512 + 2 * c + 1],
        512 * cluster_lba(c) == 41472 + 4096 * (c - 2),
{
}

/// Numbers from two up to 0xFFEF stand for clusters, others for none.
pub proof fn law_cluster_numbers(c: u16)
    ensures
        is_cluster(c) <==> c != 0 && c != 1 && c < 0xFFF0,
{
}

/// A file has the smallest number of clusters of 4096 bytes that hold it.
pub proof fn law_clusters_for(size: int)
    requires
        0 <= size,
    ensures
        size <= 4096 * clusters_for(size) < size + 4096,
{
}

/// The fields of the boot sector follow one another from its first byte on.
pub proof fn law_boot_sector_place(b: Seq<u8>, s: BootSector)
    requires
        b.len() >= 38,
        b.subrange(0, 8) == u64_bytes(s.magic),
        b.subrange(8, 10) == u16_bytes(s.bytes_per_sector),
        b.subrange(10, 14) == u32_bytes(s.sectors_per_cluster),
        b.subrange(14, 18) == u32_bytes(s.fat_start_lba),
        b.subrange(18, 22) == u32_bytes(s.fat_sectors),
        b.subrange(22, 26) == u32_bytes(s.root_dir_start_lba),
        b.subrange(26, 30) == u32_bytes(s.root_dir_sectors),
        b.subrange(30, 34) == u32_bytes(s.data_start_lba),
        b.subrange(34, 38) == u32_bytes(s.total_clusters),
    ensures
        boot_sector_from(b) == s,
{
    reveal(boot_sector_from);
    lemma_u64_at(b, 0, s.magic);
    lemma_u16_at(b, 8, s.bytes_per_sector);
    lemma_u32_at(b, 10, s.sectors_per_cluster);
    lemma_u32_at(b, 14, s.fat_start_lba);
    lemma_u32_at(b, 18, s.fat_sectors);
    lemma_u32_at(b, 22, s.root_dir_start_lba);
    lemma_u32_at(b, 26, s.root_dir_sectors);
    lemma_u32_at(b, 30, s.data_start_lba);
    lemma_u32_at(b, 34, s.total_clusters);
}

/// A formatted image begins with a boot sector that spells `KAGFAT16` and
/// describes a volume of 2097152 sectors: clusters of eight sectors, a table of
/// 64 sectors from the first on, a directory of sixteen from the 65th on, data
/// from the 81st on. The table marks the two clusters without contents, every
/// other byte up to the data area is zero, and the data area stays as it was.
pub proof fn law_formatted_bytes(d: DiskState, i: int)
    ensures
        ({
            let b = format_outcome(d).bytes;
            &&& b.len() >= 41472
            &&& b.len() >= d.bytes.len()
            &&& boot_sector_from(b.subrange(0, 512)) == (BootSector {
                magic: 0x4B41_4746_4154_3136,
                bytes_per_sector: 512,
                sectors_per_cluster: 8,
                fat_start_lba: 1,
                fat_sectors: 64,
                root_dir_start_lba: 65,
                root_dir_sectors: 16,
                data_start_lba: 81,
                total_clusters: 262133,
            })
            &&& 38 <= i < 512 ==> b[i] == 0
            &&& b[512] == 0xF8 && b[513] == 0xFF && b[514] == 0xFF && b[515] == 0xFF
            &&& 516 <= i < 41472 ==> b[i] == 0
            &&& 41472 <= i < d.bytes.len() ==> b[i] == d.bytes[i]
        }),
{
    let bs = boot_sector_bytes(new_boot_sector());
    law_boot_sector_round_trip(new_boot_sector());
    let d1 = d.write(0, bs);
    lemma_clear_sectors(d1, 1, 64);
    let d2 = clear_sectors(d1, 1, 64);
    lemma_fat_set(d2, 0, 0xFFF8);
    let d3 = fat_set(d2, 0, 0xFFF8);
    lemma_fat_set(d3, 1, 0xFFFF);
    let d4 = fat_set(d3, 1, 0xFFFF);
    lemma_clear_sectors(d4, 65, 16);
    let end = clear_sectors(d4, 65, 16);
    assert(end == format_outcome(d));
    let b = end.bytes;
    let first = u16_bytes(0xFFF8);
    let second = u16_bytes(0xFFFF);
    assert(first.len() == 2 && first[0] == 0xF8 && first[1] == 0xFF);
    assert(second.len() == 2 && second[0] == 0xFF && second[1] == 0xFF);
    assert(d3.bytes == splice(d2.bytes, 512, first));
    assert(d4.bytes == splice(d3.bytes, 514, second));
    assert forall|k: int| 0 <= k < 512 implies #[trigger] b[k] == bs[k] by {
        assert(b[k] == d4.bytes[k]);
        assert(d4.bytes[k] == d3.bytes[k]);
        assert(d3.bytes[k] == d2.bytes[k]);
        assert(d2.bytes[k] == d1.bytes[k]);
    }
    assert(b.subrange(0, 512) =~= bs);
    assert(b[512] == d4.bytes[512] && b[513] == d4.bytes[513] && b[514] == d4.bytes[514] && b[515]
        == d4.bytes[515]);
    assert(d3.bytes[512] == first[0] && d3.bytes[513] == first[1]);
    assert(d4.bytes[514] == second[0] && d4.bytes[515] == second[1]);
    if 38 <= i < 512 {
        reveal(boot_sector_bytes);
        assert(bs.len() == 512);
        assert(bs[i] == 0);
        assert(b[i] == bs[i]);
    }
    if 516 <= i < 41472 {
        if i < 33280 {
            assert(b[i] == d4.bytes[i]);
            assert(d4.bytes[i] == d3.bytes[i]);
            assert(d3.bytes[i] == d2.bytes[i]);
        }
    }
    if 41472 <= i < d.bytes.len() {
        assert(b[i] == d4.bytes[i]);
        assert(d4.bytes[i] == d3.bytes[i]);
        assert(d3.bytes[i] == d2.bytes[i]);
        assert(d2.bytes[i] == d1.bytes[i]);
    }
}

proof fn lemma_free_cluster(d: DiskState, c: int, last: int)
    requires
        2 <= c,
        last <= 0xFFFF,
    ensures
        match free_cluster(d, c, last) {
            Ok(n) => {
                &&& c <= n <= last
                &&& d.readable(fat_lba(n as int))
                &&& fat_entry(d, n as int) == 0
                &&& forall|k: int| c <= k < n ==> #[trigger] fat_entry(d, k) != 0
            },
            Err(DiskError::DiskFull) => forall|k: int|
                c <= k <= last ==> #[trigger] fat_entry(d, k) != 0,
            Err(e) => e == DiskError::UnexpectedEnd && exists|n: int|
                c <= n <= last && !d.readable(#[trigger] fat_lba(n)),
        },
    decreases last - c + 1,
{
    if c <= last {
        if d.readable(fat_lba(c)) {
            if fat_entry(d, c) != 0 {
                lemma_free_cluster(d, c + 1, last);
            }
        }
    }
}

/// A new cluster is the lowest free one from two up to the last of the volume,
/// whose number is one above the number of clusters, in sixteen bits. It becomes
/// the end of a chain, and no other byte changes. Where none is free, the disk
/// is full and stays as it is.
pub proof fn law_lowest_cluster(d: DiskState, total: u32, i: int)
    ensures
        ({
            let (r, d1) = alloc_outcome(d, total);
            let last = (total + 1) % 0x1_0000;
            match r {
                Ok(c) => {
                    &&& 2 <= c <= last
                    &&& fat_entry(d, c as int) == 0
                    &&& forall|k: int| 2 <= k < c ==> #[trigger] fat_entry(d, k) != 0
                    &&& d1.bytes.len() == d.bytes.len()
                    &&& d1.bytes[512 + 2 * c] == 0xFF && d1.bytes[512 + 2 * c + 1] == 0xFF
                    &&& 0 <= i < d.bytes.len() && i != 512 + 2 * c && i != 512 + 2 * c + 1
                        ==> d1.bytes[i] == d.bytes[i]
                },
                Err(DiskError::DiskFull) => d1 == d && forall|k: int|
                    2 <= k <= last ==> #[trigger] fat_entry(d, k) != 0,
                Err(e) => d1 == d && e == DiskError::UnexpectedEnd,
            }
        }),
{
    lemma_free_cluster(d, 2, max_cluster(total));
    if let Ok(c) = free_cluster(d, 2, max_cluster(total)) {
        lemma_fat_set(d, c as int, 0xFFFF);
        let b = u16_bytes(0xFFFF);
        assert(b.len() == 2 && b[0] == 0xFF && b[1] == 0xFF);
        let d1 = fat_set(d, c as int, 0xFFFF);
        assert(d1.bytes[512 + 2 * c] == b[0]);
        assert(d1.bytes[512 + 2 * c + 1] == b[1]);
    }
}

/// A search by name gives the first slot in use that stores the name; names of
/// no bytes or more than 21 are refused. A search for a free slot gives the
/// first.
pub proof fn law_first_slot(d: DiskState, q: Seq<u8>)
    requires
        d.bytes.len() >= 41472,
    ensures
        q.len() == 0 || q.len() > 21 ==> lookup(d, q) == Err::<Option<usize>, DiskError>(
            DiskError::InvalidName,
        ),
        1 <= q.len() <= 21 ==> match lookup(d, q) {
            Ok(Some(i)) => i < 256 && is_file(slot_entry(d, i as int), q) && forall|j: int|
                0 <= j < i ==> !is_file(#[trigger] slot_entry(d, j), q),
            Ok(None) => forall|j: int| 0 <= j < 256 ==> !is_file(#[trigger] slot_entry(d, j), q),
            Err(_) => false,
        },
        match free_slot(d) {
            Ok(Some(i)) => i < 256 && slot_entry(d, i as int).in_use == 0 && forall|j: int|
                0 <= j < i ==> (#[trigger] slot_entry(d, j)).in_use != 0,
            Ok(None) => forall|j: int| 0 <= j < 256 ==> (#[trigger] slot_entry(d, j)).in_use != 0,
            Err(_) => false,
        },
{
    let named = |e: DirEntryView| is_file(e, q);
    let free = |e: DirEntryView| e.in_use == 0;
    lemma_search(d, named, 0);
    lemma_search(d, free, 0);
    assert(lookup(d, q) == (if valid_name(q) {
        search(d, named, 0)
    } else {
        Err(DiskError::InvalidName)
    }));
    if let Ok(Some(i)) = search(d, named, 0) {
        assert(named(slot_entry(d, i as int)));
        assert forall|j: int| 0 <= j < i implies !is_file(#[trigger] slot_entry(d, j), q) by {
            assert(!named(slot_entry(d, j)));
        }
    }
    if search(d, named, 0) == Ok::<Option<usize>, DiskError>(None) {
        assert forall|j: int| 0 <= j < 256 implies !is_file(#[trigger] slot_entry(d, j), q) by {
            assert(!named(slot_entry(d, j)));
        }
    }
    if let Ok(Some(i)) = search(d, free, 0) {
        assert(free(slot_entry(d, i as int)));
        assert forall|j: int| 0 <= j < i implies (#[trigger] slot_entry(d, j)).in_use != 0 by {
            assert(!free(slot_entry(d, j)));
        }
    }
    if search(d, free, 0) == Ok::<Option<usize>, DiskError>(None) {
        assert forall|j: int| 0 <= j < 256 implies (#[trigger] slot_entry(d, j)).in_use != 0 by {
            assert(!free(slot_entry(d, j)));
        }
    }
}

/// Deleting a file gives back every cluster of its chain and clears its slot.
/// No other table entry, no other slot and no byte of the data area changes.
pub proof fn law_delete_gives_back(
    d: DiskState,
    chains: Map<int, Seq<u16>>,
    q: Seq<u8>,
    i: int,
    j: int,
)
    requires
        volume_ok(d, chains),
        valid_name(q),
        0 <= i < 256,
        is_file(slot_entry(d, i), q),
    ensures
        ({
            let (r, d1) = delete_outcome(d, q);
            &&& r is Ok
            &&& d1.bytes.len() == d.bytes.len()
            &&& forall|c: int|
                0 <= c < 16384 ==> #[trigger] fat_entry(d1, c) == (if in_chain(chains[i], c) {
                    0
                } else {
                    fat_entry(d, c)
                })
            &&& slot_entry(d1, i) == (DirEntryView {
                name: Seq::new(22, |k: int| 0u8),
                first_cluster: 0,
                size: 0,
                in_use: 0,
            })
            &&& 0 <= j < 256 && j != i ==> slot_entry(d1, j) == slot_entry(d, j)
            &&& 41472 <= j < d.bytes.len() ==> d1.bytes[j] == d.bytes[j]
        }),
{
    lemma_lookup(d, q);
    assert(active(d, i));
    let first = slot_entry(d, i).first_cluster;
    lemma_free_chain(d, first, chains[i]);
    let (r, d1) = free_outcome(d, first);
    lemma_set_slot(d1, i, empty_dir_entry());
    let d2 = slot_set(d1, i, empty_dir_entry());
    assert(delete_outcome(d, q).1 == d2);
    if 41472 <= j < d.bytes.len() {
        assert(d2.bytes[j] == d1.bytes[j]);
    }
    assert(empty_dir_entry().name =~= Seq::new(22, |k: int| 0u8));
}

/// What the clusters of a file hold once its slot is set too.
proof fn lemma_stored_places(
    d: DiskState,
    d2: DiskState,
    d1: DiskState,
    data: Seq<u8>,
    cs: Seq<u16>,
    i: int,
    e: DirEntryView,
)
    requires
        d.bytes.len() >= 41472,
        stored(d, d2, data, 0, None, cs),
        0 <= i < 256,
        e.name.len() == 22,
        d1 == slot_set(d2, i, e),
    ensures
        data.len() <= 4096 * cs.len() < data.len() + 4096,
        forall|k: int|
            0 <= k < cs.len() ==> 2 <= #[trigger] cs[k] && fat_entry(d, cs[k] as int) == 0,
        forall|k: int|
            0 <= k < cs.len() - 1 ==> fat_entry(d1, #[trigger] cs[k] as int) == cs[k + 1],
        cs.len() > 0 ==> fat_entry(d1, cs.last() as int) == 0xFFFF,
        forall|c: int|
            0 <= c < 16384 && !in_chain(cs, c) ==> #[trigger] fat_entry(d1, c) == fat_entry(d, c),
        forall|j: int| 0 <= j < 256 && j != i ==> #[trigger] slot_entry(d1, j) == slot_entry(d, j),
        forall|k: int, m: int|
            0 <= k < cs.len() && 0 <= m < 4096 ==> #[trigger] cluster_byte(d1, cs[k] as int, m)
                == (if 4096 * k + m < data.len() {
                data[4096 * k + m]
            } else {
                0
            }),
{
    law_clusters_for(data.len() as int);
    lemma_set_slot(d2, i, e);
    assert forall|c: int| 0 <= c < 16384 && !in_chain(cs, c) implies #[trigger] fat_entry(d1, c)
        == fat_entry(d, c) by {
        assert(fat_entry(d2, c) == fat_entry(d, c));
    }
    assert forall|j: int| 0 <= j < 256 && j != i implies #[trigger] slot_entry(d1, j) == slot_entry(
        d,
        j,
    ) by {
        assert(slot_entry(d2, j) == slot_entry(d, j));
    }
    assert forall|k: int, m: int| 0 <= k < cs.len() && 0 <= m < 4096 implies #[trigger] cluster_byte(
        d1,
        cs[k] as int,
        m,
    ) == (if 4096 * k + m < data.len() {
        data[4096 * k + m]
    } else {
        0
    }) by {
        assert(2 <= cs[k]);
        assert(cluster_byte(d2, cs[k] as int, m) == cluster_data(data, 0 + k)[m]);
        let at = 41472 + 4096 * (cs[k] - 2) + m;
        assert(inside(d2, cs));
        assert(d1.bytes[at] == d2.bytes[at]);
    }
}

/// A file that is new to the volume is put into the first free slot: its name
/// filled up with zero bytes, its first cluster, its size, in use. Its contents
/// fill clusters that were free and are chained in order up to an end mark, the
/// last of them filled up with zero bytes. Other slots and table entries stay.
pub proof fn law_create_takes_free_places(
    d: DiskState,
    q: Seq<u8>,
    data: Seq<u8>,
    total: u32,
) -> (place: (int, Seq<u16>))
    requires
        d.bytes.len() >= 41472,
        names_differ(d),
        valid_name(q),
        no_zero(q),
        data.len() <= u32::MAX,
        absent(d, q),
        has_free_slot(d),
        free_count(d, usable_end(total)) >= clusters_for(data.len() as int),
    ensures
        ({
            let (i, cs) = place;
            let (r, d1) = create_outcome(d, q, data, total);
            &&& r is Ok
            &&& 0 <= i < 256
            &&& slot_entry(d, i).in_use == 0
            &&& forall|j: int| 0 <= j < i ==> (#[trigger] slot_entry(d, j)).in_use != 0
            &&& slot_entry(d1, i) == (DirEntryView {
                name: q + Seq::new((22 - q.len()) as nat, |k: int| 0u8),
                first_cluster: if cs.len() == 0 {
                    0
                } else {
                    cs[0]
                },
                size: data.len() as u32,
                in_use: 1,
            })
            &&& forall|j: int|
                0 <= j < 256 && j != i ==> #[trigger] slot_entry(d1, j) == slot_entry(d, j)
            &&& data.len() <= 4096 * cs.len() < data.len() + 4096
            &&& forall|k: int|
                0 <= k < cs.len() ==> 2 <= #[trigger] cs[k] && fat_entry(d, cs[k] as int) == 0
            &&& forall|k: int|
                0 <= k < cs.len() - 1 ==> fat_entry(d1, #[trigger] cs[k] as int) == cs[k + 1]
            &&& cs.len() > 0 ==> fat_entry(d1, cs.last() as int) == 0xFFFF
            &&& forall|c: int|
                0 <= c < 16384 && !in_chain(cs, c) ==> #[trigger] fat_entry(d1, c) == fat_entry(d, c)
            &&& forall|k: int, m: int|
                0 <= k < cs.len() && 0 <= m < 4096 ==> #[trigger] cluster_byte(
                    d1,
                    cs[k] as int,
                    m,
                ) == (if 4096 * k + m < data.len() {
                    data[4096 * k + m]
                } else {
                    0
                })
        }),
{
    lemma_lookup(d, q);
    law_first_slot(d, q);
    assert(free_slot(d)->Ok_0 is Some) by {
        let j = choose|j: int| 0 <= j < 256 && (#[trigger] slot_entry(d, j)).in_use == 0;
        assert(slot_entry(d, j).in_use == 0);
    }
    let i = free_slot(d)->Ok_0->Some_0 as int;
    let cs = lemma_store(d, data, total, 0, None, 0);
    let (r, d2) = store_outcome(d, data, total, 0, None, 0);
    let e = new_entry(q, r->Ok_0, data.len() as int);
    lemma_set_slot(d2, i, e);
    let d1 = slot_set(d2, i, e);
    assert(create_outcome(d, q, data, total) == (Ok::<(), DiskError>(()), d1));
    assert(stored(d, d2, data, 0, None, cs));
    lemma_stored_places(d, d2, d1, data, cs, i, e);
    (i, cs)
}

/// A file is inserted into an image as it is created on it, with as many
/// clusters as stand in the boot sector's last field. An image that is not
/// formatted is refused and stays as it is.
pub proof fn law_insert(d: DiskState, q: Seq<u8>, data: Seq<u8>)
    ensures
        d.bytes.len() < 512 ==> insert_outcome(d, q, data) == (
            Err::<(), DiskError>(DiskError::UnexpectedEnd),
            d,
        ),
        d.bytes.len() >= 512 && u64_at(d.bytes, 0) != 0x4B41_4746_4154_3136 ==> insert_outcome(
            d,
            q,
            data,
        ) == (Err::<(), DiskError>(DiskError::NotFormatted), d),
        d.bytes.len() >= 512 && u64_at(d.bytes, 0) == 0x4B41_4746_4154_3136 ==> insert_outcome(
            d,
            q,
            data,
        ) == create_outcome(d, q, data, u32_at(d.bytes, 34)),
        q.len() == 0 || q.len() > 21 ==> {
            &&& create_outcome(d, q, data, 0) == (
                Err::<(), DiskError>(DiskError::InvalidName),
                d,
            )
            &&& delete_outcome(d, q) == (Err::<(), DiskError>(DiskError::InvalidName), d)
        },
{
    reveal(boot_sector_from);
    if d.bytes.len() >= 512 {
        assert(d.readable(0));
        let b = d.sector(0);
        assert forall|i: int| 0 <= i < 512 implies b[i] == #[trigger] d.bytes[i] by {}
        assert(u64_at(b, 0) == u64_at(d.bytes, 0));
        assert(u32_at(b, 34) == u32_at(d.bytes, 34));
    }
}

/// A table entry is read and written where its sector, one of those from the
/// first on with 256 entries each, lies in the image; writing changes its two
/// bytes, low byte first, and no other. Elsewhere the image ends too early, and
/// nothing is written.
pub proof fn law_table_access(d: DiskState, c: u16, value: u16, i: int)
    ensures
        ({
            let there = 512 * (c / 256 + 2) <= d.bytes.len();
            let at = 512 + 2 * c;
            let (r, d1) = fat_put(d, c as int, value);
            &&& !there ==> fat_get(d, c as int) == Err::<u16, DiskError>(DiskError::UnexpectedEnd)
                && r == Err::<(), DiskError>(DiskError::UnexpectedEnd) && d1 == d
            &&& there ==> {
                &&& fat_get(d, c as int) matches Ok(x) && x == d.bytes[at] + 0x100 * d.bytes[at + 1]
                &&& r is Ok
                &&& d1.bytes.len() == d.bytes.len()
                &&& d1.bytes[at] + 0x100 * d1.bytes[at + 1] == value
                &&& 0 <= i < d.bytes.len() && i != at && i != at + 1 ==> d1.bytes[i] == d.bytes[i]
            }
        }),
{
    if d.readable(fat_lba(c as int)) {
        lemma_fat_set(d, c as int, value);
        let b = u16_bytes(value);
        let d1 = fat_set(d, c as int, value);
        assert(d1.bytes[512 + 2 * c] == b[0] && d1.bytes[512 + 2 * c + 1] == b[1]);
    }
}

/// Writing a slot of a whole directory gives that slot its entry and leaves every
/// other slot, the table and the data area. Where the image ends before the
/// slot's sector, nothing is written.
pub proof fn law_slot_access(d: DiskState, i: int, e: DirEntryView, k: int)
    requires
        0 <= i < 256,
        e.name.len() == 22,
    ensures
        512 * (66 + i / 16) > d.bytes.len() ==> slot_put(d, i, e) == (
            Err::<(), DiskError>(DiskError::UnexpectedEnd),
            d,
        ),
        d.bytes.len() >= 41472 ==> {
            let (r, d1) = slot_put(d, i, e);
            &&& r is Ok
            &&& d1.bytes.len() == d.bytes.len()
            &&& slot_entry(d1, i) == e
            &&& 0 <= k < 256 && k != i ==> slot_entry(d1, k) == slot_entry(d, k)
            &&& 0 <= k < 33280 || 41472 <= k < d.bytes.len() ==> d1.bytes[k] == d.bytes[k]
        },
{
    if d.bytes.len() >= 41472 {
        lemma_set_slot(d, i, e);
    }
}

/// Giving back a chain frees its first cluster and then gives back the chain
/// from the next one on, as the table had it; a number that stands for no
/// cluster ends it, and so does an image that ends before the table entry.
pub proof fn law_chain_given_back(d: DiskState, c: u16)
    ensures
        c < 2 || c >= 0xFFF0 ==> free_outcome(d, c) == (Ok::<(), DiskError>(()), d),
        2 <= c < 0xFFF0 && d.readable(1 + c / 256) ==> free_outcome(d, c) == free_outcome(
            fat_put(d, c as int, 0).1,
            fat_entry(d, c as int),
        ),
        2 <= c < 0xFFF0 && !d.readable(1 + c / 256) ==> free_outcome(d, c) == (
            Err::<(), DiskError>(DiskError::UnexpectedEnd),
            d,
        ),
{
}

} // verus!
