//! What holds of a KAGFAT16 volume as a whole.

use vstd::prelude::*;
use crate::device::BLOCK_SIZE;
use crate::fat::disk::{DiskError, DiskState};
use crate::fat::layout::{
    BootSector, CLUSTER_SIZE, DirEntryView, FAT_ENTRY_EOC, FAT_ENTRY_FREE, FAT_ENTRY_RESERVED,
    ROOT_DIR_ENTRIES, boot_sector_bytes, dir_entry_bytes, dir_entry_from, empty_dir_entry,
    law_boot_sector_round_trip, law_dir_entry_round_trip,
};
use crate::fat::model::{
    active_entries, alloc_outcome, clear_sectors, cluster_data, cluster_lba, clusters_for,
    create_outcome, delete_outcome, fat_entry, fat_get, fat_lba, fat_offset, fat_set, format_outcome,
    free_cluster, free_outcome, free_slot, is_cluster, is_file, lemma_fat_set, lemma_fat_set_entry,
    lemma_freeing_counts_down, link_outcome, list_outcome, load_boot_sector, lookup, max_cluster, new_boot_sector, name_field,
    new_entry, search, slot_entry, slot_lba, slot_offset, slot_put, slot_set, store_outcome, taken_count, valid_name,
};
use crate::fs::model::stores_name;
use crate::le::{splice, u16_bytes};

verus! {

/// Clusters whose entry lies inside the allocation table.
pub const TABLE_CLUSTERS: u64 = 16384;

/// Where the data area begins in the image.
pub const DATA_START: u64 = 41472;

/// Where the root directory begins in the image.
pub const DIR_START: u64 = 33280;

/// Where the contents of cluster `c` begin in the image.
pub open spec fn cluster_offset(c: int) -> int {
    cluster_lba(c) * BLOCK_SIZE
}

/// Byte `m` of cluster `c`.
pub open spec fn cluster_byte(d: DiskState, c: int, m: int) -> u8 {
    d.bytes[cluster_offset(c) + m]
}

/// Slot `i` holds a file.
pub open spec fn active(d: DiskState, i: int) -> bool {
    slot_entry(d, i).in_use == 1
}

/// `cs` are the clusters of a file that begins with `first`: each refers to the
/// next, the last one ends the chain, and none comes twice.
pub open spec fn chain_ok(d: DiskState, first: u16, cs: Seq<u16>) -> bool {
    &&& cs.len() == 0 ==> !is_cluster(first)
    &&& cs.len() > 0 ==> first == cs[0] && fat_entry(d, cs.last() as int) >= FAT_ENTRY_RESERVED
    &&& forall|k: int| 0 <= k < cs.len() ==> 2 <= #[trigger] cs[k] < TABLE_CLUSTERS
    &&& forall|k: int|
        0 <= k < cs.len() - 1 ==> fat_entry(d, #[trigger] cs[k] as int) == cs[k + 1]
    &&& cs.no_duplicates()
}

/// The clusters lie inside the image.
pub open spec fn inside(d: DiskState, cs: Seq<u16>) -> bool {
    forall|k: int|
        0 <= k < cs.len() ==> cluster_offset(#[trigger] cs[k] as int) + CLUSTER_SIZE
            <= d.bytes.len()
}

/// The two chains share no cluster.
pub open spec fn chains_apart(a: Seq<u16>, b: Seq<u16>) -> bool {
    forall|i: int, j: int|
        0 <= i < a.len() && 0 <= j < b.len() ==> #[trigger] a[i] != #[trigger] b[j]
}

/// Slot `i` holds a file whose clusters are `cs`.
pub open spec fn file_ok(d: DiskState, i: int, cs: Seq<u16>) -> bool {
    &&& chain_ok(d, slot_entry(d, i).first_cluster, cs)
    &&& inside(d, cs)
    &&& slot_entry(d, i).size <= cs.len() * CLUSTER_SIZE
}

/// No name occurs twice.
pub open spec fn names_differ(d: DiskState) -> bool {
    forall|i: int, j: int, q: Seq<u8>|
        0 <= i < j < ROOT_DIR_ENTRIES && active(d, i) && active(d, j) && #[trigger] stores_name(
            slot_entry(d, i).name,
            q,
        ) ==> !#[trigger] stores_name(slot_entry(d, j).name, q)
}

/// `chains` gives the clusters of each file of a sound volume.
pub open spec fn volume_ok(d: DiskState, chains: Map<int, Seq<u16>>) -> bool {
    &&& d.bytes.len() >= DATA_START
    &&& forall|i: int|
        0 <= i < ROOT_DIR_ENTRIES && #[trigger] active(d, i) ==> file_ok(d, i, chains[i])
    &&& forall|i: int, j: int|
        0 <= i < ROOT_DIR_ENTRIES && 0 <= j < ROOT_DIR_ENTRIES && i != j && #[trigger] active(d, i)
            && #[trigger] active(d, j) ==> chains_apart(chains[i], chains[j])
    &&& names_differ(d)
}

/// A sound volume: every file has its own clusters, and no name occurs twice.
pub open spec fn sound(d: DiskState) -> bool {
    exists|chains: Map<int, Seq<u16>>| volume_ok(d, chains)
}

/// Cluster number `k` of the chain that begins with `first`.
pub open spec fn nth_cluster(d: DiskState, first: u16, k: int) -> u16
    decreases k,
{
    if k <= 0 {
        first
    } else {
        fat_entry(d, nth_cluster(d, first, k - 1) as int)
    }
}

/// The contents of the file that `e` describes.
pub open spec fn file_data(d: DiskState, e: DirEntryView) -> Seq<u8> {
    Seq::new(
        e.size as nat,
        |k: int|
            cluster_byte(
                d,
                nth_cluster(d, e.first_cluster, k / (CLUSTER_SIZE as int)) as int,
                k % (CLUSTER_SIZE as int),
            ),
    )
}

/// The contents of the file named `q`.
pub open spec fn read_file(d: DiskState, q: Seq<u8>) -> Option<Seq<u8>> {
    match lookup(d, q) {
        Ok(Some(i)) => Some(file_data(d, slot_entry(d, i as int))),
        _ => None,
    }
}

/// Free clusters among those from 2 to `n`.
pub open spec fn free_count(d: DiskState, n: int) -> int
    decreases n,
{
    if n <= 2 {
        0
    } else {
        free_count(d, n - 1) + (if fat_entry(d, n - 1) == FAT_ENTRY_FREE {
            1int
        } else {
            0int
        })
    }
}

/// The clusters that a volume of `total` clusters can use run up to here.
pub open spec fn usable_end(total: u32) -> int {
    if max_cluster(total) + 1 <= TABLE_CLUSTERS {
        max_cluster(total) + 1
    } else {
        TABLE_CLUSTERS as int
    }
}

// ---------------------------------------------------------------------------
// What single writes change
// ---------------------------------------------------------------------------

/// A table entry inside the table can be read and written.
proof fn lemma_table_readable(d: DiskState, c: int)
    requires
        d.bytes.len() >= DATA_START,
        0 <= c < TABLE_CLUSTERS,
    ensures
        d.readable(fat_lba(c)),
        512 <= fat_offset(c),
        fat_offset(c) + 2 <= DIR_START,
{
    assert(c / 256 <= 63);
}

/// Setting a table entry touches the table only, and there only that entry.
proof fn lemma_set_fat(d: DiskState, c: int, value: u16)
    requires
        d.bytes.len() >= DATA_START,
        0 <= c < TABLE_CLUSTERS,
    ensures
        ({
            let d1 = fat_set(d, c, value);
            &&& d1.bytes.len() == d.bytes.len()
            &&& forall|k: int|
                0 <= k < TABLE_CLUSTERS ==> #[trigger] fat_entry(d1, k) == (if k == c {
                    value
                } else {
                    fat_entry(d, k)
                })
            &&& forall|i: int| DIR_START <= i < d.bytes.len() ==> #[trigger] d1.bytes[i] == d.bytes[i]
            &&& forall|i: int|
                0 <= i < ROOT_DIR_ENTRIES ==> #[trigger] slot_entry(d1, i) == slot_entry(d, i)
        }),
{
    let d1 = fat_set(d, c, value);
    lemma_table_readable(d, c);
    lemma_fat_set(d, c, value);
    assert forall|k: int| 0 <= k < TABLE_CLUSTERS implies #[trigger] fat_entry(d1, k) == (if k == c {
        value
    } else {
        fat_entry(d, k)
    }) by {
        lemma_table_readable(d, k);
        lemma_fat_set_entry(d, c, value, k);
    }
    assert forall|i: int| 0 <= i < ROOT_DIR_ENTRIES implies #[trigger] slot_entry(d1, i)
        == slot_entry(d, i) by {
        assert(d1.bytes.subrange(slot_offset(i), slot_offset(i) + 32) =~= d.bytes.subrange(
            slot_offset(i),
            slot_offset(i) + 32,
        ));
    }
}

/// Setting a directory slot touches that slot only.
pub proof fn lemma_set_slot(d: DiskState, i: int, e: DirEntryView)
    requires
        d.bytes.len() >= DATA_START,
        0 <= i < ROOT_DIR_ENTRIES,
        e.name.len() == 22,
    ensures
        ({
            let d1 = slot_set(d, i, e);
            &&& d.readable(slot_lba(i))
            &&& d1.bytes.len() == d.bytes.len()
            &&& forall|k: int|
                0 <= k < ROOT_DIR_ENTRIES ==> #[trigger] slot_entry(d1, k) == (if k == i {
                    e
                } else {
                    slot_entry(d, k)
                })
            &&& forall|k: int|
                0 <= k < d.bytes.len() && !(DIR_START <= k < DATA_START) ==> #[trigger] d1.bytes[k]
                    == d.bytes[k]
            &&& forall|k: int|
                0 <= k < TABLE_CLUSTERS ==> #[trigger] fat_entry(d1, k) == fat_entry(d, k)
        }),
{
    let d1 = slot_set(d, i, e);
    let lba = slot_lba(i);
    let off = 32 * (i % 16);
    law_dir_entry_round_trip(e);
    let data = splice(d.sector(lba), off, dir_entry_bytes(e));
    assert(i / 16 <= 15);
    assert(lba * BLOCK_SIZE + off == slot_offset(i));
    assert(d.readable(lba));
    assert(data.len() == BLOCK_SIZE);
    assert forall|k: int| 0 <= k < d.bytes.len() implies #[trigger] d1.bytes[k] == (if slot_offset(i)
        <= k < slot_offset(i) + 32 {
        dir_entry_bytes(e)[k - slot_offset(i)]
    } else {
        d.bytes[k]
    }) by {
        if lba * BLOCK_SIZE <= k < lba * BLOCK_SIZE + BLOCK_SIZE {
            let m = k - lba * BLOCK_SIZE;
            assert(d1.bytes[k] == data[m]);
            if !(off <= m < off + 32) {
                assert(data[m] == d.sector(lba)[m]);
            }
        }
    }
    assert forall|k: int| 0 <= k < ROOT_DIR_ENTRIES implies #[trigger] slot_entry(d1, k) == (if k
        == i {
        e
    } else {
        slot_entry(d, k)
    }) by {
        let s = slot_offset(k);
        if k == i {
            assert(d1.bytes.subrange(s, s + 32) =~= dir_entry_bytes(e));
        } else {
            assert(d1.bytes.subrange(s, s + 32) =~= d.bytes.subrange(s, s + 32));
        }
    }
    assert forall|k: int| 0 <= k < TABLE_CLUSTERS implies #[trigger] fat_entry(d1, k) == fat_entry(
        d,
        k,
    ) by {
        lemma_table_readable(d, k);
        assert(d1.bytes[fat_offset(k)] == d.bytes[fat_offset(k)]);
        assert(d1.bytes[fat_offset(k) + 1] == d.bytes[fat_offset(k) + 1]);
    }
}

/// Writing the contents of a cluster touches that cluster only.
proof fn lemma_write_cluster(d: DiskState, c: int, data: Seq<u8>)
    requires
        d.bytes.len() >= DATA_START,
        2 <= c,
        data.len() == CLUSTER_SIZE,
    ensures
        ({
            let d1 = d.write(cluster_lba(c), data);
            &&& d1.bytes.len() >= d.bytes.len()
            &&& d1.bytes.len() >= cluster_offset(c) + CLUSTER_SIZE
            &&& cluster_offset(c) >= DATA_START
            &&& forall|k: int|
                0 <= k < TABLE_CLUSTERS ==> #[trigger] fat_entry(d1, k) == fat_entry(d, k)
            &&& forall|i: int|
                0 <= i < ROOT_DIR_ENTRIES ==> #[trigger] slot_entry(d1, i) == slot_entry(d, i)
            &&& forall|m: int|
                0 <= m < CLUSTER_SIZE ==> #[trigger] cluster_byte(d1, c, m) == data[m]
            &&& forall|k: int, m: int|
                2 <= k && k != c && 0 <= m < CLUSTER_SIZE && cluster_offset(k) + CLUSTER_SIZE
                    <= d.bytes.len() ==> #[trigger] cluster_byte(d1, k, m) == cluster_byte(d, k, m)
        }),
{
    let d1 = d.write(cluster_lba(c), data);
    assert(cluster_offset(c) == DATA_START + (c - 2) * CLUSTER_SIZE);
    assert forall|k: int| 0 <= k < TABLE_CLUSTERS implies #[trigger] fat_entry(d1, k) == fat_entry(
        d,
        k,
    ) by {
        lemma_table_readable(d, k);
        assert(d1.bytes[fat_offset(k)] == d.bytes[fat_offset(k)]);
        assert(d1.bytes[fat_offset(k) + 1] == d.bytes[fat_offset(k) + 1]);
    }
    assert forall|i: int| 0 <= i < ROOT_DIR_ENTRIES implies #[trigger] slot_entry(d1, i)
        == slot_entry(d, i) by {
        assert(d1.bytes.subrange(slot_offset(i), slot_offset(i) + 32) =~= d.bytes.subrange(
            slot_offset(i),
            slot_offset(i) + 32,
        ));
    }
    assert forall|k: int, m: int|
        2 <= k && k != c && 0 <= m < CLUSTER_SIZE && cluster_offset(k) + CLUSTER_SIZE
            <= d.bytes.len() implies #[trigger] cluster_byte(d1, k, m) == cluster_byte(d, k, m) by {
        assert(cluster_offset(k) == DATA_START + (k - 2) * CLUSTER_SIZE);
    }
}

// ---------------------------------------------------------------------------
// Chains
// ---------------------------------------------------------------------------

/// Cluster `c` is one of `cs`.
pub open spec fn in_chain(cs: Seq<u16>, c: int) -> bool {
    exists|k: int| 0 <= k < cs.len() && #[trigger] cs[k] == c
}

/// The clusters of a chain are taken.
proof fn lemma_chain_taken(d: DiskState, first: u16, cs: Seq<u16>, k: int)
    requires
        chain_ok(d, first, cs),
        0 <= k < cs.len(),
    ensures
        fat_entry(d, cs[k] as int) != FAT_ENTRY_FREE,
{
    if k < cs.len() - 1 {
        assert(fat_entry(d, cs[k] as int) == cs[k + 1]);
        assert(2 <= cs[k + 1]);
    }
}

/// Giving back a chain frees its clusters and touches nothing else.
pub proof fn lemma_free_chain(d: DiskState, first: u16, cs: Seq<u16>)
    requires
        d.bytes.len() >= DATA_START,
        chain_ok(d, first, cs),
    ensures
        ({
            let (r, d1) = free_outcome(d, first);
            &&& r is Ok
            &&& d1.bytes.len() == d.bytes.len()
            &&& forall|c: int|
                0 <= c < TABLE_CLUSTERS ==> #[trigger] fat_entry(d1, c) == (if in_chain(cs, c) {
                    FAT_ENTRY_FREE
                } else {
                    fat_entry(d, c)
                })
            &&& forall|i: int| DIR_START <= i < d.bytes.len() ==> #[trigger] d1.bytes[i] == d.bytes[i]
            &&& forall|i: int|
                0 <= i < ROOT_DIR_ENTRIES ==> #[trigger] slot_entry(d1, i) == slot_entry(d, i)
        }),
    decreases cs.len(),
{
    if cs.len() > 0 {
        let c = cs[0] as int;
        lemma_table_readable(d, c);
        lemma_set_fat(d, c, FAT_ENTRY_FREE);
        let d1 = fat_set(d, c, FAT_ENTRY_FREE);
        let rest = cs.drop_first();
        let end = free_outcome(d, first).1;
        if cs.len() == 1 {
            assert(cs.last() == cs[0]);
            assert(end == d1);
            assert forall|k: int| 0 <= k < TABLE_CLUSTERS implies #[trigger] fat_entry(end, k) == (
            if in_chain(cs, k) {
                FAT_ENTRY_FREE
            } else {
                fat_entry(d, k)
            }) by {
                assert(in_chain(cs, k) == (k == c)) by {
                    if k == c {
                        assert(cs[0] == k);
                    }
                }
            }
        } else {
            assert(fat_entry(d, cs[0] as int) == cs[1]);
            assert(2 <= cs[1]);
            assert forall|k: int| 0 <= k < rest.len() implies 2 <= #[trigger] rest[k] < TABLE_CLUSTERS
                && rest[k] != c by {
                assert(rest[k] == cs[k + 1]);
            }
            assert(rest.last() == cs.last());
            assert forall|k: int| 0 <= k < rest.len() - 1 implies fat_entry(
                d1,
                #[trigger] rest[k] as int,
            ) == rest[k + 1] by {
                assert(rest[k] == cs[k + 1]);
                assert(fat_entry(d, cs[k + 1] as int) == cs[k + 2]);
            }
            assert(rest.no_duplicates()) by {
                assert forall|a: int, b: int|
                    0 <= a < rest.len() && 0 <= b < rest.len() && a != b implies rest[a] != rest[b] by {
                    assert(cs[a + 1] != cs[b + 1]);
                }
            }
            assert(chain_ok(d1, cs[1], rest));
            lemma_free_chain(d1, cs[1], rest);
            assert(end == free_outcome(d1, cs[1]).1);
            assert forall|k: int| 0 <= k < TABLE_CLUSTERS implies #[trigger] fat_entry(end, k) == (
            if in_chain(cs, k) {
                FAT_ENTRY_FREE
            } else {
                fat_entry(d, k)
            }) by {
                assert(in_chain(cs, k) == (k == c || in_chain(rest, k))) by {
                    if k == c {
                        assert(cs[0] == k);
                    }
                    if in_chain(rest, k) {
                        let m = choose|m: int| 0 <= m < rest.len() && #[trigger] rest[m] == k;
                        assert(cs[m + 1] == k);
                    }
                    if in_chain(cs, k) && k != c {
                        let m = choose|m: int| 0 <= m < cs.len() && #[trigger] cs[m] == k;
                        assert(rest[m - 1] == k);
                    }
                }
            }
        }
    }
}

/// Following a chain gives its clusters.
pub proof fn lemma_nth_cluster(d: DiskState, first: u16, cs: Seq<u16>, k: int)
    requires
        chain_ok(d, first, cs),
        0 <= k < cs.len(),
    ensures
        nth_cluster(d, first, k) == cs[k],
    decreases k,
{
    if k > 0 {
        lemma_nth_cluster(d, first, cs, k - 1);
        assert(fat_entry(d, cs[k - 1] as int) == cs[k]);
    }
}

/// A file whose entry, table entries and clusters stay keeps its contents.
proof fn lemma_file_kept(d: DiskState, d1: DiskState, i: int, cs: Seq<u16>)
    requires
        file_ok(d, i, cs),
        slot_entry(d1, i) == slot_entry(d, i),
        d1.bytes.len() >= d.bytes.len(),
        forall|k: int|
            0 <= k < cs.len() ==> fat_entry(d1, #[trigger] cs[k] as int) == fat_entry(
                d,
                cs[k] as int,
            ),
        forall|k: int, m: int|
            0 <= k < cs.len() && 0 <= m < CLUSTER_SIZE ==> #[trigger] cluster_byte(
                d1,
                cs[k] as int,
                m,
            ) == cluster_byte(d, cs[k] as int, m),
    ensures
        file_ok(d1, i, cs),
        file_data(d1, slot_entry(d1, i)) == file_data(d, slot_entry(d, i)),
{
    let e = slot_entry(d, i);
    assert(chain_ok(d1, e.first_cluster, cs)) by {
        assert forall|k: int| 0 <= k < cs.len() - 1 implies fat_entry(d1, #[trigger] cs[k] as int)
            == cs[k + 1] by {
            assert(fat_entry(d, cs[k] as int) == cs[k + 1]);
        }
        if cs.len() > 0 {
            assert(cs.last() == cs[cs.len() - 1]);
        }
    }
    assert forall|k: int| 0 <= k < e.size implies #[trigger] file_data(d1, e)[k] == file_data(
        d,
        e,
    )[k] by {
        let n = k / (CLUSTER_SIZE as int);
        assert(0 <= n < cs.len());
        lemma_nth_cluster(d, e.first_cluster, cs, n);
        lemma_nth_cluster(d1, e.first_cluster, cs, n);
        assert(cluster_byte(d1, cs[n] as int, k % (CLUSTER_SIZE as int)) == cluster_byte(
            d,
            cs[n] as int,
            k % (CLUSTER_SIZE as int),
        ));
    }
    assert(file_data(d1, e) =~= file_data(d, e));
}

// ---------------------------------------------------------------------------
// Free clusters
// ---------------------------------------------------------------------------

/// More entries that are free mean a larger count.
proof fn lemma_free_count_grows(d: DiskState, d1: DiskState, n: int)
    requires
        n <= TABLE_CLUSTERS,
        forall|k: int|
            2 <= k < TABLE_CLUSTERS && fat_entry(d, k) == FAT_ENTRY_FREE ==> #[trigger] fat_entry(
                d1,
                k,
            ) == FAT_ENTRY_FREE,
    ensures
        free_count(d1, n) >= free_count(d, n),
    decreases n,
{
    if n > 2 {
        lemma_free_count_grows(d, d1, n - 1);
        assert(fat_entry(d, n - 1) == FAT_ENTRY_FREE ==> fat_entry(d1, n - 1) == FAT_ENTRY_FREE);
    }
}

/// One entry that is taken makes the count smaller by one.
proof fn lemma_free_count_taken(d: DiskState, d1: DiskState, c: int, n: int)
    requires
        n <= TABLE_CLUSTERS,
        2 <= c,
        fat_entry(d, c) == FAT_ENTRY_FREE,
        fat_entry(d1, c) != FAT_ENTRY_FREE,
        forall|k: int|
            2 <= k < TABLE_CLUSTERS && k != c ==> (fat_entry(d, k) == FAT_ENTRY_FREE) == (
            #[trigger] fat_entry(d1, k) == FAT_ENTRY_FREE),
    ensures
        free_count(d1, n) == free_count(d, n) - (if c < n {
            1int
        } else {
            0int
        }),
    decreases n,
{
    if n > 2 {
        lemma_free_count_taken(d, d1, c, n - 1);
        assert(n - 1 != c ==> (fat_entry(d, n - 1) == FAT_ENTRY_FREE) == (fat_entry(d1, n - 1)
            == FAT_ENTRY_FREE));
    }
}

proof fn lemma_find_free(d: DiskState, k: int, hi: int, last: int)
    requires
        d.bytes.len() >= DATA_START,
        2 <= k <= hi <= TABLE_CLUSTERS,
        hi <= last + 1,
        free_count(d, hi) > free_count(d, k),
    ensures
        free_cluster(d, k, last) matches Ok(c) && k <= c < hi && fat_entry(d, c as int)
            == FAT_ENTRY_FREE,
    decreases hi - k,
{
    assert(k < hi);
    lemma_table_readable(d, k);
    if fat_entry(d, k) != FAT_ENTRY_FREE {
        lemma_find_free(d, k + 1, hi, last);
    }
}

/// Where a usable cluster is free, one is found.
proof fn lemma_alloc(d: DiskState, total: u32)
    requires
        d.bytes.len() >= DATA_START,
        free_count(d, usable_end(total)) > 0,
    ensures
        alloc_outcome(d, total).0 matches Ok(c) && 2 <= c < TABLE_CLUSTERS && c < usable_end(total)
            && fat_entry(d, c as int) == FAT_ENTRY_FREE && alloc_outcome(d, total).1 == fat_set(
            d,
            c as int,
            FAT_ENTRY_EOC,
        ),
{
    assert(usable_end(total) >= 2);
    lemma_find_free(d, 2, usable_end(total), max_cluster(total));
}

// ---------------------------------------------------------------------------
// Storing contents
// ---------------------------------------------------------------------------

/// The table `d1` is that of `d` with `n` clusters `cs`, which were free, chained
/// behind the cluster `prev`.
pub open spec fn chained(d: DiskState, d1: DiskState, n: int, prev: Option<u16>, cs: Seq<u16>) -> bool {
    &&& cs.len() == n
    &&& cs.no_duplicates()
    &&& forall|k: int|
        0 <= k < cs.len() ==> 2 <= #[trigger] cs[k] < TABLE_CLUSTERS && fat_entry(d, cs[k] as int)
            == FAT_ENTRY_FREE
    &&& forall|k: int|
        0 <= k < cs.len() - 1 ==> fat_entry(d1, #[trigger] cs[k] as int) == cs[k + 1]
    &&& cs.len() > 0 ==> fat_entry(d1, cs.last() as int) == FAT_ENTRY_EOC
    &&& prev matches Some(p) ==> cs.len() > 0 ==> fat_entry(d1, p as int) == cs[0]
    &&& forall|c: int|
        0 <= c < TABLE_CLUSTERS && !in_chain(cs, c) && !(prev matches Some(p) && p == c && cs.len()
            > 0) ==> #[trigger] fat_entry(d1, c) == fat_entry(d, c)
}

/// `d1` is `d` with the clusters `i ..` of `data` as the contents of the
/// clusters `cs`.
pub open spec fn filled(d: DiskState, d1: DiskState, data: Seq<u8>, i: int, cs: Seq<u16>) -> bool {
    &&& d1.bytes.len() >= d.bytes.len()
    &&& forall|s: int|
        0 <= s < ROOT_DIR_ENTRIES ==> #[trigger] slot_entry(d1, s) == slot_entry(d, s)
    &&& inside(d1, cs)
    &&& forall|k: int, m: int|
        0 <= k < cs.len() && 0 <= m < CLUSTER_SIZE ==> #[trigger] cluster_byte(
            d1,
            cs[k] as int,
            m,
        ) == cluster_data(data, i + k)[m]
    &&& forall|c: int, m: int|
        2 <= c && !in_chain(cs, c) && 0 <= m < CLUSTER_SIZE && cluster_offset(c) + CLUSTER_SIZE
            <= d.bytes.len() ==> #[trigger] cluster_byte(d1, c, m) == cluster_byte(d, c, m)
}

/// `d1` is `d` with the clusters `i ..` of `data` stored in the clusters `cs`,
/// which were free, behind the cluster `prev`.
pub open spec fn stored(
    d: DiskState,
    d1: DiskState,
    data: Seq<u8>,
    i: int,
    prev: Option<u16>,
    cs: Seq<u16>,
) -> bool {
    &&& chained(d, d1, clusters_for(data.len() as int) - i, prev, cs)
    &&& filled(d, d1, data, i, cs)
}

/// What is in a chain with one more cluster in front.
proof fn lemma_in_front(c: u16, rest: Seq<u16>, x: int)
    ensures
        in_chain(seq![c] + rest, x) == (x == c || in_chain(rest, x)),
{
    let cs = seq![c] + rest;
    if x == c {
        assert(cs[0] == x);
    }
    if in_chain(rest, x) {
        let m = choose|m: int| 0 <= m < rest.len() && #[trigger] rest[m] == x;
        assert(cs[m + 1] == x);
    }
    if in_chain(cs, x) && x != c {
        let m = choose|m: int| 0 <= m < cs.len() && #[trigger] cs[m] == x;
        assert(rest[m - 1] == x);
    }
}

/// One more cluster in front of those that are chained.
proof fn lemma_chained_step(
    d: DiskState,
    d3: DiskState,
    end: DiskState,
    n: int,
    prev: Option<u16>,
    c: u16,
    rest: Seq<u16>,
)
    requires
        2 <= c < TABLE_CLUSTERS,
        fat_entry(d, c as int) == FAT_ENTRY_FREE,
        prev matches Some(p) ==> p < TABLE_CLUSTERS && fat_entry(d, p as int) != FAT_ENTRY_FREE,
        fat_entry(d3, c as int) == FAT_ENTRY_EOC,
        prev matches Some(p) ==> fat_entry(d3, p as int) == c,
        forall|k: int|
            0 <= k < TABLE_CLUSTERS && k != c && !(prev matches Some(p) && p == k)
                ==> #[trigger] fat_entry(d3, k) == fat_entry(d, k),
        chained(d3, end, n - 1, Some(c), rest),
    ensures
        chained(d, end, n, prev, seq![c] + rest),
{
    let cs = seq![c] + rest;
    assert forall|k: int| 0 <= k < rest.len() implies rest[k] != c && !(prev matches Some(p) && p
        == #[trigger] rest[k]) by {
        assert(fat_entry(d3, rest[k] as int) == FAT_ENTRY_FREE);
    }
    assert forall|k: int| 0 <= k < cs.len() implies 2 <= #[trigger] cs[k] < TABLE_CLUSTERS && fat_entry(
        d,
        cs[k] as int,
    ) == FAT_ENTRY_FREE by {
        if k > 0 {
            assert(cs[k] == rest[k - 1]);
        }
    }
    assert(cs.no_duplicates()) by {
        assert forall|a: int, b: int| 0 <= a < cs.len() && 0 <= b < cs.len() && a != b implies cs[a]
            != cs[b] by {
            if a > 0 && b > 0 {
                assert(rest[a - 1] != rest[b - 1]);
            } else if a > 0 {
                assert(rest[a - 1] != c);
            } else {
                assert(rest[b - 1] != c);
            }
        }
    }
    assert(!in_chain(rest, c as int)) by {
        if in_chain(rest, c as int) {
            let m = choose|m: int| 0 <= m < rest.len() && #[trigger] rest[m] == c;
            assert(rest[m] != c);
        }
    }
    assert forall|k: int| 0 <= k < cs.len() - 1 implies fat_entry(end, #[trigger] cs[k] as int)
        == cs[k + 1] by {
        if k > 0 {
            assert(cs[k] == rest[k - 1]);
            assert(cs[k + 1] == rest[k]);
        } else {
            assert(cs[1] == rest[0]);
        }
    }
    if rest.len() > 0 {
        assert(cs.last() == rest.last());
    } else {
        assert(cs.last() == c);
        assert(fat_entry(end, c as int) == fat_entry(d3, c as int));
    }
    match prev {
        Some(p) => {
            assert(!in_chain(rest, p as int)) by {
                if in_chain(rest, p as int) {
                    let m = choose|m: int| 0 <= m < rest.len() && #[trigger] rest[m] == p;
                    assert(rest[m] != p);
                }
            }
            assert(fat_entry(end, p as int) == fat_entry(d3, p as int));
        },
        None => {},
    }
    assert forall|x: int|
        0 <= x < TABLE_CLUSTERS && !in_chain(cs, x) && !(prev matches Some(p) && p == x && cs.len()
            > 0) implies #[trigger] fat_entry(end, x) == fat_entry(d, x) by {
        lemma_in_front(c, rest, x);
        assert(fat_entry(d3, x) == fat_entry(d, x));
    }
}

/// One more cluster in front of those that are filled.
proof fn lemma_filled_step(
    d: DiskState,
    d3: DiskState,
    end: DiskState,
    data: Seq<u8>,
    i: int,
    c: u16,
    rest: Seq<u16>,
)
    requires
        2 <= c,
        !in_chain(rest, c as int),
        d3.bytes.len() >= d.bytes.len(),
        d3.bytes.len() >= cluster_offset(c as int) + CLUSTER_SIZE,
        forall|s: int|
            0 <= s < ROOT_DIR_ENTRIES ==> #[trigger] slot_entry(d3, s) == slot_entry(d, s),
        forall|m: int|
            0 <= m < CLUSTER_SIZE ==> #[trigger] cluster_byte(d3, c as int, m) == cluster_data(
                data,
                i,
            )[m],
        forall|k: int, m: int|
            2 <= k && k != c && 0 <= m < CLUSTER_SIZE && cluster_offset(k) + CLUSTER_SIZE
                <= d.bytes.len() ==> #[trigger] cluster_byte(d3, k, m) == cluster_byte(d, k, m),
        filled(d3, end, data, i + 1, rest),
    ensures
        filled(d, end, data, i, seq![c] + rest),
{
    let cs = seq![c] + rest;
    assert forall|k: int| 0 <= k < cs.len() implies cluster_offset(#[trigger] cs[k] as int)
        + CLUSTER_SIZE <= end.bytes.len() by {
        if k > 0 {
            assert(cs[k] == rest[k - 1]);
        }
    }
    assert forall|s: int| 0 <= s < ROOT_DIR_ENTRIES implies #[trigger] slot_entry(end, s)
        == slot_entry(d, s) by {
        assert(slot_entry(d3, s) == slot_entry(d, s));
    }
    assert forall|k: int, m: int| 0 <= k < cs.len() && 0 <= m < CLUSTER_SIZE implies
        #[trigger] cluster_byte(end, cs[k] as int, m) == cluster_data(data, i + k)[m] by {
        if k > 0 {
            assert(cs[k] == rest[k - 1]);
            assert(cluster_byte(end, rest[k - 1] as int, m) == cluster_data(
                data,
                i + 1 + (k - 1),
            )[m]);
        } else {
            assert(cluster_byte(end, c as int, m) == cluster_byte(d3, c as int, m));
        }
    }
    assert forall|x: int, m: int|
        2 <= x && !in_chain(cs, x) && 0 <= m < CLUSTER_SIZE && cluster_offset(x) + CLUSTER_SIZE
            <= d.bytes.len() implies #[trigger] cluster_byte(end, x, m) == cluster_byte(d, x, m) by {
        lemma_in_front(c, rest, x);
        assert(cluster_byte(d3, x, m) == cluster_byte(d, x, m));
    }
}

/// Contents are stored where enough usable clusters are free.
pub proof fn lemma_store(
    d: DiskState,
    data: Seq<u8>,
    total: u32,
    i: int,
    prev: Option<u16>,
    first: u16,
) -> (cs: Seq<u16>)
    requires
        d.bytes.len() >= DATA_START,
        0 <= i <= clusters_for(data.len() as int),
        free_count(d, usable_end(total)) >= clusters_for(data.len() as int) - i,
        prev matches Some(p) ==> p < TABLE_CLUSTERS && fat_entry(d, p as int) != FAT_ENTRY_FREE,
    ensures
        stored(d, store_outcome(d, data, total, i, prev, first).1, data, i, prev, cs),
        store_outcome(d, data, total, i, prev, first).0 == Ok::<u16, DiskError>(
            if i == 0 && cs.len() > 0 {
                cs[0]
            } else {
                first
            },
        ),
    decreases clusters_for(data.len() as int) - i,
{
    if i >= clusters_for(data.len() as int) {
        assert forall|x: int| !#[trigger] in_chain(Seq::<u16>::empty(), x) by {}
        Seq::empty()
    } else {
        lemma_alloc(d, total);
        let c = alloc_outcome(d, total).0->Ok_0;
        let d1 = fat_set(d, c as int, FAT_ENTRY_EOC);
        lemma_set_fat(d, c as int, FAT_ENTRY_EOC);
        let d2 = link_outcome(d1, prev, c).1;
        match prev {
            Some(p) => {
                lemma_table_readable(d1, p as int);
                lemma_set_fat(d1, p as int, c);
            },
            None => {},
        }
        let part = cluster_data(data, i);
        lemma_write_cluster(d2, c as int, part);
        let d3 = d2.write(cluster_lba(c as int), part);
        lemma_free_count_taken(d, d3, c as int, usable_end(total));
        let head = if i == 0 {
            c
        } else {
            first
        };
        let rest = lemma_store(d3, data, total, i + 1, Some(c), head);
        let end = store_outcome(d, data, total, i, prev, first).1;
        assert(end == store_outcome(d3, data, total, i + 1, Some(c), head).1);
        assert forall|k: int, m: int|
            2 <= k && k != c && 0 <= m < CLUSTER_SIZE && cluster_offset(k) + CLUSTER_SIZE
                <= d.bytes.len() implies #[trigger] cluster_byte(d3, k, m) == cluster_byte(d, k, m) by {
            assert(cluster_offset(k) == DATA_START + (k - 2) * CLUSTER_SIZE);
            assert(cluster_byte(d2, k, m) == cluster_byte(d1, k, m));
            assert(cluster_byte(d1, k, m) == cluster_byte(d, k, m));
        }
        assert(!in_chain(rest, c as int)) by {
            if in_chain(rest, c as int) {
                let m = choose|m: int| 0 <= m < rest.len() && #[trigger] rest[m] == c;
                assert(fat_entry(d3, rest[m] as int) == FAT_ENTRY_FREE);
            }
        }
        lemma_chained_step(d, d3, end, clusters_for(data.len() as int) - i, prev, c, rest);
        lemma_filled_step(d, d3, end, data, i, c, rest);
        seq![c] + rest
    }
}

// ---------------------------------------------------------------------------
// Looking up names
// ---------------------------------------------------------------------------

/// No active file is named `q`.
pub open spec fn absent(d: DiskState, q: Seq<u8>) -> bool {
    forall|i: int| 0 <= i < ROOT_DIR_ENTRIES ==> !is_file(#[trigger] slot_entry(d, i), q)
}

/// Some directory slot is free.
pub open spec fn has_free_slot(d: DiskState) -> bool {
    exists|i: int| 0 <= i < ROOT_DIR_ENTRIES && #[trigger] slot_entry(d, i).in_use == 0
}

/// The name holds no zero byte, which would end it early on disk.
pub open spec fn no_zero(q: Seq<u8>) -> bool {
    forall|i: int| 0 <= i < q.len() ==> #[trigger] q[i] != 0
}

/// A search through a whole directory ends with the first hit, if there is
/// one.
pub proof fn lemma_search(d: DiskState, hit: spec_fn(DirEntryView) -> bool, i: int)
    requires
        d.bytes.len() >= DATA_START,
        0 <= i,
    ensures
        match search(d, hit, i) {
            Ok(Some(k)) => i <= k < ROOT_DIR_ENTRIES && hit(slot_entry(d, k as int)) && forall|j: int|
                i <= j < k ==> !hit(#[trigger] slot_entry(d, j)),
            Ok(None) => forall|j: int| i <= j < ROOT_DIR_ENTRIES ==> !hit(#[trigger] slot_entry(d, j)),
            Err(_) => false,
        },
    decreases ROOT_DIR_ENTRIES - i,
{
    if i < ROOT_DIR_ENTRIES {
        assert(i / 16 <= 15);
        assert(d.readable(slot_lba(i)));
        lemma_search(d, hit, i + 1);
    }
}

/// On a sound volume a lookup finds the slot that holds the name.
pub proof fn lemma_lookup(d: DiskState, q: Seq<u8>)
    requires
        d.bytes.len() >= DATA_START,
        names_differ(d),
        valid_name(q),
    ensures
        forall|i: int|
            0 <= i < ROOT_DIR_ENTRIES && is_file(#[trigger] slot_entry(d, i), q) ==> lookup(d, q)
                == Ok::<Option<usize>, DiskError>(Some(i as usize)),
        absent(d, q) <==> lookup(d, q) == Ok::<Option<usize>, DiskError>(None),
        lookup(d, q) matches Ok(Some(i)) ==> i < ROOT_DIR_ENTRIES && is_file(
            slot_entry(d, i as int),
            q,
        ),
        lookup(d, q) is Ok,
{
    let hit = |e: DirEntryView| is_file(e, q);
    lemma_search(d, hit, 0);
    match search(d, hit, 0) {
        Ok(Some(k)) => {
            assert(hit(slot_entry(d, k as int)));
            assert forall|i: int|
                0 <= i < ROOT_DIR_ENTRIES && is_file(#[trigger] slot_entry(d, i), q) implies i == k by {
                if i != k {
                    assert(active(d, i) && active(d, k as int));
                    assert(stores_name(slot_entry(d, i).name, q));
                    assert(stores_name(slot_entry(d, k as int).name, q));
                }
            }
        },
        Ok(None) => {
            assert forall|i: int| 0 <= i < ROOT_DIR_ENTRIES implies !is_file(
                #[trigger] slot_entry(d, i),
                q,
            ) by {
                assert(!hit(slot_entry(d, i)));
            }
        },
        Err(_) => {},
    }
}

/// A name that has one meaning has one text.
proof fn lemma_name_unique(name: Seq<u8>, p: Seq<u8>, q: Seq<u8>)
    requires
        stores_name(name, p),
        stores_name(name, q),
    ensures
        p == q,
{
    crate::fs::lemmas::lemma_name_unique(name, p, q);
}

/// The field of a new name stores it.
proof fn lemma_name_field(q: Seq<u8>)
    requires
        q.len() <= 21,
        no_zero(q),
    ensures
        name_field(q).len() == 22,
        stores_name(name_field(q), q),
{
    let f = name_field(q);
    assert forall|i: int| 0 <= i < q.len() implies #[trigger] q[i] == f[i] && q[i] != 0 by {}
    assert(f[q.len() as int] == 0);
}

// ---------------------------------------------------------------------------
// Deleting and creating
// ---------------------------------------------------------------------------

/// Deleting takes the file out of a sound volume and keeps the others.
proof fn lemma_delete(d: DiskState, chains: Map<int, Seq<u16>>, q: Seq<u8>)
    requires
        volume_ok(d, chains),
        valid_name(q),
    ensures
        ({
            let (r, d1) = delete_outcome(d, q);
            &&& r is Ok
            &&& volume_ok(d1, chains)
            &&& absent(d1, q)
            &&& d1.bytes.len() == d.bytes.len()
            &&& free_count(d1, TABLE_CLUSTERS as int) >= free_count(d, TABLE_CLUSTERS as int)
            &&& forall|n: int| n <= TABLE_CLUSTERS ==> #[trigger] free_count(d1, n) >= free_count(d, n)
            &&& has_free_slot(d) || !absent(d, q) ==> has_free_slot(d1)
            &&& forall|j: int|
                0 <= j < ROOT_DIR_ENTRIES && active(d, j) && !is_file(slot_entry(d, j), q) ==> {
                    &&& #[trigger] slot_entry(d1, j) == slot_entry(d, j)
                    &&& file_data(d1, slot_entry(d1, j)) == file_data(d, slot_entry(d, j))
                }
            &&& forall|j: int|
                0 <= j < ROOT_DIR_ENTRIES && #[trigger] active(d1, j) ==> active(d, j) && !is_file(
                    slot_entry(d, j),
                    q,
                )
        }),
{
    lemma_lookup(d, q);
    let (r, d1) = delete_outcome(d, q);
    match lookup(d, q) {
        Ok(Some(i)) => {
            let i = i as int;
            let e = slot_entry(d, i);
            assert(active(d, i));
            let cs = chains[i];
            assert(file_ok(d, i, cs));
            lemma_free_chain(d, e.first_cluster, cs);
            let d0 = free_outcome(d, e.first_cluster).1;
            lemma_set_slot(d0, i, empty_dir_entry());
            assert(d1 == slot_set(d0, i, empty_dir_entry()));
            assert forall|c: int| 0 <= c < TABLE_CLUSTERS implies #[trigger] fat_entry(d1, c) == (
            if in_chain(cs, c) {
                FAT_ENTRY_FREE
            } else {
                fat_entry(d, c)
            }) by {
                assert(fat_entry(d0, c) == fat_entry(d1, c));
            }
            assert forall|j: int| 0 <= j < ROOT_DIR_ENTRIES && j != i && active(d, j) implies {
                &&& #[trigger] slot_entry(d1, j) == slot_entry(d, j)
                &&& file_ok(d1, j, chains[j])
                &&& file_data(d1, slot_entry(d1, j)) == file_data(d, slot_entry(d, j))
            } by {
                let other = chains[j];
                assert(file_ok(d, j, other));
                assert(chains_apart(cs, other));
                assert(slot_entry(d0, j) == slot_entry(d, j));
                assert forall|k: int| 0 <= k < other.len() implies fat_entry(
                    d1,
                    #[trigger] other[k] as int,
                ) == fat_entry(d, other[k] as int) by {
                    assert(!in_chain(cs, other[k] as int)) by {
                        if in_chain(cs, other[k] as int) {
                            let m = choose|m: int| 0 <= m < cs.len() && #[trigger] cs[m] == other[k];
                            assert(cs[m] != other[k]);
                        }
                    }
                }
                assert forall|k: int, m: int| 0 <= k < other.len() && 0 <= m < CLUSTER_SIZE implies
                    #[trigger] cluster_byte(d1, other[k] as int, m) == cluster_byte(
                    d,
                    other[k] as int,
                    m,
                ) by {
                    let at = cluster_offset(other[k] as int) + m;
                    assert(cluster_offset(other[k] as int) == DATA_START + (other[k] - 2)
                        * CLUSTER_SIZE);
                    assert(d0.bytes[at] == d.bytes[at]);
                    assert(d1.bytes[at] == d0.bytes[at]);
                }
                lemma_file_kept(d, d1, j, other);
            }
            assert forall|j: int| 0 <= j < ROOT_DIR_ENTRIES && #[trigger] active(d1, j) implies j != i
                && active(d, j) && slot_entry(d1, j) == slot_entry(d, j) by {
                assert(slot_entry(d0, j) == slot_entry(d, j));
            }
            assert forall|j: int| 0 <= j < ROOT_DIR_ENTRIES implies !is_file(
                #[trigger] slot_entry(d1, j),
                q,
            ) by {
                if is_file(slot_entry(d1, j), q) {
                    assert(active(d1, j));
                    assert(is_file(slot_entry(d, j), q));
                    assert(lookup(d, q) == Ok::<Option<usize>, DiskError>(Some(j as usize)));
                }
            }
            assert(names_differ(d1)) by {
                assert forall|a: int, b: int, p: Seq<u8>|
                    0 <= a < b < ROOT_DIR_ENTRIES && active(d1, a) && active(d1, b)
                        && #[trigger] stores_name(
                        slot_entry(d1, a).name,
                        p,
                    ) implies !#[trigger] stores_name(slot_entry(d1, b).name, p) by {
                    assert(active(d, a) && active(d, b));
                    assert(stores_name(slot_entry(d, a).name, p));
                }
            }
            assert(has_free_slot(d1)) by {
                assert(slot_entry(d1, i).in_use == 0);
            }
            assert forall|n: int| n <= TABLE_CLUSTERS implies #[trigger] free_count(d1, n)
                >= free_count(d, n) by {
                lemma_free_count_grows(d, d1, n);
            }
            assert(volume_ok(d1, chains));
        },
        _ => {
            assert forall|n: int| n <= TABLE_CLUSTERS implies #[trigger] free_count(d1, n)
                >= free_count(d, n) by {}
        },
    }
}

/// Deleting a file removes it, keeps every other file's contents, and keeps
/// the volume sound.
pub proof fn law_delete(d: DiskState, q: Seq<u8>, p: Seq<u8>)
    requires
        sound(d),
        valid_name(q),
    ensures
        delete_outcome(d, q).0 is Ok,
        sound(delete_outcome(d, q).1),
        read_file(delete_outcome(d, q).1, q) is None,
        p != q ==> read_file(delete_outcome(d, q).1, p) == read_file(d, p),
{
    let chains = choose|chains: Map<int, Seq<u16>>| volume_ok(d, chains);
    lemma_delete(d, chains, q);
    let d1 = delete_outcome(d, q).1;
    assert(volume_ok(d1, chains));
    lemma_lookup(d1, q);
    if p != q && valid_name(p) {
        lemma_same_reading(d, d1, p, q);
    }
}

/// Deleting a file that is not there leaves the volume as it is.
pub proof fn law_absent_is_not_deleted(d: DiskState, q: Seq<u8>)
    requires
        sound(d),
        valid_name(q),
        absent(d, q),
    ensures
        delete_outcome(d, q) == (Ok::<(), DiskError>(()), d),
{
    lemma_lookup(d, q);
}

/// Where the slots that are not `q` stay, so does what other names read.
proof fn lemma_same_reading(d: DiskState, d1: DiskState, p: Seq<u8>, q: Seq<u8>)
    requires
        d.bytes.len() >= DATA_START,
        d1.bytes.len() >= DATA_START,
        names_differ(d),
        names_differ(d1),
        valid_name(p),
        p != q,
        forall|j: int|
            0 <= j < ROOT_DIR_ENTRIES && active(d, j) && !is_file(slot_entry(d, j), q) ==> {
                &&& #[trigger] slot_entry(d1, j) == slot_entry(d, j)
                &&& file_data(d1, slot_entry(d1, j)) == file_data(d, slot_entry(d, j))
            },
        forall|j: int|
            0 <= j < ROOT_DIR_ENTRIES && #[trigger] active(d1, j) ==> (active(d, j) && !is_file(
                slot_entry(d, j),
                q,
            )) || is_file(slot_entry(d1, j), q),
    ensures
        read_file(d1, p) == read_file(d, p),
{
    lemma_lookup(d, p);
    lemma_lookup(d1, p);
    match lookup(d, p) {
        Ok(Some(i)) => {
            let i = i as int;
            assert(is_file(slot_entry(d, i), p));
            assert(active(d, i));
            if is_file(slot_entry(d, i), q) {
                lemma_name_unique(slot_entry(d, i).name, p, q);
            }
            assert(is_file(slot_entry(d1, i), p));
        },
        _ => {
            assert(absent(d1, p)) by {
                assert forall|j: int| 0 <= j < ROOT_DIR_ENTRIES implies !is_file(
                    #[trigger] slot_entry(d1, j),
                    p,
                ) by {
                    if is_file(slot_entry(d1, j), p) {
                        assert(active(d1, j));
                        if is_file(slot_entry(d1, j), q) {
                            lemma_name_unique(slot_entry(d1, j).name, p, q);
                        } else {
                            assert(slot_entry(d1, j) == slot_entry(d, j));
                            assert(is_file(slot_entry(d, j), p));
                        }
                    }
                }
            }
        },
    }
}

/// A file that was stored and entered reads as it was given.
proof fn lemma_new_file(d: DiskState, i: int, q: Seq<u8>, data: Seq<u8>, cs: Seq<u16>)
    requires
        data.len() <= u32::MAX,
        cs.len() == clusters_for(data.len() as int),
        slot_entry(d, i) == new_entry(
            q,
            if cs.len() > 0 {
                cs[0]
            } else {
                0
            },
            data.len() as int,
        ),
        cs.no_duplicates(),
        forall|k: int| 0 <= k < cs.len() ==> 2 <= #[trigger] cs[k] < TABLE_CLUSTERS,
        forall|k: int|
            0 <= k < cs.len() - 1 ==> fat_entry(d, #[trigger] cs[k] as int) == cs[k + 1],
        cs.len() > 0 ==> fat_entry(d, cs.last() as int) == FAT_ENTRY_EOC,
        inside(d, cs),
        forall|k: int, m: int|
            0 <= k < cs.len() && 0 <= m < CLUSTER_SIZE ==> #[trigger] cluster_byte(
                d,
                cs[k] as int,
                m,
            ) == cluster_data(data, k)[m],
    ensures
        file_ok(d, i, cs),
        file_data(d, slot_entry(d, i)) == data,
{
    let e = slot_entry(d, i);
    assert(chain_ok(d, e.first_cluster, cs));
    assert(e.size == data.len());
    assert forall|k: int| 0 <= k < data.len() implies #[trigger] file_data(d, e)[k] == data[k] by {
        let n = k / (CLUSTER_SIZE as int);
        let m = k % (CLUSTER_SIZE as int);
        assert(0 <= n < cs.len());
        lemma_nth_cluster(d, e.first_cluster, cs, n);
        assert(cluster_byte(d, cs[n] as int, m) == cluster_data(data, n)[m]);
        assert(n * CLUSTER_SIZE + m == k);
    }
    assert(file_data(d, e) =~= data);
}

/// Where a directory slot and enough clusters are free, those of a file that is
/// replaced counted as free, a file is created, it reads back as it was given,
/// every other file keeps its contents, and the volume stays sound.
pub proof fn law_create(d: DiskState, q: Seq<u8>, data: Seq<u8>, total: u32, p: Seq<u8>)
    requires
        sound(d),
        valid_name(q),
        no_zero(q),
        data.len() <= u32::MAX,
        has_free_slot(d) || !absent(d, q),
        free_count(delete_outcome(d, q).1, usable_end(total)) >= clusters_for(data.len() as int),
    ensures
        create_outcome(d, q, data, total).0 is Ok,
        sound(create_outcome(d, q, data, total).1),
        read_file(create_outcome(d, q, data, total).1, q) == Some(data),
        p != q ==> read_file(create_outcome(d, q, data, total).1, p) == read_file(d, p),
{
    let chains = choose|chains: Map<int, Seq<u16>>| volume_ok(d, chains);
    lemma_delete(d, chains, q);
    let d1 = delete_outcome(d, q).1;
    let free = |e: DirEntryView| e.in_use == 0;
    lemma_search(d1, free, 0);
    assert(free_slot(d1) matches Ok(Some(_))) by {
        let i = choose|i: int|
            0 <= i < ROOT_DIR_ENTRIES && #[trigger] slot_entry(d1, i).in_use == 0;
        assert(free(slot_entry(d1, i)));
    }
    let f = free_slot(d1)->Ok_0->Some_0 as int;
    assert(free(slot_entry(d1, f)));
    let cs = lemma_store(d1, data, total, 0, None, 0);
    let d2 = store_outcome(d1, data, total, 0, None, 0).1;
    let first = if cs.len() > 0 {
        cs[0]
    } else {
        0
    };
    let e = new_entry(q, first, data.len() as int);
    lemma_name_field(q);
    lemma_set_slot(d2, f, e);
    let d3 = slot_set(d2, f, e);
    assert(create_outcome(d, q, data, total).1 == d3);
    assert forall|c: int, m: int| 2 <= c && 0 <= m < CLUSTER_SIZE && cluster_offset(c) + CLUSTER_SIZE
        <= d2.bytes.len() implies #[trigger] cluster_byte(d3, c, m) == cluster_byte(d2, c, m) by {
        assert(cluster_offset(c) == DATA_START + (c - 2) * CLUSTER_SIZE);
    }
    assert forall|k: int, m: int| 0 <= k < cs.len() && 0 <= m < CLUSTER_SIZE implies
        #[trigger] cluster_byte(d3, cs[k] as int, m) == cluster_data(data, k)[m] by {
        assert(cluster_byte(d2, cs[k] as int, m) == cluster_data(data, 0 + k)[m]);
    }
    lemma_new_file(d3, f, q, data, cs);
    let chains3 = chains.insert(f, cs);
    assert forall|j: int| 0 <= j < ROOT_DIR_ENTRIES && j != f && #[trigger] active(d1, j) implies {
        &&& slot_entry(d3, j) == slot_entry(d1, j)
        &&& file_ok(d3, j, chains[j])
        &&& chains_apart(chains[j], cs)
        &&& file_data(d3, slot_entry(d3, j)) == file_data(d1, slot_entry(d1, j))
    } by {
        let other = chains[j];
        assert(file_ok(d1, j, other));
        assert(slot_entry(d2, j) == slot_entry(d1, j));
        assert(slot_entry(d3, j) == slot_entry(d2, j));
        assert forall|k: int, m: int| 0 <= k < other.len() && 0 <= m < cs.len() implies #[trigger] other[k]
            != #[trigger] cs[m] by {
            lemma_chain_taken(d1, slot_entry(d1, j).first_cluster, other, k);
            assert(fat_entry(d1, cs[m] as int) == FAT_ENTRY_FREE);
        }
        assert forall|k: int| 0 <= k < other.len() implies !in_chain(cs, #[trigger] other[k] as int) by {
            if in_chain(cs, other[k] as int) {
                let m = choose|m: int| 0 <= m < cs.len() && #[trigger] cs[m] == other[k];
                assert(other[k] != cs[m]);
            }
        }
        assert forall|k: int| 0 <= k < other.len() implies fat_entry(d3, #[trigger] other[k] as int)
            == fat_entry(d1, other[k] as int) by {
            assert(fat_entry(d2, other[k] as int) == fat_entry(d1, other[k] as int));
        }
        assert forall|k: int, m: int| 0 <= k < other.len() && 0 <= m < CLUSTER_SIZE implies
            #[trigger] cluster_byte(d3, other[k] as int, m) == cluster_byte(
            d1,
            other[k] as int,
            m,
        ) by {
            assert(cluster_byte(d2, other[k] as int, m) == cluster_byte(d1, other[k] as int, m));
        }
        lemma_file_kept(d1, d3, j, other);
    }
    assert forall|j: int| 0 <= j < ROOT_DIR_ENTRIES && j != f && #[trigger] active(d3, j) implies active(
        d1,
        j,
    ) && slot_entry(d3, j) == slot_entry(d1, j) by {
        assert(slot_entry(d2, j) == slot_entry(d1, j));
    }
    assert(!active(d1, f));
    assert(names_differ(d3)) by {
        assert forall|a: int, b: int, n: Seq<u8>|
            0 <= a < b < ROOT_DIR_ENTRIES && active(d3, a) && active(d3, b) && #[trigger] stores_name(
                slot_entry(d3, a).name,
                n,
            ) implies !#[trigger] stores_name(slot_entry(d3, b).name, n) by {
            if stores_name(slot_entry(d3, b).name, n) {
                if a == f {
                    lemma_name_unique(name_field(q), n, q);
                    assert(!is_file(slot_entry(d1, b), q));
                } else if b == f {
                    lemma_name_unique(name_field(q), n, q);
                    assert(!is_file(slot_entry(d1, a), q));
                } else {
                    assert(active(d1, a) && active(d1, b));
                    assert(stores_name(slot_entry(d1, a).name, n));
                }
            }
        }
    }
    assert forall|a: int, b: int|
        0 <= a < ROOT_DIR_ENTRIES && 0 <= b < ROOT_DIR_ENTRIES && a != b && #[trigger] active(d3, a)
            && #[trigger] active(d3, b) implies chains_apart(chains3[a], chains3[b]) by {
        if a == f {
            assert(active(d1, b));
            assert(chains_apart(chains[b], cs));
        } else if b == f {
            assert(active(d1, a));
        } else {
            assert(active(d1, a) && active(d1, b));
        }
    }
    assert(volume_ok(d3, chains3));
    lemma_lookup(d3, q);
    assert(is_file(slot_entry(d3, f), q));
    if p != q && valid_name(p) {
        lemma_same_reading(d, d1, p, q);
        assert forall|j: int| 0 <= j < ROOT_DIR_ENTRIES && active(d1, j) && !is_file(
            slot_entry(d1, j),
            q,
        ) implies {
            &&& #[trigger] slot_entry(d3, j) == slot_entry(d1, j)
            &&& file_data(d3, slot_entry(d3, j)) == file_data(d1, slot_entry(d1, j))
        } by {
            assert(active(d1, j));
        }
        assert forall|j: int| 0 <= j < ROOT_DIR_ENTRIES && #[trigger] active(d3, j) implies (active(
            d1,
            j,
        ) && !is_file(slot_entry(d1, j), q)) || is_file(slot_entry(d3, j), q) by {
            if j != f {
                assert(active(d1, j));
                assert(!is_file(slot_entry(d1, j), q));
            }
        }
        lemma_same_reading(d1, d3, p, q);
    }
}

/// The count does not go down.
proof fn lemma_free_count_monotone(d: DiskState, a: int, b: int)
    requires
        a <= b,
    ensures
        free_count(d, a) <= free_count(d, b),
    decreases b - a,
{
    if a < b {
        lemma_free_count_monotone(d, a, b - 1);
    }
}

/// Where none is free, none is found.
proof fn lemma_none_free(d: DiskState, k: int, last: int)
    requires
        d.bytes.len() >= DATA_START,
        2 <= k,
        last < TABLE_CLUSTERS,
        k <= last ==> free_count(d, last + 1) == free_count(d, k),
    ensures
        free_cluster(d, k, last) == Err::<u16, DiskError>(DiskError::DiskFull),
    decreases last - k + 1,
{
    if k <= last {
        lemma_table_readable(d, k);
        lemma_free_count_monotone(d, k + 1, last + 1);
        lemma_none_free(d, k + 1, last);
    }
}

/// `d1` keeps what `d` has: the directory, and the clusters that are taken,
/// but for the table entry of `prev`.
pub open spec fn kept(d: DiskState, d1: DiskState, prev: Option<u16>) -> bool {
    &&& d1.bytes.len() >= d.bytes.len()
    &&& forall|s: int|
        0 <= s < ROOT_DIR_ENTRIES ==> #[trigger] slot_entry(d1, s) == slot_entry(d, s)
    &&& forall|c: int|
        0 <= c < TABLE_CLUSTERS && fat_entry(d, c) != FAT_ENTRY_FREE && !(prev matches Some(p) && p
            == c) ==> #[trigger] fat_entry(d1, c) == fat_entry(d, c)
    &&& forall|c: int, m: int|
        2 <= c < TABLE_CLUSTERS && fat_entry(d, c) != FAT_ENTRY_FREE && 0 <= m < CLUSTER_SIZE
            && cluster_offset(c) + CLUSTER_SIZE <= d.bytes.len() ==> #[trigger] cluster_byte(
            d1,
            c,
            m,
        ) == cluster_byte(d, c, m)
}

/// Contents that do not fit are refused, and what was there is kept.
proof fn lemma_store_refused(
    d: DiskState,
    data: Seq<u8>,
    total: u32,
    i: int,
    prev: Option<u16>,
    first: u16,
)
    requires
        d.bytes.len() >= DATA_START,
        max_cluster(total) < TABLE_CLUSTERS,
        0 <= i,
        free_count(d, usable_end(total)) < clusters_for(data.len() as int) - i,
        prev matches Some(p) ==> p < TABLE_CLUSTERS && fat_entry(d, p as int) != FAT_ENTRY_FREE,
    ensures
        store_outcome(d, data, total, i, prev, first).0 == Err::<u16, DiskError>(
            DiskError::DiskFull,
        ),
        kept(d, store_outcome(d, data, total, i, prev, first).1, prev),
    decreases clusters_for(data.len() as int) - i,
{
    lemma_free_count_monotone(d, if usable_end(total) < 2 {
        usable_end(total)
    } else {
        2
    }, usable_end(total));
    if free_count(d, usable_end(total)) == 0 {
        lemma_none_free(d, 2, max_cluster(total));
    } else {
        lemma_alloc(d, total);
        let c = alloc_outcome(d, total).0->Ok_0;
        let d1 = fat_set(d, c as int, FAT_ENTRY_EOC);
        lemma_set_fat(d, c as int, FAT_ENTRY_EOC);
        let d2 = link_outcome(d1, prev, c).1;
        match prev {
            Some(p) => {
                lemma_table_readable(d1, p as int);
                lemma_set_fat(d1, p as int, c);
            },
            None => {},
        }
        let part = cluster_data(data, i);
        lemma_write_cluster(d2, c as int, part);
        let d3 = d2.write(cluster_lba(c as int), part);
        lemma_free_count_taken(d, d3, c as int, usable_end(total));
        let head = if i == 0 {
            c
        } else {
            first
        };
        lemma_store_refused(d3, data, total, i + 1, Some(c), head);
        let end = store_outcome(d, data, total, i, prev, first).1;
        assert(end == store_outcome(d3, data, total, i + 1, Some(c), head).1);
        assert forall|s: int| 0 <= s < ROOT_DIR_ENTRIES implies #[trigger] slot_entry(end, s)
            == slot_entry(d, s) by {
            assert(slot_entry(d3, s) == slot_entry(d2, s));
            assert(slot_entry(d2, s) == slot_entry(d1, s));
        }
        assert forall|x: int|
            0 <= x < TABLE_CLUSTERS && fat_entry(d, x) != FAT_ENTRY_FREE && !(prev matches Some(p)
                && p == x) implies #[trigger] fat_entry(end, x) == fat_entry(d, x) by {
            assert(x != c);
            assert(fat_entry(d3, x) == fat_entry(d, x));
        }
        assert forall|x: int, m: int|
            2 <= x < TABLE_CLUSTERS && fat_entry(d, x) != FAT_ENTRY_FREE && 0 <= m < CLUSTER_SIZE
                && cluster_offset(x) + CLUSTER_SIZE <= d.bytes.len() implies #[trigger] cluster_byte(
            end,
            x,
            m,
        ) == cluster_byte(d, x, m) by {
            assert(x != c);
            assert(cluster_offset(x) == DATA_START + (x - 2) * CLUSTER_SIZE);
            assert(fat_entry(d3, x) != FAT_ENTRY_FREE);
            assert(cluster_byte(end, x, m) == cluster_byte(d3, x, m));
            assert(cluster_byte(d3, x, m) == cluster_byte(d2, x, m));
            assert(cluster_byte(d2, x, m) == cluster_byte(d1, x, m));
            assert(cluster_byte(d1, x, m) == cluster_byte(d, x, m));
        }
    }
}

/// A volume that keeps what it has stays sound, and its files their contents.
proof fn lemma_kept_volume(d: DiskState, d1: DiskState, chains: Map<int, Seq<u16>>)
    requires
        volume_ok(d, chains),
        kept(d, d1, None),
    ensures
        volume_ok(d1, chains),
        forall|j: int|
            0 <= j < ROOT_DIR_ENTRIES && active(d, j) ==> file_data(
                d1,
                #[trigger] slot_entry(d1, j),
            ) == file_data(d, slot_entry(d, j)),
{
    assert forall|j: int| 0 <= j < ROOT_DIR_ENTRIES && active(d, j) implies file_ok(d1, j, chains[j])
        && file_data(d1, #[trigger] slot_entry(d1, j)) == file_data(d, slot_entry(d, j)) by {
        let cs = chains[j];
        assert(file_ok(d, j, cs));
        assert forall|k: int| 0 <= k < cs.len() implies fat_entry(d1, #[trigger] cs[k] as int)
            == fat_entry(d, cs[k] as int) by {
            lemma_chain_taken(d, slot_entry(d, j).first_cluster, cs, k);
        }
        assert forall|k: int, m: int| 0 <= k < cs.len() && 0 <= m < CLUSTER_SIZE implies
            #[trigger] cluster_byte(d1, cs[k] as int, m) == cluster_byte(d, cs[k] as int, m) by {
            lemma_chain_taken(d, slot_entry(d, j).first_cluster, cs, k);
        }
        lemma_file_kept(d, d1, j, cs);
    }
    assert forall|i: int| 0 <= i < ROOT_DIR_ENTRIES && #[trigger] active(d1, i) implies file_ok(
        d1,
        i,
        chains[i],
    ) by {
        assert(slot_entry(d1, i) == slot_entry(d, i));
    }
    assert forall|i: int, j: int|
        0 <= i < ROOT_DIR_ENTRIES && 0 <= j < ROOT_DIR_ENTRIES && i != j && #[trigger] active(d1, i)
            && #[trigger] active(d1, j) implies chains_apart(chains[i], chains[j]) by {
        assert(slot_entry(d1, i) == slot_entry(d, i));
        assert(slot_entry(d1, j) == slot_entry(d, j));
        assert(active(d, i) && active(d, j));
    }
    assert(names_differ(d1)) by {
        assert forall|a: int, b: int, q: Seq<u8>|
            0 <= a < b < ROOT_DIR_ENTRIES && active(d1, a) && active(d1, b) && #[trigger] stores_name(
                slot_entry(d1, a).name,
                q,
            ) implies !#[trigger] stores_name(slot_entry(d1, b).name, q) by {
            assert(slot_entry(d1, a) == slot_entry(d, a));
            assert(slot_entry(d1, b) == slot_entry(d, b));
            assert(active(d, a) && active(d, b));
        }
    }
}

/// A file that does not fit is refused, with the reason; any old file of that
/// name is gone then, every other file keeps its contents, and the volume
/// stays sound.
pub proof fn law_create_refused(d: DiskState, q: Seq<u8>, data: Seq<u8>, total: u32, p: Seq<u8>)
    requires
        sound(d),
        valid_name(q),
        max_cluster(total) < TABLE_CLUSTERS,
        (!has_free_slot(d) && absent(d, q)) || free_count(
            delete_outcome(d, q).1,
            usable_end(total),
        ) < clusters_for(data.len() as int),
    ensures
        create_outcome(d, q, data, total).0 == Err::<(), DiskError>(
            if !has_free_slot(d) && absent(d, q) {
                DiskError::NoFreeSlot
            } else {
                DiskError::DiskFull
            },
        ),
        sound(create_outcome(d, q, data, total).1),
        read_file(create_outcome(d, q, data, total).1, q) is None,
        p != q ==> read_file(create_outcome(d, q, data, total).1, p) == read_file(d, p),
{
    let chains = choose|chains: Map<int, Seq<u16>>| volume_ok(d, chains);
    lemma_delete(d, chains, q);
    let d1 = delete_outcome(d, q).1;
    let end = create_outcome(d, q, data, total).1;
    let free = |e: DirEntryView| e.in_use == 0;
    lemma_search(d1, free, 0);
    if !has_free_slot(d) && absent(d, q) {
        lemma_lookup(d, q);
        assert(d1 == d);
        if let Ok(Some(f)) = free_slot(d1) {
            assert(free(slot_entry(d1, f as int)));
            assert(slot_entry(d, f as int).in_use == 0);
        }
        assert(end == d1);
    } else {
        assert(free_slot(d1) matches Ok(Some(_))) by {
            let i = choose|i: int|
                0 <= i < ROOT_DIR_ENTRIES && #[trigger] slot_entry(d1, i).in_use == 0;
            assert(free(slot_entry(d1, i)));
        }
        lemma_store_refused(d1, data, total, 0, None, 0);
        lemma_kept_volume(d1, end, chains);
    }
    assert(volume_ok(end, chains));
    assert forall|j: int| 0 <= j < ROOT_DIR_ENTRIES implies #[trigger] slot_entry(end, j)
        == slot_entry(d1, j) by {}
    lemma_lookup(end, q);
    assert(absent(end, q)) by {
        assert forall|j: int| 0 <= j < ROOT_DIR_ENTRIES implies !is_file(
            #[trigger] slot_entry(end, j),
            q,
        ) by {
            assert(!is_file(slot_entry(d1, j), q));
        }
    }
    if p != q && valid_name(p) {
        lemma_same_reading(d, d1, p, q);
        assert forall|j: int| 0 <= j < ROOT_DIR_ENTRIES && active(d1, j) && !is_file(
            slot_entry(d1, j),
            q,
        ) implies {
            &&& #[trigger] slot_entry(end, j) == slot_entry(d1, j)
            &&& file_data(end, slot_entry(end, j)) == file_data(d1, slot_entry(d1, j))
        } by {}
        assert forall|j: int| 0 <= j < ROOT_DIR_ENTRIES && #[trigger] active(end, j) implies (active(
            d1,
            j,
        ) && !is_file(slot_entry(d1, j), q)) || is_file(slot_entry(end, j), q) by {
            assert(slot_entry(end, j) == slot_entry(d1, j));
            assert(active(d1, j));
            assert(!is_file(slot_entry(d1, j), q));
        }
        lemma_same_reading(d1, end, p, q);
    }
}

// ---------------------------------------------------------------------------
// The boot sector
// ---------------------------------------------------------------------------

/// The first sector of `d1` is that of `d`.
pub open spec fn same_boot(d: DiskState, d1: DiskState) -> bool {
    &&& d.readable(0)
    &&& d1.readable(0)
    &&& d1.sector(0) == d.sector(0)
}

/// Writing behind the first sector leaves it as it is.
proof fn lemma_write_behind_boot(d: DiskState, lba: int, data: Seq<u8>)
    requires
        d.readable(0),
        1 <= lba,
    ensures
        same_boot(d, d.write(lba, data)),
{
    assert(d.write(lba, data).sector(0) =~= d.sector(0));
}

proof fn lemma_free_keeps_boot(d: DiskState, c: u16)
    requires
        d.readable(0),
    ensures
        same_boot(d, free_outcome(d, c).1),
    decreases taken_count(d.bytes, 0x1_0000),
{
    if is_cluster(c) {
        if let Ok(next) = fat_get(d, c as int) {
            let d1 = fat_set(d, c as int, FAT_ENTRY_FREE);
            lemma_write_behind_boot(
                d,
                fat_lba(c as int),
                splice(d.sector(fat_lba(c as int)), 2 * (c as int % 256), u16_bytes(FAT_ENTRY_FREE)),
            );
            assert(same_boot(d, d1));
            if is_cluster(next) {
                lemma_freeing_counts_down(d, c);
                lemma_free_keeps_boot(d1, next);
            }
        }
    }
}

proof fn lemma_store_keeps_boot(
    d: DiskState,
    data: Seq<u8>,
    total: u32,
    i: int,
    prev: Option<u16>,
    first: u16,
)
    requires
        d.readable(0),
    ensures
        same_boot(d, store_outcome(d, data, total, i, prev, first).1),
    decreases clusters_for(data.len() as int) - i,
{
    if i < clusters_for(data.len() as int) {
        if let (Ok(c), d1) = alloc_outcome(d, total) {
            lemma_write_behind_boot(
                d,
                fat_lba(c as int),
                splice(d.sector(fat_lba(c as int)), 2 * (c as int % 256), u16_bytes(FAT_ENTRY_EOC)),
            );
            assert(same_boot(d, d1));
            let (r, d2) = link_outcome(d1, prev, c);
            if let Some(p) = prev {
                lemma_write_behind_boot(
                    d1,
                    fat_lba(p as int),
                    splice(d1.sector(fat_lba(p as int)), 2 * (p as int % 256), u16_bytes(c)),
                );
            }
            assert(same_boot(d1, d2));
            if r is Ok {
                let d3 = d2.write(cluster_lba(c as int), cluster_data(data, i));
                lemma_write_behind_boot(d2, cluster_lba(c as int), cluster_data(data, i));
                lemma_store_keeps_boot(
                    d3,
                    data,
                    total,
                    i + 1,
                    Some(c),
                    if i == 0 {
                        c
                    } else {
                        first
                    },
                );
            }
        }
    }
}

proof fn lemma_slot_keeps_boot(d: DiskState, i: int, e: DirEntryView)
    requires
        d.readable(0),
        0 <= i,
    ensures
        same_boot(d, slot_put(d, i, e).1),
{
    lemma_write_behind_boot(
        d,
        slot_lba(i),
        splice(d.sector(slot_lba(i)), 32 * (i % 16), dir_entry_bytes(e)),
    );
}

/// Creating a file leaves the boot sector as it is.
pub proof fn law_create_keeps_boot_sector(d: DiskState, q: Seq<u8>, data: Seq<u8>, total: u32)
    requires
        d.readable(0),
    ensures
        load_boot_sector(create_outcome(d, q, data, total).1) == load_boot_sector(d),
{
    if let Ok(Some(i)) = lookup(d, q) {
        let first = slot_entry(d, i as int).first_cluster;
        lemma_free_keeps_boot(d, first);
        lemma_slot_keeps_boot(free_outcome(d, first).1, i as int, empty_dir_entry());
    }
    let (r, d1) = delete_outcome(d, q);
    assert(same_boot(d, d1));
    if r is Ok {
        if let Ok(Some(i)) = free_slot(d1) {
            lemma_store_keeps_boot(d1, data, total, 0, None, 0);
            let (r2, d2) = store_outcome(d1, data, total, 0, None, 0);
            if let Ok(first) = r2 {
                lemma_slot_keeps_boot(d2, i as int, new_entry(q, first, data.len() as int));
            }
        }
    }
}

// ---------------------------------------------------------------------------
// Formatting
// ---------------------------------------------------------------------------

/// Clearing sectors sets their bytes to zero and leaves the others.
pub proof fn lemma_clear_sectors(d: DiskState, lba: int, n: int)
    requires
        0 <= lba,
        0 <= n,
        d.bytes.len() >= lba * BLOCK_SIZE,
    ensures
        ({
            let b = clear_sectors(d, lba, n).bytes;
            &&& b.len() >= d.bytes.len()
            &&& b.len() >= (lba + n) * BLOCK_SIZE
            &&& forall|i: int| lba * BLOCK_SIZE <= i < (lba + n) * BLOCK_SIZE ==> #[trigger] b[i] == 0
            &&& forall|i: int|
                0 <= i < d.bytes.len() && !(lba * BLOCK_SIZE <= i < (lba + n) * BLOCK_SIZE)
                    ==> #[trigger] b[i] == d.bytes[i]
        }),
    decreases n,
{
    if n > 0 {
        lemma_clear_sectors(d, lba, n - 1);
    }
}

/// A formatted disk is a sound volume without files, with every cluster of the
/// table free but the two that are reserved.
pub proof fn law_format(d: DiskState, q: Seq<u8>)
    ensures
        sound(format_outcome(d)),
        absent(format_outcome(d), q),
        read_file(format_outcome(d), q) is None,
        has_free_slot(format_outcome(d)),
        load_boot_sector(format_outcome(d)) == Ok::<BootSector, DiskError>(new_boot_sector()),
        list_outcome(format_outcome(d)) == Ok::<Seq<DirEntryView>, DiskError>(Seq::empty()),
        free_count(format_outcome(d), TABLE_CLUSTERS as int) == TABLE_CLUSTERS - 2,
{
    let bs = boot_sector_bytes(new_boot_sector());
    law_boot_sector_round_trip(new_boot_sector());
    let d1 = d.write(0, bs);
    lemma_clear_sectors(d1, 1, 64);
    let d2 = clear_sectors(d1, 1, 64);
    lemma_fat_set(d2, 0, 0xFFF8);
    let d3 = fat_set(d2, 0, 0xFFF8);
    lemma_fat_set(d3, 1, FAT_ENTRY_EOC);
    let d4 = fat_set(d3, 1, FAT_ENTRY_EOC);
    lemma_clear_sectors(d4, 65, 16);
    let end = clear_sectors(d4, 65, 16);
    assert(end == format_outcome(d));
    assert forall|i: int| 0 <= i < BLOCK_SIZE implies #[trigger] end.bytes[i] == bs[i] by {
        assert(d4.bytes[i] == d3.bytes[i]);
        assert(d3.bytes[i] == d2.bytes[i]);
        assert(d2.bytes[i] == d1.bytes[i]);
    }
    assert(end.sector(0) =~= bs);
    assert forall|k: int| 2 <= k < TABLE_CLUSTERS implies #[trigger] fat_entry(end, k)
        == FAT_ENTRY_FREE by {
        let at = fat_offset(k);
        assert(end.bytes[at] == d4.bytes[at] && end.bytes[at + 1] == d4.bytes[at + 1]);
        assert(d4.bytes[at] == d2.bytes[at] && d4.bytes[at + 1] == d2.bytes[at + 1]);
        assert(d2.bytes[at] == 0 && d2.bytes[at + 1] == 0);
    }
    lemma_all_free(end, TABLE_CLUSTERS as int);
    assert forall|i: int| 0 <= i < ROOT_DIR_ENTRIES implies (#[trigger] slot_entry(end, i)).in_use
        == 0 by {
        reveal(dir_entry_from);
        assert(end.bytes[slot_offset(i) + 28] == 0);
    }
    assert(volume_ok(end, Map::empty()));
    assert(slot_entry(end, 0).in_use == 0);
    if valid_name(q) {
        lemma_lookup(end, q);
    }
    let none = |e: DirEntryView| false;
    lemma_search(end, none, 0);
    lemma_no_entries(end, ROOT_DIR_ENTRIES as int);
}

proof fn lemma_all_free(d: DiskState, n: int)
    requires
        2 <= n <= TABLE_CLUSTERS,
        forall|k: int| 2 <= k < TABLE_CLUSTERS ==> #[trigger] fat_entry(d, k) == FAT_ENTRY_FREE,
    ensures
        free_count(d, n) == n - 2,
    decreases n,
{
    if n > 2 {
        lemma_all_free(d, n - 1);
        assert(fat_entry(d, n - 1) == FAT_ENTRY_FREE);
    }
}

proof fn lemma_no_entries(d: DiskState, n: int)
    requires
        n <= ROOT_DIR_ENTRIES,
        forall|i: int| 0 <= i < ROOT_DIR_ENTRIES ==> (#[trigger] slot_entry(d, i)).in_use == 0,
    ensures
        active_entries(d, n) == Seq::<DirEntryView>::empty(),
    decreases n,
{
    if n > 0 {
        lemma_no_entries(d, n - 1);
        assert(slot_entry(d, n - 1).in_use == 0);
    }
}

} // verus!
