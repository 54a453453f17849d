//! Where the parts of a SimpleFS volume stand, byte for byte, and which places
//! an operation reads and takes.

use vstd::prelude::*;
use crate::device::DeviceState;
use crate::fat::layout::DirEntryView;
use crate::fs::error::FsError;
use crate::fs::healthy::{lemma_clear_directory, lemma_stored_name};
use crate::fs::kagfat::{is_fat, shown_entry};
use crate::fs::laws::{
    active, consistent, lemma_delete_outcome, lemma_put_data, superblock,
};
use crate::fs::layout::{
    EntryView, FileEntry, MAX_FILES, PublicFileEntry, SuperblockView, entry_from, superblock_bytes, superblock_from,
};
use crate::fs::lemmas::{lemma_scan, lemma_with_entry};
use crate::fs::model::{
    active_entries, blocks_for, clear_directory, create_outcome, delete_outcome, dir_lba,
    empty_superblock, entry_at, find_outcome, first_free, format_outcome,
    formatted, is_file, list_outcome, load_superblock, lookup, name_end, new_entry,
    padded, put_block, put_data, put_entry, read_entry, read_outcome, remove_outcome, scan,
    stored_name, stores_name, with_entry,
};
use crate::fs::{found, kagfat, layout, listed_as};
use crate::le::{lemma_u32_at, lemma_u64_at, u32_bytes, u64_at, u64_bytes};
use crate::text::shown_text;

verus! {

/// Without an active namespace no transfer is made. With one, a transfer fails
/// exactly where a sector lies outside the device or is defective. Sectors have
/// 512 bytes.
pub proof fn law_transfer(d: DeviceState, lba: int, n: int, k: int)
    requires
        0 <= lba,
        0 <= n,
        0 <= k < 512 * n,
    ensures
        d.nsid is None ==> d.status(lba, n) == Err::<(), FsError>(FsError::NotReady),
        d.nsid is Some && (lba + n > d.blocks.len() || exists|i: int|
            lba <= i < lba + n && !#[trigger] d.good[i]) ==> d.status(lba, n) == Err::<(), FsError>(
            FsError::DeviceError,
        ),
        d.nsid is Some && lba + n <= d.blocks.len() && (forall|i: int|
            lba <= i < lba + n ==> #[trigger] d.good[i]) ==> d.status(lba, n) == Ok::<(), FsError>(
            (),
        ),
        d.bytes(lba, n).len() == 512 * n,
        d.bytes(lba, n)[k] == d.blocks[lba + k / 512][k % 512],
{
}

/// A write gives each sector in its range its 512 bytes of the data and leaves
/// the others. It is recorded behind those before it. Which namespace is active
/// and which sectors are defective stays.
pub proof fn law_sectors_written(d: DeviceState, lba: int, n: int, data: Seq<u8>, b: int, k: int)
    requires
        0 <= lba,
        0 <= n,
        data.len() == 512 * n,
        0 <= b < d.blocks.len(),
        0 <= k < 512,
    ensures
        ({
            let d1 = d.write_run(lba, n, data);
            &&& d1.blocks.len() == d.blocks.len()
            &&& lba <= b < lba + n ==> d1.blocks[b].len() == 512 && d1.blocks[b][k] == data[512 * (b
                - lba) + k]
            &&& !(lba <= b < lba + n) ==> d1.blocks[b] == d.blocks[b]
            &&& d1.log == d.log.push((lba as u64, data))
            &&& d1.nsid == d.nsid
            &&& d1.good == d.good
        }),
        n == 1 && lba < d.blocks.len() ==> d.write(lba, data) == d.write_run(lba, 1, data),
{
    let d1 = d.write_run(lba, n, data);
    if lba <= b < lba + n {
        assert(d1.blocks[b] == data.subrange((b - lba) * 512, (b - lba + 1) * 512));
    }
    if n == 1 && lba < d.blocks.len() {
        let d2 = d.write(lba, data);
        let d3 = d.write_run(lba, 1, data);
        assert(data.subrange(0, 512) =~= data);
        assert forall|i: int| 0 <= i < d.blocks.len() implies d2.blocks[i] == d3.blocks[i] by {
            if i == lba {
                assert(d3.blocks[i] == data.subrange(0, 512));
            }
        }
        assert(d2 =~= d3);
    }
}

/// The directory begins with sector one and has eight slots of 64 bytes in each
/// sector: 47 bytes for the name, eight for the first sector, eight for the size
/// and one that says whether the slot is in use.
pub proof fn law_entry_place(d: DeviceState, i: int, e: EntryView)
    requires
        0 <= i,
        d.blocks[1 + i / 8].len() == 512,
        ({
            let b = d.blocks[1 + i / 8];
            let at = 64 * (i % 8);
            &&& b.subrange(at, at + 47) == e.name
            &&& b.subrange(at + 47, at + 55) == u64_bytes(e.start)
            &&& b.subrange(at + 55, at + 63) == u64_bytes(e.size)
            &&& b[at + 63] == e.in_use
        }),
    ensures
        entry_at(d, i) == e,
{
    reveal(entry_from);
    let b = d.blocks[1 + i / 8];
    let at = 64 * (i % 8);
    let x = b.subrange(at, at + 64);
    assert(x.subrange(0, 47) =~= b.subrange(at, at + 47));
    assert(x.subrange(47, 55) =~= b.subrange(at + 47, at + 55));
    assert(x.subrange(55, 63) =~= b.subrange(at + 55, at + 63));
    lemma_u64_at(x, 47, e.start);
    lemma_u64_at(x, 55, e.size);
}

/// The superblock has eight bytes for the text `SIMPLEFS`, as a number, eight
/// for the next free sector, four for the number of files, and 492 more.
pub proof fn law_superblock_place(b: Seq<u8>, sb: SuperblockView)
    requires
        b.len() == 512,
        b.subrange(0, 8) == u64_bytes(sb.magic),
        b.subrange(8, 16) == u64_bytes(sb.next_free),
        b.subrange(16, 20) == u32_bytes(sb.file_count),
        b.subrange(20, 512) == sb.padding,
    ensures
        superblock_from(b) == sb,
{
    reveal(superblock_from);
    lemma_u64_at(b, 0, sb.magic);
    lemma_u64_at(b, 8, sb.next_free);
    lemma_u32_at(b, 16, sb.file_count);
}

/// A device holds a volume exactly where its first sector can be read and
/// begins with the number of one of the two file systems.
pub proof fn law_formatted(d: DeviceState)
    ensures
        formatted(d) <==> d.status(0, 1) is Ok && (u64_at(d.blocks[0], 0) == 0x5349_4d50_4c45_4653
            || u64_at(d.blocks[0], 0) == 0x4B41_4746_4154_3136),
        is_fat(d) <==> d.status(0, 1) is Ok && u64_at(d.blocks[0], 0) == 0x4B41_4746_4154_3136,
{
    reveal(superblock_from);
    reveal(crate::fat::layout::boot_sector_from);
}

/// A file has the smallest number of sectors that hold it.
pub proof fn law_blocks_for(size: int)
    requires
        0 <= size,
    ensures
        size <= 512 * blocks_for(size) < size + 512,
{
}

/// A name ends before the first zero byte of its field, or with the field.
pub proof fn law_stored_name(q: Seq<u8>, rest: Seq<u8>, name: Seq<u8>)
    requires
        forall|i: int| 0 <= i < q.len() ==> #[trigger] q[i] != 0,
    ensures
        stored_name(q) == q,
        stored_name(q + seq![0u8] + rest) == q,
        stores_name(name, q) <==> stored_name(name) == q,
{
    assert(stores_name(q, q));
    lemma_stored_name(q, q, 0);
    let field = q + seq![0u8] + rest;
    assert forall|i: int| 0 <= i < q.len() implies #[trigger] q[i] == field[i] by {}
    assert(stores_name(field, q));
    lemma_stored_name(field, q, 0);
    if stores_name(name, q) {
        lemma_stored_name(name, q, 0);
    }
    lemma_name_end(name, 0);
    let n = name_end(name, 0);
    if stored_name(name) == q {
        assert(q.len() == n);
        assert forall|i: int| 0 <= i < q.len() implies #[trigger] q[i] == name[i] by {
            assert(stored_name(name)[i] == name[i]);
        }
    }
}

proof fn lemma_name_end(name: Seq<u8>, i: int)
    requires
        0 <= i <= name.len(),
    ensures
        i <= name_end(name, i) <= name.len(),
        name_end(name, i) < name.len() ==> name[name_end(name, i)] == 0,
    decreases name.len() - i,
{
    if i < name.len() && name[i] != 0 {
        lemma_name_end(name, i + 1);
    }
}

/// Names of no bytes or more than 46 are refused by every operation, whatever
/// the device holds, and the device stays as it is; other names are not refused.
pub proof fn law_names_refused(d: DeviceState, q: Seq<u8>, data: Seq<u8>)
    ensures
        q.len() == 0 || q.len() > 46 ==> {
            &&& create_outcome(d, q, data) == (Err::<(), FsError>(FsError::InvalidArgument), d)
            &&& remove_outcome(d, q) == (Err::<(), FsError>(FsError::InvalidArgument), d)
            &&& read_outcome(d, q) == Err::<Seq<u8>, FsError>(FsError::InvalidArgument)
            &&& find_outcome(d, q) == Err::<Option<(usize, EntryView)>, FsError>(
                FsError::InvalidArgument,
            )
        },
        1 <= q.len() <= 46 ==> find_outcome(d, q) != Err::<Option<(usize, EntryView)>, FsError>(
            FsError::InvalidArgument,
        ),
{
    if 1 <= q.len() <= 46 {
        lemma_scan(d, |e: EntryView| is_file(e, q), 0);
        lemma_fat_search(d, q, 0);
    }
}

proof fn lemma_fat_search(d: DeviceState, q: Seq<u8>, i: int)
    requires
        0 <= i <= 256,
    ensures
        match kagfat::search(d, q, i) {
            Ok(Some(k)) => i <= k < 256 && crate::fat::model::is_file(kagfat::slot(d, k as int), q)
                && forall|j: int|
                i <= j < k ==> !crate::fat::model::is_file(#[trigger] kagfat::slot(d, j), q),
            Ok(None) => forall|j: int|
                i <= j < 256 ==> !crate::fat::model::is_file(#[trigger] kagfat::slot(d, j), q),
            Err(x) => x == FsError::NotReady || x == FsError::DeviceError,
        },
    decreases 256 - i,
{
    if i < 256 && !crate::fat::model::is_file(kagfat::slot(d, i), q) {
        lemma_fat_search(d, q, i + 1);
    }
}

/// The first of the 128 slots that holds the name is found, and the first free
/// one is taken.
pub proof fn law_first_entry(d: DeviceState, q: Seq<u8>)
    ensures
        match lookup(d, q) {
            Ok(Some(i)) => i < 128 && is_file(entry_at(d, i as int), q) && forall|j: int|
                0 <= j < i ==> !is_file(#[trigger] entry_at(d, j), q),
            Ok(None) => forall|j: int| 0 <= j < 128 ==> !is_file(#[trigger] entry_at(d, j), q),
            Err(x) => x == FsError::NotReady || x == FsError::DeviceError,
        },
        match first_free(d) {
            Ok(Some(i)) => i < 128 && entry_at(d, i as int).in_use == 0 && forall|j: int|
                0 <= j < i ==> (#[trigger] entry_at(d, j)).in_use != 0,
            Ok(None) => forall|j: int| 0 <= j < 128 ==> (#[trigger] entry_at(d, j)).in_use != 0,
            Err(x) => x == FsError::NotReady || x == FsError::DeviceError,
        },
{
    let named = |e: EntryView| is_file(e, q);
    let free = |e: EntryView| e.in_use == 0;
    lemma_scan(d, named, 0);
    lemma_scan(d, free, 0);
    match scan(d, named, 0) {
        Ok(Some(i)) => {
            assert forall|j: int| 0 <= j < i implies !is_file(#[trigger] entry_at(d, j), q) by {
                assert(!named(entry_at(d, j)));
            }
        },
        Ok(None) => {
            assert forall|j: int| 0 <= j < 128 implies !is_file(#[trigger] entry_at(d, j), q) by {
                assert(!named(entry_at(d, j)));
            }
        },
        Err(_) => {},
    }
    match scan(d, free, 0) {
        Ok(Some(i)) => {
            assert forall|j: int| 0 <= j < i implies (#[trigger] entry_at(d, j)).in_use != 0 by {
                assert(!free(entry_at(d, j)));
            }
        },
        Ok(None) => {
            assert forall|j: int| 0 <= j < 128 implies (#[trigger] entry_at(d, j)).in_use != 0 by {
                assert(!free(entry_at(d, j)));
            }
        },
        Err(_) => {},
    }
}

/// Finding a file gives the slot and what it holds: on a SimpleFS volume the
/// first of its slots with that name, on a KAGFAT16 volume the first there.
pub proof fn law_found_file(d: DeviceState, q: Seq<u8>)
    requires
        1 <= q.len() <= 46,
    ensures
        find_outcome(d, q) matches Ok(Some((i, e))) ==> if is_fat(d) {
            &&& crate::fat::model::is_file(kagfat::slot(d, i as int), q)
            &&& e == shown_entry(kagfat::slot(d, i as int))
            &&& forall|j: int|
                0 <= j < i ==> !crate::fat::model::is_file(#[trigger] kagfat::slot(d, j), q)
        } else {
            &&& is_file(entry_at(d, i as int), q)
            &&& e == entry_at(d, i as int)
            &&& forall|j: int| 0 <= j < i ==> !is_file(#[trigger] entry_at(d, j), q)
        },
        find_outcome(d, q) == Ok::<Option<(usize, EntryView)>, FsError>(None) ==> if is_fat(d) {
            forall|j: int|
                0 <= j < 256 ==> !crate::fat::model::is_file(#[trigger] kagfat::slot(d, j), q)
        } else {
            forall|j: int| 0 <= j < 128 ==> !is_file(#[trigger] entry_at(d, j), q)
        },
{
    law_first_entry(d, q);
    lemma_fat_search(d, q, 0);
}

/// A file of a KAGFAT16 volume shows with its own name, size and use, and
/// begins at the sector of its first cluster; one without clusters shows sector
/// zero.
pub proof fn law_shown_entry(e: DirEntryView)
    requires
        e.name.len() == 22,
    ensures
        ({
            let s = shown_entry(e);
            &&& s.name.len() == 47
            &&& s.name.take(22) == e.name
            &&& forall|i: int| 22 <= i < 47 ==> #[trigger] s.name[i] == 0
            &&& s.size == e.size
            &&& s.in_use == e.in_use
            &&& 2 <= e.first_cluster < 0xFFF0 ==> s.start == 81 + 8 * (e.first_cluster - 2)
            &&& e.first_cluster < 2 || e.first_cluster >= 0xFFF0 ==> s.start == 0
        }),
{
    assert(shown_entry(e).name.take(22) =~= e.name);
}

/// A KAGFAT16 directory on a device begins with sector 65 and has sixteen slots
/// of 32 bytes in each sector; the table begins with sector one and has two bytes
/// for each cluster.
pub proof fn law_fat_places(d: DeviceState, i: int, c: int)
    requires
        0 <= i,
        0 <= c,
    ensures
        kagfat::slot(d, i) == crate::fat::layout::dir_entry_from(
            d.blocks[65 + i / 16].subrange(32 * (i % 16), 32 * (i % 16) + 32),
        ),
        d.status(1 + c / 256, 1) is Ok ==> (kagfat::next_cluster(d, c) matches Ok(x) && x
            == d.blocks[1 + c / 256][2 * (c % 256)] + 0x100 * d.blocks[1 + c / 256][2 * (c % 256)
            + 1]),
{
}

/// A file on a KAGFAT16 volume is read cluster by cluster: bytes of the first
/// cluster, as far as the file goes, then what the chain holds from the cluster
/// on that the table gives next. A chain that ends too early is a fault.
pub proof fn law_chain_is_followed(d: DeviceState, c: u16, size: int)
    requires
        0 < size,
    ensures
        c < 2 || c >= 0xFFF0 ==> kagfat::read_chain(d, c, size) == Err::<Seq<u8>, FsError>(
            FsError::DeviceError,
        ),
        2 <= c < 0xFFF0 && d.status(81 + 8 * (c - 2), 8) is Ok ==> {
            let part = d.bytes(81 + 8 * (c - 2), 8);
            &&& size <= 4096 ==> kagfat::read_chain(d, c, size) == Ok::<Seq<u8>, FsError>(
                part.take(size),
            )
            &&& size > 4096 ==> (kagfat::next_cluster(d, c as int) matches Ok(next) ==> (
            kagfat::read_chain(d, next, size - 4096) matches Ok(rest) ==> kagfat::read_chain(
                d,
                c,
                size,
            ) == Ok::<Seq<u8>, FsError>(part + rest)))
        },
        kagfat::read_chain(d, c, 0) == Ok::<Seq<u8>, FsError>(Seq::empty()),
{
}

/// What is read of a file on a SimpleFS volume is as long as its entry says, and
/// each byte is the one that many bytes behind the start of its first sector.
pub proof fn law_file_bytes(d: DeviceState, q: Seq<u8>, k: int)
    requires
        1 <= q.len() <= 46,
        !is_fat(d),
        read_outcome(d, q) is Ok,
    ensures
        ({
            let data = read_outcome(d, q)->Ok_0;
            exists|i: int|
                {
                    &&& 0 <= i < 128
                    &&& is_file(#[trigger] entry_at(d, i), q)
                    &&& data.len() == entry_at(d, i).size
                    &&& 0 <= k < data.len() ==> data[k] == d.blocks[entry_at(d, i).start + k
                        / 512][k % 512]
                }
        }),
{
    law_first_entry(d, q);
    let i = lookup(d, q)->Ok_0->Some_0 as int;
    let e = entry_at(d, i);
    law_blocks_for(e.size as int);
    assert(is_file(entry_at(d, i), q));
}

/// `used` lists the slots in use among the first `n`, in order.
pub open spec fn lists_used(d: DeviceState, n: int, used: Seq<int>) -> bool {
    &&& forall|k: int|
        0 <= k < used.len() ==> 0 <= #[trigger] used[k] < n && entry_at(d, used[k]).in_use == 1
    &&& forall|k: int, l: int| 0 <= k < l < used.len() ==> #[trigger] used[k] < #[trigger] used[l]
    &&& forall|i: int|
        0 <= i < n && (#[trigger] entry_at(d, i)).in_use == 1 ==> used.contains(i)
}

proof fn lemma_used_slots(d: DeviceState, n: int) -> (used: Seq<int>)
    requires
        0 <= n,
    ensures
        lists_used(d, n, used),
        active_entries(d, n) == used.map_values(|i: int| entry_at(d, i)),
    decreases n,
{
    let entry = |i: int| entry_at(d, i);
    if n == 0 {
        let used = Seq::<int>::empty();
        assert(active_entries(d, n) =~= used.map_values(entry));
        used
    } else {
        let before = lemma_used_slots(d, n - 1);
        if entry_at(d, n - 1).in_use == 1 {
            let used = before.push(n - 1);
            assert(active_entries(d, n) =~= used.map_values(entry));
            assert forall|i: int|
                0 <= i < n && (#[trigger] entry_at(d, i)).in_use == 1 implies used.contains(i) by {
                if i < n - 1 {
                    let k = choose|k: int| 0 <= k < before.len() && before[k] == i;
                    assert(used[k] == i);
                } else {
                    assert(used[before.len() as int] == i);
                }
            }
            used
        } else {
            before
        }
    }
}

/// A listing holds what stands in the slots in use, each once, in slot order.
pub proof fn law_listed_in_order(d: DeviceState) -> (used: Seq<int>)
    requires
        list_outcome(d) is Ok,
    ensures
        lists_used(d, 128, used),
        list_outcome(d)->Ok_0 == used.map_values(|i: int| entry_at(d, i)),
{
    lemma_used_slots(d, 128)
}

/// A device is listed exactly where its superblock spells `SIMPLEFS` and its
/// directory can be read; else the first error is handed on.
pub proof fn law_list_errors(d: DeviceState)
    ensures
        d.status(0, 1) matches Err(x) ==> list_outcome(d) == Err::<Seq<EntryView>, FsError>(x),
        d.status(0, 1) is Ok && u64_at(d.blocks[0], 0) != 0x5349_4d50_4c45_4653 ==> list_outcome(d)
            == Err::<Seq<EntryView>, FsError>(FsError::NotFormatted),
        d.status(0, 1) is Ok && u64_at(d.blocks[0], 0) == 0x5349_4d50_4c45_4653 && d.status(1, 16) is Ok
            ==> list_outcome(d) is Ok,
{
    reveal(superblock_from);
    if d.status(1, 16) is Ok {
        lemma_scan(d, |e: EntryView| false, 0);
        assert forall|j: int| 0 <= j < 128 implies d.status(#[trigger] dir_lba(j), 1) is Ok by {
            assert(d.good[dir_lba(j)]);
        }
    }
}

/// A file that is new to a volume gets the first free slot, with its name filled
/// up with zero bytes, and the sectors from the next free one on, as many as it
/// needs, the last filled up with zero bytes. The superblock then counts one file
/// more and has its next free sector behind them. Nothing else on the device
/// changes. The contents are written first, then the slot, then the superblock.
pub proof fn law_created_file_place(d: DeviceState, q: Seq<u8>, data: Seq<u8>) -> (i: int)
    requires
        d.wf(),
        d.blocks.len() >= 17,
        load_superblock(d) is Ok,
        superblock(d).next_free >= 17,
        superblock(d).file_count < u32::MAX,
        lookup(d, q) == Ok::<Option<usize>, FsError>(None),
        create_outcome(d, q, data).0 is Ok,
    ensures
        ({
            let d1 = create_outcome(d, q, data).1;
            let n = blocks_for(data.len() as int);
            let start = superblock(d).next_free;
            &&& 0 <= i < 128
            &&& entry_at(d, i).in_use == 0
            &&& forall|j: int| 0 <= j < i ==> (#[trigger] entry_at(d, j)).in_use != 0
            &&& entry_at(d1, i) == (EntryView {
                name: q + Seq::new((47 - q.len()) as nat, |k: int| 0u8),
                start,
                size: data.len() as u64,
                in_use: 1,
            })
            &&& superblock(d1).magic == 0x5349_4d50_4c45_4653
            &&& superblock(d1).next_free == start + n
            &&& superblock(d1).next_free <= 2097152
            &&& superblock(d1).file_count == superblock(d).file_count + 1
            &&& superblock(d1).padding == superblock(d).padding
            &&& forall|b: int|
                1 <= b < d.blocks.len() && b != 1 + i / 8 && !(start <= b < start + n)
                    ==> #[trigger] d1.blocks[b] == d.blocks[b]
            &&& forall|j: int|
                0 <= j < 128 && j != i ==> #[trigger] entry_at(d1, j) == entry_at(d, j)
            &&& forall|k: int|
                0 <= k < 512 * n ==> #[trigger] d1.bytes(start as int, n)[k] == (if k < data.len() {
                    data[k]
                } else {
                    0
                })
            &&& d1.log.len() == d.log.len() + (if n == 0 {
                2int
            } else {
                3int
            })
            &&& d1.log[d1.log.len() - 1].0 == 0
            &&& d1.log[d1.log.len() - 2].0 == 1 + i / 8
            &&& n > 0 ==> d1.log[d1.log.len() - 3].0 == start
            &&& forall|k: int| 0 <= k < d.log.len() ==> #[trigger] d1.log[k] == d.log[k]
        }),
{
    law_first_entry(d, q);
    let sb = superblock(d);
    let i = first_free(d)->Ok_0->Some_0 as int;
    let n = blocks_for(data.len() as int);
    law_blocks_for(data.len() as int);
    let start = sb.next_free;
    lemma_put_data(d, start as int, data);
    let d0 = put_data(d, start as int, data).1;
    let e = new_entry(q, start, data.len() as int);
    assert(e.name =~= q + Seq::new((47 - q.len()) as nat, |k: int| 0u8));
    assert forall|j: int| 0 <= j < 128 implies #[trigger] entry_at(d0, j) == entry_at(d, j) by {
        assert(d0.blocks[dir_lba(j)] == d.blocks[dir_lba(j)]);
    }
    lemma_with_entry(d0, i, e);
    let d2 = with_entry(d0, i, e);
    assert(put_entry(d0, i, e).1 == d2);
    let sb1 = SuperblockView {
        next_free: (start + n) as u64,
        file_count: (sb.file_count + 1) as u32,
        ..sb
    };
    crate::fs::laws::lemma_superblock_padding(d);
    crate::fs::laws::lemma_put_superblock(d2, sb1);
    let d1 = create_outcome(d, q, data).1;
    assert(d1 == d2.write(0, superblock_bytes(sb1)));
    assert forall|b: int|
        1 <= b < d.blocks.len() && b != 1 + i / 8 && !(start <= b < start + n) implies #[trigger] d1.blocks[b]
        == d.blocks[b] by {
        assert(d2.blocks[b] == d0.blocks[b]);
        assert(d0.blocks[b] == d.blocks[b]);
    }
    assert forall|k: int| 0 <= k < 512 * n implies #[trigger] d1.bytes(start as int, n)[k] == (if k
        < data.len() {
        data[k]
    } else {
        0
    }) by {
        let b = start + k / 512;
        assert(d1.blocks[b] == d2.blocks[b]);
        assert(d2.blocks[b] == d0.blocks[b]);
        assert(d0.bytes(start as int, n)[k] == padded(data)[k]);
    }
    assert forall|j: int| 0 <= j < 128 && j != i implies #[trigger] entry_at(d1, j) == entry_at(
        d,
        j,
    ) by {
        assert(entry_at(d2, j) == entry_at(d0, j));
    }
    i
}

/// Formatting writes a superblock that spells `SIMPLEFS`, counts no files and
/// has sector 17 as the next free one, then clears the sixteen sectors of the
/// directory. All other sectors stay as they are.
pub proof fn law_formatted_sectors(d: DeviceState, b: int)
    requires
        d.wf(),
        format_outcome(d).0 is Ok,
    ensures
        ({
            let d1 = format_outcome(d).1;
            &&& d.blocks.len() >= 17
            &&& superblock(d1) == (SuperblockView {
                magic: 0x5349_4d50_4c45_4653,
                next_free: 17,
                file_count: 0,
                padding: Seq::new(492, |i: int| 0u8),
            })
            &&& 1 <= b <= 16 ==> d1.blocks[b] == Seq::new(512, |i: int| 0u8)
            &&& 17 <= b < d.blocks.len() ==> d1.blocks[b] == d.blocks[b]
            &&& d1.nsid == d.nsid && d1.good == d.good && d1.blocks.len() == d.blocks.len()
        }),
{
    let sb = empty_superblock();
    layout::lemma_superblock_round_trip(sb);
    let d0 = put_block(d, 0, superblock_bytes(sb)).1;
    lemma_clear_directory(d0, 0);
    let d1 = clear_directory(d0, 0).1;
    assert(d1 == format_outcome(d).1);
    assert(d1.blocks[0] == d0.blocks[0]);
    assert(sb.padding =~= Seq::new(492, |i: int| 0u8));
}

/// Formatting fails only for want of a device or for a fault of it, and then
/// with the error of the first sector that could not be written.
pub proof fn law_format_errors(d: DeviceState)
    ensures
        d.nsid is None ==> format_outcome(d) == (Err::<(), FsError>(FsError::NotReady), d),
        d.nsid is Some && d.status(0, 1) is Err ==> format_outcome(d) == (
            Err::<(), FsError>(FsError::DeviceError),
            d,
        ),
        d.status(0, 17) is Ok ==> format_outcome(d).0 is Ok,
{
    if d.status(0, 17) is Ok {
        assert(d.good[0]);
        let d0 = put_block(d, 0, superblock_bytes(empty_superblock())).1;
        assert(d.status(0, 1) is Ok);
        assert(d0.status(0, 17) is Ok);
        lemma_clear_works(d0, 0);
    }
}

proof fn lemma_clear_works(d: DeviceState, b: int)
    requires
        0 <= b <= 16,
        d.status(0, 17) is Ok,
    ensures
        clear_directory(d, b).0 is Ok,
    decreases 16 - b,
{
    if b < 16 {
        assert(d.good[1 + b]);
        assert(d.status(1 + b, 1) is Ok);
        let d1 = put_block(d, 1 + b, Seq::new(512, |i: int| 0u8)).1;
        assert(d1.status(0, 17) is Ok);
        lemma_clear_works(d1, b + 1);
    }
}

/// Deleting the file in a slot clears the slot, counts one file less, and gives
/// back its sectors: every file that begins behind it moves down by as many
/// sectors and reads as before, and every other slot stays.
pub proof fn law_delete_closes_gap(d: DeviceState, i: int, j: int)
    requires
        consistent(d),
        0 <= i < 128,
        active(d, i),
        delete_outcome(d, i).0 is Ok,
        0 <= j < 128,
        j != i,
    ensures
        ({
            let d1 = delete_outcome(d, i).1;
            let gone = entry_at(d, i);
            let n = blocks_for(gone.size as int);
            let e = entry_at(d, j);
            &&& entry_at(d1, i) == (EntryView {
                name: Seq::new(47, |k: int| 0u8),
                start: 0,
                size: 0,
                in_use: 0,
            })
            &&& superblock(d1).next_free == superblock(d).next_free - n
            &&& superblock(d1).file_count == superblock(d).file_count - 1
            &&& e.in_use == 1 && e.start > gone.start && n > 0 ==> entry_at(d1, j) == (EntryView {
                start: (e.start - n) as u64,
                ..e
            })
            &&& !(e.in_use == 1 && e.start > gone.start && n > 0) ==> entry_at(d1, j) == e
            &&& e.in_use == 1 ==> read_entry(d1, entry_at(d1, j)) == read_entry(d, e)
        }),
{
    lemma_delete_outcome(d, i);
    crate::fs::laws::lemma_count_positive(d, MAX_FILES as int, i);
    assert(layout::free_entry().name =~= Seq::new(47, |k: int| 0u8));
    assert(entry_at(delete_outcome(d, i).1, j) == crate::fs::laws::shifted(
        entry_at(d, j),
        entry_at(d, i).start,
        blocks_for(entry_at(d, i).size as int),
    ));
    assert(active(d, j) == (entry_at(d, j).in_use == 1));
}

/// A search of the directory reads sector by sector: the first sector that cannot
/// be read ends it with its error, unless the name was found in a sector before.
pub proof fn law_search_faults(d: DeviceState, q: Seq<u8>)
    ensures
        lookup(d, q) matches Ok(Some(i)) ==> forall|j: int|
            0 <= j <= i ==> d.status(1 + #[trigger] (j / 8), 1) is Ok,
        lookup(d, q) == Ok::<Option<usize>, FsError>(None) ==> forall|j: int|
            0 <= j < 128 ==> d.status(1 + #[trigger] (j / 8), 1) is Ok,
        lookup(d, q) matches Err(x) ==> exists|j: int|
            0 <= j < 128 && d.status(1 + #[trigger] (j / 8), 1) == Err::<(), FsError>(x)
                && forall|k: int| 0 <= k < j ==> !is_file(#[trigger] entry_at(d, k), q),
{
    let named = |e: EntryView| is_file(e, q);
    lemma_search_faults(d, named, 0);
    if let Err(x) = lookup(d, q) {
        let j = choose|j: int|
            0 <= j < 128 && d.status(1 + #[trigger] (j / 8), 1) == Err::<(), FsError>(x)
                && forall|k: int| 0 <= k < j ==> !named(#[trigger] entry_at(d, k));
        assert forall|k: int| 0 <= k < j implies !is_file(#[trigger] entry_at(d, k), q) by {
            assert(!named(entry_at(d, k)));
        }
        assert(d.status(1 + (j / 8), 1) == Err::<(), FsError>(x));
    }
}

proof fn lemma_search_faults(d: DeviceState, hit: spec_fn(EntryView) -> bool, i: int)
    requires
        0 <= i <= 128,
    ensures
        scan(d, hit, i) matches Ok(Some(n)) ==> forall|j: int|
            i <= j <= n ==> d.status(1 + #[trigger] (j / 8), 1) is Ok,
        scan(d, hit, i) == Ok::<Option<usize>, FsError>(None) ==> forall|j: int|
            i <= j < 128 ==> d.status(1 + #[trigger] (j / 8), 1) is Ok,
        scan(d, hit, i) matches Err(x) ==> exists|j: int|
            i <= j < 128 && d.status(1 + #[trigger] (j / 8), 1) == Err::<(), FsError>(x)
                && forall|k: int| i <= k < j ==> !hit(#[trigger] entry_at(d, k)),
    decreases 128 - i,
{
    if i < 128 {
        assert(dir_lba(i) == 1 + (i / 8));
        if d.status(1 + i / 8, 1) is Ok && !hit(entry_at(d, i)) {
            lemma_search_faults(d, hit, i + 1);
            if let Err(x) = scan(d, hit, i) {
                let j = choose|j: int|
                    i + 1 <= j < 128 && d.status(1 + #[trigger] (j / 8), 1) == Err::<(), FsError>(
                        x,
                    ) && forall|k: int| i + 1 <= k < j ==> !hit(#[trigger] entry_at(d, k));
                assert forall|k: int| i <= k < j implies !hit(#[trigger] entry_at(d, k)) by {}
                assert(d.status(1 + (j / 8), 1) == Err::<(), FsError>(x));
            }
        } else if d.status(1 + i / 8, 1) is Err {
            assert(forall|k: int| i <= k < i ==> !hit(#[trigger] entry_at(d, k)));
            assert(d.status(1 + (i / 8), 1) is Err);
        }
    }
}

/// A listing shows a file's name as text, its size and its first sector.
pub proof fn law_listed_entry(p: PublicFileEntry, e: EntryView)
    requires
        listed_as(p, e),
    ensures
        p.name@ == shown_text(stored_name(e.name)),
        p.size == e.size,
        p.start_block == e.start,
{
}

/// A found file keeps its slot's number and its fields; errors and the absence
/// of a file stay what they are.
pub proof fn law_found(i: usize, e: FileEntry, x: FsError)
    ensures
        found(Ok(Some((i, e)))) == Ok::<Option<(usize, EntryView)>, FsError>(Some((i, e@))),
        found(Ok(None)) == Ok::<Option<(usize, EntryView)>, FsError>(None),
        found(Err(x)) == Err::<Option<(usize, EntryView)>, FsError>(x),
{
}

/// A sector or a slot is written exactly where its sector can be transferred,
/// and else its error is handed on and nothing is written. Writing a slot gives
/// it its entry and leaves the other slots and sectors.
pub proof fn law_entry_written(d: DeviceState, i: int, e: EntryView, j: int, b: int)
    requires
        d.wf(),
        0 <= i < 128,
        e.name.len() == 47,
    ensures
        ({
            let (r, d1) = put_entry(d, i, e);
            &&& d.status(1 + i / 8, 1) matches Err(x) ==> r == Err::<(), FsError>(x) && d1 == d
            &&& d.status(1 + i / 8, 1) is Ok ==> {
                &&& r is Ok
                &&& entry_at(d1, i) == e
                &&& 0 <= j < 128 && j != i && 1 + j / 8 < d.blocks.len() ==> entry_at(d1, j)
                    == entry_at(d, j)
                &&& 0 <= b < d.blocks.len() && b != 1 + i / 8 ==> d1.blocks[b] == d.blocks[b]
            }
        }),
        ({
            let (r, d1) = put_block(d, b, e.name);
            &&& d.status(b, 1) matches Err(x) ==> r == Err::<(), FsError>(x) && d1 == d
            &&& d.status(b, 1) is Ok ==> r is Ok && d1 == d.write(b, e.name)
        }),
{
    if d.status(1 + i / 8, 1) is Ok {
        lemma_with_entry(d, i, e);
        if 0 <= j < 128 && j != i && 1 + j / 8 < d.blocks.len() {
            assert(dir_lba(j) < d.blocks.len());
        }
    }
}

/// Reading a chain hands on the error of the first sector that cannot be read,
/// of a cluster or of the table.
pub proof fn law_chain_faults(d: DeviceState, c: u16, size: int)
    requires
        0 < size,
        2 <= c < 0xFFF0,
    ensures
        d.status(81 + 8 * (c - 2), 8) matches Err(x) ==> kagfat::read_chain(d, c, size) == Err::<
            Seq<u8>,
            FsError,
        >(x),
        d.status(81 + 8 * (c - 2), 8) is Ok && size > 4096 ==> {
            &&& d.status(1 + c / 256, 1) matches Err(x) ==> kagfat::read_chain(d, c, size) == Err::<
                Seq<u8>,
                FsError,
            >(x)
            &&& kagfat::next_cluster(d, c as int) matches Ok(next) ==> (kagfat::read_chain(
                d,
                next,
                size - 4096,
            ) matches Err(x) ==> kagfat::read_chain(d, c, size) == Err::<Seq<u8>, FsError>(x))
        },
{
}

} // verus!
