//! What holds of SimpleFS on a device that works: every operation stays in
//! range, and fails only for a reason that lies in the request.

use vstd::prelude::*;
use vstd::utf8::{encode_utf8, encode_utf8_decode_utf8, encode_utf8_valid_utf8};
use crate::device::{BLOCK_SIZE, DeviceState};
use crate::fs::error::FsError;
use crate::fs::kagfat::lemma_simple_is_not_fat;
use crate::fs::laws::{
    absent, active, consistent, count_active, entry_ok, extent, lemma_count_positive,
    lemma_delete_outcome, lemma_gone_after_delete, lemma_make_room, lemma_movable,
    lemma_put_superblock, lemma_superblock_padding, law_create_then_read,
    law_delete_keeps_consistent, no_zero, superblock, tidy, total_extent, within_capacity,
};
use crate::fs::layout::{
    EntryView, SuperblockView, entry_from, free_entry, superblock_bytes, DIR_BLOCKS, DIR_START_LBA,
    MAX_BLOCKS, MAX_FILES, SUPERBLOCK_LBA,
};
use crate::fs::lemmas::{
    clear_of, describes, lemma_copy_sectors, lemma_relocate_all, lemma_relocate_step, lemma_relocations,
    lemma_scan, lemma_with_entry, movable, moved,
};
use crate::fs::model::{
    Relocation, active_entries, blocks_for, clear_directory, copy_sectors, create_fits,
    create_outcome, delete_fits, delete_outcome, dir_lba, empty_superblock, entry_at, first_free,
    format_outcome, is_file, list_outcome, lookup, make_room, name_end, put_block, read_fits,
    read_outcome, relocate, relocate_all, relocations, relocations_fit, remove_fits, remove_outcome,
    scan, stored_name, stores_name, uncount_file, valid_name, with_entry,
};
use crate::text::shown_text;

verus! {

/// The device is there, large enough for every volume, and without a fault.
pub open spec fn healthy(d: DeviceState) -> bool {
    &&& d.ready()
    &&& d.blocks.len() >= MAX_BLOCKS
    &&& forall|i: int| 0 <= i < d.good.len() ==> #[trigger] d.good[i]
}

/// A file named `q` is there.
pub open spec fn present(d: DeviceState, q: Seq<u8>) -> bool {
    exists|i: int| 0 <= i < MAX_FILES && is_file(#[trigger] entry_at(d, i), q)
}

/// Some slot is free.
pub open spec fn has_free_slot(d: DeviceState) -> bool {
    exists|i: int| 0 <= i < MAX_FILES && #[trigger] entry_at(d, i).in_use == 0
}

/// Sectors that the file named `q` takes; none where there is no such file.
pub open spec fn held(d: DeviceState, q: Seq<u8>) -> int {
    if present(d, q) {
        extent(d, choose|i: int| 0 <= i < MAX_FILES && is_file(#[trigger] entry_at(d, i), q))
    } else {
        0
    }
}

// ---------------------------------------------------------------------------
// Every number stays in range
// ---------------------------------------------------------------------------

proof fn lemma_relocations_fit(d: DeviceState, ms: Seq<Relocation>, r: int, k: int)
    requires
        0 <= k,
        forall|a: int|
            0 <= a < ms.len() ==> (#[trigger] ms[a]).size + BLOCK_SIZE <= u64::MAX && ms[a].start
                >= r,
    ensures
        relocations_fit(d, ms, r, k),
    decreases ms.len() - k,
{
    if k < ms.len() {
        lemma_relocations_fit(relocate(d, ms[k], r).1, ms, r, k + 1);
    }
}

proof fn lemma_delete_fits(d: DeviceState, i: int)
    requires
        consistent(d),
        tidy(d),
        within_capacity(d),
        0 <= i < MAX_FILES,
    ensures
        delete_fits(d, i),
{
    let e = entry_at(d, i);
    let r = extent(d, i);
    assert(entry_ok(d, i));
    if d.status(dir_lba(i), 1) is Ok && e.in_use != 0 {
        let d1 = with_entry(d, i, free_entry());
        lemma_with_entry(d, i, free_entry());
        assert(superblock(d1) == superblock(d));
        lemma_superblock_padding(d);
        lemma_count_positive(d, MAX_FILES as int, i);
        let sb = superblock(d);
        let sb2 = SuperblockView { file_count: (sb.file_count - 1) as u32, ..sb };
        let (res, d2) = uncount_file(d1);
        if res is Ok && r > 0 {
            assert(d2 == d1.write(SUPERBLOCK_LBA as int, superblock_bytes(sb2)));
            lemma_put_superblock(d1, sb2);
            let ms = relocations(d2, e.start, MAX_FILES as int);
            lemma_movable(d, d2, i);
            lemma_relocations(d2, e.start, MAX_FILES as int);
            assert forall|a: int| 0 <= a < ms.len() implies (#[trigger] ms[a]).size + BLOCK_SIZE
                <= u64::MAX && ms[a].start >= r by {
                assert(describes(d2, e.start, MAX_FILES as int, ms[a]));
                let j = ms[a].index as int;
                assert(entry_at(d2, j) == entry_at(d, j));
                assert(clear_of(entry_at(d, i), entry_at(d, j)));
            }
            lemma_relocations_fit(d2, ms, r, 0);
            if relocate_all(d2, ms, r, 0).0 is Ok {
                assert(moved(d2, d2, ms, r, 0));
                lemma_relocate_all(d2, d2, ms, r, 0);
            }
        }
    }
}

/// On a sound and tidy volume no operation computes a number that leaves its
/// range.
pub proof fn law_operations_fit(d: DeviceState, q: Seq<u8>, data: Seq<u8>)
    requires
        consistent(d),
        tidy(d),
        within_capacity(d),
        data.len() <= usize::MAX,
    ensures
        remove_fits(d, q),
        create_fits(d, q, data),
        read_fits(d, q),
        forall|i: int| 0 <= i < MAX_FILES ==> #[trigger] delete_fits(d, i),
{
    lemma_simple_is_not_fat(d);
    assert forall|i: int| 0 <= i < MAX_FILES implies #[trigger] delete_fits(d, i) by {
        lemma_delete_fits(d, i);
    }
    let hit = |e: EntryView| is_file(e, q);
    lemma_scan(d, hit, 0);
    if let Ok(Some(i)) = lookup(d, q) {
        assert(is_file(entry_at(d, i as int), q));
        assert(delete_fits(d, i as int));
        assert(entry_ok(d, i as int));
    }
    if make_room(d, q).0 is Ok {
        lemma_make_room(d, q, q);
        let d1 = make_room(d, q).1;
        lemma_count_positive(d1, MAX_FILES as int, 0);
    }
}

// ---------------------------------------------------------------------------
// A working device never fails
// ---------------------------------------------------------------------------

proof fn lemma_copy_succeeds(d: DeviceState, from: int, to: int, i: int, n: int)
    requires
        d.wf(),
        healthy(d),
        0 <= i <= n,
        0 <= to < from,
        from + n <= d.blocks.len(),
    ensures
        copy_sectors(d, from, to, i, n).0 is Ok,
    decreases n - i,
{
    if i < n {
        assert(d.status(from + i, 1) is Ok);
        assert(d.status(to + i, 1) is Ok);
        lemma_copy_succeeds(put_block(d, to + i, d.blocks[from + i]).1, from, to, i + 1, n);
    }
}

proof fn lemma_relocate_all_succeeds(
    d: DeviceState,
    d1: DeviceState,
    ms: Seq<Relocation>,
    r: int,
    k: int,
)
    requires
        movable(d, ms, r),
        healthy(d),
        0 <= k <= ms.len(),
        moved(d, d1, ms, r, k),
        forall|a: int|
            0 <= a < ms.len() && blocks_for((#[trigger] ms[a]).size as int) > 0 ==> ms[a].start
                + blocks_for(ms[a].size as int) <= d.blocks.len(),
    ensures
        relocate_all(d1, ms, r, k).0 is Ok,
    decreases ms.len() - k,
{
    if k < ms.len() {
        let m = ms[k];
        let n = blocks_for(m.size as int);
        if n > 0 {
            lemma_copy_succeeds(d1, m.start as int, m.start - r, 0, n);
            lemma_copy_sectors(d1, m.start as int, m.start - r, 0, n);
        }
        let d2 = copy_sectors(d1, m.start as int, m.start - r, 0, n).1;
        assert(d2.status(dir_lba(m.index as int), 1) is Ok);
        lemma_relocate_step(d, d1, ms, r, k);
        lemma_relocate_all_succeeds(d, relocate(d1, m, r).1, ms, r, k + 1);
    }
}

proof fn lemma_directory_readable(d: DeviceState, hit: spec_fn(EntryView) -> bool, i: int)
    requires
        d.wf(),
        healthy(d),
        0 <= i,
    ensures
        scan(d, hit, i) is Ok,
    decreases MAX_FILES - i,
{
    if i < MAX_FILES {
        assert(d.status(dir_lba(i), 1) is Ok);
        lemma_directory_readable(d, hit, i + 1);
    }
}

proof fn lemma_delete_succeeds(d: DeviceState, i: int)
    requires
        consistent(d),
        healthy(d),
        superblock(d).next_free <= d.blocks.len(),
        0 <= i < MAX_FILES,
        active(d, i),
    ensures
        delete_outcome(d, i).0 is Ok,
{
    let e = entry_at(d, i);
    let r = extent(d, i);
    assert(entry_ok(d, i));
    assert(d.status(dir_lba(i), 1) is Ok);
    let d1 = with_entry(d, i, free_entry());
    lemma_with_entry(d, i, free_entry());
    assert(superblock(d1) == superblock(d));
    lemma_superblock_padding(d);
    lemma_count_positive(d, MAX_FILES as int, i);
    let sb = superblock(d);
    let sb2 = SuperblockView { file_count: (sb.file_count - 1) as u32, ..sb };
    assert(d1.status(SUPERBLOCK_LBA as int, 1) is Ok);
    let (res, d2) = uncount_file(d1);
    assert(d2 == d1.write(SUPERBLOCK_LBA as int, superblock_bytes(sb2)));
    lemma_put_superblock(d1, sb2);
    if r > 0 {
        let none = |e: EntryView| false;
        lemma_directory_readable(d2, none, 0);
        let ms = relocations(d2, e.start, MAX_FILES as int);
        lemma_movable(d, d2, i);
        lemma_relocations(d2, e.start, MAX_FILES as int);
        assert forall|a: int|
            0 <= a < ms.len() && blocks_for((#[trigger] ms[a]).size as int) > 0 implies ms[a].start
            + blocks_for(ms[a].size as int) <= d2.blocks.len() by {
            assert(describes(d2, e.start, MAX_FILES as int, ms[a]));
            assert(entry_ok(d, ms[a].index as int));
        }
        lemma_relocate_all_succeeds(d2, d2, ms, r, 0);
        lemma_relocate_all(d2, d2, ms, r, 0);
        let d3 = relocate_all(d2, ms, r, 0).1;
        assert(d3.status(SUPERBLOCK_LBA as int, 1) is Ok);
    }
}

/// Looking up a name on a working device finds the file where there is one.
proof fn lemma_lookup(d: DeviceState, q: Seq<u8>)
    requires
        d.wf(),
        healthy(d),
    ensures
        present(d, q) ==> {
            &&& lookup(d, q) matches Ok(Some(i))
            &&& i < MAX_FILES
            &&& is_file(entry_at(d, i as int), q)
        },
        !present(d, q) ==> lookup(d, q) == Ok::<Option<usize>, FsError>(None),
{
    let hit = |e: EntryView| is_file(e, q);
    lemma_directory_readable(d, hit, 0);
    lemma_scan(d, hit, 0);
    match lookup(d, q) {
        Ok(Some(i)) => {
            assert(hit(entry_at(d, i as int)));
            assert(present(d, q));
        },
        Ok(None) => {
            if present(d, q) {
                let i = choose|i: int| 0 <= i < MAX_FILES && is_file(#[trigger] entry_at(d, i), q);
                assert(!hit(entry_at(d, i)));
            }
        },
        Err(_) => {},
    }
}

/// On a working device a file is read exactly where there is one.
pub proof fn law_read_succeeds(d: DeviceState, q: Seq<u8>)
    requires
        consistent(d),
        healthy(d),
        superblock(d).next_free <= d.blocks.len(),
        valid_name(q),
    ensures
        present(d, q) ==> read_outcome(d, q) is Ok,
        !present(d, q) ==> read_outcome(d, q) == Err::<Seq<u8>, FsError>(FsError::FileNotFound),
{
    lemma_simple_is_not_fat(d);
    lemma_lookup(d, q);
    if let Ok(Some(i)) = lookup(d, q) {
        assert(entry_ok(d, i as int));
    }
}

/// On a working device a file is deleted exactly where there is one.
pub proof fn law_delete_succeeds(d: DeviceState, q: Seq<u8>)
    requires
        consistent(d),
        healthy(d),
        superblock(d).next_free <= d.blocks.len(),
        valid_name(q),
    ensures
        present(d, q) ==> {
            &&& remove_outcome(d, q).0 is Ok
            &&& !present(remove_outcome(d, q).1, q)
            &&& healthy(remove_outcome(d, q).1)
        },
        !present(d, q) ==> remove_outcome(d, q) == (
            Err::<(), FsError>(FsError::FileNotFound),
            d,
        ),
{
    lemma_simple_is_not_fat(d);
    lemma_lookup(d, q);
    if let Ok(Some(i)) = lookup(d, q) {
        if present(d, q) {
            lemma_delete_succeeds(d, i as int);
            lemma_delete_outcome(d, i as int);
            let end = remove_outcome(d, q).1;
            lemma_gone_after_delete(d, end, i as int, q);
        }
    }
}

/// On a working device a file is created exactly where a slot and enough
/// sectors are left, those of a file that it replaces counted as left.
pub proof fn law_create_succeeds(d: DeviceState, q: Seq<u8>, data: Seq<u8>)
    requires
        consistent(d),
        healthy(d),
        superblock(d).next_free <= d.blocks.len(),
        valid_name(q),
    ensures
        create_outcome(d, q, data).0 == (if (has_free_slot(d) || present(d, q)) && superblock(
            d,
        ).next_free - held(d, q) + blocks_for(data.len() as int) <= MAX_BLOCKS {
            Ok::<(), FsError>(())
        } else {
            Err::<(), FsError>(FsError::NoSpace)
        }),
{
    lemma_lookup(d, q);
    assert(d.status(SUPERBLOCK_LBA as int, 1) is Ok);
    if let Ok(Some(i)) = lookup(d, q) {
        if present(d, q) {
            lemma_delete_succeeds(d, i as int);
            lemma_delete_outcome(d, i as int);
            law_delete_keeps_consistent(d, i as int);
            let j = choose|i: int| 0 <= i < MAX_FILES && is_file(#[trigger] entry_at(d, i), q);
            assert(is_file(entry_at(d, i as int), q));
            if j != i {
                assert(stores_name(entry_at(d, i as int).name, q));
                assert(stores_name(entry_at(d, j).name, q));
            }
            assert(held(d, q) == extent(d, i as int));
            assert(entry_ok(d, i as int));
            lemma_count_positive(d, MAX_FILES as int, i as int);
            let d1 = delete_outcome(d, i as int).1;
            assert(entry_at(d1, i as int).in_use == 0);
            assert(has_free_slot(d1));
        }
    }
    let (res, d1) = make_room(d, q);
    assert(d1.status(SUPERBLOCK_LBA as int, 1) is Ok);
    assert(res == Ok::<SuperblockView, FsError>(superblock(d1)));
    assert(consistent(d1) && healthy(d1));
    assert(superblock(d1).next_free == superblock(d).next_free - held(d, q));
    assert(has_free_slot(d1) == (has_free_slot(d) || present(d, q)));
    let free = |e: EntryView| e.in_use == 0;
    lemma_directory_readable(d1, free, 0);
    lemma_scan(d1, free, 0);
    match first_free(d1) {
        Ok(Some(f)) => {
            assert(free(entry_at(d1, f as int)));
            assert(has_free_slot(d1));
            if superblock(d1).next_free + blocks_for(data.len() as int) <= MAX_BLOCKS {
                lemma_store_succeeds(d1, f as int, q, data);
            }
        },
        Ok(None) => {
            assert(!has_free_slot(d1)) by {
                assert forall|i: int| 0 <= i < MAX_FILES implies (#[trigger] entry_at(
                    d1,
                    i,
                )).in_use != 0 by {
                    assert(!free(entry_at(d1, i)));
                }
            }
        },
        Err(_) => {},
    }
}

proof fn lemma_store_succeeds(d: DeviceState, f: int, q: Seq<u8>, data: Seq<u8>)
    requires
        consistent(d),
        healthy(d),
        0 <= f < MAX_FILES,
        superblock(d).next_free + blocks_for(data.len() as int) <= MAX_BLOCKS,
    ensures
        crate::fs::model::store_file(d, superblock(d), f, q, data).0 is Ok,
{
    let n = blocks_for(data.len() as int);
    lemma_count_positive(d, MAX_FILES as int, 0);
    let start = superblock(d).next_free as int;
    assert(n > 0 ==> d.status(start, n) is Ok);
    let d1 = crate::fs::model::put_data(d, start, data).1;
    assert(d1.status(dir_lba(f), 1) is Ok);
    let e = crate::fs::model::new_entry(q, superblock(d).next_free, data.len() as int);
    let d2 = with_entry(d1, f, e);
    assert(d2.status(SUPERBLOCK_LBA as int, 1) is Ok);
}

// ---------------------------------------------------------------------------
// Formatting and listing
// ---------------------------------------------------------------------------

/// The directory sectors `b ..` have been cleared and nothing else.
pub proof fn lemma_clear_directory(d: DeviceState, b: int)
    requires
        d.wf(),
        0 <= b <= DIR_BLOCKS,
        clear_directory(d, b).0 is Ok,
    ensures
        ({
            let d1 = clear_directory(d, b).1;
            &&& d1.wf()
            &&& d1.nsid == d.nsid
            &&& d1.good == d.good
            &&& d1.blocks.len() == d.blocks.len()
            &&& b < DIR_BLOCKS ==> d.blocks.len() >= DIR_START_LBA + DIR_BLOCKS
            &&& forall|j: int|
                DIR_START_LBA + b <= j < DIR_START_LBA + DIR_BLOCKS ==> #[trigger] d1.blocks[j]
                    == Seq::new(BLOCK_SIZE as nat, |i: int| 0u8)
            &&& forall|j: int|
                0 <= j < d.blocks.len() && !(DIR_START_LBA + b <= j < DIR_START_LBA + DIR_BLOCKS)
                    ==> #[trigger] d1.blocks[j] == d.blocks[j]
        }),
    decreases DIR_BLOCKS - b,
{
    if b < DIR_BLOCKS {
        let zeros = Seq::new(BLOCK_SIZE as nat, |i: int| 0u8);
        let d1 = put_block(d, DIR_START_LBA + b, zeros).1;
        lemma_clear_directory(d1, b + 1);
        let d2 = clear_directory(d, b).1;
        assert(d2 == clear_directory(d1, b + 1).1);
        assert forall|j: int| DIR_START_LBA + b <= j < DIR_START_LBA + DIR_BLOCKS implies
            #[trigger] d2.blocks[j] == zeros by {
            if j == DIR_START_LBA + b {
                assert(d2.blocks[j] == d1.blocks[j]);
            }
        }
    }
}

/// Formatting leaves a sound volume without files.
pub proof fn law_format(d: DeviceState, q: Seq<u8>)
    requires
        d.wf(),
        format_outcome(d).0 is Ok,
    ensures
        consistent(format_outcome(d).1),
        tidy(format_outcome(d).1),
        within_capacity(format_outcome(d).1),
        superblock(format_outcome(d).1) == empty_superblock(),
        count_active(format_outcome(d).1, MAX_FILES as int) == 0,
        absent(format_outcome(d).1, q),
        list_outcome(format_outcome(d).1) == Ok::<Seq<EntryView>, FsError>(Seq::empty()),
{
    let end = format_outcome(d).1;
    let sb = empty_superblock();
    crate::fs::layout::lemma_superblock_round_trip(sb);
    let d1 = put_block(d, SUPERBLOCK_LBA as int, superblock_bytes(sb)).1;
    lemma_clear_directory(d1, 0);
    assert(end == clear_directory(d1, 0).1);
    assert(end.blocks[0] == superblock_bytes(sb));
    assert forall|j: int| 0 <= j < MAX_FILES implies (#[trigger] entry_at(end, j)).in_use == 0 by {
        reveal(entry_from);
        assert(end.blocks[dir_lba(j)] == Seq::new(BLOCK_SIZE as nat, |i: int| 0u8));
    }
    lemma_nothing_counted(end, MAX_FILES as int);
    assert forall|j: int| 0 <= j < MAX_FILES implies #[trigger] entry_ok(end, j) by {
        assert(entry_at(end, j).in_use == 0);
    }
    assert(crate::fs::laws::names_differ(end));
    let none = |e: EntryView| false;
    lemma_format_readable(d1, 0);
    lemma_directory_kept_readable(d1, end, none, 0);
    lemma_scan(end, none, 0);
}

proof fn lemma_nothing_counted(d: DeviceState, n: int)
    requires
        n <= MAX_FILES,
        forall|j: int| 0 <= j < MAX_FILES ==> (#[trigger] entry_at(d, j)).in_use == 0,
    ensures
        count_active(d, n) == 0,
        total_extent(d, n) == 0,
        active_entries(d, n) == Seq::<EntryView>::empty(),
    decreases n,
{
    if n > 0 {
        lemma_nothing_counted(d, n - 1);
        assert(entry_at(d, n - 1).in_use == 0);
    }
}

/// Where the directory could be cleared, it can be read.
proof fn lemma_format_readable(d: DeviceState, b: int)
    requires
        0 <= b,
        clear_directory(d, b).0 is Ok,
    ensures
        forall|j: int| b <= j < DIR_BLOCKS ==> #[trigger] d.status(DIR_START_LBA + j, 1) is Ok,
    decreases DIR_BLOCKS - b,
{
    if b < DIR_BLOCKS {
        let zeros = Seq::new(BLOCK_SIZE as nat, |i: int| 0u8);
        let d1 = put_block(d, DIR_START_LBA + b, zeros).1;
        lemma_format_readable(d1, b + 1);
        assert forall|j: int| b <= j < DIR_BLOCKS implies #[trigger] d.status(
            DIR_START_LBA + j,
            1,
        ) is Ok by {
            if j > b {
                assert(d1.status(DIR_START_LBA + j, 1) is Ok);
            }
        }
    }
}

proof fn lemma_directory_kept_readable(
    d: DeviceState,
    d1: DeviceState,
    hit: spec_fn(EntryView) -> bool,
    i: int,
)
    requires
        0 <= i,
        d1.nsid == d.nsid,
        d1.good == d.good,
        d1.blocks.len() == d.blocks.len(),
        forall|j: int| 0 <= j < DIR_BLOCKS ==> #[trigger] d.status(DIR_START_LBA + j, 1) is Ok,
    ensures
        scan(d1, hit, i) is Ok,
    decreases MAX_FILES - i,
{
    if i < MAX_FILES {
        assert(d.status(DIR_START_LBA + i / 8, 1) is Ok);
        assert(d1.status(dir_lba(i), 1) == d.status(dir_lba(i), 1));
        lemma_directory_kept_readable(d, d1, hit, i + 1);
    }
}

/// A working device can be formatted.
pub proof fn law_format_succeeds(d: DeviceState)
    requires
        d.wf(),
        healthy(d),
    ensures
        format_outcome(d).0 is Ok,
{
    assert(d.status(SUPERBLOCK_LBA as int, 1) is Ok);
    let d1 = put_block(d, SUPERBLOCK_LBA as int, superblock_bytes(empty_superblock())).1;
    lemma_clear_succeeds(d1, 0);
}

proof fn lemma_clear_succeeds(d: DeviceState, b: int)
    requires
        0 <= b,
        healthy(d),
        d.good.len() == d.blocks.len(),
    ensures
        clear_directory(d, b).0 is Ok,
    decreases DIR_BLOCKS - b,
{
    if b < DIR_BLOCKS {
        let zeros = Seq::new(BLOCK_SIZE as nat, |i: int| 0u8);
        assert(d.status(DIR_START_LBA + b, 1) is Ok);
        lemma_clear_succeeds(put_block(d, DIR_START_LBA + b, zeros).1, b + 1);
    }
}

/// Listing a sound volume gives as many files as the superblock counts, and
/// exactly those that are in the directory.
pub proof fn law_list(d: DeviceState, j: int)
    requires
        consistent(d),
        list_outcome(d) is Ok,
        0 <= j < MAX_FILES,
    ensures
        list_outcome(d)->Ok_0.len() == superblock(d).file_count,
        active(d, j) ==> list_outcome(d)->Ok_0.contains(entry_at(d, j)),
        forall|k: int|
            0 <= k < list_outcome(d)->Ok_0.len() ==> (#[trigger] list_outcome(d)->Ok_0[k]).in_use
                == 1,
{
    lemma_active_entries(d, MAX_FILES as int, j);
}

proof fn lemma_active_entries(d: DeviceState, n: int, j: int)
    ensures
        active_entries(d, n).len() == count_active(d, n),
        0 <= j < n && active(d, j) ==> active_entries(d, n).contains(entry_at(d, j)),
        forall|k: int|
            0 <= k < active_entries(d, n).len() ==> (#[trigger] active_entries(d, n)[k]).in_use
                == 1,
    decreases n,
{
    if n > 0 {
        lemma_active_entries(d, n - 1, j);
        let front = active_entries(d, n - 1);
        if 0 <= j < n && active(d, j) {
            if j < n - 1 {
                let k = choose|k: int| 0 <= k < front.len() && front[k] == entry_at(d, j);
                assert(active_entries(d, n)[k] == entry_at(d, j));
            } else {
                assert(active_entries(d, n)[front.len() as int] == entry_at(d, j));
            }
        }
    }
}

/// The name that a field stores is the one it matches.
pub proof fn lemma_stored_name(name: Seq<u8>, q: Seq<u8>, i: int)
    requires
        stores_name(name, q),
        0 <= i <= q.len(),
    ensures
        name_end(name, i) == q.len(),
        stored_name(name) == q || i > 0,
    decreases q.len() - i,
{
    if i < q.len() {
        assert(q[i] == name[i]);
        lemma_stored_name(name, q, i + 1);
    }
    if i == 0 {
        assert(stored_name(name) =~= q);
    }
}

/// A file that was created is listed with its own name and size.
pub proof fn law_created_file_is_listed(d: DeviceState, name: Seq<char>, data: Seq<u8>)
    requires
        consistent(d),
        no_zero(encode_utf8(name)),
        create_outcome(d, encode_utf8(name), data).0 is Ok,
        list_outcome(create_outcome(d, encode_utf8(name), data).1) is Ok,
    ensures
        ({
            let list = list_outcome(create_outcome(d, encode_utf8(name), data).1)->Ok_0;
            exists|k: int|
                0 <= k < list.len() && shown_text(stored_name((#[trigger] list[k]).name)) == name
                    && list[k].size == data.len()
        }),
{
    let q = encode_utf8(name);
    let end = create_outcome(d, q, data).1;
    let list = list_outcome(end)->Ok_0;
    encode_utf8_valid_utf8(name);
    encode_utf8_decode_utf8(name);
    law_create_then_read(d, q, data, q);
    let hit = |e: EntryView| is_file(e, q);
    lemma_scan(end, hit, 0);
    lemma_simple_is_not_fat(end);
    let i = lookup(end, q)->Ok_0->Some_0 as int;
    let e = entry_at(end, i);
    assert(hit(e));
    assert(entry_ok(end, i));
    lemma_stored_name(e.name, q, 0);
    law_list(end, i);
    let k = choose|k: int| 0 <= k < list.len() && list[k] == e;
    assert(shown_text(stored_name(list[k].name)) == name);
}

} // verus!
