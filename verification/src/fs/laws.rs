//! What holds of a SimpleFS volume as a whole.

use vstd::prelude::*;
use crate::device::{BLOCK_SIZE, DeviceState};
use crate::fs::error::FsError;
use crate::fs::kagfat::lemma_simple_is_not_fat;
use crate::fs::layout::{
    EntryView, SuperblockView, entry_from, free_entry, lemma_superblock_round_trip,
    superblock_bytes, superblock_from, DATA_START_LBA, MAX_BLOCKS, MAX_FILES, SFS_MAGIC,
    SUPERBLOCK_LBA,
};
use crate::fs::lemmas::{
    apart, clear_of, describes, in_target, lemma_copy_sectors, lemma_name_field, lemma_name_unique,
    lemma_relocate_all, lemma_relocations, lemma_scan, lemma_scan_congruence, lemma_with_entry,
    lemma_write_elsewhere, movable, moved, moves, relocation_of,
};
use crate::fs::model::{
    Relocation, active_entries, blocks_for, compact, copy_sectors, create_outcome, delete_outcome, dir_lba,
    directory_status, entry_at, first_free, is_file, list_outcome, load_superblock, lookup, make_room, name_field, new_entry,
    padded, put_block, put_data, put_entry, read_entry, read_outcome, relocate, relocate_all,
    relocations, remove_outcome, return_sectors, scan, store_file, stores_name, uncount_file,
    valid_name, with_entry,
};

verus! {

/// The superblock of a volume.
pub open spec fn superblock(d: DeviceState) -> SuperblockView {
    superblock_from(d.blocks[SUPERBLOCK_LBA as int])
}

/// Slot `i` holds a file.
pub open spec fn active(d: DeviceState, i: int) -> bool {
    entry_at(d, i).in_use == 1
}

/// Sectors that the file in slot `i` takes.
pub open spec fn extent(d: DeviceState, i: int) -> int {
    blocks_for(entry_at(d, i).size as int)
}

/// Number of files in the first `n` slots.
pub open spec fn count_active(d: DeviceState, n: int) -> int
    decreases n,
{
    if n <= 0 {
        0
    } else {
        count_active(d, n - 1) + (if active(d, n - 1) {
            1int
        } else {
            0int
        })
    }
}

/// Number of sectors that the files in the first `n` slots take.
pub open spec fn total_extent(d: DeviceState, n: int) -> int
    decreases n,
{
    if n <= 0 {
        0
    } else {
        total_extent(d, n - 1) + (if active(d, n - 1) {
            extent(d, n - 1)
        } else {
            0int
        })
    }
}

/// No name occurs twice.
pub open spec fn names_differ(d: DeviceState) -> bool {
    forall|i: int, j: int, q: Seq<u8>|
        0 <= i < j < MAX_FILES && active(d, i) && active(d, j) && #[trigger] stores_name(
            entry_at(d, i).name,
            q,
        ) ==> !#[trigger] stores_name(entry_at(d, j).name, q)
}

/// Each slot is free, or holds a file whose sectors lie inside the used part of
/// the data area.
pub open spec fn entry_ok(d: DeviceState, i: int) -> bool {
    &&& entry_at(d, i).in_use <= 1
    &&& active(d, i) && extent(d, i) > 0 ==> DATA_START_LBA <= entry_at(d, i).start && entry_at(d, i).start + extent(
        d,
        i,
    ) <= superblock(d).next_free
}

/// A sound volume: formatted, files inside the data area and apart from each
/// other, no name twice, and a superblock that counts files and sectors right.
pub open spec fn consistent(d: DeviceState) -> bool {
    &&& d.wf()
    &&& d.blocks.len() >= DATA_START_LBA
    &&& superblock(d).magic == SFS_MAGIC
    &&& forall|i: int| 0 <= i < MAX_FILES ==> #[trigger] entry_ok(d, i)
    &&& forall|i: int, j: int|
        0 <= i < MAX_FILES && 0 <= j < MAX_FILES && i != j && active(d, i) && active(d, j) ==> apart(
            #[trigger] entry_at(d, i),
            #[trigger] entry_at(d, j),
        )
    &&& names_differ(d)
    &&& superblock(d).file_count == count_active(d, MAX_FILES as int)
    &&& superblock(d).next_free == DATA_START_LBA + total_extent(d, MAX_FILES as int)
}

/// Empty files, too, lie inside the used part of the data area, and none begins
/// inside another file.
pub open spec fn tidy(d: DeviceState) -> bool {
    &&& forall|i: int|
        0 <= i < MAX_FILES && active(d, i) ==> DATA_START_LBA <= (#[trigger] entry_at(d, i)).start
            && entry_at(d, i).start + extent(d, i) <= superblock(d).next_free
    &&& forall|i: int, j: int|
        0 <= i < MAX_FILES && 0 <= j < MAX_FILES && i != j && active(d, i) && active(d, j)
            ==> clear_of(#[trigger] entry_at(d, i), #[trigger] entry_at(d, j))
}

/// The files take no more sectors than a volume can have.
pub open spec fn within_capacity(d: DeviceState) -> bool {
    superblock(d).next_free <= MAX_BLOCKS
}

/// Where the file `e` begins after the `r` sectors at `bound` were freed.
pub open spec fn shifted(e: EntryView, bound: u64, r: int) -> EntryView {
    if e.in_use == 1 && e.start > bound && r > 0 {
        EntryView { start: (e.start - r) as u64, ..e }
    } else {
        e
    }
}

/// `d1` is `d` without the file in slot `i`, the files behind it moved down.
pub open spec fn without_file(d: DeviceState, d1: DeviceState, i: int) -> bool {
    let gone = entry_at(d, i);
    let r = extent(d, i);
    &&& d1.wf()
    &&& d1.nsid == d.nsid
    &&& d1.good == d.good
    &&& d1.blocks.len() == d.blocks.len()
    &&& superblock(d1) == (SuperblockView {
        next_free: (superblock(d).next_free - r) as u64,
        file_count: (superblock(d).file_count - 1) as u32,
        ..superblock(d)
    })
    &&& entry_at(d1, i) == free_entry()
    &&& forall|j: int|
        0 <= j < MAX_FILES && j != i ==> #[trigger] entry_at(d1, j) == shifted(
            entry_at(d, j),
            gone.start,
            r,
        )
    &&& forall|j: int|
        0 <= j < MAX_FILES && j != i && active(d, j) ==> read_entry(d1, #[trigger] entry_at(d1, j))
            == read_entry(d, entry_at(d, j))
}

/// Changing the superblock's sector leaves the directory alone.
pub proof fn lemma_put_superblock(d: DeviceState, sb: SuperblockView)
    requires
        d.wf(),
        d.blocks.len() >= DATA_START_LBA,
        sb.padding.len() == 492,
    ensures
        ({
            let d1 = d.write(SUPERBLOCK_LBA as int, superblock_bytes(sb));
            &&& d1.wf()
            &&& d1.nsid == d.nsid
            &&& d1.good == d.good
            &&& d1.blocks.len() == d.blocks.len()
            &&& superblock(d1) == sb
            &&& forall|j: int| 0 <= j < MAX_FILES ==> #[trigger] entry_at(d1, j) == entry_at(d, j)
            &&& forall|b: int| 0 < b < d.blocks.len() ==> #[trigger] d1.blocks[b] == d.blocks[b]
        }),
{
    lemma_superblock_round_trip(sb);
    lemma_write_elsewhere(d, SUPERBLOCK_LBA as int, superblock_bytes(sb));
}

/// A superblock that was read has its padding in full.
pub proof fn lemma_superblock_padding(d: DeviceState)
    requires
        d.wf(),
        d.blocks.len() >= 1,
    ensures
        superblock(d).padding.len() == 492,
{
    reveal(superblock_from);
}

/// Reading a file gives the same where its sectors hold the same and can be
/// read as well.
proof fn lemma_read_entry_moved(d: DeviceState, d1: DeviceState, e: EntryView, e1: EntryView)
    requires
        d.nsid == d1.nsid,
        e1.size == e.size,
        blocks_for(e.size as int) > 0 ==> d.reachable(e.start as int, blocks_for(e.size as int))
            == d1.reachable(e1.start as int, blocks_for(e.size as int)),
        d.reachable(e.start as int, blocks_for(e.size as int)) ==> forall|t: int|
            0 <= t < blocks_for(e.size as int) ==> #[trigger] d1.blocks[e1.start + t]
                == d.blocks[e.start + t],
    ensures
        read_entry(d1, e1) == read_entry(d, e),
{
    let n = blocks_for(e.size as int);
    if n > 0 && d.status(e.start as int, n) is Ok {
        assert(d1.bytes(e1.start as int, n) == d.bytes(e.start as int, n)) by {
            assert forall|i: int| 0 <= i < n * BLOCK_SIZE implies d1.bytes(e1.start as int, n)[i]
                == d.bytes(e.start as int, n)[i] by {
                let t = i / (BLOCK_SIZE as int);
                assert(d1.blocks[e1.start + t] == d.blocks[e.start + t]);
            }
        }
    }
}

/// Deleting a file from a sound volume takes that file out and keeps the
/// others.
pub proof fn lemma_delete_outcome(d: DeviceState, i: int)
    requires
        consistent(d),
        0 <= i < MAX_FILES,
        active(d, i),
        delete_outcome(d, i).0 is Ok,
    ensures
        without_file(d, delete_outcome(d, i).1, i),
{
    let e = entry_at(d, i);
    let r = extent(d, i);
    let d1 = with_entry(d, i, free_entry());
    assert(entry_ok(d, i));
    lemma_with_entry(d, i, free_entry());
    assert(superblock(d1) == superblock(d));
    lemma_superblock_padding(d);
    lemma_count_positive(d, MAX_FILES as int, i);
    let sb = superblock(d);
    let sb2 = SuperblockView { file_count: (sb.file_count - 1) as u32, ..sb };
    let d2 = uncount_file(d1).1;
    assert(d2 == d1.write(SUPERBLOCK_LBA as int, superblock_bytes(sb2)));
    lemma_put_superblock(d1, sb2);
    let end = delete_outcome(d, i).1;
    if r == 0 {
        assert(end == d2);
        assert forall|j: int| 0 <= j < MAX_FILES && j != i && active(d, j) implies read_entry(
            end,
            #[trigger] entry_at(end, j),
        ) == read_entry(d, entry_at(d, j)) by {
            assert(entry_ok(d, j));
            lemma_read_entry_moved(d, end, entry_at(d, j), entry_at(end, j));
        }
    } else {
        lemma_compact(d, d2, i);
    }
}

/// A file that is there is counted.
pub proof fn lemma_count_positive(d: DeviceState, n: int, i: int)
    requires
        0 <= i,
    ensures
        count_active(d, n) >= 0,
        total_extent(d, n) >= 0,
        i < n && active(d, i) ==> count_active(d, n) >= 1 && total_extent(d, n) >= extent(d, i),
        n >= 0 ==> count_active(d, n) <= n,
    decreases n,
{
    if n > 0 {
        lemma_count_positive(d, n - 1, i);
    }
}

/// The files that move when slot `i` is deleted can do so.
pub proof fn lemma_movable(d: DeviceState, d2: DeviceState, i: int)
    requires
        consistent(d),
        0 <= i < MAX_FILES,
        active(d, i),
        extent(d, i) > 0,
        d2.wf(),
        d2.blocks.len() == d.blocks.len(),
        entry_at(d2, i) == free_entry(),
        forall|j: int|
            0 <= j < MAX_FILES && j != i ==> #[trigger] entry_at(d2, j) == entry_at(d, j),
    ensures
        movable(d2, relocations(d2, entry_at(d, i).start, MAX_FILES as int), extent(d, i)),
{
    let bound = entry_at(d, i).start;
    let r = extent(d, i);
    let ms = relocations(d2, bound, MAX_FILES as int);
    lemma_relocations(d2, bound, MAX_FILES as int);
    assert(entry_ok(d, i));
    assert forall|a: int| 0 <= a < ms.len() implies {
        &&& blocks_for((#[trigger] ms[a]).size as int) > 0 ==> ms[a].start >= DATA_START_LBA + r
        &&& ms[a].index < MAX_FILES
        &&& ms[a].start == entry_at(d2, ms[a].index as int).start
        &&& ms[a].size == entry_at(d2, ms[a].index as int).size
    } by {
        assert(describes(d2, bound, MAX_FILES as int, ms[a]));
        let j = ms[a].index as int;
        assert(j != i);
        assert(active(d, j));
        assert(apart(entry_at(d, i), entry_at(d, j)));
    }
    assert forall|a: int, b: int| 0 <= a < b < ms.len() implies {
        &&& (#[trigger] ms[a]).index != (#[trigger] ms[b]).index
        &&& apart(entry_at(d2, ms[a].index as int), entry_at(d2, ms[b].index as int))
    } by {
        assert(describes(d2, bound, MAX_FILES as int, ms[a]));
        assert(describes(d2, bound, MAX_FILES as int, ms[b]));
        let j = ms[a].index as int;
        let k = ms[b].index as int;
        assert(j != i && k != i && active(d, j) && active(d, k));
        assert(apart(entry_at(d, j), entry_at(d, k)));
    }
}

/// Closing the gap that slot `i` leaves.
proof fn lemma_compact(d: DeviceState, d2: DeviceState, i: int)
    requires
        consistent(d),
        0 <= i < MAX_FILES,
        active(d, i),
        extent(d, i) > 0,
        d2.wf(),
        d2.nsid == d.nsid,
        d2.good == d.good,
        d2.blocks.len() == d.blocks.len(),
        superblock(d2) == (SuperblockView {
            file_count: (superblock(d).file_count - 1) as u32,
            ..superblock(d)
        }),
        entry_at(d2, i) == free_entry(),
        forall|j: int|
            0 <= j < MAX_FILES && j != i ==> #[trigger] entry_at(d2, j) == entry_at(d, j),
        forall|b: int|
            DATA_START_LBA <= b < d.blocks.len() ==> #[trigger] d2.blocks[b] == d.blocks[b],
        compact(d2, entry_at(d, i).start, extent(d, i)).0 is Ok,
    ensures
        without_file(d, compact(d2, entry_at(d, i).start, extent(d, i)).1, i),
{
    let bound = entry_at(d, i).start;
    let r = extent(d, i);
    let ms = relocations(d2, bound, MAX_FILES as int);
    let len = ms.len() as int;
    lemma_movable(d, d2, i);
    lemma_relocations(d2, bound, MAX_FILES as int);
    lemma_relocate_all(d2, d2, ms, r, 0);
    let d3 = relocate_all(d2, ms, r, 0).1;
    assert(moved(d2, d3, ms, r, len));
    lemma_superblock_padding(d3);
    assert(entry_ok(d, i));
    lemma_count_positive(d, MAX_FILES as int, i);
    let sb4 = SuperblockView {
        next_free: (superblock(d3).next_free - r) as u64,
        ..superblock(d3)
    };
    let end = return_sectors(d3, r).1;
    assert(end == d3.write(SUPERBLOCK_LBA as int, superblock_bytes(sb4)));
    lemma_put_superblock(d3, sb4);
    assert forall|j: int| 0 <= j < MAX_FILES && j != i implies #[trigger] entry_at(end, j)
        == shifted(entry_at(d, j), bound, r) && (active(d, j) ==> read_entry(end, entry_at(end, j))
        == read_entry(d, entry_at(d, j))) by {
        assert(entry_at(end, j) == entry_at(d3, j));
        let e = entry_at(d, j);
        let n = blocks_for(e.size as int);
        if moves(d2, bound, j) {
            assert(ms.contains(relocation_of(d2, j)));
            let a = choose|a: int| 0 <= a < ms.len() && ms[a] == relocation_of(d2, j);
            assert(entry_at(d3, ms[a].index as int).start == (ms[a].start - r) as u64);
            let e1 = entry_at(end, j);
            assert forall|t: int| 0 <= t < n implies #[trigger] end.blocks[e1.start + t]
                == d.blocks[e.start + t] by {
                assert(in_target(ms[a], r, e1.start + t));
                assert(d2.reachable(ms[a].start - r, n));
                assert(d2.reachable(ms[a].start as int, n));
                assert(d3.blocks[e1.start + t] == d2.blocks[e1.start + t + r]);
                assert(d2.blocks[e.start + t] == d.blocks[e.start + t]);
            }
            lemma_read_entry_moved(d, end, e, e1);
        } else {
            assert forall|a: int| 0 <= a < len implies (#[trigger] ms[a]).index != j by {
                assert(describes(d2, bound, MAX_FILES as int, ms[a]));
            }
            assert(entry_at(d3, j) == entry_at(d2, j));
            if active(d, j) {
                assert(entry_ok(d, j));
                assert(apart(entry_at(d, i), entry_at(d, j)));
                if d.reachable(e.start as int, n) {
                    assert forall|t: int| 0 <= t < n implies #[trigger] end.blocks[e.start + t]
                        == d.blocks[e.start + t] by {
                        let b = e.start + t;
                        assert forall|a: int| 0 <= a < len implies !#[trigger] in_target(
                            ms[a],
                            r,
                            b,
                        ) by {
                            assert(describes(d2, bound, MAX_FILES as int, ms[a]));
                            let k = ms[a].index as int;
                            assert(k != i && active(d, k));
                            assert(apart(entry_at(d, i), entry_at(d, k)));
                        }
                        assert(d3.blocks[b] == d2.blocks[b]);
                    }
                }
                lemma_read_entry_moved(d, end, e, e);
            }
        }
    }
    assert(entry_at(end, i) == free_entry()) by {
        assert forall|a: int| 0 <= a < len implies (#[trigger] ms[a]).index != i by {
            assert(describes(d2, bound, MAX_FILES as int, ms[a]));
        }
        assert(entry_at(d3, i) == entry_at(d2, i));
    }
}

/// Counting sees only which slots are active and how large their files are.
proof fn lemma_counts(d: DeviceState, d1: DeviceState, i: int, n: int)
    requires
        0 <= i,
        0 <= n <= MAX_FILES,
        forall|j: int|
            0 <= j < MAX_FILES && j != i ==> (#[trigger] entry_at(d1, j)).in_use == entry_at(d, j).in_use
                && entry_at(d1, j).size == entry_at(d, j).size,
    ensures
        count_active(d1, n) == count_active(d, n) + (if i < n {
            (if active(d1, i) { 1int } else { 0int }) - (if active(d, i) { 1int } else { 0int })
        } else {
            0
        }),
        total_extent(d1, n) == total_extent(d, n) + (if i < n {
            (if active(d1, i) { extent(d1, i) } else { 0int }) - (if active(d, i) {
                extent(d, i)
            } else {
                0int
            })
        } else {
            0
        }),
    decreases n,
{
    if n > 0 {
        lemma_counts(d, d1, i, n - 1);
        if n - 1 != i {
            assert(entry_at(d1, n - 1).in_use == entry_at(d, n - 1).in_use);
            assert(entry_at(d1, n - 1).size == entry_at(d, n - 1).size);
        }
    }
}

/// A sound volume stays sound when a file is deleted from it, a tidy one stays
/// tidy, and it takes no more sectors than before.
pub proof fn law_delete_keeps_consistent(d: DeviceState, i: int)
    requires
        consistent(d),
        0 <= i < MAX_FILES,
        delete_outcome(d, i).0 is Ok,
    ensures
        consistent(delete_outcome(d, i).1),
        tidy(d) ==> tidy(delete_outcome(d, i).1),
        superblock(delete_outcome(d, i).1).next_free <= superblock(d).next_free,
{
    let end = delete_outcome(d, i).1;
    assert(entry_ok(d, i));
    if active(d, i) {
        lemma_delete_outcome(d, i);
        lemma_without_file_consistent(d, end, i);
        if tidy(d) {
            lemma_without_file_tidy(d, end, i);
        }
    }
}

/// Closing a gap leaves no empty file behind the used part or inside another
/// file.
proof fn lemma_without_file_tidy(d: DeviceState, end: DeviceState, i: int)
    requires
        consistent(d),
        tidy(d),
        0 <= i < MAX_FILES,
        active(d, i),
        without_file(d, end, i),
    ensures
        tidy(end),
{
    let gone = entry_at(d, i);
    let r = extent(d, i);
    lemma_count_positive(d, MAX_FILES as int, i);
    assert forall|j: int| 0 <= j < MAX_FILES && active(end, j) implies DATA_START_LBA
        <= (#[trigger] entry_at(end, j)).start && entry_at(end, j).start + extent(end, j)
        <= superblock(end).next_free by {
        assert(j != i);
        assert(entry_at(end, j) == shifted(entry_at(d, j), gone.start, r));
        assert(clear_of(entry_at(d, i), entry_at(d, j)));
        assert(DATA_START_LBA <= gone.start && gone.start + r <= superblock(d).next_free);
    }
    assert forall|j: int, k: int|
        0 <= j < MAX_FILES && 0 <= k < MAX_FILES && j != k && active(end, j) && active(
            end,
            k,
        ) implies clear_of(#[trigger] entry_at(end, j), #[trigger] entry_at(end, k)) by {
        assert(j != i && k != i);
        assert(entry_at(end, j) == shifted(entry_at(d, j), gone.start, r));
        assert(entry_at(end, k) == shifted(entry_at(d, k), gone.start, r));
        assert(clear_of(entry_at(d, j), entry_at(d, k)));
        assert(clear_of(entry_at(d, i), entry_at(d, j)));
        assert(clear_of(entry_at(d, i), entry_at(d, k)));
    }
}

/// Moving the files behind slot `i` down over it keeps them behind the
/// directory.
pub open spec fn moves_within_data(d: DeviceState, i: int) -> bool {
    forall|j: int|
        0 <= j < MAX_FILES && active(d, j) && extent(d, j) > 0 && (#[trigger] entry_at(d, j)).start
            > entry_at(d, i).start ==> entry_at(d, j).start - extent(d, i) >= DATA_START_LBA
}

/// On a sound volume no file moves out of the data area.
pub proof fn law_sound_volume_moves_within_data(d: DeviceState, i: int)
    requires
        consistent(d),
        0 <= i < MAX_FILES,
        active(d, i),
    ensures
        moves_within_data(d, i),
{
    assert(entry_ok(d, i));
    assert forall|j: int|
        0 <= j < MAX_FILES && active(d, j) && extent(d, j) > 0 && (#[trigger] entry_at(d, j)).start
            > entry_at(d, i).start implies entry_at(d, j).start - extent(d, i) >= DATA_START_LBA by {
        assert(entry_ok(d, j));
        assert(apart(entry_at(d, i), entry_at(d, j)));
    }
}

/// Moving files within the data area leaves the entries of all others.
proof fn lemma_relocations_keep_slot(
    d: DeviceState,
    ms: Seq<Relocation>,
    r: int,
    k: int,
    i: int,
)
    requires
        d.wf(),
        d.blocks.len() >= DATA_START_LBA,
        0 <= i < MAX_FILES,
        0 <= k,
        0 < r,
        forall|a: int|
            0 <= a < ms.len() ==> (#[trigger] ms[a]).index != i && ms[a].index < MAX_FILES
                && (blocks_for(ms[a].size as int) > 0 ==> ms[a].start - r >= DATA_START_LBA),
        relocate_all(d, ms, r, k).0 is Ok,
    ensures
        ({
            let end = relocate_all(d, ms, r, k).1;
            &&& end.wf()
            &&& end.nsid == d.nsid
            &&& end.good == d.good
            &&& end.blocks.len() == d.blocks.len()
            &&& entry_at(end, i) == entry_at(d, i)
        }),
    decreases ms.len() - k,
{
    if k < ms.len() {
        let m = ms[k];
        let n = blocks_for(m.size as int);
        let d1 = copy_sectors(d, m.start as int, m.start - r, 0, n).1;
        if n > 0 {
            lemma_copy_sectors(d, m.start as int, m.start - r, 0, n);
        }
        assert(dir_lba(i) < DATA_START_LBA);
        assert(d1.blocks[dir_lba(i)] == d.blocks[dir_lba(i)]);
        assert(entry_at(d1, i) == entry_at(d, i));
        let x = m.index as int;
        let e = EntryView { start: (m.start - r) as u64, ..entry_at(d1, x) };
        assert(dir_lba(x) < DATA_START_LBA);
        assert(e.name.len() == 47) by {
            reveal(entry_from);
            assert(d1.blocks[dir_lba(x)].len() == BLOCK_SIZE);
        }
        lemma_with_entry(d1, x, e);
        let d2 = with_entry(d1, x, e);
        assert(relocate(d, m, r).1 == d2);
        lemma_relocations_keep_slot(d2, ms, r, k + 1, i);
    }
}

/// Deleting a slot a second time finds it free and leaves the volume as the
/// first time left it.
pub proof fn law_delete_again(d: DeviceState, i: int)
    requires
        d.wf(),
        d.blocks.len() >= DATA_START_LBA,
        0 <= i < MAX_FILES,
        entry_at(d, i).in_use != 0 ==> moves_within_data(d, i),
        delete_outcome(d, i).0 is Ok,
    ensures
        delete_outcome(delete_outcome(d, i).1, i) == (
            Ok::<(), FsError>(()),
            delete_outcome(d, i).1,
        ),
{
    let end = delete_outcome(d, i).1;
    let e = entry_at(d, i);
    let r = extent(d, i);
    if e.in_use != 0 {
        assert(dir_lba(i) < DATA_START_LBA);
        let d1 = with_entry(d, i, free_entry());
        lemma_with_entry(d, i, free_entry());
        assert(superblock(d1) == superblock(d));
        lemma_superblock_padding(d);
        let d2 = uncount_file(d1).1;
        lemma_put_superblock(
            d1,
            SuperblockView {
                file_count: (superblock(d).file_count - 1) as u32,
                ..superblock(d)
            },
        );
        assert(entry_at(d2, i) == free_entry());
        assert forall|j: int| 0 <= j < MAX_FILES && j != i implies #[trigger] entry_at(d2, j)
            == entry_at(d, j) by {
            assert(dir_lba(j) < DATA_START_LBA);
            assert(entry_at(d1, j) == entry_at(d, j));
        }
        if r > 0 {
            let ms = relocations(d2, e.start, MAX_FILES as int);
            lemma_relocations(d2, e.start, MAX_FILES as int);
            assert forall|a: int| 0 <= a < ms.len() implies (#[trigger] ms[a]).index != i
                && ms[a].index < MAX_FILES && (blocks_for(ms[a].size as int) > 0 ==> ms[a].start - r
                >= DATA_START_LBA) by {
                assert(describes(d2, e.start, MAX_FILES as int, ms[a]));
                assert(entry_at(d2, ms[a].index as int) == entry_at(d, ms[a].index as int));
            }
            lemma_relocations_keep_slot(d2, ms, r, 0, i);
            let d3 = relocate_all(d2, ms, r, 0).1;
            lemma_superblock_padding(d3);
            lemma_put_superblock(
                d3,
                SuperblockView {
                    next_free: (superblock(d3).next_free - r) as u64,
                    ..superblock(d3)
                },
            );
            assert(entry_at(end, i) == entry_at(d3, i));
        }
        assert(entry_at(end, i).in_use == 0);
        assert(end.status(dir_lba(i), 1) == d.status(dir_lba(i), 1));
    }
}

proof fn lemma_without_file_consistent(d: DeviceState, end: DeviceState, i: int)
    requires
        consistent(d),
        0 <= i < MAX_FILES,
        active(d, i),
        without_file(d, end, i),
    ensures
        consistent(end),
{
    let gone = entry_at(d, i);
    let r = extent(d, i);
    assert(entry_ok(d, i));
    lemma_count_positive(d, MAX_FILES as int, i);
    lemma_counts(d, end, i, MAX_FILES as int);
    assert forall|j: int| 0 <= j < MAX_FILES implies #[trigger] entry_ok(end, j) by {
        assert(entry_ok(d, j));
        if j != i {
            assert(entry_at(end, j) == shifted(entry_at(d, j), gone.start, r));
            if active(d, j) && extent(d, j) > 0 {
                assert(apart(entry_at(d, i), entry_at(d, j)));
                lemma_fits_after_removal(d, i, j);
            }
        }
    }
    assert forall|j: int, k: int|
        0 <= j < MAX_FILES && 0 <= k < MAX_FILES && j != k && active(end, j) && active(end, k) implies apart(
        #[trigger] entry_at(end, j),
        #[trigger] entry_at(end, k),
    ) by {
        assert(j != i && k != i);
        assert(entry_at(end, j) == shifted(entry_at(d, j), gone.start, r));
        assert(entry_at(end, k) == shifted(entry_at(d, k), gone.start, r));
        assert(apart(entry_at(d, j), entry_at(d, k)));
        assert(apart(entry_at(d, i), entry_at(d, j)));
        assert(apart(entry_at(d, i), entry_at(d, k)));
    }
    assert(names_differ(end)) by {
        assert forall|j: int, k: int, q: Seq<u8>|
            0 <= j < k < MAX_FILES && active(end, j) && active(end, k) && #[trigger] stores_name(
                entry_at(end, j).name,
                q,
            ) implies !#[trigger] stores_name(entry_at(end, k).name, q) by {
            assert(j != i && k != i);
            assert(entry_at(end, j).name == entry_at(d, j).name);
            assert(entry_at(end, k).name == entry_at(d, k).name);
            assert(stores_name(entry_at(d, j).name, q));
            assert(active(d, j) && active(d, k));
        }
    }
}

/// A file that ends behind a deleted one ends `r` sectors before the end of
/// the used area; one before it leaves room for what is behind.
proof fn lemma_fits_after_removal(d: DeviceState, i: int, j: int)
    requires
        consistent(d),
        0 <= i < MAX_FILES,
        0 <= j < MAX_FILES,
        i != j,
        active(d, i),
        active(d, j),
        extent(d, j) > 0,
    ensures
        entry_at(d, j).start <= entry_at(d, i).start || extent(d, i) == 0 ==> entry_at(d, j).start
            + extent(d, j) <= superblock(d).next_free - extent(d, i),
{
    assert(entry_ok(d, i));
    assert(entry_ok(d, j));
    assert(apart(entry_at(d, i), entry_at(d, j)));
}

/// The name holds no zero byte, which would end it early on disk.
pub open spec fn no_zero(q: Seq<u8>) -> bool {
    forall|i: int| 0 <= i < q.len() ==> #[trigger] q[i] != 0
}

/// Looking a name up sees only names and which slots are active.
proof fn lemma_lookup_congruence(d: DeviceState, d1: DeviceState, p: Seq<u8>)
    requires
        d.nsid == d1.nsid,
        d.good == d1.good,
        d.blocks.len() == d1.blocks.len(),
        forall|j: int|
            0 <= j < MAX_FILES ==> is_file(#[trigger] entry_at(d1, j), p) == is_file(
                entry_at(d, j),
                p,
            ),
    ensures
        lookup(d1, p) == lookup(d, p),
{
    let hit = |e: EntryView| is_file(e, p);
    lemma_scan_congruence(d, d1, hit, 0);
}

/// Deleting slot `i` does not change what any other file reads as.
proof fn lemma_others_after_delete(d: DeviceState, end: DeviceState, i: int, q: Seq<u8>, p: Seq<u8>)
    requires
        consistent(d),
        0 <= i < MAX_FILES,
        is_file(entry_at(d, i), q),
        without_file(d, end, i),
        p != q,
    ensures
        read_outcome(end, p) == read_outcome(d, p),
{
    lemma_simple_is_not_fat(d);
    lemma_simple_is_not_fat(end);
    assert forall|j: int| 0 <= j < MAX_FILES implies is_file(#[trigger] entry_at(end, j), p) == is_file(
        entry_at(d, j),
        p,
    ) by {
        if j == i {
            if is_file(entry_at(d, i), p) {
                lemma_name_unique(entry_at(d, i).name, p, q);
            }
        } else {
            assert(entry_at(end, j) == shifted(
                entry_at(d, j),
                entry_at(d, i).start,
                extent(d, i),
            ));
        }
    }
    lemma_lookup_congruence(d, end, p);
    let hit = |e: EntryView| is_file(e, p);
    lemma_scan(d, hit, 0);
    if let Ok(Some(k)) = lookup(d, p) {
        assert(is_file(entry_at(d, k as int), p));
        assert(k != i) by {
            if k == i {
                lemma_name_unique(entry_at(d, i).name, p, q);
            }
        }
        assert(active(d, k as int));
        assert(read_entry(end, entry_at(end, k as int)) == read_entry(d, entry_at(d, k as int)));
    }
}

/// After a deletion the file is gone and every other file reads as before.
pub proof fn law_delete_removes_one_file(d: DeviceState, q: Seq<u8>, p: Seq<u8>)
    requires
        consistent(d),
        remove_outcome(d, q).0 is Ok,
    ensures
        consistent(remove_outcome(d, q).1),
        p != q ==> read_outcome(remove_outcome(d, q).1, p) == read_outcome(d, p),
        directory_status(d) is Ok ==> read_outcome(remove_outcome(d, q).1, q) == Err::<
            Seq<u8>,
            FsError,
        >(FsError::FileNotFound),
{
    lemma_simple_is_not_fat(d);
    let end = remove_outcome(d, q).1;
    let hit = |e: EntryView| is_file(e, q);
    lemma_scan(d, hit, 0);
    let i = lookup(d, q)->Ok_0->Some_0 as int;
    assert(is_file(entry_at(d, i), q));
    lemma_delete_outcome(d, i);
    law_delete_keeps_consistent(d, i);
    if p != q {
        lemma_others_after_delete(d, end, i, q, p);
    }
    if directory_status(d) is Ok {
        lemma_gone_after_delete(d, end, i, q);
        lemma_not_found(end, q);
        lemma_simple_is_not_fat(end);
    }
}

/// Deleting a name a second time finds no such file and leaves the volume as
/// the first time left it.
pub proof fn law_remove_again(d: DeviceState, q: Seq<u8>)
    requires
        consistent(d),
        directory_status(d) is Ok,
        remove_outcome(d, q).0 is Ok,
    ensures
        remove_outcome(remove_outcome(d, q).1, q) == (
            Err::<(), FsError>(FsError::FileNotFound),
            remove_outcome(d, q).1,
        ),
{
    lemma_simple_is_not_fat(d);
    let end = remove_outcome(d, q).1;
    let hit = |e: EntryView| is_file(e, q);
    lemma_scan(d, hit, 0);
    let i = lookup(d, q)->Ok_0->Some_0 as int;
    assert(is_file(entry_at(d, i), q));
    lemma_delete_outcome(d, i);
    law_delete_keeps_consistent(d, i);
    lemma_gone_after_delete(d, end, i, q);
    lemma_not_found(end, q);
    lemma_simple_is_not_fat(end);
}

/// No slot holds a file named `q`.
pub open spec fn absent(d: DeviceState, q: Seq<u8>) -> bool {
    forall|j: int| 0 <= j < MAX_FILES ==> !is_file(#[trigger] entry_at(d, j), q)
}

pub proof fn lemma_gone_after_delete(d: DeviceState, end: DeviceState, i: int, q: Seq<u8>)
    requires
        consistent(d),
        0 <= i < MAX_FILES,
        is_file(entry_at(d, i), q),
        without_file(d, end, i),
    ensures
        absent(end, q),
        directory_status(d) is Ok ==> directory_status(end) is Ok,
{
    assert forall|j: int| 0 <= j < MAX_FILES implies !is_file(#[trigger] entry_at(end, j), q) by {
        if j != i {
            assert(entry_at(end, j) == shifted(
                entry_at(d, j),
                entry_at(d, i).start,
                extent(d, i),
            ));
            if is_file(entry_at(d, j), q) {
                assert(active(d, i) && active(d, j));
                assert(stores_name(entry_at(d, i).name, q) && stores_name(entry_at(d, j).name, q));
            }
        }
    }
    let none = |e: EntryView| false;
    lemma_scan_congruence(d, end, none, 0);
}

/// A search for a name that no slot holds comes back empty.
pub proof fn lemma_not_found(d: DeviceState, q: Seq<u8>)
    requires
        absent(d, q),
        directory_status(d) is Ok,
    ensures
        lookup(d, q) == Ok::<Option<usize>, FsError>(None),
{
    let hit = |e: EntryView| is_file(e, q);
    let none = |e: EntryView| false;
    lemma_scan_same_outcome(d, hit, none, 0);
    lemma_scan(d, none, 0);
}

proof fn lemma_scan_same_outcome(
    d: DeviceState,
    hit: spec_fn(EntryView) -> bool,
    other: spec_fn(EntryView) -> bool,
    i: int,
)
    requires
        0 <= i,
        forall|j: int| i <= j < MAX_FILES ==> hit(#[trigger] entry_at(d, j)) == other(entry_at(d, j)),
    ensures
        scan(d, hit, i) == scan(d, other, i),
    decreases MAX_FILES - i,
{
    if i < MAX_FILES {
        assert(hit(entry_at(d, i)) == other(entry_at(d, i)));
        lemma_scan_same_outcome(d, hit, other, i + 1);
    }
}

// ---------------------------------------------------------------------------
// Creating
// ---------------------------------------------------------------------------

/// Writing new contents behind the used area touches nothing before it, and
/// they read back.
pub proof fn lemma_put_data(d: DeviceState, start: int, data: Seq<u8>)
    requires
        d.wf(),
        d.blocks.len() >= DATA_START_LBA,
        start >= DATA_START_LBA,
        put_data(d, start, data).0 is Ok,
    ensures
        ({
            let d1 = put_data(d, start, data).1;
            let n = blocks_for(data.len() as int);
            &&& d1.wf()
            &&& d1.nsid == d.nsid
            &&& d1.good == d.good
            &&& d1.blocks.len() == d.blocks.len()
            &&& forall|b: int|
                0 <= b < d.blocks.len() && b < start ==> #[trigger] d1.blocks[b] == d.blocks[b]
            &&& n > 0 ==> d.status(start, n) is Ok
            &&& n > 0 ==> d1.bytes(start, n) == padded(data)
        }),
{
    let n = blocks_for(data.len() as int);
    if n > 0 {
        let d1 = put_data(d, start, data).1;
        assert(padded(data).len() == n * BLOCK_SIZE);
        assert forall|b: int| 0 <= b < d1.blocks.len() implies (#[trigger] d1.blocks[b]).len()
            == BLOCK_SIZE by {}
        assert forall|i: int| 0 <= i < n * BLOCK_SIZE implies d1.bytes(start, n)[i] == padded(
            data,
        )[i] by {
            let t = i / (BLOCK_SIZE as int);
            assert(0 <= t < n);
            assert(d1.blocks[start + t] == padded(data).subrange(
                t * BLOCK_SIZE,
                (t + 1) * BLOCK_SIZE,
            ));
        }
        assert(d1.bytes(start, n) == padded(data));
    }
}

/// `d1` is `d` with one more file, `q` with the contents `data`, in slot `f`.
pub open spec fn with_file(
    d: DeviceState,
    d1: DeviceState,
    f: int,
    q: Seq<u8>,
    data: Seq<u8>,
) -> bool {
    let n = blocks_for(data.len() as int);
    &&& d1.wf()
    &&& d1.nsid == d.nsid
    &&& d1.good == d.good
    &&& d1.blocks.len() == d.blocks.len()
    &&& superblock(d1) == (SuperblockView {
        next_free: (superblock(d).next_free + n) as u64,
        file_count: (superblock(d).file_count + 1) as u32,
        ..superblock(d)
    })
    &&& entry_at(d1, f) == new_entry(q, superblock(d).next_free, data.len() as int)
    &&& read_entry(d1, entry_at(d1, f)) == Ok::<Seq<u8>, FsError>(data)
    &&& forall|j: int|
        0 <= j < MAX_FILES && j != f ==> #[trigger] entry_at(d1, j) == entry_at(d, j)
    &&& forall|j: int|
        0 <= j < MAX_FILES && j != f && active(d, j) ==> read_entry(d1, #[trigger] entry_at(d1, j))
            == read_entry(d, entry_at(d, j))
}

pub proof fn lemma_store_file(d: DeviceState, f: int, q: Seq<u8>, data: Seq<u8>)
    requires
        consistent(d),
        0 <= f < MAX_FILES,
        entry_at(d, f).in_use == 0,
        q.len() <= 46,
        superblock(d).next_free + blocks_for(data.len() as int) <= MAX_BLOCKS,
        store_file(d, superblock(d), f, q, data).0 is Ok,
    ensures
        with_file(d, store_file(d, superblock(d), f, q, data).1, f, q, data),
{
    let sb = superblock(d);
    let n = blocks_for(data.len() as int);
    lemma_count_positive(d, MAX_FILES as int, 0);
    lemma_superblock_padding(d);
    let d1 = put_data(d, sb.next_free as int, data).1;
    lemma_put_data(d, sb.next_free as int, data);
    assert forall|j: int| 0 <= j < MAX_FILES implies #[trigger] entry_at(d1, j) == entry_at(d, j) by {
        assert(d1.blocks[dir_lba(j)] == d.blocks[dir_lba(j)]);
    }
    assert(superblock(d1) == sb);
    let e = new_entry(q, sb.next_free, data.len() as int);
    lemma_with_entry(d1, f, e);
    let d2 = put_entry(d1, f, e).1;
    let sb3 = SuperblockView {
        next_free: (sb.next_free + n) as u64,
        file_count: (sb.file_count + 1) as u32,
        ..sb
    };
    lemma_put_superblock(d2, sb3);
    let end = store_file(d, sb, f, q, data).1;
    assert(end == d2.write(SUPERBLOCK_LBA as int, superblock_bytes(sb3)));
    assert(read_entry(end, e) == Ok::<Seq<u8>, FsError>(data)) by {
        if n > 0 {
            assert(end.bytes(sb.next_free as int, n) == d1.bytes(sb.next_free as int, n)) by {
                assert forall|i: int| 0 <= i < n * BLOCK_SIZE implies end.bytes(
                    sb.next_free as int,
                    n,
                )[i] == d1.bytes(sb.next_free as int, n)[i] by {
                    let b = sb.next_free + i / (BLOCK_SIZE as int);
                    assert(d.reachable(sb.next_free as int, n));
                    assert(end.blocks[b] == d2.blocks[b]);
                    assert(d2.blocks[b] == d1.blocks[b]);
                }
            }
            assert(padded(data).subrange(0, data.len() as int) == data);
        } else {
            assert(data == Seq::<u8>::empty());
        }
    }
    assert forall|j: int| 0 <= j < MAX_FILES && j != f implies #[trigger] entry_at(end, j)
        == entry_at(d, j) && (active(d, j) ==> read_entry(end, entry_at(end, j)) == read_entry(
        d,
        entry_at(d, j),
    )) by {
        if active(d, j) {
            assert(entry_ok(d, j));
            let e1 = entry_at(d, j);
            if d.reachable(e1.start as int, blocks_for(e1.size as int)) {
                assert forall|t: int| 0 <= t < blocks_for(e1.size as int) implies
                    #[trigger] end.blocks[e1.start + t] == d.blocks[e1.start + t] by {
                    let b = e1.start + t;
                    assert(end.blocks[b] == d2.blocks[b]);
                    assert(d2.blocks[b] == d1.blocks[b]);
                }
            }
            lemma_read_entry_moved(d, end, e1, e1);
        }
    }
}

proof fn lemma_with_file_consistent(
    d: DeviceState,
    end: DeviceState,
    f: int,
    q: Seq<u8>,
    data: Seq<u8>,
)
    requires
        consistent(d),
        0 <= f < MAX_FILES,
        entry_at(d, f).in_use == 0,
        1 <= q.len() <= 46,
        no_zero(q),
        absent(d, q),
        superblock(d).next_free + blocks_for(data.len() as int) <= MAX_BLOCKS,
        with_file(d, end, f, q, data),
    ensures
        consistent(end),
{
    lemma_count_positive(d, MAX_FILES as int, f);
    lemma_counts(d, end, f, MAX_FILES as int);
    lemma_name_field(q);
    assert forall|j: int| 0 <= j < MAX_FILES implies #[trigger] entry_ok(end, j) by {
        assert(entry_ok(d, j));
        if j != f {
            assert(entry_at(end, j) == entry_at(d, j));
        }
    }
    assert forall|j: int, k: int|
        0 <= j < MAX_FILES && 0 <= k < MAX_FILES && j != k && active(end, j) && active(end, k) implies apart(
        #[trigger] entry_at(end, j),
        #[trigger] entry_at(end, k),
    ) by {
        assert(entry_ok(d, j));
        assert(entry_ok(d, k));
        if j != f && k != f {
            assert(entry_at(end, j) == entry_at(d, j));
            assert(entry_at(end, k) == entry_at(d, k));
            assert(apart(entry_at(d, j), entry_at(d, k)));
        }
    }
    assert forall|j: int, k: int, p: Seq<u8>|
        0 <= j < k < MAX_FILES && active(end, j) && active(end, k) && #[trigger] stores_name(
            entry_at(end, j).name,
            p,
        ) implies !#[trigger] stores_name(entry_at(end, k).name, p) by {
        if stores_name(entry_at(end, k).name, p) {
            if j == f {
                lemma_name_unique(name_field(q), p, q);
                assert(entry_at(end, k) == entry_at(d, k));
                assert(!is_file(entry_at(d, k), q));
            } else if k == f {
                lemma_name_unique(name_field(q), p, q);
                assert(entry_at(end, j) == entry_at(d, j));
                assert(!is_file(entry_at(d, j), q));
            } else {
                assert(entry_at(end, j) == entry_at(d, j));
                assert(entry_at(end, k) == entry_at(d, k));
                assert(active(d, j) && active(d, k));
            }
        }
    }
    assert(names_differ(end));
}

/// Adding a file behind all others leaves every file in place.
proof fn lemma_with_file_tidy(
    d: DeviceState,
    end: DeviceState,
    f: int,
    q: Seq<u8>,
    data: Seq<u8>,
)
    requires
        consistent(d),
        tidy(d),
        0 <= f < MAX_FILES,
        superblock(d).next_free + blocks_for(data.len() as int) <= MAX_BLOCKS,
        with_file(d, end, f, q, data),
    ensures
        tidy(end),
{
    lemma_count_positive(d, MAX_FILES as int, f);
    assert forall|j: int| 0 <= j < MAX_FILES && active(end, j) implies DATA_START_LBA
        <= (#[trigger] entry_at(end, j)).start && entry_at(end, j).start + extent(end, j)
        <= superblock(end).next_free by {
        if j != f {
            assert(entry_at(end, j) == entry_at(d, j));
        }
    }
    assert forall|j: int, k: int|
        0 <= j < MAX_FILES && 0 <= k < MAX_FILES && j != k && active(end, j) && active(
            end,
            k,
        ) implies clear_of(#[trigger] entry_at(end, j), #[trigger] entry_at(end, k)) by {
        if j != f {
            assert(entry_at(end, j) == entry_at(d, j));
        }
        if k != f {
            assert(entry_at(end, k) == entry_at(d, k));
        }
        if j != f && k != f {
            assert(clear_of(entry_at(d, j), entry_at(d, k)));
        }
    }
}

/// Adding a file does not change what any other file reads as.
proof fn lemma_others_after_add(
    d: DeviceState,
    end: DeviceState,
    f: int,
    q: Seq<u8>,
    data: Seq<u8>,
    p: Seq<u8>,
)
    requires
        consistent(d),
        0 <= f < MAX_FILES,
        entry_at(d, f).in_use == 0,
        q.len() <= 46,
        no_zero(q),
        with_file(d, end, f, q, data),
        p != q,
    ensures
        read_outcome(end, p) == read_outcome(d, p),
{
    lemma_simple_is_not_fat(d);
    lemma_simple_is_not_fat(end);
    lemma_name_field(q);
    assert forall|j: int| 0 <= j < MAX_FILES implies is_file(#[trigger] entry_at(end, j), p) == is_file(
        entry_at(d, j),
        p,
    ) by {
        if j == f {
            if stores_name(name_field(q), p) {
                lemma_name_unique(name_field(q), p, q);
            }
        } else {
            assert(entry_at(end, j) == entry_at(d, j));
        }
    }
    lemma_lookup_congruence(d, end, p);
    let hit = |e: EntryView| is_file(e, p);
    lemma_scan(d, hit, 0);
    if let Ok(Some(k)) = lookup(d, p) {
        assert(is_file(entry_at(d, k as int), p));
        assert(active(d, k as int));
        assert(read_entry(end, entry_at(end, k as int)) == read_entry(d, entry_at(d, k as int)));
    }
}

/// What stands after the old file, if there was one, has been removed: a sound
/// volume without a file named `q`, every other file as before.
pub proof fn lemma_make_room(d: DeviceState, q: Seq<u8>, p: Seq<u8>)
    requires
        consistent(d),
        make_room(d, q).0 is Ok,
    ensures
        ({
            let (sb, d1) = make_room(d, q);
            &&& consistent(d1)
            &&& tidy(d) ==> tidy(d1)
            &&& superblock(d1).next_free <= superblock(d).next_free
            &&& sb == Ok::<SuperblockView, FsError>(superblock(d1))
            &&& absent(d1, q)
            &&& p != q ==> read_outcome(d1, p) == read_outcome(d, p)
        }),
{
    let hit = |e: EntryView| is_file(e, q);
    lemma_scan(d, hit, 0);
    match lookup(d, q) {
        Ok(Some(i)) => {
            assert(is_file(entry_at(d, i as int), q));
            let end = delete_outcome(d, i as int).1;
            lemma_delete_outcome(d, i as int);
            law_delete_keeps_consistent(d, i as int);
            lemma_gone_after_delete(d, end, i as int, q);
            if p != q {
                lemma_others_after_delete(d, end, i as int, q, p);
            }
        },
        _ => {
            assert forall|j: int| 0 <= j < MAX_FILES implies !is_file(
                #[trigger] entry_at(d, j),
                q,
            ) by {
                assert(!hit(entry_at(d, j)));
            }
        },
    }
}

/// A file that was created reads back as it was written, every other file
/// reads as before, and the volume stays sound.
pub proof fn law_create_then_read(d: DeviceState, q: Seq<u8>, data: Seq<u8>, p: Seq<u8>)
    requires
        consistent(d),
        no_zero(q),
        create_outcome(d, q, data).0 is Ok,
    ensures
        consistent(create_outcome(d, q, data).1),
        read_outcome(create_outcome(d, q, data).1, q) == Ok::<Seq<u8>, FsError>(data),
        p != q ==> read_outcome(create_outcome(d, q, data).1, p) == read_outcome(d, p),
{
    lemma_make_room(d, q, p);
    let d1 = make_room(d, q).1;
    let sb = superblock(d1);
    let end = create_outcome(d, q, data).1;
    let free = |e: EntryView| e.in_use == 0;
    lemma_scan(d1, free, 0);
    let f = first_free(d1)->Ok_0->Some_0 as int;
    assert(free(entry_at(d1, f)));
    lemma_store_file(d1, f, q, data);
    lemma_with_file_consistent(d1, end, f, q, data);
    if p != q {
        lemma_others_after_add(d1, end, f, q, data, p);
    }
    lemma_found_after_add(d1, end, f, q, data);
}

/// A sound volume stays sound when a file is created on it, and also where
/// there is no room for the file or its name is refused; a tidy one stays tidy,
/// and the capacity is not exceeded.
pub proof fn law_create_keeps_consistent(d: DeviceState, q: Seq<u8>, data: Seq<u8>)
    requires
        consistent(d),
        no_zero(q),
        ({
            let r = create_outcome(d, q, data).0;
            r is Ok || r == Err::<(), FsError>(FsError::NoSpace) || r == Err::<(), FsError>(
                FsError::InvalidArgument,
            )
        }),
    ensures
        consistent(create_outcome(d, q, data).1),
        tidy(d) ==> tidy(create_outcome(d, q, data).1),
        within_capacity(d) ==> within_capacity(create_outcome(d, q, data).1),
        create_outcome(d, q, data).0 is Ok ==> within_capacity(create_outcome(d, q, data).1),
{
    let (r, end) = create_outcome(d, q, data);
    if valid_name(q) {
        lemma_make_room_errors(d, q);
        lemma_make_room(d, q, q);
        let d1 = make_room(d, q).1;
        let free = |e: EntryView| e.in_use == 0;
        lemma_scan(d1, free, 0);
        if let Ok(Some(f)) = first_free(d1) {
            lemma_store_errors(d1, superblock(d1), f as int, q, data);
            if r is Ok {
                assert(free(entry_at(d1, f as int)));
                lemma_store_file(d1, f as int, q, data);
                lemma_with_file_consistent(d1, end, f as int, q, data);
                if tidy(d) {
                    lemma_with_file_tidy(d1, end, f as int, q, data);
                }
            }
        }
    }
}

/// The new file is found in its slot.
proof fn lemma_found_after_add(
    d: DeviceState,
    end: DeviceState,
    f: int,
    q: Seq<u8>,
    data: Seq<u8>,
)
    requires
        consistent(d),
        valid_name(q),
        no_zero(q),
        absent(d, q),
        first_free(d) == Ok::<Option<usize>, FsError>(Some(f as usize)),
        0 <= f < MAX_FILES,
        with_file(d, end, f, q, data),
    ensures
        lookup(end, q) == Ok::<Option<usize>, FsError>(Some(f as usize)),
        read_outcome(end, q) == Ok::<Seq<u8>, FsError>(data),
{
    lemma_simple_is_not_fat(end);
    lemma_name_field(q);
    let free = |e: EntryView| e.in_use == 0;
    let hit = |e: EntryView| is_file(e, q);
    lemma_search_reaches(d, end, free, hit, f, 0);
}

proof fn lemma_search_reaches(
    d: DeviceState,
    end: DeviceState,
    free: spec_fn(EntryView) -> bool,
    hit: spec_fn(EntryView) -> bool,
    f: int,
    i: int,
)
    requires
        0 <= i <= f < MAX_FILES,
        d.nsid == end.nsid,
        d.good == end.good,
        d.blocks.len() == end.blocks.len(),
        scan(d, free, i) == Ok::<Option<usize>, FsError>(Some(f as usize)),
        forall|j: int| 0 <= j < MAX_FILES && j != f ==> !hit(#[trigger] entry_at(end, j)),
        hit(entry_at(end, f)),
    ensures
        scan(end, hit, i) == Ok::<Option<usize>, FsError>(Some(f as usize)),
    decreases f - i,
{
    assert(d.status(dir_lba(i), 1) == end.status(dir_lba(i), 1));
    if i < f {
        assert(!hit(entry_at(end, i)));
        lemma_search_reaches(d, end, free, hit, f, i + 1);
    }
}

/// Where a file does not fit, any old file of that name is gone, and every
/// other file reads as before.
pub proof fn law_no_space_keeps_others(d: DeviceState, q: Seq<u8>, data: Seq<u8>, p: Seq<u8>)
    requires
        consistent(d),
        create_outcome(d, q, data).0 == Err::<(), FsError>(FsError::NoSpace),
        p != q,
    ensures
        consistent(create_outcome(d, q, data).1),
        absent(create_outcome(d, q, data).1, q),
        read_outcome(create_outcome(d, q, data).1, p) == read_outcome(d, p),
{
    lemma_make_room_errors(d, q);
    lemma_make_room(d, q, p);
    let d1 = make_room(d, q).1;
    let free = |e: EntryView| e.in_use == 0;
    lemma_scan(d1, free, 0);
    if let Ok(Some(f)) = first_free(d1) {
        lemma_store_errors(d1, superblock(d1), f as int, q, data);
    }
}

/// Storing fails only where the device does.
proof fn lemma_store_errors(
    d: DeviceState,
    sb: SuperblockView,
    f: int,
    q: Seq<u8>,
    data: Seq<u8>,
)
    ensures
        store_file(d, sb, f, q, data).0 != Err::<(), FsError>(FsError::NoSpace),
        store_file(d, sb, f, q, data).0 != Err::<(), FsError>(FsError::InvalidArgument),
{
}

/// Making room reports neither a full volume nor a bad name.
proof fn lemma_make_room_errors(d: DeviceState, q: Seq<u8>)
    ensures
        make_room(d, q).0 != Err::<SuperblockView, FsError>(FsError::NoSpace),
        make_room(d, q).0 != Err::<SuperblockView, FsError>(FsError::InvalidArgument),
{
    let hit = |e: EntryView| is_file(e, q);
    lemma_scan(d, hit, 0);
    if let Ok(Some(i)) = lookup(d, q) {
        lemma_delete_errors(d, i as int);
    }
}

/// Deleting fails only where the device does, or on an unformatted volume.
proof fn lemma_delete_errors(d: DeviceState, i: int)
    ensures
        delete_outcome(d, i).0 != Err::<(), FsError>(FsError::NoSpace),
        delete_outcome(d, i).0 != Err::<(), FsError>(FsError::FileNotFound),
        delete_outcome(d, i).0 != Err::<(), FsError>(FsError::InvalidArgument),
{
    let e = entry_at(d, i);
    let r = blocks_for(e.size as int);
    let d2 = uncount_file(with_entry(d, i, free_entry())).1;
    let none = |e: EntryView| false;
    lemma_scan(d2, none, 0);
    lemma_relocate_errors(d2, relocations(d2, e.start, MAX_FILES as int), r, 0);
}

proof fn lemma_relocate_errors(d: DeviceState, ms: Seq<Relocation>, r: int, k: int)
    ensures
        relocate_all(d, ms, r, k).0 matches Err(x) ==> x == FsError::NotReady || x
            == FsError::DeviceError,
    decreases ms.len() - k,
{
    if k < ms.len() {
        lemma_copy_errors(d, ms[k].start as int, ms[k].start - r, 0, blocks_for(ms[k].size as int));
        lemma_relocate_errors(relocate(d, ms[k], r).1, ms, r, k + 1);
    }
}

proof fn lemma_copy_errors(d: DeviceState, from: int, to: int, i: int, n: int)
    ensures
        crate::fs::model::copy_sectors(d, from, to, i, n).0 matches Err(x) ==> x
            == FsError::NotReady || x == FsError::DeviceError,
    decreases n - i,
{
    if i < n {
        let d1 = put_block(d, to + i, d.blocks[from + i]).1;
        lemma_copy_errors(d1, from, to, i + 1, n);
    }
}

/// Creating a file leaves every other file as it reads, also where there is no
/// room for the file or its name is refused.
pub proof fn law_create_keeps_others(d: DeviceState, q: Seq<u8>, data: Seq<u8>, p: Seq<u8>)
    requires
        consistent(d),
        no_zero(q),
        ({
            let r = create_outcome(d, q, data).0;
            r is Ok || r == Err::<(), FsError>(FsError::NoSpace) || r == Err::<(), FsError>(
                FsError::InvalidArgument,
            )
        }),
        p != q,
    ensures
        read_outcome(create_outcome(d, q, data).1, p) == read_outcome(d, p),
{
    let (r, end) = create_outcome(d, q, data);
    if r is Ok {
        law_create_then_read(d, q, data, p);
    } else if r == Err::<(), FsError>(FsError::NoSpace) {
        law_no_space_keeps_others(d, q, data, p);
    } else if valid_name(q) {
        lemma_make_room_errors(d, q);
        let d1 = make_room(d, q).1;
        let free = |e: EntryView| e.in_use == 0;
        lemma_scan(d1, free, 0);
        if let Ok(Some(f)) = first_free(d1) {
            lemma_store_errors(d1, superblock(d1), f as int, q, data);
            lemma_make_room(d, q, q);
        }
    }
}

/// Listing sees only the entries of active slots.
proof fn lemma_same_listing(d: DeviceState, d1: DeviceState, n: int)
    requires
        0 <= n <= MAX_FILES,
        forall|j: int|
            0 <= j < MAX_FILES ==> active(d1, j) == active(d, j) && (active(d, j) ==> #[trigger] entry_at(
                d1,
                j,
            ) == entry_at(d, j)),
    ensures
        active_entries(d1, n) == active_entries(d, n),
    decreases n,
{
    if n > 0 {
        lemma_same_listing(d, d1, n - 1);
        assert(active(d1, n - 1) == active(d, n - 1)) by {
            assert(entry_at(d1, n - 1) == entry_at(d1, n - 1));
        }
    }
}

/// A file that begins behind all others can be deleted where the directory and
/// the superblock can be read: nothing has to move.
proof fn lemma_delete_last(d: DeviceState, i: int)
    requires
        consistent(d),
        0 <= i < MAX_FILES,
        active(d, i),
        directory_status(d) is Ok,
        d.status(SUPERBLOCK_LBA as int, 1) is Ok,
        forall|j: int|
            0 <= j < MAX_FILES && active(d, j) ==> (#[trigger] entry_at(d, j)).start <= entry_at(
                d,
                i,
            ).start,
    ensures
        delete_outcome(d, i).0 is Ok,
{
    let e = entry_at(d, i);
    let r = extent(d, i);
    let none = |e: EntryView| false;
    lemma_scan(d, none, 0);
    lemma_scan_status(d, none, 0, i);
    assert(entry_ok(d, i));
    let d1 = with_entry(d, i, free_entry());
    lemma_with_entry(d, i, free_entry());
    assert(superblock(d1) == superblock(d));
    lemma_superblock_padding(d);
    lemma_count_positive(d, MAX_FILES as int, i);
    let sb = superblock(d);
    let sb2 = SuperblockView { file_count: (sb.file_count - 1) as u32, ..sb };
    assert(d1.status(SUPERBLOCK_LBA as int, 1) is Ok);
    let d2 = uncount_file(d1).1;
    assert(d2 == d1.write(SUPERBLOCK_LBA as int, superblock_bytes(sb2)));
    lemma_put_superblock(d1, sb2);
    if r > 0 {
        lemma_scan_congruence(d, d2, none, 0);
        let ms = relocations(d2, e.start, MAX_FILES as int);
        lemma_relocations(d2, e.start, MAX_FILES as int);
        assert(ms.len() == 0) by {
            if ms.len() > 0 {
                assert(describes(d2, e.start, MAX_FILES as int, ms[0]));
                let j = ms[0].index as int;
                assert(j != i);
                assert(entry_at(d2, j) == entry_at(d, j));
                assert(active(d, j));
            }
        }
        assert(d2.status(SUPERBLOCK_LBA as int, 1) is Ok);
    }
}

/// A search that goes through the whole directory reads each of its sectors.
proof fn lemma_scan_status(d: DeviceState, hit: spec_fn(EntryView) -> bool, k: int, i: int)
    requires
        0 <= k <= i < MAX_FILES,
        scan(d, hit, k) == Ok::<Option<usize>, FsError>(None),
    ensures
        d.status(dir_lba(i), 1) is Ok,
    decreases i - k,
{
    if k < i {
        lemma_scan_status(d, hit, k + 1, i);
    }
}

/// Creating a file that was not there and deleting it again is as if nothing
/// had been done: the superblock, the listing and what every name reads as are
/// what they were.
pub proof fn law_create_then_delete(d: DeviceState, q: Seq<u8>, data: Seq<u8>, p: Seq<u8>)
    requires
        consistent(d),
        tidy(d),
        no_zero(q),
        lookup(d, q) == Ok::<Option<usize>, FsError>(None),
        create_outcome(d, q, data).0 is Ok,
    ensures
        ({
            let (r, end) = remove_outcome(create_outcome(d, q, data).1, q);
            &&& r is Ok
            &&& load_superblock(end) == load_superblock(d)
            &&& list_outcome(end) == list_outcome(d)
            &&& read_outcome(end, p) == read_outcome(d, p)
        }),
{
    let d1 = create_outcome(d, q, data).1;
    let hit = |e: EntryView| is_file(e, q);
    let none = |e: EntryView| false;
    let free = |e: EntryView| e.in_use == 0;
    lemma_scan(d, hit, 0);
    assert forall|j: int| 0 <= j < MAX_FILES implies !is_file(#[trigger] entry_at(d, j), q) by {
        assert(!hit(entry_at(d, j)));
    }
    lemma_scan_same_outcome(d, hit, none, 0);
    assert(directory_status(d) is Ok);
    lemma_scan(d, free, 0);
    let f = first_free(d)->Ok_0->Some_0 as int;
    assert(free(entry_at(d, f)));
    lemma_store_file(d, f, q, data);
    lemma_found_after_add(d, d1, f, q, data);
    law_create_then_read(d, q, data, p);
    law_create_keeps_consistent(d, q, data);
    lemma_simple_is_not_fat(d);
    lemma_simple_is_not_fat(d1);
    lemma_scan_congruence(d, d1, none, 0);
    let start = superblock(d).next_free;
    assert forall|j: int| 0 <= j < MAX_FILES && active(d1, j) implies (#[trigger] entry_at(
        d1,
        j,
    )).start <= start by {
        if j != f {
            assert(entry_at(d1, j) == entry_at(d, j));
            assert(active(d, j));
        }
    }
    assert(d.status(SUPERBLOCK_LBA as int, 1) is Ok);
    lemma_delete_last(d1, f);
    lemma_delete_outcome(d1, f);
    let end = remove_outcome(d1, q).1;
    assert(end == delete_outcome(d1, f).1);
    lemma_count_positive(d, MAX_FILES as int, 0);
    assert(extent(d1, f) == blocks_for(data.len() as int));
    assert(superblock(end) == superblock(d));
    assert forall|j: int| 0 <= j < MAX_FILES implies active(end, j) == active(d, j) && (active(d, j)
        ==> #[trigger] entry_at(end, j) == entry_at(d, j)) by {
        if j != f {
            assert(entry_at(end, j) == shifted(entry_at(d1, j), start, extent(d1, f)));
            assert(entry_at(d1, j) == entry_at(d, j));
        }
    }
    lemma_same_listing(d, end, MAX_FILES as int);
    lemma_scan_congruence(d, end, none, 0);
    law_delete_removes_one_file(d1, q, p);
}

} // verus!
