//! Facts about single steps on a volume, from which the laws follow.

use vstd::prelude::*;
use crate::device::{BLOCK_SIZE, DeviceState};
use crate::fs::error::FsError;
use crate::fs::layout::{
    EntryView, entry_bytes, entry_from, lemma_entry_round_trip, DATA_START_LBA, DIR_START_LBA,
    MAX_FILES, SUPERBLOCK_LBA,
};
use crate::fs::model::{
    Relocation, blocks_for, copy_sectors, dir_lba, entry_at, insert_by_start, name_field, put_block,
    relocate, relocate_all, relocations, scan, slot_offset, stores_name, with_entry,
};
use crate::le::splice;

verus! {

/// Writing one slot changes that slot and no other, and nothing outside the
/// directory sector that holds it.
pub proof fn lemma_with_entry(d: DeviceState, i: int, e: EntryView)
    requires
        d.wf(),
        0 <= i,
        dir_lba(i) < d.blocks.len(),
        e.name.len() == 47,
    ensures
        with_entry(d, i, e).wf(),
        with_entry(d, i, e).good == d.good,
        with_entry(d, i, e).nsid == d.nsid,
        with_entry(d, i, e).blocks.len() == d.blocks.len(),
        entry_at(with_entry(d, i, e), i) == e,
        forall|j: int|
            0 <= j && j != i && dir_lba(j) < d.blocks.len() ==> #[trigger] entry_at(
                with_entry(d, i, e),
                j,
            ) == entry_at(d, j),
        forall|b: int|
            0 <= b < d.blocks.len() && b != dir_lba(i) ==> #[trigger] with_entry(d, i, e).blocks[b]
                == d.blocks[b],
{
    lemma_entry_round_trip(e);
    let d1 = with_entry(d, i, e);
    let old_block = d.blocks[dir_lba(i)];
    let new_block = splice(old_block, slot_offset(i), entry_bytes(e));
    assert(new_block.len() == BLOCK_SIZE);
    assert(d1.blocks[dir_lba(i)] == new_block);
    assert(new_block.subrange(slot_offset(i), slot_offset(i) + 64) == entry_bytes(e));
    assert forall|j: int| 0 <= j && j != i && dir_lba(j) < d.blocks.len() implies #[trigger] entry_at(
        d1,
        j,
    ) == entry_at(d, j) by {
        if dir_lba(j) == dir_lba(i) {
            assert(j % 8 != i % 8);
            assert(slot_offset(j) + 64 <= slot_offset(i) || slot_offset(i) + 64 <= slot_offset(j));
            assert(new_block.subrange(slot_offset(j), slot_offset(j) + 64) == old_block.subrange(
                slot_offset(j),
                slot_offset(j) + 64,
            ));
        }
    }
}

/// Writing a sector outside the directory leaves every entry alone.
pub proof fn lemma_write_elsewhere(d: DeviceState, lba: int, data: Seq<u8>)
    requires
        d.wf(),
        0 <= lba < d.blocks.len(),
        data.len() == BLOCK_SIZE,
    ensures
        d.write(lba, data).wf(),
        forall|j: int|
            0 <= j && dir_lba(j) < d.blocks.len() && dir_lba(j) != lba ==> #[trigger] entry_at(
                d.write(lba, data),
                j,
            ) == entry_at(d, j),
{
}

/// A search sees nothing of a volume but what `hit` says of its entries and
/// which directory sectors can be read.
pub proof fn lemma_scan_congruence(
    d: DeviceState,
    d1: DeviceState,
    hit: spec_fn(EntryView) -> bool,
    i: int,
)
    requires
        0 <= i,
        d.nsid == d1.nsid,
        d.good == d1.good,
        d.blocks.len() == d1.blocks.len(),
        forall|j: int|
            i <= j < MAX_FILES ==> hit(#[trigger] entry_at(d1, j)) == hit(entry_at(d, j)),
    ensures
        scan(d1, hit, i) == scan(d, hit, i),
    decreases MAX_FILES - i,
{
    if i < MAX_FILES {
        assert(d.status(dir_lba(i), 1) == d1.status(dir_lba(i), 1));
        assert(hit(entry_at(d1, i)) == hit(entry_at(d, i)));
        lemma_scan_congruence(d, d1, hit, i + 1);
    }
}

/// What the result of a search says.
pub proof fn lemma_scan(d: DeviceState, hit: spec_fn(EntryView) -> bool, i: int)
    requires
        0 <= i <= MAX_FILES,
    ensures
        match scan(d, hit, i) {
            Ok(Some(k)) => {
                &&& i <= k < MAX_FILES
                &&& hit(entry_at(d, k as int))
                &&& d.status(dir_lba(k as int), 1) is Ok
                &&& forall|j: int| i <= j < k ==> !hit(#[trigger] entry_at(d, j))
            },
            Ok(None) => {
                &&& forall|j: int| i <= j < MAX_FILES ==> !hit(#[trigger] entry_at(d, j))
                &&& forall|j: int|
                    i <= j < MAX_FILES ==> d.status(#[trigger] dir_lba(j), 1) is Ok
            },
            Err(x) => exists|j: int|
                i <= j < MAX_FILES && d.status(#[trigger] dir_lba(j), 1) == Err::<(), FsError>(x),
        },
    decreases MAX_FILES - i,
{
    if i < MAX_FILES {
        match d.status(dir_lba(i), 1) {
            Err(x) => {},
            Ok(_) => {
                if !hit(entry_at(d, i)) {
                    lemma_scan(d, hit, i + 1);
                }
            },
        }
    }
}

/// A search that may look at every slot fails only where a directory sector
/// cannot be read.
pub proof fn lemma_scan_readable(d: DeviceState, hit: spec_fn(EntryView) -> bool, i: int)
    requires
        0 <= i <= MAX_FILES,
        d.ready(),
        d.reachable(DIR_START_LBA as int, crate::fs::layout::DIR_BLOCKS as int),
    ensures
        scan(d, hit, i) is Ok,
    decreases MAX_FILES - i,
{
    if i < MAX_FILES {
        assert(d.reachable(dir_lba(i), 1));
        lemma_scan_readable(d, hit, i + 1);
    }
}

/// The name that a field stores is determined by the field.
pub proof fn lemma_name_unique(name: Seq<u8>, p: Seq<u8>, q: Seq<u8>)
    requires
        stores_name(name, p),
        stores_name(name, q),
    ensures
        p == q,
{
    if p.len() < q.len() {
        assert(q[p.len() as int] == name[p.len() as int]);
    }
    if q.len() < p.len() {
        assert(p[q.len() as int] == name[q.len() as int]);
    }
    assert(p =~= q);
}

/// A name without a zero byte is stored as it stands.
pub proof fn lemma_name_field(q: Seq<u8>)
    requires
        q.len() <= 46,
        forall|i: int| 0 <= i < q.len() ==> #[trigger] q[i] != 0,
    ensures
        name_field(q).len() == 47,
        stores_name(name_field(q), q),
{
}

/// Copying sectors downwards moves their contents and changes nothing else.
pub proof fn lemma_copy_sectors(d: DeviceState, from: int, to: int, i: int, n: int)
    requires
        d.wf(),
        0 <= i <= n,
        0 <= to < from,
        copy_sectors(d, from, to, i, n).0 is Ok,
    ensures
        ({
            let d1 = copy_sectors(d, from, to, i, n).1;
            &&& d1.wf()
            &&& d1.nsid == d.nsid
            &&& d1.good == d.good
            &&& d1.blocks.len() == d.blocks.len()
            &&& i < n ==> d.ready() && d.reachable(from + i, n - i) && d.reachable(to + i, n - i)
            &&& forall|b: int|
                to + i <= b < to + n ==> #[trigger] d1.blocks[b] == d.blocks[b - to + from]
            &&& forall|b: int|
                0 <= b < d.blocks.len() && !(to + i <= b < to + n) ==> #[trigger] d1.blocks[b]
                    == d.blocks[b]
        }),
    decreases n - i,
{
    if i < n {
        assert(d.status(from + i, 1) is Ok);
        assert(d.good[from + i]);
        let (r, d1) = put_block(d, to + i, d.blocks[from + i]);
        assert(d.good[to + i]);
        lemma_copy_sectors(d1, from, to, i + 1, n);
        let d2 = copy_sectors(d, from, to, i, n).1;
        assert(d2 == copy_sectors(d1, from, to, i + 1, n).1);
        assert forall|b: int| to + i <= b < to + n implies #[trigger] d2.blocks[b] == d.blocks[b
            - to + from] by {
            if b > to + i {
                assert(d2.blocks[b] == d1.blocks[b - to + from]);
            } else {
                assert(d2.blocks[b] == d1.blocks[b]);
            }
        }
        assert forall|b: int| 0 <= b < d.blocks.len() && !(to + i <= b < to + n) implies
            #[trigger] d2.blocks[b] == d.blocks[b] by {
            assert(d2.blocks[b] == d1.blocks[b]);
        }
    }
}

// ---------------------------------------------------------------------------
// The order in which files move
// ---------------------------------------------------------------------------

/// `ms` is ordered by first sector.
pub open spec fn ordered(ms: Seq<Relocation>) -> bool {
    forall|a: int, b: int| 0 <= a < b < ms.len() ==> #[trigger] ms[a].start <= #[trigger] ms[b].start
}

/// Inserting keeps the order and adds exactly the new file.
pub proof fn lemma_insert_by_start(ms: Seq<Relocation>, m: Relocation)
    requires
        ordered(ms),
    ensures
        ordered(insert_by_start(ms, m)),
        insert_by_start(ms, m).len() == ms.len() + 1,
        forall|a: int|
            0 <= a < ms.len() + 1 ==> ms.contains(#[trigger] insert_by_start(ms, m)[a])
                || insert_by_start(ms, m)[a] == m,
        insert_by_start(ms, m).contains(m),
        forall|x: Relocation| ms.contains(x) ==> #[trigger] insert_by_start(ms, m).contains(x),
    decreases ms.len(),
{
    let r = insert_by_start(ms, m);
    if ms.len() == 0 || ms.last().start <= m.start {
        assert(r == ms.push(m));
        assert(r[ms.len() as int] == m);
        assert forall|x: Relocation| ms.contains(x) implies #[trigger] r.contains(x) by {
            let k = choose|k: int| 0 <= k < ms.len() && ms[k] == x;
            assert(r[k] == x);
        }
        assert forall|a: int, b: int| 0 <= a < b < r.len() implies #[trigger] r[a].start
            <= #[trigger] r[b].start by {
            if b == ms.len() {
                assert(ms[a].start <= ms.last().start);
            }
        }
    } else {
        let front = ms.drop_last();
        lemma_insert_by_start(front, m);
        let rf = insert_by_start(front, m);
        assert(r == rf.push(ms.last()));
        assert forall|a: int| 0 <= a < r.len() implies ms.contains(#[trigger] r[a]) || r[a] == m by {
            if a < rf.len() {
                assert(front.contains(rf[a]) || rf[a] == m);
                if front.contains(rf[a]) {
                    let k = choose|k: int| 0 <= k < front.len() && front[k] == rf[a];
                    assert(ms[k] == rf[a]);
                }
            } else {
                assert(ms[ms.len() - 1] == r[a]);
            }
        }
        assert forall|a: int, b: int| 0 <= a < b < r.len() implies #[trigger] r[a].start
            <= #[trigger] r[b].start by {
            if b == rf.len() {
                assert(front.contains(rf[a]) || rf[a] == m);
                if front.contains(rf[a]) {
                    let k = choose|k: int| 0 <= k < front.len() && front[k] == rf[a];
                    assert(ms[k].start <= ms[ms.len() - 1].start);
                }
            }
        }
        assert forall|x: Relocation| ms.contains(x) implies #[trigger] r.contains(x) by {
            let k = choose|k: int| 0 <= k < ms.len() && ms[k] == x;
            if k < front.len() {
                assert(front[k] == x);
                assert(rf.contains(x));
                let k2 = choose|k2: int| 0 <= k2 < rf.len() && rf[k2] == x;
                assert(r[k2] == x);
            } else {
                assert(r[rf.len() as int] == x);
            }
        }
        let k2 = choose|k2: int| 0 <= k2 < rf.len() && rf[k2] == m;
        assert(r[k2] == m);
    }
}

/// The file in slot `j` has to move when the sectors from `bound` on are
/// freed.
pub open spec fn moves(d: DeviceState, bound: u64, j: int) -> bool {
    entry_at(d, j).in_use == 1 && entry_at(d, j).start > bound
}

/// What is known of a file that moves.
pub open spec fn describes(d: DeviceState, bound: u64, n: int, m: Relocation) -> bool {
    &&& 0 <= m.index < n
    &&& moves(d, bound, m.index as int)
    &&& m.start == entry_at(d, m.index as int).start
    &&& m.size == entry_at(d, m.index as int).size
}

/// The relocation of the file in slot `j`.
pub open spec fn relocation_of(d: DeviceState, j: int) -> Relocation {
    Relocation { index: j as usize, start: entry_at(d, j).start, size: entry_at(d, j).size }
}

/// The list of moving files: ordered, each described once, none forgotten.
pub proof fn lemma_relocations(d: DeviceState, bound: u64, n: int)
    requires
        0 <= n <= MAX_FILES,
    ensures
        ordered(relocations(d, bound, n)),
        forall|a: int|
            0 <= a < relocations(d, bound, n).len() ==> describes(
                d,
                bound,
                n,
                #[trigger] relocations(d, bound, n)[a],
            ),
        forall|j: int|
            0 <= j < n && #[trigger] moves(d, bound, j) ==> relocations(d, bound, n).contains(
                relocation_of(d, j),
            ),
        forall|a: int, b: int|
            0 <= a < b < relocations(d, bound, n).len() ==> (#[trigger] relocations(d, bound, n)[a]).index
                != (#[trigger] relocations(d, bound, n)[b]).index,
    decreases n,
{
    if n > 0 {
        lemma_relocations(d, bound, n - 1);
        let rest = relocations(d, bound, n - 1);
        let r = relocations(d, bound, n);
        if moves(d, bound, n - 1) {
            let m = relocation_of(d, n - 1);
            assert(r == insert_by_start(rest, m));
            lemma_insert_by_start(rest, m);
            assert forall|a: int| 0 <= a < r.len() implies describes(d, bound, n, #[trigger] r[a]) by {
                assert(rest.contains(r[a]) || r[a] == m);
                if rest.contains(r[a]) {
                    let k = choose|k: int| 0 <= k < rest.len() && rest[k] == r[a];
                    assert(describes(d, bound, n - 1, rest[k]));
                }
            }
            assert forall|j: int| 0 <= j < n && #[trigger] moves(d, bound, j) implies r.contains(
                relocation_of(d, j),
            ) by {
                if j < n - 1 {
                    assert(rest.contains(relocation_of(d, j)));
                } else {
                    assert(relocation_of(d, j) == m);
                }
            }
            lemma_insert_keeps_indices_apart(rest, m);
        }
    }
}

/// Inserting a file with a new slot keeps the slots different.
proof fn lemma_insert_keeps_indices_apart(ms: Seq<Relocation>, m: Relocation)
    requires
        ordered(ms),
        forall|a: int, b: int|
            0 <= a < b < ms.len() ==> (#[trigger] ms[a]).index != (#[trigger] ms[b]).index,
        forall|a: int| 0 <= a < ms.len() ==> (#[trigger] ms[a]).index != m.index,
    ensures
        forall|a: int, b: int|
            0 <= a < b < insert_by_start(ms, m).len() ==> (#[trigger] insert_by_start(
                ms,
                m,
            )[a]).index != (#[trigger] insert_by_start(ms, m)[b]).index,
    decreases ms.len(),
{
    if ms.len() == 0 || ms.last().start <= m.start {
    } else {
        let front = ms.drop_last();
        lemma_insert_keeps_indices_apart(front, m);
        lemma_insert_by_start(front, m);
        let rf = insert_by_start(front, m);
        let r = insert_by_start(ms, m);
        assert(r == rf.push(ms.last()));
        assert forall|a: int, b: int| 0 <= a < b < r.len() implies (#[trigger] r[a]).index != (
        #[trigger] r[b]).index by {
            if b == rf.len() {
                assert(front.contains(rf[a]) || rf[a] == m);
                if front.contains(rf[a]) {
                    let k = choose|k: int| 0 <= k < front.len() && front[k] == rf[a];
                    assert(ms[k].index != ms[ms.len() - 1].index);
                }
            }
        }
    }
}

// ---------------------------------------------------------------------------
// Moving the files
// ---------------------------------------------------------------------------

/// Two files share no sector.
pub open spec fn apart(e1: EntryView, e2: EntryView) -> bool {
    ||| blocks_for(e1.size as int) == 0
    ||| blocks_for(e2.size as int) == 0
    ||| clear_of(e1, e2)
}

/// Neither of two files, not even an empty one, begins inside the other.
pub open spec fn clear_of(e1: EntryView, e2: EntryView) -> bool {
    ||| e2.start >= e1.start + blocks_for(e1.size as int)
    ||| e1.start >= e2.start + blocks_for(e2.size as int)
}

/// Sector `b` belongs to the place that `m` moves to.
pub open spec fn in_target(m: Relocation, r: int, b: int) -> bool {
    m.start - r <= b < m.start - r + blocks_for(m.size as int)
}

/// The files `ms` can move down by `r`: they stay in the data area and do not
/// overlap.
pub open spec fn movable(d: DeviceState, ms: Seq<Relocation>, r: int) -> bool {
    &&& r >= 1
    &&& d.wf()
    &&& d.blocks.len() >= DATA_START_LBA
    &&& ordered(ms)
    &&& forall|a: int|
        0 <= a < ms.len() ==> {
            &&& blocks_for((#[trigger] ms[a]).size as int) > 0 ==> ms[a].start >= DATA_START_LBA + r
            &&& ms[a].index < MAX_FILES
            &&& ms[a].start == entry_at(d, ms[a].index as int).start
            &&& ms[a].size == entry_at(d, ms[a].index as int).size
        }
    &&& forall|a: int, b: int|
        0 <= a < b < ms.len() ==> {
            &&& (#[trigger] ms[a]).index != (#[trigger] ms[b]).index
            &&& apart(entry_at(d, ms[a].index as int), entry_at(d, ms[b].index as int))
        }
}

/// `d1` is `d` after the first `k` files of `ms` moved down by `r`.
pub open spec fn moved(d: DeviceState, d1: DeviceState, ms: Seq<Relocation>, r: int, k: int) -> bool {
    &&& d1.wf()
    &&& d1.nsid == d.nsid
    &&& d1.good == d.good
    &&& d1.blocks.len() == d.blocks.len()
    &&& d1.blocks[SUPERBLOCK_LBA as int] == d.blocks[SUPERBLOCK_LBA as int]
    &&& forall|a: int|
        0 <= a < k ==> entry_at(d1, (#[trigger] ms[a]).index as int) == (EntryView {
            start: (ms[a].start - r) as u64,
            ..entry_at(d, ms[a].index as int)
        })
    &&& forall|j: int|
        0 <= j < MAX_FILES && (forall|a: int| 0 <= a < k ==> (#[trigger] ms[a]).index != j)
            ==> #[trigger] entry_at(d1, j) == entry_at(d, j)
    &&& forall|a: int, b: int|
        0 <= a < k && #[trigger] in_target(ms[a], r, b) ==> d1.blocks[b] == d.blocks[b + r]
    &&& forall|b: int|
        DATA_START_LBA <= b < d.blocks.len() && (forall|a: int|
            0 <= a < k ==> !#[trigger] in_target(ms[a], r, b)) ==> #[trigger] d1.blocks[b]
            == d.blocks[b]
    &&& forall|a: int|
        0 <= a < k && blocks_for((#[trigger] ms[a]).size as int) > 0 ==> {
            let n = blocks_for(ms[a].size as int);
            d.ready() && d.reachable(ms[a].start as int, n) && d.reachable(ms[a].start - r, n)
        }
}

/// One more file moves.
pub proof fn lemma_relocate_step(
    d: DeviceState,
    d1: DeviceState,
    ms: Seq<Relocation>,
    r: int,
    k: int,
)
    requires
        movable(d, ms, r),
        0 <= k < ms.len(),
        moved(d, d1, ms, r, k),
        relocate(d1, ms[k], r).0 is Ok,
    ensures
        moved(d, relocate(d1, ms[k], r).1, ms, r, k + 1),
{
    let m = ms[k];
    let n = blocks_for(m.size as int);
    let from = m.start as int;
    let to = m.start - r;
    if n > 0 {
        lemma_copy_sectors(d1, from, to, 0, n);
    }
    let d2 = copy_sectors(d1, from, to, 0, n).1;
    let i = m.index as int;
    // The directory is below the data area.
    assert forall|j: int| 0 <= j < MAX_FILES implies #[trigger] entry_at(d2, j) == entry_at(d1, j) by {
        assert(d2.blocks[dir_lba(j)] == d1.blocks[dir_lba(j)]);
    }
    assert(entry_at(d1, i) == entry_at(d, i));
    let e = EntryView { start: to as u64, ..entry_at(d2, i) };
    assert(e.name.len() == 47) by {
        reveal(entry_from);
    }
    lemma_with_entry(d2, i, e);
    let d3 = relocate(d1, m, r).1;
    assert(d3 == with_entry(d2, i, e));
    // Sources of this file have not been overwritten.
    assert forall|b: int| in_target(m, r, b) implies d3.blocks[b] == d.blocks[b + r] by {
        assert(d3.blocks[b] == d2.blocks[b]);
        assert(d2.blocks[b] == d1.blocks[b + r]);
        assert forall|a: int| 0 <= a < k implies !#[trigger] in_target(ms[a], r, b + r) by {
            assert(ms[a].start <= m.start);
            assert(apart(entry_at(d, ms[a].index as int), entry_at(d, m.index as int)));
        }
        assert(d1.blocks[b + r] == d.blocks[b + r]);
    }
    assert forall|a: int, b: int| 0 <= a < k + 1 && #[trigger] in_target(ms[a], r, b) implies d3.blocks[b]
        == d.blocks[b + r] by {
        if a < k {
            assert(ms[a].start <= m.start);
            assert(apart(entry_at(d, ms[a].index as int), entry_at(d, m.index as int)));
            let na = blocks_for(ms[a].size as int);
            assert(na > 0);
            assert(d.reachable(ms[a].start - r, na));
            assert(!in_target(m, r, b));
            assert(d3.blocks[b] == d2.blocks[b]);
            assert(d2.blocks[b] == d1.blocks[b]);
        }
    }
    assert forall|b: int|
        DATA_START_LBA <= b < d.blocks.len() && (forall|a: int|
            0 <= a < k + 1 ==> !#[trigger] in_target(ms[a], r, b)) implies #[trigger] d3.blocks[b]
        == d.blocks[b] by {
        assert(!in_target(ms[k], r, b));
        assert(d3.blocks[b] == d2.blocks[b]);
        assert(d2.blocks[b] == d1.blocks[b]);
        assert(forall|a: int| 0 <= a < k ==> !#[trigger] in_target(ms[a], r, b));
    }
    assert forall|a: int| 0 <= a < k + 1 implies entry_at(d3, (#[trigger] ms[a]).index as int) == (
    EntryView { start: (ms[a].start - r) as u64, ..entry_at(d, ms[a].index as int) }) by {
        if a < k {
            assert(ms[a].index != ms[k].index);
            assert(entry_at(d3, ms[a].index as int) == entry_at(d2, ms[a].index as int));
        }
    }
    assert forall|j: int|
        0 <= j < MAX_FILES && (forall|a: int| 0 <= a < k + 1 ==> (#[trigger] ms[a]).index != j) implies
        #[trigger] entry_at(d3, j) == entry_at(d, j) by {
        assert(ms[k].index != j);
        assert(entry_at(d3, j) == entry_at(d2, j));
    }
    assert(d3.blocks[0] == d2.blocks[0] && d2.blocks[0] == d1.blocks[0]);
}

/// All files have moved.
pub proof fn lemma_relocate_all(
    d: DeviceState,
    d1: DeviceState,
    ms: Seq<Relocation>,
    r: int,
    k: int,
)
    requires
        movable(d, ms, r),
        0 <= k <= ms.len(),
        moved(d, d1, ms, r, k),
        relocate_all(d1, ms, r, k).0 is Ok,
    ensures
        moved(d, relocate_all(d1, ms, r, k).1, ms, r, ms.len() as int),
    decreases ms.len() - k,
{
    if k < ms.len() {
        lemma_relocate_step(d, d1, ms, r, k);
        lemma_relocate_all(d, relocate(d1, ms[k], r).1, ms, r, k + 1);
    }
}

} // verus!
