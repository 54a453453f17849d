//! What holds of frames and page tables as a whole.

use vstd::prelude::*;
use crate::le::{lemma_u32_at, lemma_u64_at, u32_bytes, u64_bytes};
use crate::memory::frames::{
    EFI_ACPI_MEMORY_NVS, EFI_ACPI_RECLAIM_MEMORY, EFI_BOOT_SERVICES_CODE, EFI_BOOT_SERVICES_DATA,
    EFI_CONVENTIONAL_MEMORY, EFI_LOADER_CODE, EFI_LOADER_DATA, EFI_MEMORY_MAPPED_IO,
    EFI_MEMORY_MAPPED_IO_PORT_SPACE, EFI_RUNTIME_SERVICES_CODE, EFI_RUNTIME_SERVICES_DATA,
    MemoryRegion, conventional_fits, frames_fit, frames_from, map_readable, region_frames, regions,
};
use crate::memory::paging::{
    PagingState, child, child_fits, empty_table, initial_pages, is_present, map_all, map_all_fits,
    map_fits, map_outcome, mapped_pages, page_entry, page_run, region_pages, set_entry, table_index, table_link, target, with_child,
    with_root,
};
use crate::memory::{PAGE_SIZE, PAGE_WRITABLE};

verus! {

// ---------------------------------------------------------------------------
// Frames
// ---------------------------------------------------------------------------

/// `a` is the first address of a page.
pub open spec fn page_aligned(a: u64) -> bool {
    a as int % PAGE_SIZE as int == 0
}

/// The conventional regions begin at a page and do not overlap.
pub open spec fn regions_apart(rs: Seq<MemoryRegion>) -> bool {
    &&& forall|i: int|
        0 <= i < rs.len() && (#[trigger] rs[i]).kind == EFI_CONVENTIONAL_MEMORY ==> page_aligned(
            rs[i].start,
        )
    &&& forall|i: int, j: int|
        0 <= i < rs.len() && 0 <= j < rs.len() && i != j && (#[trigger] rs[i]).kind
            == EFI_CONVENTIONAL_MEMORY && (#[trigger] rs[j]).kind == EFI_CONVENTIONAL_MEMORY ==> {
            ||| rs[i].start + rs[i].pages * PAGE_SIZE <= rs[j].start
            ||| rs[j].start + rs[j].pages * PAGE_SIZE <= rs[i].start
        }
}

/// `f` is the first address of a page of the region.
pub open spec fn page_of(r: MemoryRegion, f: u64) -> bool {
    &&& r.kind == EFI_CONVENTIONAL_MEMORY
    &&& r.start <= f < r.start + r.pages * PAGE_SIZE
    &&& (f - r.start) % (PAGE_SIZE as int) == 0
}

/// The frames are pages, none of them at address zero, and none comes twice.
pub open spec fn usable_frames(frames: Seq<u64>) -> bool {
    &&& frames.no_duplicates()
    &&& forall|k: int|
        0 <= k < frames.len() ==> #[trigger] frames[k] != 0 && page_aligned(frames[k])
}

proof fn lemma_region_frames(r: MemoryRegion, offset: int)
    requires
        0 <= offset,
        r.kind == EFI_CONVENTIONAL_MEMORY ==> frames_fit(r) && page_aligned(r.start),
    ensures
        usable_frames(region_frames(r, offset)),
        forall|k: int|
            0 <= k < region_frames(r, offset).len() ==> page_of(
                r,
                #[trigger] region_frames(r, offset)[k],
            ),
{
    let f = region_frames(r, offset);
    assert forall|k: int| 0 <= k < f.len() implies {
        &&& #[trigger] f[k] == r.start + (offset + k) * PAGE_SIZE
        &&& f[k] != 0
        &&& page_aligned(f[k])
        &&& page_of(r, f[k])
    } by {
        assert((offset + k) * PAGE_SIZE <= (r.pages - 1) * PAGE_SIZE);
        assert(offset * PAGE_SIZE <= (offset + k) * PAGE_SIZE);
    }
    assert(f.no_duplicates()) by {
        assert forall|i: int, j: int| 0 <= i < f.len() && 0 <= j < f.len() && i != j implies f[i]
            != f[j] by {
            assert(f[i] == r.start + (offset + i) * PAGE_SIZE);
            assert(f[j] == r.start + (offset + j) * PAGE_SIZE);
        }
    }
}

proof fn lemma_frames_from(rs: Seq<MemoryRegion>, i: int, offset: int)
    requires
        conventional_fits(rs),
        regions_apart(rs),
        0 <= i,
        0 <= offset,
    ensures
        usable_frames(frames_from(rs, i, offset)),
        forall|k: int|
            0 <= k < frames_from(rs, i, offset).len() ==> exists|j: int|
                i <= j < rs.len() && page_of(#[trigger] rs[j], #[trigger] frames_from(rs, i, offset)[k]),
    decreases rs.len() - i,
{
    if i < rs.len() {
        let here = region_frames(rs[i], offset);
        let rest = frames_from(rs, i + 1, 0);
        let all = frames_from(rs, i, offset);
        lemma_region_frames(rs[i], offset);
        lemma_frames_from(rs, i + 1, 0);
        assert forall|k: int| 0 <= k < all.len() implies {
            &&& #[trigger] all[k] != 0
            &&& page_aligned(all[k])
            &&& exists|j: int| i <= j < rs.len() && page_of(#[trigger] rs[j], all[k])
        } by {
            if k < here.len() {
                assert(all[k] == here[k]);
                assert(page_of(rs[i], here[k]));
            } else {
                let m = k - here.len();
                assert(all[k] == rest[m]);
                let j = choose|j: int| i + 1 <= j < rs.len() && page_of(#[trigger] rs[j], rest[m]);
                assert(page_of(rs[j], all[k]));
            }
        }
        assert forall|a: int, b: int| 0 <= a < all.len() && 0 <= b < all.len() && a != b implies all[a]
            != all[b] by {
            if a < here.len() && b < here.len() {
                assert(here[a] != here[b]);
            } else if a >= here.len() && b >= here.len() {
                assert(rest[a - here.len()] != rest[b - here.len()]);
            } else {
                let (x, y) = if a < here.len() {
                    (a, b)
                } else {
                    (b, a)
                };
                let m = y - here.len();
                assert(all[x] == here[x] && all[y] == rest[m]);
                assert(page_of(rs[i], here[x]));
                let j = choose|j: int| i + 1 <= j < rs.len() && page_of(#[trigger] rs[j], rest[m]);
                assert(rs[i].kind == EFI_CONVENTIONAL_MEMORY);
                assert(rs[j].kind == EFI_CONVENTIONAL_MEMORY);
            }
        }
    }
}

/// An allocator never hands out a frame twice, nor address zero, nor anything
/// but whole pages of conventional memory.
pub proof fn law_frames(rs: Seq<MemoryRegion>)
    requires
        conventional_fits(rs),
        regions_apart(rs),
    ensures
        usable_frames(frames_from(rs, 0, 0)),
        forall|k: int|
            0 <= k < frames_from(rs, 0, 0).len() ==> exists|j: int|
                0 <= j < rs.len() && page_of(#[trigger] rs[j], #[trigger] frames_from(rs, 0, 0)[k]),
{
    lemma_frames_from(rs, 0, 0);
}

// ---------------------------------------------------------------------------
// Page tables
// ---------------------------------------------------------------------------

/// The entry that the processor finds for `virt` from the table at `a` of the
/// given level on; nothing where an entry on the way is not present.
pub open spec fn walk(tables: Map<u64, Seq<u64>>, a: u64, level: int, virt: u64) -> Option<u64>
    decreases level,
{
    let e = tables[a][table_index(virt, (12 + 9 * (level - 1)) as u64)];
    if !is_present(e) {
        None
    } else if level <= 1 {
        Some(e)
    } else {
        walk(tables, target(e), level - 1, virt)
    }
}

/// The entry that maps the page of `virt` under the root table at `pml4`.
pub open spec fn mapping(tables: Map<u64, Seq<u64>>, pml4: u64, virt: u64) -> Option<u64> {
    walk(tables, pml4, 4, virt)
}

/// The number of the page that `virt` lies in: the bits that a four-level
/// table translates.
pub open spec fn page_number(virt: u64) -> u64 {
    (virt >> 12) & 0xF_FFFF_FFFF
}

/// Entry `i` of the table at `a` refers to another table.
pub open spec fn links(tables: Map<u64, Seq<u64>>, lv: Map<u64, int>, a: u64, i: int) -> bool {
    lv.contains_key(a) && lv[a] >= 2 && 0 <= i < 512 && is_present(tables[a][i])
}

/// The tables in `lv`, each with its level, form a tree under `pml4`.
pub open spec fn leveled(tables: Map<u64, Seq<u64>>, pml4: u64, lv: Map<u64, int>) -> bool {
    &&& lv.contains_key(pml4)
    &&& lv[pml4] == 4
    &&& forall|a: u64| #[trigger]
        lv.contains_key(a) ==> tables.contains_key(a) && tables[a].len() == 512 && 1 <= lv[a] <= 4
    &&& forall|a: u64, i: int| #[trigger]
        links(tables, lv, a, i) ==> lv.contains_key(target(tables[a][i])) && lv[target(
            tables[a][i],
        )] == lv[a] - 1
    &&& forall|a: u64, i: int, b: u64, j: int| #[trigger]
        links(tables, lv, a, i) && #[trigger] links(tables, lv, b, j) && target(tables[a][i])
            == target(tables[b][j]) ==> a == b && i == j
}

/// The frames that are left are usable and hold no table of the tree.
pub open spec fn fresh(frames: Seq<u64>, lv: Map<u64, int>) -> bool {
    usable_frames(frames) && forall|k: int|
        0 <= k < frames.len() ==> !lv.contains_key(#[trigger] frames[k])
}

/// A sound state: a tree of tables, and frames that are free for more.
pub open spec fn sound(s: PagingState, pml4: u64) -> bool {
    exists|lv: Map<u64, int>| #[trigger] leveled(s.tables, pml4, lv) && fresh(s.frames, lv)
}

proof fn lemma_link(frame: u64)
    requires
        page_aligned(frame),
    ensures
        is_present(table_link(frame)),
        target(table_link(frame)) == frame,
        !is_present(0),
{
    assert(frame % 4096 == 0 ==> (frame | 0x1 | 0x2 | 0x4) & 0x1 != 0 && (frame | 0x1 | 0x2 | 0x4)
        & !0xFFFu64 == frame) by (bit_vector);
    assert(0u64 & 0x1 == 0) by (bit_vector);
}

proof fn lemma_index_range(virt: u64, shift: u64)
    ensures
        0 <= table_index(virt, shift) < 512,
{
    assert((virt >> shift) & 0x1FF < 512) by (bit_vector);
}

/// The page number determines the four indices, and they determine it.
proof fn lemma_page_number(v: u64, w: u64)
    ensures
        page_number(v) == page_number(w) <==> {
            &&& table_index(v, 39) == table_index(w, 39)
            &&& table_index(v, 30) == table_index(w, 30)
            &&& table_index(v, 21) == table_index(w, 21)
            &&& table_index(v, 12) == table_index(w, 12)
        },
{
    assert(((v >> 12) & 0xF_FFFF_FFFF == (w >> 12) & 0xF_FFFF_FFFF) <==> ((v >> 39) & 0x1FF == (w
        >> 39) & 0x1FF && (v >> 30) & 0x1FF == (w >> 30) & 0x1FF && (v >> 21) & 0x1FF == (w >> 21)
        & 0x1FF && (v >> 12) & 0x1FF == (w >> 12) & 0x1FF)) by (bit_vector);
}

/// The levels after a table was linked in where there was none.
spec fn levels_with_child(s: PagingState, lv: Map<u64, int>, a: u64, i: int) -> Map<u64, int> {
    if is_present(s.tables[a][i]) {
        lv
    } else {
        lv.insert(s.frames[0], lv[a] - 1)
    }
}

proof fn lemma_with_child(s: PagingState, pml4: u64, lv: Map<u64, int>, a: u64, i: int)
    requires
        leveled(s.tables, pml4, lv),
        fresh(s.frames, lv),
        lv.contains_key(a),
        lv[a] >= 2,
        0 <= i < 512,
        child_fits(s, a, i),
    ensures
        ({
            let s1 = with_child(s, a, i);
            let lv1 = levels_with_child(s, lv, a, i);
            &&& leveled(s1.tables, pml4, lv1)
            &&& fresh(s1.frames, lv1)
            &&& s1.frames.len() >= s.frames.len() - 1
            &&& links(s1.tables, lv1, a, i)
            &&& forall|b: u64| #[trigger]
                lv.contains_key(b) ==> lv1.contains_key(b) && lv1[b] == lv[b]
        }),
{
    if !is_present(s.tables[a][i]) {
        let f = s.frames[0];
        let s1 = with_child(s, a, i);
        let lv1 = lv.insert(f, lv[a] - 1);
        lemma_link(f);
        assert(!lv.contains_key(f));
        assert(s1.tables[f] == empty_table());
        assert forall|b: u64, j: int| #[trigger] links(s1.tables, lv1, b, j) implies {
            &&& (b == a && j == i && target(s1.tables[b][j]) == f) || (links(s.tables, lv, b, j)
                && s1.tables[b][j] == s.tables[b][j])
        } by {
            if b == f {
                assert(s1.tables[b][j] == 0);
            }
        }
        assert forall|b: u64, j: int| #[trigger] links(s1.tables, lv1, b, j) implies lv1.contains_key(
            target(s1.tables[b][j]),
        ) && lv1[target(s1.tables[b][j])] == lv1[b] - 1 by {
            if !(b == a && j == i) {
                assert(links(s.tables, lv, b, j));
            }
        }
        assert forall|b: u64, j: int, c: u64, k: int| #[trigger]
            links(s1.tables, lv1, b, j) && #[trigger] links(s1.tables, lv1, c, k) && target(
                s1.tables[b][j],
            ) == target(s1.tables[c][k]) implies b == c && j == k by {
            if b == a && j == i {
                if !(c == a && k == i) {
                    assert(links(s.tables, lv, c, k));
                    assert(lv.contains_key(target(s.tables[c][k])));
                }
            } else if c == a && k == i {
                assert(links(s.tables, lv, b, j));
                assert(lv.contains_key(target(s.tables[b][j])));
            } else {
                assert(links(s.tables, lv, b, j));
                assert(links(s.tables, lv, c, k));
            }
        }
        assert(leveled(s1.tables, pml4, lv1));
        assert forall|k: int| 0 <= k < s1.frames.len() implies !lv1.contains_key(
            #[trigger] s1.frames[k],
        ) && s1.frames[k] != 0 && page_aligned(s1.frames[k]) by {
            assert(s1.frames[k] == s.frames[k + 1]);
        }
        assert forall|j: int, k: int|
            0 <= j < s1.frames.len() && 0 <= k < s1.frames.len() && j != k implies s1.frames[j]
            != s1.frames[k] by {
            assert(s1.frames[j] == s.frames[j + 1]);
            assert(s1.frames[k] == s.frames[k + 1]);
        }
        assert(fresh(s1.frames, lv1));
    }
}

/// Linking in an empty table changes no mapping.
proof fn lemma_with_child_walk(
    s: PagingState,
    pml4: u64,
    lv: Map<u64, int>,
    a: u64,
    i: int,
    b: u64,
    virt: u64,
)
    requires
        leveled(s.tables, pml4, lv),
        fresh(s.frames, lv),
        lv.contains_key(a),
        lv[a] >= 2,
        0 <= i < 512,
        child_fits(s, a, i),
        lv.contains_key(b),
    ensures
        walk(with_child(s, a, i).tables, b, lv[b], virt) == walk(s.tables, b, lv[b], virt),
    decreases lv[b],
{
    let s1 = with_child(s, a, i);
    if !is_present(s.tables[a][i]) {
        let f = s.frames[0];
        lemma_link(f);
        assert(!lv.contains_key(f));
        let j = table_index(virt, (12 + 9 * (lv[b] - 1)) as u64);
        lemma_index_range(virt, (12 + 9 * (lv[b] - 1)) as u64);
        if b == a && j == i {
            assert(s1.tables[a][i] == table_link(f));
            lemma_index_range(virt, (12 + 9 * (lv[b] - 2)) as u64);
            assert(s1.tables[f] == empty_table());
            assert(walk(s1.tables, f, lv[b] - 1, virt) is None);
        } else {
            assert(s1.tables[b][j] == s.tables[b][j]);
            if lv[b] >= 2 && is_present(s.tables[b][j]) {
                assert(links(s.tables, lv, b, j));
                lemma_with_child_walk(s, pml4, lv, a, i, target(s.tables[b][j]), virt);
            }
        }
    }
}

proof fn lemma_entry_present(phys: u64, flags: u64)
    ensures
        is_present(page_entry(phys, flags)),
{
    assert((phys | flags | 0x1) & 0x1 != 0) by (bit_vector);
}

/// Setting an entry of a last-level table changes the mapping of its page and
/// no other.
proof fn lemma_set_leaf(
    t: Map<u64, Seq<u64>>,
    pml4: u64,
    lv: Map<u64, int>,
    virt: u64,
    e: u64,
    v: u64,
)
    requires
        leveled(t, pml4, lv),
        is_present(e),
        ({
            let i4 = table_index(virt, 39);
            let i3 = table_index(virt, 30);
            let i2 = table_index(virt, 21);
            let a3 = target(t[pml4][i4]);
            let a2 = target(t[a3][i3]);
            links(t, lv, pml4, i4) && links(t, lv, a3, i3) && links(t, lv, a2, i2)
        }),
    ensures
        ({
            let a3 = target(t[pml4][table_index(virt, 39)]);
            let a2 = target(t[a3][table_index(virt, 30)]);
            let a1 = target(t[a2][table_index(virt, 21)]);
            let t1 = set_entry(t, a1, table_index(virt, 12), e);
            &&& lv.contains_key(a1)
            &&& leveled(t1, pml4, lv)
            &&& mapping(t1, pml4, v) == (if page_number(v) == page_number(virt) {
                Some(e)
            } else {
                mapping(t, pml4, v)
            })
        }),
{
    let i4 = table_index(virt, 39);
    let i3 = table_index(virt, 30);
    let i2 = table_index(virt, 21);
    let i1 = table_index(virt, 12);
    let a3 = target(t[pml4][i4]);
    let a2 = target(t[a3][i3]);
    let a1 = target(t[a2][i2]);
    let t1 = set_entry(t, a1, i1, e);
    assert(links(t, lv, a2, i2));
    assert(lv[a3] == 3 && lv[a2] == 2 && lv[a1] == 1);
    lemma_index_range(virt, 12);
    assert forall|a: u64, i: int| #[trigger] links(t1, lv, a, i) implies links(t, lv, a, i)
        && t1[a][i] == t[a][i] by {}
    assert forall|a: u64, i: int| #[trigger] links(t1, lv, a, i) implies lv.contains_key(
        target(t1[a][i]),
    ) && lv[target(t1[a][i])] == lv[a] - 1 by {
        assert(links(t, lv, a, i));
    }
    assert forall|a: u64, i: int, b: u64, j: int| #[trigger]
        links(t1, lv, a, i) && #[trigger] links(t1, lv, b, j) && target(t1[a][i]) == target(
            t1[b][j],
        ) implies a == b && i == j by {
        assert(links(t, lv, a, i));
        assert(links(t, lv, b, j));
    }
    assert(leveled(t1, pml4, lv));
    // The way of `v`.
    reveal_with_fuel(walk, 5);
    lemma_page_number(v, virt);
    let j4 = table_index(v, 39);
    let j3 = table_index(v, 30);
    let j2 = table_index(v, 21);
    let j1 = table_index(v, 12);
    lemma_index_range(v, 39);
    lemma_index_range(v, 30);
    lemma_index_range(v, 21);
    lemma_index_range(v, 12);
    assert(t1[pml4] == t[pml4]);
    if is_present(t[pml4][j4]) {
        assert(links(t, lv, pml4, j4));
        let b3 = target(t[pml4][j4]);
        assert(t1[b3] == t[b3]);
        if is_present(t[b3][j3]) {
            assert(links(t, lv, b3, j3));
            let b2 = target(t[b3][j3]);
            assert(t1[b2] == t[b2]);
            if is_present(t[b2][j2]) {
                assert(links(t, lv, b2, j2));
                let b1 = target(t[b2][j2]);
                if b1 != a1 || j1 != i1 {
                    assert(t1[b1][j1] == t[b1][j1]);
                }
            }
        }
    }
}

/// Mapping a page gives that page the entry asked for, keeps every other
/// mapping, keeps the tables a tree and uses at most three frames.
pub proof fn law_map_page(s: PagingState, pml4: u64, virt: u64, phys: u64, flags: u64, v: u64)
    requires
        sound(s, pml4),
        map_fits(s, pml4, virt),
    ensures
        sound(map_outcome(s, pml4, virt, phys, flags), pml4),
        map_outcome(s, pml4, virt, phys, flags).frames.len() >= s.frames.len() - 3,
        mapping(map_outcome(s, pml4, virt, phys, flags).tables, pml4, v) == (if page_number(v)
            == page_number(virt) {
            Some(page_entry(phys, flags))
        } else {
            mapping(s.tables, pml4, v)
        }),
{
    let lv = choose|lv: Map<u64, int>| #[trigger]
        leveled(s.tables, pml4, lv) && fresh(s.frames, lv);
    let i4 = table_index(virt, 39);
    let i3 = table_index(virt, 30);
    let i2 = table_index(virt, 21);
    lemma_index_range(virt, 39);
    lemma_index_range(virt, 30);
    lemma_index_range(virt, 21);
    let s1 = with_child(s, pml4, i4);
    let lv1 = levels_with_child(s, lv, pml4, i4);
    lemma_with_child(s, pml4, lv, pml4, i4);
    lemma_with_child_walk(s, pml4, lv, pml4, i4, pml4, v);
    let a3 = child(s1, pml4, i4);
    assert(links(s1.tables, lv1, pml4, i4));
    let s2 = with_child(s1, a3, i3);
    let lv2 = levels_with_child(s1, lv1, a3, i3);
    lemma_with_child(s1, pml4, lv1, a3, i3);
    lemma_with_child_walk(s1, pml4, lv1, a3, i3, pml4, v);
    let a2 = child(s2, a3, i3);
    assert(links(s2.tables, lv2, a3, i3));
    lemma_other_tables_kept(s1, lv1, a3, i3, pml4);
    let s3 = with_child(s2, a2, i2);
    let lv3 = levels_with_child(s2, lv2, a2, i2);
    lemma_with_child(s2, pml4, lv2, a2, i2);
    lemma_with_child_walk(s2, pml4, lv2, a2, i2, pml4, v);
    lemma_other_tables_kept(s2, lv2, a2, i2, pml4);
    lemma_other_tables_kept(s2, lv2, a2, i2, a3);
    assert(links(s3.tables, lv3, a2, i2));
    assert(links(s3.tables, lv3, a3, i3));
    assert(links(s3.tables, lv3, pml4, i4));
    lemma_entry_present(phys, flags);
    lemma_set_leaf(s3.tables, pml4, lv3, virt, page_entry(phys, flags), v);
    let end = map_outcome(s, pml4, virt, phys, flags);
    assert(leveled(end.tables, pml4, lv3) && fresh(end.frames, lv3));
}

/// Three frames are always enough to map a page.
pub proof fn law_map_page_fits(s: PagingState, pml4: u64, virt: u64)
    requires
        sound(s, pml4),
        s.frames.len() >= 3,
    ensures
        map_fits(s, pml4, virt),
{
    let lv = choose|lv: Map<u64, int>| #[trigger]
        leveled(s.tables, pml4, lv) && fresh(s.frames, lv);
    let i4 = table_index(virt, 39);
    let i3 = table_index(virt, 30);
    let i2 = table_index(virt, 21);
    lemma_index_range(virt, 39);
    lemma_index_range(virt, 30);
    lemma_index_range(virt, 21);
    let s1 = with_child(s, pml4, i4);
    let lv1 = levels_with_child(s, lv, pml4, i4);
    lemma_with_child(s, pml4, lv, pml4, i4);
    let a3 = child(s1, pml4, i4);
    assert(links(s1.tables, lv1, pml4, i4));
    let s2 = with_child(s1, a3, i3);
    let lv2 = levels_with_child(s1, lv1, a3, i3);
    lemma_with_child(s1, pml4, lv1, a3, i3);
    let a2 = child(s2, a3, i3);
    assert(links(s2.tables, lv2, a3, i3));
    let lv3 = levels_with_child(s2, lv2, a2, i2);
    lemma_with_child(s2, pml4, lv2, a2, i2);
    assert(links(with_child(s2, a2, i2).tables, lv3, a2, i2));
}

/// Linking a table into one table leaves the others as they are.
proof fn lemma_other_tables_kept(s: PagingState, lv: Map<u64, int>, a: u64, i: int, b: u64)
    requires
        fresh(s.frames, lv),
        child_fits(s, a, i),
        lv.contains_key(b),
        a != b,
    ensures
        with_child(s, a, i).tables[b] == s.tables[b],
{
    if !is_present(s.tables[a][i]) {
        assert(!lv.contains_key(s.frames[0]));
    }
}

/// The last of `pages` that is the page of `v`.
pub open spec fn last_hit(pages: Seq<u64>, v: u64) -> Option<u64>
    decreases pages.len(),
{
    if pages.len() == 0 {
        None
    } else if page_number(pages.last()) == page_number(v) {
        Some(pages.last())
    } else {
        last_hit(pages.drop_last(), v)
    }
}

/// Mapping pages to themselves maps each of them and keeps every other
/// mapping.
pub proof fn law_map_all(s: PagingState, pml4: u64, pages: Seq<u64>, flags: u64, v: u64)
    requires
        sound(s, pml4),
        map_all_fits(s, pml4, pages, flags),
    ensures
        sound(map_all(s, pml4, pages, flags), pml4),
        map_all(s, pml4, pages, flags).frames.len() >= s.frames.len() - 3 * pages.len(),
        mapping(map_all(s, pml4, pages, flags).tables, pml4, v) == (match last_hit(pages, v) {
            Some(p) => Some(page_entry(p, flags)),
            None => mapping(s.tables, pml4, v),
        }),
    decreases pages.len(),
{
    if pages.len() > 0 {
        law_map_all(s, pml4, pages.drop_last(), flags, v);
        let s1 = map_all(s, pml4, pages.drop_last(), flags);
        law_map_page(s1, pml4, pages.last(), pages.last(), flags, v);
    }
}

/// Three frames for each page are always enough to map pages.
pub proof fn law_map_all_fits(s: PagingState, pml4: u64, pages: Seq<u64>, flags: u64)
    requires
        sound(s, pml4),
        s.frames.len() >= 3 * pages.len(),
    ensures
        map_all_fits(s, pml4, pages, flags),
    decreases pages.len(),
{
    if pages.len() > 0 {
        law_map_all_fits(s, pml4, pages.drop_last(), flags);
        law_map_all(s, pml4, pages.drop_last(), flags, 0);
        law_map_page_fits(map_all(s, pml4, pages.drop_last(), flags), pml4, pages.last());
    }
}

/// The kernel's first tables map each page of the memory map's regions and of
/// the framebuffer to itself, writable, and nothing else.
pub proof fn law_init_paging(
    s: PagingState,
    rs: Seq<MemoryRegion>,
    fb_base: u64,
    fb_size: usize,
    v: u64,
)
    requires
        usable_frames(s.frames),
        s.frames.len() > 0,
        map_all_fits(
            with_root(s),
            s.frames[0],
            initial_pages(rs, fb_base, fb_size),
            PAGE_WRITABLE,
        ),
    ensures
        ({
            let pages = initial_pages(rs, fb_base, fb_size);
            let end = map_all(with_root(s), s.frames[0], pages, PAGE_WRITABLE);
            &&& sound(end, s.frames[0])
            &&& mapping(end.tables, s.frames[0], v) == (match last_hit(pages, v) {
                Some(p) => Some(page_entry(p, PAGE_WRITABLE)),
                None => None,
            })
        }),
{
    let root = s.frames[0];
    let s1 = with_root(s);
    let lv = Map::<u64, int>::empty().insert(root, 4);
    assert(s1.tables[root] == empty_table());
    lemma_link(root);
    assert forall|a: u64, i: int| !#[trigger] links(s1.tables, lv, a, i) by {
        if a == root && 0 <= i < 512 {
            assert(s1.tables[root][i] == 0);
        }
    }
    assert(leveled(s1.tables, root, lv));
    assert forall|k: int| 0 <= k < s1.frames.len() implies !lv.contains_key(
        #[trigger] s1.frames[k],
    ) && s1.frames[k] != 0 && page_aligned(s1.frames[k]) by {
        assert(s1.frames[k] == s.frames[k + 1]);
    }
    assert forall|j: int, k: int|
        0 <= j < s1.frames.len() && 0 <= k < s1.frames.len() && j != k implies s1.frames[j]
        != s1.frames[k] by {
        assert(s1.frames[j] == s.frames[j + 1]);
        assert(s1.frames[k] == s.frames[k + 1]);
    }
    assert(fresh(s1.frames, lv));
    assert(sound(s1, root));
    law_map_all(s1, root, initial_pages(rs, fb_base, fb_size), PAGE_WRITABLE, v);
    lemma_index_range(v, 39);
    assert(mapping(s1.tables, root, v) is None) by {
        assert(s1.tables[root][table_index(v, 39)] == 0);
    }
}

/// `a` lies in the part of the address space that a four-level table
/// translates.
pub open spec fn translated(a: int) -> bool {
    0 <= a < 0x1_0000_0000_0000
}

/// Below the end of what a table translates, an address has the page number of
/// a page exactly where it lies in that page.
proof fn lemma_page_of_address(p: u64, v: u64)
    requires
        page_aligned(p),
        translated(p as int),
        translated(v as int),
    ensures
        page_number(p) == page_number(v) <==> p == v - v % 4096,
{
    assert(p % 4096 == 0 && p < 0x1_0000_0000_0000 && v < 0x1_0000_0000_0000 ==> (((p >> 12)
        & 0xF_FFFF_FFFF == (v >> 12) & 0xF_FFFF_FFFF) <==> p == v - v % 4096)) by (bit_vector);
}

/// Pages that are mapped to themselves are each the last hit of the addresses
/// in them.
pub proof fn lemma_last_hit(pages: Seq<u64>, v: u64)
    requires
        translated(v as int),
        forall|j: int|
            0 <= j < pages.len() ==> page_aligned(#[trigger] pages[j]) && translated(
                pages[j] as int,
            ),
    ensures
        last_hit(pages, v) == (if pages.contains((v - v % 4096) as u64) {
            Some((v - v % 4096) as u64)
        } else {
            None
        }),
    decreases pages.len(),
{
    let p = (v - v % 4096) as u64;
    if pages.len() > 0 {
        let n = pages.len() - 1;
        lemma_page_of_address(pages[n], v);
        lemma_last_hit(pages.drop_last(), v);
        if pages[n] != p {
            assert(pages.contains(p) == pages.drop_last().contains(p)) by {
                if pages.contains(p) {
                    let j = choose|j: int| 0 <= j < pages.len() && pages[j] == p;
                    assert(pages.drop_last()[j] == p);
                }
                if pages.drop_last().contains(p) {
                    let j = choose|j: int|
                        0 <= j < pages.drop_last().len() && pages.drop_last()[j] == p;
                    assert(pages[j] == p);
                }
            }
        }
    }
}

/// The regions that are mapped, and the framebuffer, begin at a page and lie
/// where a table can reach them.
pub open spec fn regions_translated(rs: Seq<MemoryRegion>, fb_base: u64, fb_size: usize) -> bool {
    &&& forall|i: int|
        0 <= i < rs.len() ==> page_aligned((#[trigger] rs[i]).start) && rs[i].start + rs[i].pages
            * 4096 <= 0x1_0000_0000_0000
    &&& page_aligned(fb_base)
    &&& fb_base + fb_size <= 0x1_0000_0000_0000
}

/// The kind is one that the kernel maps.
pub open spec fn kept_kind(kind: u32) -> bool {
    ||| kind == EFI_LOADER_CODE
    ||| kind == EFI_LOADER_DATA
    ||| kind == EFI_BOOT_SERVICES_CODE
    ||| kind == EFI_BOOT_SERVICES_DATA
    ||| kind == EFI_RUNTIME_SERVICES_CODE
    ||| kind == EFI_RUNTIME_SERVICES_DATA
    ||| kind == EFI_CONVENTIONAL_MEMORY
    ||| kind == EFI_ACPI_RECLAIM_MEMORY
    ||| kind == EFI_ACPI_MEMORY_NVS
    ||| kind == EFI_MEMORY_MAPPED_IO
    ||| kind == EFI_MEMORY_MAPPED_IO_PORT_SPACE
}

/// `v` lies in a region of a kind that the kernel maps.
pub open spec fn in_kept_region(rs: Seq<MemoryRegion>, v: u64) -> bool {
    exists|i: int|
        0 <= i < rs.len() && kept_kind((#[trigger] rs[i]).kind) && rs[i].start <= v < rs[i].start
            + rs[i].pages * 4096
}

/// `v` lies in a page that the framebuffer reaches into.
pub open spec fn in_framebuffer(fb_base: u64, fb_size: usize, v: u64) -> bool {
    fb_base <= v && v - v % 4096 < fb_base + fb_size
}

/// The pages of the first `n` regions hold an address exactly where a region
/// of a kind that is mapped does.
proof fn lemma_mapped_pages(rs: Seq<MemoryRegion>, n: int, v: u64)
    requires
        0 <= n <= rs.len(),
        regions_translated(rs, 0, 0),
    ensures
        forall|j: int|
            0 <= j < mapped_pages(rs, n).len() ==> page_aligned(
                #[trigger] mapped_pages(rs, n)[j],
            ) && translated(mapped_pages(rs, n)[j] as int),
        mapped_pages(rs, n).contains((v - v % 4096) as u64) <==> in_kept_region(rs.take(n), v),
    decreases n,
{
    let p = (v - v % 4096) as u64;
    let all = mapped_pages(rs, n);
    if n > 0 {
        let before = mapped_pages(rs, n - 1);
        let r = rs[n - 1];
        let here = region_pages(r);
        lemma_mapped_pages(rs, n - 1, v);
        assert(all == before + here);
        assert forall|j: int| 0 <= j < here.len() implies page_aligned(#[trigger] here[j])
            && translated(here[j] as int) && here[j] == r.start + j * 4096 by {
            assert(here[j] == (r.start + j * 4096) as u64);
            assert(j * 4096 <= (r.pages - 1) * 4096);
        }
        assert forall|j: int| 0 <= j < all.len() implies page_aligned(#[trigger] all[j])
            && translated(all[j] as int) by {
            if j < before.len() {
                assert(all[j] == before[j]);
            } else {
                assert(all[j] == here[j - before.len()]);
            }
        }
        let inside = kept_kind(r.kind) && r.start <= v < r.start + r.pages * 4096;
        assert(here.contains(p) == inside) by {
            if inside {
                let j = (p - r.start) / 4096;
                assert(p == r.start + j * 4096);
                assert(here[j] == p);
            }
            if here.contains(p) {
                let j = choose|j: int| 0 <= j < here.len() && here[j] == p;
                assert(here[j] == r.start + j * 4096);
            }
        }
        assert(all.contains(p) == (before.contains(p) || here.contains(p))) by {
            if before.contains(p) {
                let j = choose|j: int| 0 <= j < before.len() && before[j] == p;
                assert(all[j] == p);
            }
            if here.contains(p) {
                let j = choose|j: int| 0 <= j < here.len() && here[j] == p;
                assert(all[before.len() + j] == p);
            }
            if all.contains(p) {
                let j = choose|j: int| 0 <= j < all.len() && all[j] == p;
                if j < before.len() {
                    assert(before[j] == p);
                } else {
                    assert(here[j - before.len()] == p);
                }
            }
        }
        let rest = rs.take(n - 1);
        let now = rs.take(n);
        if in_kept_region(rest, v) {
            let i = choose|i: int|
                0 <= i < rest.len() && kept_kind((#[trigger] rest[i]).kind) && rest[i].start <= v
                    < rest[i].start + rest[i].pages * 4096;
            assert(now[i] == rest[i]);
        }
        if inside {
            assert(now[n - 1] == r);
        }
        if in_kept_region(now, v) && !inside {
            let i = choose|i: int|
                0 <= i < now.len() && kept_kind((#[trigger] now[i]).kind) && now[i].start <= v
                    < now[i].start + now[i].pages * 4096;
            assert(rest[i] == now[i]);
        }
    }
}

/// Every page of every region whose kind is a loader's, the boot or runtime
/// services', conventional memory, ACPI's or memory-mapped I/O is mapped to
/// itself, present and writable, and so is every page of the framebuffer. No
/// other page is mapped.
pub proof fn law_regions_are_mapped(
    s: PagingState,
    rs: Seq<MemoryRegion>,
    fb_base: u64,
    fb_size: usize,
    v: u64,
)
    requires
        usable_frames(s.frames),
        s.frames.len() > 0,
        map_all_fits(
            with_root(s),
            s.frames[0],
            initial_pages(rs, fb_base, fb_size),
            PAGE_WRITABLE,
        ),
        regions_translated(rs, fb_base, fb_size),
        translated(v as int),
    ensures
        ({
            let end = map_all(
                with_root(s),
                s.frames[0],
                initial_pages(rs, fb_base, fb_size),
                PAGE_WRITABLE,
            );
            mapping(end.tables, s.frames[0], v) == (if in_kept_region(rs, v) || in_framebuffer(
                fb_base,
                fb_size,
                v,
            ) {
                Some((v - v % 4096 + 0x3) as u64)
            } else {
                None
            })
        }),
{
    let p = (v - v % 4096) as u64;
    let a = mapped_pages(rs, rs.len() as int);
    let n = (fb_size + 0xFFF) / 4096;
    let b = page_run(fb_base as int, n);
    let pages = initial_pages(rs, fb_base, fb_size);
    assert(pages == a + b);
    law_init_paging(s, rs, fb_base, fb_size, v);
    assert(regions_translated(rs, 0, 0));
    lemma_mapped_pages(rs, rs.len() as int, v);
    assert(rs.take(rs.len() as int) == rs);
    assert forall|j: int| 0 <= j < b.len() implies #[trigger] b[j] == fb_base + j * 4096
        && page_aligned(b[j]) && translated(b[j] as int) by {
        assert(b[j] == (fb_base + j * 4096) as u64);
        assert(j * 4096 <= (n - 1) * 4096);
    }
    assert forall|j: int| 0 <= j < pages.len() implies page_aligned(#[trigger] pages[j])
        && translated(pages[j] as int) by {
        if j < a.len() {
            assert(pages[j] == a[j]);
        } else {
            assert(pages[j] == b[j - a.len()]);
        }
    }
    lemma_last_hit(pages, v);
    assert(b.contains(p) == in_framebuffer(fb_base, fb_size, v)) by {
        if in_framebuffer(fb_base, fb_size, v) {
            let j = (p - fb_base) / 4096;
            assert(p == fb_base + j * 4096);
            assert(b[j] == p);
        }
        if b.contains(p) {
            let j = choose|j: int| 0 <= j < b.len() && b[j] == p;
            assert(b[j] == fb_base + j * 4096);
        }
    }
    assert(pages.contains(p) == (a.contains(p) || b.contains(p))) by {
        if a.contains(p) {
            let j = choose|j: int| 0 <= j < a.len() && a[j] == p;
            assert(pages[j] == p);
        }
        if b.contains(p) {
            let j = choose|j: int| 0 <= j < b.len() && b[j] == p;
            assert(pages[a.len() + j] == p);
        }
        if pages.contains(p) {
            let j = choose|j: int| 0 <= j < pages.len() && pages[j] == p;
            if j < a.len() {
                assert(a[j] == p);
            } else {
                assert(b[j - a.len()] == p);
            }
        }
    }
    lemma_page_entry(p, PAGE_WRITABLE);
}

/// `s1` came from `s` by taking the first `t` frames and putting tables into no
/// others.
pub open spec fn grown(s: PagingState, s1: PagingState, t: int) -> bool {
    &&& 0 <= t <= s.frames.len()
    &&& s1.frames == s.frames.skip(t)
    &&& forall|a: u64| #[trigger]
        s1.tables.contains_key(a) ==> s.tables.contains_key(a) || s.frames.take(t).contains(a)
}

/// Growing twice is growing by both numbers of frames.
pub proof fn lemma_grown_twice(s: PagingState, s1: PagingState, s2: PagingState, t: int, u: int)
    requires
        grown(s, s1, t),
        grown(s1, s2, u),
    ensures
        grown(s, s2, t + u),
{
    assert(s2.frames =~= s.frames.skip(t + u));
    assert forall|a: u64| #[trigger] s2.tables.contains_key(a) implies s.tables.contains_key(a)
        || s.frames.take(t + u).contains(a) by {
        if !s.tables.contains_key(a) {
            if s1.tables.contains_key(a) {
                let j = choose|j: int| 0 <= j < t && s.frames.take(t)[j] == a;
                assert(s.frames.take(t + u)[j] == a);
            } else {
                let j = choose|j: int| 0 <= j < u && s1.frames.take(u)[j] == a;
                assert(s.frames.take(t + u)[t + j] == a);
            }
        }
    }
}

proof fn lemma_child_grows(s: PagingState, a: u64, i: int) -> (t: int)
    requires
        child_fits(s, a, i),
    ensures
        grown(s, with_child(s, a, i), t),
{
    let s1 = with_child(s, a, i);
    if is_present(s.tables[a][i]) {
        assert(s.frames.skip(0) =~= s.frames);
        0
    } else {
        assert(s1.frames =~= s.frames.skip(1));
        assert(s.frames.take(1)[0] == s.frames[0]);
        1
    }
}

/// Mapping pages to themselves puts tables into the next frames only.
pub proof fn lemma_map_all_grows(s: PagingState, pml4: u64, pages: Seq<u64>, flags: u64) -> (t: int)
    requires
        map_all_fits(s, pml4, pages, flags),
    ensures
        grown(s, map_all(s, pml4, pages, flags), t),
    decreases pages.len(),
{
    if pages.len() == 0 {
        assert(s.frames.skip(0) =~= s.frames);
        0
    } else {
        let s0 = map_all(s, pml4, pages.drop_last(), flags);
        let t0 = lemma_map_all_grows(s, pml4, pages.drop_last(), flags);
        let v = pages.last();
        let s1 = with_child(s0, pml4, table_index(v, 39));
        let t1 = lemma_child_grows(s0, pml4, table_index(v, 39));
        let pdpt = child(s1, pml4, table_index(v, 39));
        let s2 = with_child(s1, pdpt, table_index(v, 30));
        let t2 = lemma_child_grows(s1, pdpt, table_index(v, 30));
        let pd = child(s2, pdpt, table_index(v, 30));
        let s3 = with_child(s2, pd, table_index(v, 21));
        let t3 = lemma_child_grows(s2, pd, table_index(v, 21));
        lemma_grown_twice(s, s0, s1, t0, t1);
        lemma_grown_twice(s, s1, s2, t0 + t1, t2);
        lemma_grown_twice(s, s2, s3, t0 + t1 + t2, t3);
        assert(grown(s, map_all(s, pml4, pages, flags), t0 + t1 + t2 + t3));
        t0 + t1 + t2 + t3
    }
}

/// Frames come from conventional regions only, region by region in the order
/// of the memory map: a region adds each of its pages, in order, behind those
/// of the regions before it. A region that begins at address zero adds none.
pub proof fn law_frames_in_order(rs: Seq<MemoryRegion>, r: MemoryRegion)
    ensures
        frames_from(Seq::empty(), 0, 0) == Seq::<u64>::empty(),
        frames_from(rs.push(r), 0, 0) == frames_from(rs, 0, 0) + (if r.kind
            == EFI_CONVENTIONAL_MEMORY && r.start != 0 {
            Seq::new(r.pages as nat, |k: int| (r.start + k * 4096) as u64)
        } else {
            Seq::empty()
        }),
{
    lemma_frames_pushed(rs, r, 0);
}

proof fn lemma_frames_pushed(rs: Seq<MemoryRegion>, r: MemoryRegion, i: int)
    requires
        0 <= i <= rs.len(),
    ensures
        frames_from(rs.push(r), i, 0) == frames_from(rs, i, 0) + (if r.kind
            == EFI_CONVENTIONAL_MEMORY && r.start != 0 {
            Seq::new(r.pages as nat, |k: int| (r.start + k * 4096) as u64)
        } else {
            Seq::empty()
        }),
    decreases rs.len() - i,
{
    let more = if r.kind == EFI_CONVENTIONAL_MEMORY && r.start != 0 {
        Seq::new(r.pages as nat, |k: int| (r.start + k * 4096) as u64)
    } else {
        Seq::empty()
    };
    let all = rs.push(r);
    if i == rs.len() {
        assert(all[i] == r);
        assert(frames_from(all, i + 1, 0) == Seq::<u64>::empty());
        assert(region_frames(r, 0) =~= more);
        assert(frames_from(all, i, 0) =~= more);
        assert(frames_from(rs, i, 0) + more =~= more);
    } else {
        assert(all[i] == rs[i]);
        lemma_frames_pushed(rs, r, i + 1);
        assert(frames_from(all, i, 0) =~= frames_from(rs, i, 0) + more);
    }
}

/// The kinds that are mapped have the numbers that UEFI gives them: all up to
/// fourteen but reserved memory, unusable memory, processor code and persistent
/// memory.
pub proof fn law_kept_kinds(kind: u32)
    ensures
        kept_kind(kind) <==> kind <= 12 && kind != 0 && kind != 8,
{
}

/// Descriptors are a fixed number of bytes apart. The kind is the first field
/// of a descriptor, the region's first address stands at byte eight and the
/// number of its pages at byte twenty-four: a region is read as these three,
/// whatever stands between them.
pub proof fn law_descriptors(
    bytes: Seq<u8>,
    size: int,
    step: int,
    i: int,
    kind: u32,
    start: u64,
    pages: u64,
)
    requires
        map_readable(bytes, size, step),
        0 <= i,
        (i + 1) * step <= size,
        bytes.subrange(i * step, i * step + 4) == u32_bytes(kind),
        bytes.subrange(i * step + 8, i * step + 16) == u64_bytes(start),
        bytes.subrange(i * step + 24, i * step + 32) == u64_bytes(pages),
    ensures
        i < regions(bytes, size, step).len(),
        regions(bytes, size, step)[i] == (MemoryRegion { kind, start, pages }),
        regions(bytes, size, step).len() * step <= size,
        size < (regions(bytes, size, step).len() + 1) * step,
{
    let a = i * step;
    assert((i + 1) * step == a + step && a >= 0) by (nonlinear_arith)
        requires
            a == i * step,
            0 <= i,
            0 <= step,
    ;
    assert(i < size / step) by (nonlinear_arith)
        requires
            (i + 1) * step <= size,
            step > 0,
    ;
    let n = size / step;
    assert(n * step <= size < (n + 1) * step) by (nonlinear_arith)
        requires
            n == size / step,
            size >= 0,
            step > 0,
    ;
    lemma_u32_at(bytes, a, kind);
    lemma_u64_at(bytes, a + 8, start);
    lemma_u64_at(bytes, a + 24, pages);
}

/// All of `pages` are whole pages where a table can reach them.
pub open spec fn whole_pages(pages: Seq<u64>) -> bool {
    forall|j: int|
        0 <= j < pages.len() ==> page_aligned(#[trigger] pages[j]) && translated(pages[j] as int)
}

/// Two lists of pages have a page where one of them has it.
pub proof fn lemma_two_lists(a: Seq<u64>, b: Seq<u64>, p: u64)
    ensures
        (a + b).contains(p) == (a.contains(p) || b.contains(p)),
        whole_pages(a) && whole_pages(b) ==> whole_pages(a + b),
{
    let all = a + b;
    if a.contains(p) {
        let j = choose|j: int| 0 <= j < a.len() && a[j] == p;
        assert(all[j] == p);
    }
    if b.contains(p) {
        let j = choose|j: int| 0 <= j < b.len() && b[j] == p;
        assert(all[a.len() + j] == p);
    }
    if all.contains(p) {
        let j = choose|j: int| 0 <= j < all.len() && all[j] == p;
        if j < a.len() {
            assert(a[j] == p);
        } else {
            assert(b[j - a.len()] == p);
        }
    }
    if whole_pages(a) && whole_pages(b) {
        assert forall|j: int| 0 <= j < all.len() implies page_aligned(#[trigger] all[j])
            && translated(all[j] as int) by {
            if j < a.len() {
                assert(all[j] == a[j]);
            } else {
                assert(all[j] == b[j - a.len()]);
            }
        }
    }
}

/// A run of pages has the pages of the addresses in it.
pub proof fn lemma_run_contains(start: int, n: int, v: u64)
    requires
        0 <= start,
        0 <= n,
        start % 4096 == 0,
        start + n * 4096 <= 0x1_0000_0000_0000,
    ensures
        whole_pages(page_run(start, n)),
        page_run(start, n).contains((v - v % 4096) as u64) <==> start <= v < start + n * 4096,
{
    let p = (v - v % 4096) as u64;
    let run = page_run(start, n);
    assert forall|j: int| 0 <= j < run.len() implies #[trigger] run[j] == start + j * 4096
        && page_aligned(run[j]) && translated(run[j] as int) by {
        assert(run[j] == (start + j * 4096) as u64);
        assert(j * 4096 <= (n - 1) * 4096);
    }
    if start <= v < start + n * 4096 {
        let j = (p - start) / 4096;
        assert(p == start + j * 4096);
        assert(run[j] == p);
    }
    if run.contains(p) {
        let j = choose|j: int| 0 <= j < run.len() && run[j] == p;
        assert(run[j] == start + j * 4096);
    }
}


/// Mapping a run of pages to itself gives each address in it its own page with
/// the flags asked for, present, and leaves every other mapping.
pub proof fn law_run_mapped(s: PagingState, pml4: u64, start: int, n: int, flags: u64, v: u64)
    requires
        sound(s, pml4),
        map_all_fits(s, pml4, page_run(start, n), flags),
        0 <= start,
        0 <= n,
        start % 4096 == 0,
        start + n * 4096 <= 0x1_0000_0000_0000,
        translated(v as int),
        flags < 0x1000,
    ensures
        sound(map_all(s, pml4, page_run(start, n), flags), pml4),
        mapping(map_all(s, pml4, page_run(start, n), flags).tables, pml4, v) == (if start <= v
            < start + n * 4096 {
            Some((v - v % 4096 + (flags | 0x1)) as u64)
        } else {
            mapping(s.tables, pml4, v)
        }),
{
    let p = (v - v % 4096) as u64;
    let pages = page_run(start, n);
    lemma_run_contains(start, n, v);
    law_map_all(s, pml4, pages, flags, v);
    lemma_last_hit(pages, v);
    lemma_page_entry(p, flags);
}

/// The entry of a page holds its address and, below it, the flags.
pub proof fn lemma_page_entry(p: u64, flags: u64)
    requires
        page_aligned(p),
        flags < 0x1000,
    ensures
        page_entry(p, flags) == p + (flags | 0x1),
        flags | 0x1 < 0x1000,
        flags == 0x2 ==> flags | 0x1 == 0x3,
        flags == 0x3 ==> flags | 0x1 == 0x3,
        flags == 0x7 ==> flags | 0x1 == 0x7,
        flags == 0x13 ==> flags | 0x1 == 0x13,
{
    assert(p % 4096 == 0 && flags < 0x1000 ==> (p | flags | 0x1) == p + (flags | 0x1) && (flags
        | 0x1) < 0x1000) by (bit_vector);
    assert(0x2u64 | 0x1 == 0x3 && 0x3u64 | 0x1 == 0x3 && 0x7u64 | 0x1 == 0x7 && 0x13u64 | 0x1
        == 0x13) by (bit_vector);
}

/// Mapping a page writes the entry asked for, and links to new tables, which are
/// present, writable and open to user mode. Every other entry stays or, in a new
/// table, is empty.
pub proof fn law_entries_written(
    s: PagingState,
    pml4: u64,
    virt: u64,
    phys: u64,
    flags: u64,
    a: u64,
    i: int,
)
    requires
        sound(s, pml4),
        map_fits(s, pml4, virt),
        s.tables.contains_key(a) || s.frames.contains(a),
        0 <= i < 512,
    ensures
        ({
            let e = map_outcome(s, pml4, virt, phys, flags).tables[a][i];
            ||| e == s.tables[a][i]
            ||| e == 0
            ||| e == phys | flags | 0x1
            ||| exists|k: int| 0 <= k < s.frames.len() && #[trigger] s.frames[k] + 0x7 == e
        }),
{
    let lv = choose|lv: Map<u64, int>| #[trigger]
        leveled(s.tables, pml4, lv) && fresh(s.frames, lv);
    let i4 = table_index(virt, 39);
    let i3 = table_index(virt, 30);
    let i2 = table_index(virt, 21);
    lemma_index_range(virt, 39);
    lemma_index_range(virt, 30);
    lemma_index_range(virt, 21);
    lemma_index_range(virt, 12);
    let s1 = with_child(s, pml4, i4);
    let lv1 = levels_with_child(s, lv, pml4, i4);
    lemma_with_child(s, pml4, lv, pml4, i4);
    let a3 = child(s1, pml4, i4);
    assert(links(s1.tables, lv1, pml4, i4));
    let s2 = with_child(s1, a3, i3);
    let lv2 = levels_with_child(s1, lv1, a3, i3);
    lemma_with_child(s1, pml4, lv1, a3, i3);
    let a2 = child(s2, a3, i3);
    assert(links(s2.tables, lv2, a3, i3));
    let s3 = with_child(s2, a2, i2);
    let lv3 = levels_with_child(s2, lv2, a2, i2);
    lemma_with_child(s2, pml4, lv2, a2, i2);
    let a1 = child(s3, a2, i2);
    assert(links(s3.tables, lv3, a2, i2));
    lemma_link_written(s, pml4, i4, a, i);
    lemma_link_written(s1, a3, i3, a, i);
    lemma_link_written(s2, a2, i2, a, i);
    let t1 = lemma_child_grows(s, pml4, i4);
    let t2 = lemma_child_grows(s1, a3, i3);
    lemma_grown_twice(s, s1, s2, t1, t2);
    let e = s3.tables[a][i];
    if s3.tables[a][i] != s2.tables[a][i] && s3.tables[a][i] != 0 {
        assert(s2.frames[0] == s.frames[t1 + t2]);
    } else if s2.tables[a][i] != s1.tables[a][i] && s2.tables[a][i] != 0 {
        assert(s1.frames[0] == s.frames[t1]);
    }
}

/// What linking in a table can do to an entry.
proof fn lemma_link_written(s: PagingState, b: u64, j: int, a: u64, i: int)
    requires
        usable_frames(s.frames),
        child_fits(s, b, j),
        s.tables[b].len() == 512,
        0 <= j < 512,
        0 <= i < 512,
    ensures
        ({
            let e = with_child(s, b, j).tables[a][i];
            ||| e == s.tables[a][i]
            ||| e == 0
            ||| s.frames.len() > 0 && s.frames[0] + 0x7 == e
        }),
{
    if !is_present(s.tables[b][j]) {
        let f = s.frames[0];
        assert(f % 4096 == 0 ==> (f | 0x1 | 0x2 | 0x4) == f + 0x7) by (bit_vector);
        assert(empty_table()[i] == 0);
        assert(empty_table().len() == 512);
    }
}

} // verus!
