//! Mapping the memory that the tables lie in.

use vstd::prelude::*;
use crate::acpi::layout::{RSDP_SIZE, RSDP_V2_SIZE, SDT_HEADER_SIZE, readable};
use crate::acpi::rsdp::{ebda_base, rsdp_is_v2};
use crate::acpi::sdt::{
    iter_rsdt, iter_xsdt, rsdt_entries, sdt_length, table_length, table_readable, xsdt_entries,
};
use crate::acpi::tables::AcpiTables;
use crate::memory::frames::FrameAllocator;
use crate::memory::laws::{
    law_map_all, lemma_last_hit, lemma_page_entry, lemma_run_contains, lemma_two_lists, mapping,
    sound, translated, whole_pages,
};
use crate::memory::paging::{
    PagingState, TableMemory, lemma_map_all_append, lemma_map_all_fits_prefix, map_all,
    map_all_fits, map_identity, page_run, paging_state,
};
use crate::memory::phys::{PhysMemory, bytes_at};
use crate::memory::{KERNEL_PAGE, PAGE_SIZE};

verus! {

/// The pages that the `len` bytes from `base` on lie in.
pub open spec fn span_pages(base: int, len: int) -> Seq<u64> {
    page_run(base - base % (PAGE_SIZE as int), span_count(base, len))
}

/// How many pages the `len` bytes from `base` on lie in.
pub open spec fn span_count(base: int, len: int) -> int {
    (base + len + 0xFFF) / (PAGE_SIZE as int) - base / (PAGE_SIZE as int)
}

/// The pages that are mapped for the table at `a`: those of its header, and
/// then those of the whole table where it is longer.
pub open spec fn table_pages(m: Map<int, u8>, a: int) -> Seq<u64> {
    span_pages(a, SDT_HEADER_SIZE as int) + (if table_length(m, a) > SDT_HEADER_SIZE {
        span_pages(a, table_length(m, a))
    } else {
        Seq::empty()
    })
}

/// The pages that are mapped for the first `n` of the tables.
pub open spec fn listed_pages(m: Map<int, u8>, entries: Seq<u64>, n: int) -> Seq<u64>
    decreases n,
{
    if n <= 0 {
        Seq::empty()
    } else {
        listed_pages(m, entries, n - 1) + table_pages(m, entries[n - 1] as int)
    }
}

/// Bytes of the root pointer at `a`.
pub open spec fn rsdp_length(m: Map<int, u8>, a: int) -> int {
    if m[a + 15] >= 2 {
        RSDP_V2_SIZE as int
    } else {
        RSDP_SIZE as int
    }
}

/// The root table and the tables that it lists.
pub open spec fn root_and_entries(t: AcpiTables, m: Map<int, u8>) -> Option<(u64, Seq<u64>)> {
    match (t.xsdt, t.rsdt) {
        (Some(x), _) => Some((x, xsdt_entries(m, x as int))),
        (None, Some(r)) => Some((r, rsdt_entries(m, r as int))),
        (None, None) => None,
    }
}

/// Every page that is mapped for the tables: root pointer, root table, and
/// each table that it lists.
pub open spec fn acpi_pages(t: AcpiTables, m: Map<int, u8>) -> Seq<u64> {
    span_pages(t.rsdp as int, rsdp_length(m, t.rsdp as int)) + (match root_and_entries(t, m) {
        Some((root, entries)) => table_pages(m, root as int) + listed_pages(
            m,
            entries,
            entries.len() as int,
        ),
        None => Seq::empty(),
    })
}

/// The table at `a` has a header, and the page behind its end has an address.
pub open spec fn table_in_range(m: Map<int, u8>, a: int) -> bool {
    &&& readable(m, a, SDT_HEADER_SIZE as int)
    &&& a + SDT_HEADER_SIZE + 0xFFF <= u64::MAX
    &&& a + table_length(m, a) + 0xFFF <= u64::MAX
}

/// What has to be read to map the tables can be read, and the pages behind
/// their ends have addresses.
pub open spec fn acpi_in_range(t: AcpiTables, m: Map<int, u8>) -> bool {
    &&& readable(m, t.rsdp as int, RSDP_SIZE as int)
    &&& t.rsdp + rsdp_length(m, t.rsdp as int) + 0xFFF <= u64::MAX
    &&& match root_and_entries(t, m) {
        Some((root, entries)) => {
            &&& table_readable(m, root as int)
            &&& table_in_range(m, root as int)
            &&& forall|i: int|
                0 <= i < entries.len() ==> table_in_range(m, #[trigger] entries[i] as int)
        },
        None => true,
    }
}

/// The pages that are mapped next fit, where those that are mapped in all do.
proof fn lemma_next_pages(
    s: PagingState,
    pml4: u64,
    all: Seq<u64>,
    done: Seq<u64>,
    next: Seq<u64>,
    rest: Seq<u64>,
    flags: u64,
)
    requires
        map_all_fits(s, pml4, all, flags),
        all == done + next + rest,
    ensures
        map_all_fits(map_all(s, pml4, done, flags), pml4, next, flags),
        map_all(map_all(s, pml4, done, flags), pml4, next, flags) == map_all(
            s,
            pml4,
            done + next,
            flags,
        ),
{
    let k = (done + next).len() as int;
    lemma_map_all_fits_prefix(s, pml4, all, flags, k);
    assert(all.take(k) =~= done + next);
    lemma_map_all_append(s, pml4, done, next, flags);
}

/// Maps the pages that the `len` bytes from `base` on lie in.
fn map_span(
    base: u64,
    len: u64,
    pml4: u64,
    mem: &mut TableMemory,
    allocator: &mut FrameAllocator,
)
    requires
        old(allocator).wf(),
        base + len + 0xFFF <= u64::MAX,
        map_all_fits(
            paging_state(old(mem), old(allocator)),
            pml4,
            span_pages(base as int, len as int),
            KERNEL_PAGE,
        ),
    ensures
        final(allocator).wf(),
        final(allocator).regions() == old(allocator).regions(),
        final(allocator).layout() == old(allocator).layout(),
        paging_state(final(mem), final(allocator)) == map_all(
            paging_state(old(mem), old(allocator)),
            pml4,
            span_pages(base as int, len as int),
            KERNEL_PAGE,
        ),
{
    let page_base: u64 = base - base % PAGE_SIZE;
    let count: u64 = (base + len + 0xFFF) / PAGE_SIZE - base / PAGE_SIZE;
    assert(page_base == base / PAGE_SIZE * PAGE_SIZE);
    assert(page_base + count * PAGE_SIZE <= base + len + 0xFFF);
    map_identity(mem, pml4, page_base, count, KERNEL_PAGE, allocator);
}

/// Maps the pages of the table at `a`: first its header, which tells how long
/// it is, then the rest.
fn map_table(
    phys: &PhysMemory,
    a: u64,
    pml4: u64,
    mem: &mut TableMemory,
    allocator: &mut FrameAllocator,
)
    requires
        old(allocator).wf(),
        table_in_range(phys@, a as int),
        map_all_fits(
            paging_state(old(mem), old(allocator)),
            pml4,
            table_pages(phys@, a as int),
            KERNEL_PAGE,
        ),
    ensures
        final(allocator).wf(),
        final(allocator).regions() == old(allocator).regions(),
        final(allocator).layout() == old(allocator).layout(),
        paging_state(final(mem), final(allocator)) == map_all(
            paging_state(old(mem), old(allocator)),
            pml4,
            table_pages(phys@, a as int),
            KERNEL_PAGE,
        ),
{
    let ghost s = paging_state(mem, allocator);
    let ghost head = span_pages(a as int, SDT_HEADER_SIZE as int);
    let ghost body = if table_length(phys@, a as int) > SDT_HEADER_SIZE {
        span_pages(a as int, table_length(phys@, a as int))
    } else {
        Seq::empty()
    };
    proof {
        lemma_map_all_append(s, pml4, head, body, KERNEL_PAGE);
    }
    map_span(a, SDT_HEADER_SIZE, pml4, mem, allocator);
    let total: u64 = sdt_length(phys, a) as u64;
    if total > SDT_HEADER_SIZE {
        map_span(a, total, pml4, mem, allocator);
    }
}

/// Maps the pages of each of the tables.
fn map_listed(
    phys: &PhysMemory,
    entries: &Vec<u64>,
    pml4: u64,
    mem: &mut TableMemory,
    allocator: &mut FrameAllocator,
)
    requires
        old(allocator).wf(),
        forall|i: int|
            0 <= i < entries@.len() ==> table_in_range(phys@, #[trigger] entries@[i] as int),
        map_all_fits(
            paging_state(old(mem), old(allocator)),
            pml4,
            listed_pages(phys@, entries@, entries@.len() as int),
            KERNEL_PAGE,
        ),
    ensures
        final(allocator).wf(),
        final(allocator).regions() == old(allocator).regions(),
        final(allocator).layout() == old(allocator).layout(),
        paging_state(final(mem), final(allocator)) == map_all(
            paging_state(old(mem), old(allocator)),
            pml4,
            listed_pages(phys@, entries@, entries@.len() as int),
            KERNEL_PAGE,
        ),
{
    let ghost s = paging_state(mem, allocator);
    let ghost n = entries@.len() as int;
    let ghost all = listed_pages(phys@, entries@, n);
    let mut i: usize = 0;
    while i < entries.len()
        invariant
            i <= entries.len(),
            n == entries@.len(),
            all == listed_pages(phys@, entries@, n),
            forall|k: int|
                0 <= k < entries@.len() ==> table_in_range(phys@, #[trigger] entries@[k] as int),
            allocator.wf(),
            allocator.regions() == old(allocator).regions(),
            allocator.layout() == old(allocator).layout(),
            map_all_fits(s, pml4, all, KERNEL_PAGE),
            paging_state(mem, allocator) == map_all(
                s,
                pml4,
                listed_pages(phys@, entries@, i as int),
                KERNEL_PAGE,
            ),
        decreases entries.len() - i,
    {
        proof {
            let done = listed_pages(phys@, entries@, i as int);
            let next = table_pages(phys@, entries@[i as int] as int);
            lemma_listed_prefix(phys@, entries@, i + 1, n);
            let rest = all.skip((done + next).len() as int);
            assert(all =~= done + next + rest);
            lemma_next_pages(s, pml4, all, done, next, rest, KERNEL_PAGE);
        }
        map_table(phys, entries[i], pml4, mem, allocator);
        i += 1;
    }
}

/// The pages of the first tables are a prefix of those of more tables.
proof fn lemma_listed_prefix(m: Map<int, u8>, entries: Seq<u64>, k: int, n: int)
    requires
        0 <= k <= n,
    ensures
        listed_pages(m, entries, k).len() <= listed_pages(m, entries, n).len(),
        listed_pages(m, entries, n).take(listed_pages(m, entries, k).len() as int) == listed_pages(
            m,
            entries,
            k,
        ),
    decreases n,
{
    let len = listed_pages(m, entries, k).len() as int;
    if k < n {
        lemma_listed_prefix(m, entries, k, n - 1);
        assert(listed_pages(m, entries, n).take(len) =~= listed_pages(m, entries, n - 1).take(len));
    } else {
        assert(listed_pages(m, entries, n).take(len) =~= listed_pages(m, entries, n));
    }
}

/// Maps every page that the tables in `tables` lie in.
pub fn map_acpi_tables(
    phys: &PhysMemory,
    pml4: u64,
    mem: &mut TableMemory,
    allocator: &mut FrameAllocator,
    tables: &AcpiTables,
)
    requires
        old(allocator).wf(),
        acpi_in_range(*tables, phys@),
        map_all_fits(
            paging_state(old(mem), old(allocator)),
            pml4,
            acpi_pages(*tables, phys@),
            KERNEL_PAGE,
        ),
    ensures
        final(allocator).wf(),
        final(allocator).regions() == old(allocator).regions(),
        final(allocator).layout() == old(allocator).layout(),
        paging_state(final(mem), final(allocator)) == map_all(
            paging_state(old(mem), old(allocator)),
            pml4,
            acpi_pages(*tables, phys@),
            KERNEL_PAGE,
        ),
{
    let ghost s = paging_state(mem, allocator);
    let rsdp_len: u64 = if rsdp_is_v2(phys, tables.rsdp) {
        RSDP_V2_SIZE
    } else {
        RSDP_SIZE
    };
    let ghost first = span_pages(tables.rsdp as int, rsdp_len as int);
    let ghost second = acpi_pages(*tables, phys@).skip(first.len() as int);
    proof {
        assert(acpi_pages(*tables, phys@) =~= first + second);
        lemma_map_all_append(s, pml4, first, second, KERNEL_PAGE);
    }
    map_span(tables.rsdp, rsdp_len, pml4, mem, allocator);
    let ghost s1 = paging_state(mem, allocator);
    let (root, entries): (u64, Vec<u64>) = match (tables.xsdt, tables.rsdt) {
        (Some(x), _) => (x, iter_xsdt(phys, x)),
        (None, Some(r)) => (r, iter_rsdt(phys, r)),
        (None, None) => {
            assert(second =~= Seq::<u64>::empty());
            return;
        },
    };
    proof {
        let listed = listed_pages(phys@, entries@, entries@.len() as int);
        assert(second =~= table_pages(phys@, root as int) + listed);
        lemma_map_all_append(s1, pml4, table_pages(phys@, root as int), listed, KERNEL_PAGE);
    }
    map_table(phys, root, pml4, mem, allocator);
    map_listed(phys, &entries, pml4, mem, allocator);
}

/// The pages that have to be mapped before the root pointer is searched for:
/// the first page, the data area's two, and the BIOS ROM.
pub open spec fn scan_pages(m: Map<int, u8>) -> Seq<u64> {
    let e = ebda_base(m) - ebda_base(m) % (PAGE_SIZE as int);
    page_run(0, 1) + (if e != 0 {
        page_run(e, 2)
    } else {
        Seq::empty()
    }) + page_run(0xE_0000, 32)
}

/// Maps the pages that are searched for the root pointer.
pub fn map_rsdp_scan_regions(
    phys: &PhysMemory,
    pml4: u64,
    mem: &mut TableMemory,
    allocator: &mut FrameAllocator,
)
    requires
        old(allocator).wf(),
        readable(phys@, 0x040E, 2),
        map_all_fits(
            paging_state(old(mem), old(allocator)),
            pml4,
            scan_pages(phys@),
            KERNEL_PAGE,
        ),
    ensures
        final(allocator).wf(),
        final(allocator).regions() == old(allocator).regions(),
        final(allocator).layout() == old(allocator).layout(),
        paging_state(final(mem), final(allocator)) == map_all(
            paging_state(old(mem), old(allocator)),
            pml4,
            scan_pages(phys@),
            KERNEL_PAGE,
        ),
{
    let ghost s = paging_state(mem, allocator);
    let ghost all = scan_pages(phys@);
    let ghost a = page_run(0, 1);
    let ghost e = ebda_base(phys@) - ebda_base(phys@) % (PAGE_SIZE as int);
    let ghost b = if e != 0 {
        page_run(e, 2)
    } else {
        Seq::empty()
    };
    let ghost c = page_run(0xE_0000, 32);
    proof {
        assert(all =~= a + b + c);
        assert(Seq::<u64>::empty() + a =~= a);
        assert(all =~= Seq::<u64>::empty() + a + (b + c));
        lemma_next_pages(s, pml4, all, Seq::empty(), a, b + c, KERNEL_PAGE);
        lemma_next_pages(s, pml4, all, a, b, c, KERNEL_PAGE);
        assert(all =~= (a + b) + c + Seq::<u64>::empty());
        lemma_next_pages(s, pml4, all, a + b, c, Seq::empty(), KERNEL_PAGE);
    }
    map_identity(mem, pml4, 0, 1, KERNEL_PAGE, allocator);
    let segment: u16 = phys.read_u16(0x040E);
    let base: u64 = segment as u64 * 16;
    let page: u64 = base - base % PAGE_SIZE;
    if page != 0 {
        map_identity(mem, pml4, page, 2, KERNEL_PAGE, allocator);
    } else {
        assert(a + b =~= a);
    }
    map_identity(mem, pml4, 0xE_0000, 32, KERNEL_PAGE, allocator);
    assert(a + b + c =~= all);
}

/// Every byte of a span lies in one of the pages that are mapped for it.
pub proof fn law_span_pages(base: int, len: int, x: int)
    requires
        0 <= base,
        0 < len,
        base + len + 0xFFF <= u64::MAX,
        base <= x < base + len,
    ensures
        exists|i: int|
            0 <= i < span_pages(base, len).len() && #[trigger] span_pages(base, len)[i] <= x
                < span_pages(base, len)[i] + PAGE_SIZE,
{
    let i = x / (PAGE_SIZE as int) - base / (PAGE_SIZE as int);
    let pages = span_pages(base, len);
    assert(pages[i] == base - base % (PAGE_SIZE as int) + i * PAGE_SIZE);
    assert(pages[i] <= x < pages[i] + PAGE_SIZE);
}

/// The page of `v` holds a byte of the `len` from `base` on.
pub open spec fn touches(base: int, len: int, v: u64) -> bool {
    let p = v - v % 4096;
    base < p + 4096 && p < base + len
}

proof fn lemma_span_contains(base: int, len: int, v: u64)
    requires
        0 <= base,
        0 < len,
        base + len + 0xFFF <= 0x1_0000_0000_0000,
    ensures
        whole_pages(span_pages(base, len)),
        span_pages(base, len).contains((v - v % 4096) as u64) <==> touches(base, len, v),
{
    let start = base - base % 4096;
    let n = span_count(base, len);
    assert(start == base / 4096 * 4096);
    assert(start + n * 4096 == (base + len + 0xFFF) / 4096 * 4096);
    lemma_run_contains(start, n, v);
}

/// Bytes of the table at `a`: at least those of its header.
pub open spec fn table_extent(m: Map<int, u8>, a: int) -> int {
    if table_length(m, a) > 36 {
        table_length(m, a)
    } else {
        36
    }
}

proof fn lemma_table_contains(m: Map<int, u8>, a: int, v: u64)
    requires
        0 <= a,
        a + table_extent(m, a) + 0xFFF <= 0x1_0000_0000_0000,
    ensures
        whole_pages(table_pages(m, a)),
        table_pages(m, a).contains((v - v % 4096) as u64) <==> touches(a, table_extent(m, a), v),
{
    let head = span_pages(a, 36);
    lemma_span_contains(a, 36, v);
    if table_length(m, a) > 36 {
        lemma_span_contains(a, table_length(m, a), v);
        lemma_two_lists(head, span_pages(a, table_length(m, a)), (v - v % 4096) as u64);
    } else {
        assert(table_pages(m, a) =~= head);
    }
}

proof fn lemma_listed_contains(m: Map<int, u8>, entries: Seq<u64>, n: int, v: u64)
    requires
        0 <= n <= entries.len(),
        forall|i: int|
            0 <= i < entries.len() ==> #[trigger] entries[i] + table_extent(m, entries[i] as int)
                + 0xFFF <= 0x1_0000_0000_0000,
    ensures
        whole_pages(listed_pages(m, entries, n)),
        listed_pages(m, entries, n).contains((v - v % 4096) as u64) <==> exists|i: int|
            0 <= i < n && touches(
                #[trigger] entries[i] as int,
                table_extent(m, entries[i] as int),
                v,
            ),
    decreases n,
{
    if n > 0 {
        let a = entries[n - 1] as int;
        lemma_listed_contains(m, entries, n - 1, v);
        lemma_table_contains(m, a, v);
        lemma_two_lists(
            listed_pages(m, entries, n - 1),
            table_pages(m, a),
            (v - v % 4096) as u64,
        );
    }
}

/// The root pointer, the root table and the tables listed there end where a
/// table can reach them.
pub open spec fn acpi_translated(t: AcpiTables, m: Map<int, u8>) -> bool {
    &&& t.rsdp + 36 + 0xFFF <= 0x1_0000_0000_0000
    &&& root_and_entries(t, m) matches Some((root, entries)) ==> {
        &&& root + table_extent(m, root as int) + 0xFFF <= 0x1_0000_0000_0000
        &&& forall|i: int|
            0 <= i < entries.len() ==> #[trigger] entries[i] + table_extent(m, entries[i] as int)
                + 0xFFF <= 0x1_0000_0000_0000
    }
}

/// `v` lies in a page of the root pointer, which has 36 bytes from ACPI 2.0 on
/// and 20 before, of the XSDT or else the RSDT, or of a table that it lists.
pub open spec fn acpi_touches(t: AcpiTables, m: Map<int, u8>, v: u64) -> bool {
    ||| touches(
        t.rsdp as int,
        if m[t.rsdp + 15] >= 2 {
            36
        } else {
            20
        },
        v,
    )
    ||| t.xsdt matches Some(x) && (touches(x as int, table_extent(m, x as int), v) || exists|i: int|
        0 <= i < xsdt_entries(m, x as int).len() && touches(
            #[trigger] xsdt_entries(m, x as int)[i] as int,
            table_extent(m, xsdt_entries(m, x as int)[i] as int),
            v,
        ))
    ||| t.xsdt is None && (t.rsdt matches Some(r) && (touches(r as int, table_extent(m, r as int), v)
        || exists|i: int|
        0 <= i < rsdt_entries(m, r as int).len() && touches(
            #[trigger] rsdt_entries(m, r as int)[i] as int,
            table_extent(m, rsdt_entries(m, r as int)[i] as int),
            v,
        )))
}

/// Once the tables are mapped, every page that holds a byte of the root pointer,
/// of the root table or of a table listed there is mapped to itself, present and
/// writable, and every other page is mapped as before.
pub proof fn law_acpi_mapped(t: AcpiTables, m: Map<int, u8>, s: PagingState, pml4: u64, v: u64)
    requires
        sound(s, pml4),
        map_all_fits(s, pml4, acpi_pages(t, m), KERNEL_PAGE),
        acpi_translated(t, m),
        translated(v as int),
    ensures
        mapping(map_all(s, pml4, acpi_pages(t, m), KERNEL_PAGE).tables, pml4, v) == (
        if acpi_touches(t, m, v) {
            Some((v - v % 4096 + 0x3) as u64)
        } else {
            mapping(s.tables, pml4, v)
        }),
{
    let p = (v - v % 4096) as u64;
    let pages = acpi_pages(t, m);
    let first = span_pages(t.rsdp as int, rsdp_length(m, t.rsdp as int));
    lemma_span_contains(t.rsdp as int, rsdp_length(m, t.rsdp as int), v);
    match root_and_entries(t, m) {
        Some((root, entries)) => {
            let a = table_pages(m, root as int);
            let b = listed_pages(m, entries, entries.len() as int);
            lemma_table_contains(m, root as int, v);
            lemma_listed_contains(m, entries, entries.len() as int, v);
            lemma_two_lists(a, b, p);
            lemma_two_lists(first, a + b, p);
        },
        None => {
            assert(pages =~= first);
        },
    }
    law_map_all(s, pml4, pages, KERNEL_PAGE, v);
    assert(whole_pages(pages));
    lemma_last_hit(pages, v);
    lemma_page_entry(p, KERNEL_PAGE);
}

/// Before the root pointer is searched for, the first page, the two pages from
/// the extended BIOS data area on, unless it begins in the first page, and the
/// 128 KiB below one MiB are mapped to themselves, present and writable, and
/// every other page is mapped as before.
pub proof fn law_scan_mapped(m: Map<int, u8>, s: PagingState, pml4: u64, v: u64)
    requires
        sound(s, pml4),
        map_all_fits(s, pml4, scan_pages(m), KERNEL_PAGE),
        translated(v as int),
    ensures
        ({
            let base = 16 * (m[0x40E] + 0x100 * m[0x40F]);
            let e = base - base % 4096;
            mapping(map_all(s, pml4, scan_pages(m), KERNEL_PAGE).tables, pml4, v) == (if v < 0x1000
                || (e != 0 && e <= v < e + 0x2000) || 0xE_0000 <= v < 0x10_0000 {
                Some((v - v % 4096 + 0x3) as u64)
            } else {
                mapping(s.tables, pml4, v)
            })
        }),
{
    let p = (v - v % 4096) as u64;
    let b = bytes_at(m, 0x40E, 2);
    assert(b[0] == m[0x40E] && b[1] == m[0x40F]);
    let base = ebda_base(m);
    let e = base - base % 4096;
    let pages = scan_pages(m);
    let x = page_run(0, 1);
    let y = if e != 0 {
        page_run(e, 2)
    } else {
        Seq::empty()
    };
    let z = page_run(0xE_0000, 32);
    lemma_run_contains(0, 1, v);
    lemma_run_contains(0xE_0000, 32, v);
    if e != 0 {
        lemma_run_contains(e, 2, v);
    }
    lemma_two_lists(x, y, p);
    lemma_two_lists(x + y, z, p);
    assert(pages == x + y + z);
    law_map_all(s, pml4, pages, KERNEL_PAGE, v);
    lemma_last_hit(pages, v);
    lemma_page_entry(p, KERNEL_PAGE);
}

} // verus!
