//! Four-level page tables.

use vstd::prelude::*;
use crate::boot::BootInfo;
use crate::memory::frames::{
    EFI_ACPI_MEMORY_NVS, EFI_ACPI_RECLAIM_MEMORY, EFI_BOOT_SERVICES_CODE,
    EFI_BOOT_SERVICES_DATA, EFI_CONVENTIONAL_MEMORY, EFI_LOADER_CODE, EFI_LOADER_DATA,
    EFI_MEMORY_MAPPED_IO, EFI_MEMORY_MAPPED_IO_PORT_SPACE, EFI_RUNTIME_SERVICES_CODE,
    EFI_RUNTIME_SERVICES_DATA, FrameAllocator, MemoryRegion, region_fits,
};
use crate::memory::{PAGE_PRESENT, PAGE_SIZE, PAGE_USER, PAGE_WRITABLE};

verus! {

/// One page table of any level.
pub struct PageTable {
    pub entries: [u64; 512],
}

/// The entries of an empty table.
pub open spec fn empty_table() -> Seq<u64> {
    Seq::new(512, |i: int| 0u64)
}

impl PageTable {
    /// Clears every entry.
    pub fn zero(&mut self)
        ensures
            final(self).entries@ == empty_table(),
    {
        let mut i: usize = 0;
        while i < 512
            invariant
                i <= 512,
                forall|j: int| 0 <= j < i ==> self.entries@[j] == 0,
            decreases 512 - i,
        {
            self.entries[i] = 0;
            i += 1;
        }
        assert(self.entries@ == empty_table());
    }
}

/// A frame that holds a page table.
pub struct TableFrame {
    pub address: u64,
    pub table: PageTable,
}

/// The part of physical memory that holds page tables.
pub struct TableMemory {
    pub frames: Vec<TableFrame>,
}

/// The place of the frame at `address`, from place `i` on; the length where
/// there is none.
pub open spec fn find_frame(frames: Seq<TableFrame>, address: u64, i: int) -> int
    decreases frames.len() - i,
{
    if i >= frames.len() || frames[i].address == address {
        i
    } else {
        find_frame(frames, address, i + 1)
    }
}

/// The entries of the table in each of the frames.
pub open spec fn tables_in(frames: Seq<TableFrame>) -> Map<u64, Seq<u64>> {
    Map::new(
        |a: u64| find_frame(frames, a, 0) < frames.len(),
        |a: u64| frames[find_frame(frames, a, 0)].table.entries@,
    )
}

impl View for TableMemory {
    type V = Map<u64, Seq<u64>>;

    /// The entries of the table at each address that holds one.
    open spec fn view(&self) -> Map<u64, Seq<u64>> {
        tables_in(self.frames@)
    }
}

proof fn lemma_find_frame(frames: Seq<TableFrame>, address: u64, i: int)
    requires
        0 <= i <= frames.len(),
    ensures
        i <= find_frame(frames, address, i) <= frames.len(),
        find_frame(frames, address, i) < frames.len() ==> frames[find_frame(
            frames,
            address,
            i,
        )].address == address,
    decreases frames.len() - i,
{
    if i < frames.len() && frames[i].address != address {
        lemma_find_frame(frames, address, i + 1);
    }
}

proof fn lemma_find_same_addresses(f: Seq<TableFrame>, g: Seq<TableFrame>, address: u64, i: int)
    requires
        f.len() == g.len(),
        0 <= i <= f.len(),
        forall|j: int| 0 <= j < f.len() ==> (#[trigger] f[j]).address == (#[trigger] g[j]).address,
    ensures
        find_frame(f, address, i) == find_frame(g, address, i),
    decreases f.len() - i,
{
    if i < f.len() {
        assert(f[i].address == g[i].address);
        lemma_find_same_addresses(f, g, address, i + 1);
    }
}

proof fn lemma_find_pushed(f: Seq<TableFrame>, x: TableFrame, address: u64, i: int)
    requires
        0 <= i <= f.len(),
    ensures
        find_frame(f.push(x), address, i) == (if find_frame(f, address, i) < f.len() {
            find_frame(f, address, i)
        } else if x.address == address {
            f.len() as int
        } else {
            f.len() as int + 1
        }),
    decreases f.len() - i,
{
    if i < f.len() {
        assert(f.push(x)[i] == f[i]);
        lemma_find_pushed(f, x, address, i + 1);
    } else {
        assert(f.push(x)[i] == x);
        assert(find_frame(f.push(x), address, i + 1) == i + 1);
    }
}

/// Changing a table changes it at its address and nowhere else.
proof fn lemma_replace_table(f: Seq<TableFrame>, i: int, x: TableFrame)
    requires
        0 <= i < f.len(),
        find_frame(f, x.address, 0) == i,
    ensures
        tables_in(f.update(i, x)) == tables_in(f).insert(x.address, x.table.entries@),
{
    let g = f.update(i, x);
    lemma_find_frame(f, x.address, 0);
    assert forall|a: u64| true implies #[trigger] find_frame(g, a, 0) == find_frame(f, a, 0) by {
        lemma_find_same_addresses(f, g, a, 0);
    }
    assert forall|a: u64| find_frame(f, a, 0) < f.len() && a != x.address implies find_frame(f, a, 0)
        != i by {
        lemma_find_frame(f, a, 0);
    }
    assert forall|a: u64| #[trigger] tables_in(f).contains_key(a) implies 0 <= find_frame(f, a, 0) by {
        lemma_find_frame(f, a, 0);
    }
    assert(tables_in(g) =~= tables_in(f).insert(x.address, x.table.entries@));
}

/// A new frame adds its table.
proof fn lemma_add_table(f: Seq<TableFrame>, x: TableFrame)
    requires
        find_frame(f, x.address, 0) >= f.len(),
    ensures
        tables_in(f.push(x)) == tables_in(f).insert(x.address, x.table.entries@),
{
    let g = f.push(x);
    assert forall|a: u64| true implies {
        &&& #[trigger] tables_in(g).contains_key(a) == (tables_in(f).contains_key(a) || a
            == x.address)
        &&& tables_in(f).contains_key(a) ==> tables_in(g)[a] == tables_in(f)[a]
    } by {
        lemma_find_pushed(f, x, a, 0);
        lemma_find_frame(f, a, 0);
    }
    lemma_find_pushed(f, x, x.address, 0);
    lemma_find_frame(f, x.address, 0);
    assert(tables_in(g) =~= tables_in(f).insert(x.address, x.table.entries@));
}

impl TableMemory {
    /// Memory that holds no page table yet.
    pub fn new() -> (mem: TableMemory)
        ensures
            mem@ == Map::<u64, Seq<u64>>::empty(),
    {
        let mem = TableMemory { frames: Vec::new() };
        assert(mem@ == Map::<u64, Seq<u64>>::empty());
        mem
    }

    fn position(&self, address: u64) -> (i: usize)
        ensures
            i == find_frame(self.frames@, address, 0),
            i <= self.frames@.len(),
    {
        proof {
            lemma_find_frame(self.frames@, address, 0);
        }
        let mut i: usize = 0;
        while i < self.frames.len() && self.frames[i].address != address
            invariant
                i <= self.frames.len(),
                find_frame(self.frames@, address, 0) == find_frame(self.frames@, address, i as int),
            decreases self.frames.len() - i,
        {
            i += 1;
        }
        i
    }

    /// Makes the frame at `address` an empty table.
    pub fn clear_frame(&mut self, address: u64)
        ensures
            final(self)@ == old(self)@.insert(address, empty_table()),
    {
        let i: usize = self.position(address);
        let ghost before = self.frames@;
        if i == self.frames.len() {
            let mut table = PageTable { entries: [0; 512] };
            table.zero();
            self.frames.push(TableFrame { address, table });
            proof {
                lemma_add_table(before, TableFrame { address, table });
            }
        } else {
            self.frames[i].table.zero();
            proof {
                lemma_find_frame(before, address, 0);
                let x = self.frames@[i as int];
                lemma_replace_table(before, i as int, x);
                assert(self.frames@ == before.update(i as int, x));
            }
        }
    }

    /// The entry `index` of the table at `address`.
    pub fn entry(&self, address: u64, index: usize) -> (e: u64)
        requires
            self@.contains_key(address),
            index < 512,
        ensures
            e == self@[address][index as int],
    {
        let i: usize = self.position(address);
        self.frames[i].table.entries[index]
    }
}

/// The table in the frame at `phys_addr`.
pub fn get_table_mut(mem: &mut TableMemory, phys_addr: u64) -> (table: &mut PageTable)
    requires
        old(mem)@.contains_key(phys_addr),
    ensures
        table.entries@ == old(mem)@[phys_addr],
        final(mem)@ == old(mem)@.insert(phys_addr, final(table).entries@),
{
    let i: usize = mem.position(phys_addr);
    proof {
        let f = mem.frames@;
        lemma_find_frame(f, phys_addr, 0);
        assert forall|x: TableFrame| x.address == phys_addr implies tables_in(
            #[trigger] f.update(i as int, x),
        ) == tables_in(f).insert(phys_addr, x.table.entries@) by {
            lemma_replace_table(f, i as int, x);
        }
    }
    &mut mem.frames[i].table
}

// ---------------------------------------------------------------------------
// Mapping a page
// ---------------------------------------------------------------------------

/// The page tables and the frames that new tables can be put in.
#[verifier::ext_equal]
pub struct PagingState {
    pub tables: Map<u64, Seq<u64>>,
    pub frames: Seq<u64>,
}

/// The state that `mem` and `allocator` hold together.
pub open spec fn paging_state(mem: &TableMemory, allocator: &FrameAllocator) -> PagingState {
    PagingState { tables: mem@, frames: allocator.remaining() }
}

/// Which entry the address takes in a table whose entries span `1 << shift`
/// bytes.
pub open spec fn table_index(virt: u64, shift: u64) -> int {
    ((virt >> shift) & 0x1FF) as int
}

/// The entry is present.
pub open spec fn is_present(e: u64) -> bool {
    e & PAGE_PRESENT != 0
}

/// The address in an entry.
pub open spec fn target(e: u64) -> u64 {
    e & !0xFFFu64
}

/// The entry that refers to the table at `frame`.
pub open spec fn table_link(frame: u64) -> u64 {
    frame | PAGE_PRESENT | PAGE_WRITABLE | PAGE_USER
}

/// The entry that maps a page to `phys`.
pub open spec fn page_entry(phys: u64, flags: u64) -> u64 {
    phys | flags | PAGE_PRESENT
}

/// The tables after entry `i` of the table at `a` was set to `e`.
pub open spec fn set_entry(tables: Map<u64, Seq<u64>>, a: u64, i: int, e: u64) -> Map<
    u64,
    Seq<u64>,
> {
    tables.insert(a, tables[a].update(i, e))
}

/// The state in which entry `i` of the table at `a` refers to a table: a new
/// empty one is linked in where there was none.
pub open spec fn with_child(s: PagingState, a: u64, i: int) -> PagingState {
    if is_present(s.tables[a][i]) {
        s
    } else {
        PagingState {
            tables: set_entry(
                s.tables.insert(s.frames[0], empty_table()),
                a,
                i,
                table_link(s.frames[0]),
            ),
            frames: s.frames.drop_first(),
        }
    }
}

/// The table that entry `i` of the table at `a` refers to.
pub open spec fn child(s: PagingState, a: u64, i: int) -> u64 {
    target(s.tables[a][i])
}

/// The table at `a` is there, and a frame is left if its entry `i` needs one.
pub open spec fn child_fits(s: PagingState, a: u64, i: int) -> bool {
    s.tables.contains_key(a) && (is_present(s.tables[a][i]) || s.frames.len() > 0)
}

/// Mapping the page of `virt` to `phys`.
pub open spec fn map_outcome(
    s: PagingState,
    pml4: u64,
    virt: u64,
    phys: u64,
    flags: u64,
) -> PagingState {
    let s1 = with_child(s, pml4, table_index(virt, 39));
    let pdpt = child(s1, pml4, table_index(virt, 39));
    let s2 = with_child(s1, pdpt, table_index(virt, 30));
    let pd = child(s2, pdpt, table_index(virt, 30));
    let s3 = with_child(s2, pd, table_index(virt, 21));
    let pt = child(s3, pd, table_index(virt, 21));
    PagingState {
        tables: set_entry(s3.tables, pt, table_index(virt, 12), page_entry(phys, flags)),
        ..s3
    }
}

/// Mapping the page of `virt` meets only tables that are there, and a frame is
/// left for each table that it needs.
pub open spec fn map_fits(s: PagingState, pml4: u64, virt: u64) -> bool {
    let s1 = with_child(s, pml4, table_index(virt, 39));
    let pdpt = child(s1, pml4, table_index(virt, 39));
    let s2 = with_child(s1, pdpt, table_index(virt, 30));
    let pd = child(s2, pdpt, table_index(virt, 30));
    let s3 = with_child(s2, pd, table_index(virt, 21));
    let pt = child(s3, pd, table_index(virt, 21));
    &&& child_fits(s, pml4, table_index(virt, 39))
    &&& child_fits(s1, pdpt, table_index(virt, 30))
    &&& child_fits(s2, pd, table_index(virt, 21))
    &&& s3.tables.contains_key(pt)
}

/// An index computed from an address is inside the table.
proof fn lemma_table_index(virt: u64, shift: u64)
    ensures
        0 <= table_index(virt, shift) < 512,
{
    assert((virt >> shift) & 0x1FF < 512) by (bit_vector);
}

/// Sees to it that entry `index` of the table at `table` refers to a table,
/// and returns where that table is.
fn next_table(
    mem: &mut TableMemory,
    table: u64,
    index: usize,
    allocator: &mut FrameAllocator,
) -> (address: u64)
    requires
        old(allocator).wf(),
        index < 512,
        child_fits(paging_state(old(mem), old(allocator)), table, index as int),
    ensures
        final(allocator).wf(),
        final(allocator).regions() == old(allocator).regions(),
        final(allocator).layout() == old(allocator).layout(),
        paging_state(final(mem), final(allocator)) == with_child(
            paging_state(old(mem), old(allocator)),
            table,
            index as int,
        ),
        address == child(paging_state(final(mem), final(allocator)), table, index as int),
{
    if mem.entry(table, index) & PAGE_PRESENT == 0 {
        match allocator.allocate_frame() {
            Some(frame) => {
                mem.clear_frame(frame);
                let parent = get_table_mut(mem, table);
                parent.entries[index] = frame | PAGE_PRESENT | PAGE_WRITABLE | PAGE_USER;
            },
            None => {},
        }
    }
    mem.entry(table, index) & !0xFFFu64
}

/// Maps the page of `virt_addr` to `phys_addr` in the tables under the root
/// table at `pml4`, adding the tables that are missing on the way.
pub fn map_page(
    mem: &mut TableMemory,
    pml4: u64,
    virt_addr: u64,
    phys_addr: u64,
    flags: u64,
    allocator: &mut FrameAllocator,
)
    requires
        old(allocator).wf(),
        map_fits(paging_state(old(mem), old(allocator)), pml4, virt_addr),
    ensures
        final(allocator).wf(),
        final(allocator).regions() == old(allocator).regions(),
        final(allocator).layout() == old(allocator).layout(),
        paging_state(final(mem), final(allocator)) == map_outcome(
            paging_state(old(mem), old(allocator)),
            pml4,
            virt_addr,
            phys_addr,
            flags,
        ),
{
    proof {
        lemma_table_index(virt_addr, 39);
        lemma_table_index(virt_addr, 30);
        lemma_table_index(virt_addr, 21);
        lemma_table_index(virt_addr, 12);
    }
    let pml4_idx: usize = ((virt_addr >> 39) & 0x1FF) as usize;
    let pdp_idx: usize = ((virt_addr >> 30) & 0x1FF) as usize;
    let pd_idx: usize = ((virt_addr >> 21) & 0x1FF) as usize;
    let pt_idx: usize = ((virt_addr >> 12) & 0x1FF) as usize;
    let pdpt: u64 = next_table(mem, pml4, pml4_idx, allocator);
    let pd: u64 = next_table(mem, pdpt, pdp_idx, allocator);
    let pt: u64 = next_table(mem, pd, pd_idx, allocator);
    let table = get_table_mut(mem, pt);
    table.entries[pt_idx] = phys_addr | flags | PAGE_PRESENT;
}

// ---------------------------------------------------------------------------
// Mapping many pages
// ---------------------------------------------------------------------------

/// The first addresses of `n` pages in a row.
pub open spec fn page_run(start: int, n: int) -> Seq<u64> {
    Seq::new(n as nat, |i: int| (start + i * PAGE_SIZE) as u64)
}

/// Pages that `size` bytes from a page's first address on reach into.
pub open spec fn page_count(size: int) -> int {
    (size + (PAGE_SIZE - 1)) / (PAGE_SIZE as int)
}

/// Mapping each of `pages` to itself, in order.
pub open spec fn map_all(s: PagingState, pml4: u64, pages: Seq<u64>, flags: u64) -> PagingState
    decreases pages.len(),
{
    if pages.len() == 0 {
        s
    } else {
        map_outcome(
            map_all(s, pml4, pages.drop_last(), flags),
            pml4,
            pages.last(),
            pages.last(),
            flags,
        )
    }
}

/// Mapping each of `pages` to itself finds the tables and frames it needs.
pub open spec fn map_all_fits(s: PagingState, pml4: u64, pages: Seq<u64>, flags: u64) -> bool
    decreases pages.len(),
{
    pages.len() > 0 ==> {
        &&& map_all_fits(s, pml4, pages.drop_last(), flags)
        &&& map_fits(map_all(s, pml4, pages.drop_last(), flags), pml4, pages.last())
    }
}

/// Mapping fits for as many of the pages as one likes.
pub proof fn lemma_map_all_fits_prefix(
    s: PagingState,
    pml4: u64,
    pages: Seq<u64>,
    flags: u64,
    k: int,
)
    requires
        map_all_fits(s, pml4, pages, flags),
        0 <= k <= pages.len(),
    ensures
        map_all_fits(s, pml4, pages.take(k), flags),
    decreases pages.len(),
{
    if k == pages.len() {
        assert(pages.take(k) == pages);
    } else {
        lemma_map_all_fits_prefix(s, pml4, pages.drop_last(), flags, k);
        assert(pages.drop_last().take(k) == pages.take(k));
    }
}

/// Mapping pages in two goes is mapping them in one.
pub proof fn lemma_map_all_append(
    s: PagingState,
    pml4: u64,
    first: Seq<u64>,
    second: Seq<u64>,
    flags: u64,
)
    ensures
        map_all(s, pml4, first + second, flags) == map_all(
            map_all(s, pml4, first, flags),
            pml4,
            second,
            flags,
        ),
        map_all_fits(s, pml4, first + second, flags) == (map_all_fits(s, pml4, first, flags)
            && map_all_fits(map_all(s, pml4, first, flags), pml4, second, flags)),
    decreases second.len(),
{
    if second.len() == 0 {
        assert(first + second == first);
    } else {
        lemma_map_all_append(s, pml4, first, second.drop_last(), flags);
        assert((first + second).drop_last() == first + second.drop_last());
    }
}

/// Maps `count` pages from `start` on to themselves.
pub fn map_identity(
    mem: &mut TableMemory,
    pml4: u64,
    start: u64,
    count: u64,
    flags: u64,
    allocator: &mut FrameAllocator,
)
    requires
        old(allocator).wf(),
        count > 0 ==> start + (count - 1) * PAGE_SIZE <= u64::MAX,
        map_all_fits(
            paging_state(old(mem), old(allocator)),
            pml4,
            page_run(start as int, count as int),
            flags,
        ),
    ensures
        final(allocator).wf(),
        final(allocator).regions() == old(allocator).regions(),
        final(allocator).layout() == old(allocator).layout(),
        paging_state(final(mem), final(allocator)) == map_all(
            paging_state(old(mem), old(allocator)),
            pml4,
            page_run(start as int, count as int),
            flags,
        ),
{
    let ghost s = paging_state(mem, allocator);
    let ghost pages = page_run(start as int, count as int);
    let mut i: u64 = 0;
    assert(pages.take(0) == Seq::<u64>::empty());
    while i < count
        invariant
            allocator.wf(),
            allocator.regions() == old(allocator).regions(),
            allocator.layout() == old(allocator).layout(),
            i <= count,
            count > 0 ==> start + (count - 1) * PAGE_SIZE <= u64::MAX,
            pages == page_run(start as int, count as int),
            map_all_fits(s, pml4, pages, flags),
            paging_state(mem, allocator) == map_all(s, pml4, pages.take(i as int), flags),
        decreases count - i,
    {
        assert(i * PAGE_SIZE <= (count - 1) * PAGE_SIZE);
        let address: u64 = start + i * PAGE_SIZE;
        proof {
            let next = pages.take(i + 1);
            lemma_map_all_fits_prefix(s, pml4, pages, flags, i + 1);
            assert(next.drop_last() == pages.take(i as int));
            assert(next.last() == address);
        }
        map_page(mem, pml4, address, address, flags, allocator);
        i += 1;
    }
    assert(pages.take(count as int) == pages);
}

// ---------------------------------------------------------------------------
// The kernel's first tables
// ---------------------------------------------------------------------------

/// Regions of this kind are mapped.
pub open spec fn is_mapped_kind(kind: u32) -> bool {
    1 <= kind <= 7 || 9 <= kind <= 12
}

/// The pages of the region, where its kind is mapped.
pub open spec fn region_pages(r: MemoryRegion) -> Seq<u64> {
    if is_mapped_kind(r.kind) {
        page_run(r.start as int, r.pages as int)
    } else {
        Seq::empty()
    }
}

/// The pages of the first `n` regions that are mapped.
pub open spec fn mapped_pages(rs: Seq<MemoryRegion>, n: int) -> Seq<u64>
    decreases n,
{
    if n <= 0 {
        Seq::empty()
    } else {
        mapped_pages(rs, n - 1) + region_pages(rs[n - 1])
    }
}

/// Every page that the kernel maps at first: the memory map's regions, then
/// the framebuffer.
pub open spec fn initial_pages(rs: Seq<MemoryRegion>, fb_base: u64, fb_size: usize) -> Seq<u64> {
    mapped_pages(rs, rs.len() as int) + page_run(fb_base as int, page_count(fb_size as int))
}

/// The state with an empty root table in the first frame.
pub open spec fn with_root(s: PagingState) -> PagingState {
    PagingState {
        tables: s.tables.insert(s.frames[0], empty_table()),
        frames: s.frames.drop_first(),
    }
}

/// The regions that are mapped end inside the address space.
pub open spec fn mapped_fit(rs: Seq<MemoryRegion>) -> bool {
    forall|i: int|
        0 <= i < rs.len() && is_mapped_kind((#[trigger] rs[i]).kind) ==> region_fits(rs[i])
}

fn mapped_kind(kind: u32) -> (b: bool)
    ensures
        b == is_mapped_kind(kind),
{
    kind == EFI_CONVENTIONAL_MEMORY || kind == EFI_LOADER_CODE || kind == EFI_LOADER_DATA || kind
        == EFI_BOOT_SERVICES_CODE || kind == EFI_BOOT_SERVICES_DATA || kind
        == EFI_RUNTIME_SERVICES_CODE || kind == EFI_RUNTIME_SERVICES_DATA || kind
        == EFI_ACPI_RECLAIM_MEMORY || kind == EFI_ACPI_MEMORY_NVS || kind == EFI_MEMORY_MAPPED_IO
        || kind == EFI_MEMORY_MAPPED_IO_PORT_SPACE
}

/// The pages of the first regions are a prefix of those of more regions.
proof fn lemma_mapped_pages_prefix(rs: Seq<MemoryRegion>, k: int, n: int)
    requires
        0 <= k <= n,
    ensures
        mapped_pages(rs, k).len() <= mapped_pages(rs, n).len(),
        mapped_pages(rs, n).take(mapped_pages(rs, k).len() as int) == mapped_pages(rs, k),
    decreases n,
{
    if k < n {
        lemma_mapped_pages_prefix(rs, k, n - 1);
        let m = mapped_pages(rs, k).len() as int;
        assert(mapped_pages(rs, n).take(m) == mapped_pages(rs, n - 1).take(m));
    } else {
        assert(mapped_pages(rs, n).take(mapped_pages(rs, n).len() as int) == mapped_pages(rs, n));
    }
}

/// Builds tables that map the memory map's regions and the framebuffer to
/// themselves, and returns where the root table is.
pub fn init_paging(
    boot_info: &BootInfo,
    mem: &mut TableMemory,
    allocator: &mut FrameAllocator,
) -> (pml4: u64)
    requires
        old(allocator).wf(),
        old(allocator).remaining().len() > 0,
        mapped_fit(old(allocator).regions()),
        boot_info.framebuffer_base + boot_info.framebuffer_size <= u64::MAX,
        map_all_fits(
            with_root(paging_state(old(mem), old(allocator))),
            old(allocator).remaining()[0],
            initial_pages(
                old(allocator).regions(),
                boot_info.framebuffer_base,
                boot_info.framebuffer_size,
            ),
            PAGE_WRITABLE,
        ),
    ensures
        final(allocator).wf(),
        final(allocator).regions() == old(allocator).regions(),
        final(allocator).layout() == old(allocator).layout(),
        pml4 == old(allocator).remaining()[0],
        paging_state(final(mem), final(allocator)) == map_all(
            with_root(paging_state(old(mem), old(allocator))),
            pml4,
            initial_pages(
                old(allocator).regions(),
                boot_info.framebuffer_base,
                boot_info.framebuffer_size,
            ),
            PAGE_WRITABLE,
        ),
{
    let ghost rs = allocator.regions();
    let ghost first = allocator.remaining()[0];
    let ghost s = with_root(paging_state(mem, allocator));
    let ghost fb = page_run(
        boot_info.framebuffer_base as int,
        page_count(boot_info.framebuffer_size as int),
    );
    let pml4: u64 = match allocator.allocate_frame() {
        Some(frame) => frame,
        None => 0,
    };
    mem.clear_frame(pml4);
    proof {
        lemma_map_all_append(s, pml4, mapped_pages(rs, rs.len() as int), fb, PAGE_WRITABLE);
    }
    let count: usize = allocator.region_count();
    let mut i: usize = 0;
    while i < count
        invariant
            allocator.wf(),
            allocator.regions() == rs,
            old(allocator).regions() == rs,
            allocator.layout() == old(allocator).layout(),
            count == rs.len(),
            i <= count,
            mapped_fit(rs),
            map_all_fits(s, pml4, mapped_pages(rs, rs.len() as int), PAGE_WRITABLE),
            paging_state(mem, allocator) == map_all(
                s,
                pml4,
                mapped_pages(rs, i as int),
                PAGE_WRITABLE,
            ),
        decreases count - i,
    {
        let region = allocator.region(i);
        proof {
            lemma_mapped_pages_prefix(rs, i + 1, rs.len() as int);
            lemma_map_all_fits_prefix(
                s,
                pml4,
                mapped_pages(rs, rs.len() as int),
                PAGE_WRITABLE,
                mapped_pages(rs, i + 1).len() as int,
            );
            lemma_map_all_append(
                s,
                pml4,
                mapped_pages(rs, i as int),
                region_pages(region),
                PAGE_WRITABLE,
            );
        }
        if mapped_kind(region.kind) {
            assert(region_fits(rs[i as int]));
            map_identity(mem, pml4, region.start, region.pages, PAGE_WRITABLE, allocator);
        } else {
            assert(region_pages(region) == Seq::<u64>::empty());
            assert(mapped_pages(rs, i + 1) == mapped_pages(rs, i as int));
        }
        i += 1;
    }
    let fb_size: u64 = boot_info.framebuffer_size as u64;
    let fb_pages: u64 = fb_size / PAGE_SIZE + if fb_size % PAGE_SIZE == 0 {
        0u64
    } else {
        1u64
    };
    assert(fb_pages == page_count(boot_info.framebuffer_size as int));
    map_identity(mem, pml4, boot_info.framebuffer_base, fb_pages, PAGE_WRITABLE, allocator);
    pml4
}

} // verus!
