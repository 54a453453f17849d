//! What the kernel sets up before the first program runs.

use vstd::prelude::*;
use crate::acpi::layout::{RSDP_SIZE, readable};
use crate::acpi::madt::{MadtInfo, MadtSummary, madt_readable, madt_summary, parse_madt};
use crate::acpi::mapping::{acpi_in_range, acpi_pages, map_acpi_tables};
use crate::acpi::report::{dump_tables, report};
use crate::acpi::rsdp::{checksum_at, rsdp_from_address};
use crate::acpi::sdt::extent_readable;
use crate::acpi::tables::{AcpiTables, roots_readable, tables_from, tables_readable};
use crate::boot::BootInfo;
use crate::kef::{allocate_run, contiguous, lemma_take_run_sound};
use crate::memory::frames::FrameAllocator;
use crate::memory::laws::{
    fresh, law_map_all, law_run_mapped, lemma_last_hit, lemma_map_all_grows, lemma_page_entry,
    lemma_run_contains, lemma_two_lists, leveled, mapping, page_aligned, sound, translated,
    usable_frames, whole_pages,
};
use crate::memory::paging::{
    PagingState, TableMemory, lemma_map_all_append, lemma_map_all_fits_prefix, map_all,
    map_all_fits, map_identity, map_page, page_count, page_run, paging_state,
};
use crate::memory::phys::PhysMemory;
use crate::memory::{DEVICE_PAGE, KERNEL_PAGE, PAGE_SIZE};
use crate::text::{decimal, hex_prefixed, push_decimal, push_hex};

verus! {

/// Pages of an NVMe controller's registers.
pub const NVME_PAGES: u64 = 4;

/// Pages of an xHCI controller's registers.
pub const XHCI_PAGES: u64 = 16;

/// Pages of the kernel's heap.
pub const HEAP_PAGES: u64 = 128;

/// Pages of the kernel's stack.
pub const STACK_PAGES: u64 = 4;

/// The lines that the kernel begins with.
pub open spec fn hello_text(w: u32, h: u32, fb: u64) -> Seq<char> {
    "Hello World from Kernel!\nResolution: "@ + decimal(w as int) + "x"@ + decimal(h as int)
        + "\nFramebuffer: "@ + hex_prefixed(fb as int) + "\n"@
}

/// The lines that the kernel begins with.
pub fn hello(info: &BootInfo) -> (s: String)
    ensures
        s@ == hello_text(
            info.horizontal_resolution,
            info.vertical_resolution,
            info.framebuffer_base,
        ),
{
    let mut s = String::from_str("Hello World from Kernel!\nResolution: ");
    push_decimal(&mut s, info.horizontal_resolution as u64);
    s.append("x");
    push_decimal(&mut s, info.vertical_resolution as u64);
    s.append("\nFramebuffer: ");
    push_hex(&mut s, info.framebuffer_base);
    s.append("\n");
    s
}

/// The line about `count` processors and the I/O APIC at `io_apic`.
pub open spec fn cpu_text(count: int, io_apic: u32) -> Seq<char> {
    "Found "@ + decimal(count) + " CPUs, I/O APIC @ "@ + hex_prefixed(io_apic as int) + "\n"@
}

/// The line about the processors that were found.
pub fn cpu_message(info: &MadtInfo) -> (s: String)
    ensures
        s@ == cpu_text(info.cpu_count as int, info.io_apic_address),
{
    let mut s = String::from_str("Found ");
    push_decimal(&mut s, info.cpu_count as u64);
    s.append(" CPUs, I/O APIC @ ");
    push_hex(&mut s, info.io_apic_address as u64);
    s.append("\n");
    s
}

/// Reading the ACPI tables that the root pointer at `rsdp` leads to: the
/// tables, what is printed, and page tables and frames.
pub open spec fn acpi_outcome(m: Map<int, u8>, rsdp: u64, pml4: u64, s: PagingState) -> (
    Option<AcpiTables>,
    Seq<char>,
    PagingState,
) {
    if rsdp == 0 {
        (None, "ACPI: no RSDP found in EFI Configuration Table\n"@, s)
    } else {
        let t = tables_from(m, rsdp);
        (
            Some(t),
            report(t, m) + (match t.madt {
                Some(a) => cpu_text(
                    madt_summary(m, a as int).apic_ids.len() as int,
                    madt_summary(m, a as int).io_apic_address,
                ),
                None => Seq::empty(),
            }),
            map_all(s, pml4, acpi_pages(t, m), KERNEL_PAGE),
        )
    }
}

/// The root pointer is sound, the tables lie in readable memory, and there
/// are frames to map them.
pub open spec fn acpi_fits(m: Map<int, u8>, rsdp: u64, pml4: u64, s: PagingState) -> bool {
    rsdp != 0 ==> {
        let t = tables_from(m, rsdp);
        &&& readable(m, rsdp as int, RSDP_SIZE as int)
        &&& checksum_at(m, rsdp as int, RSDP_SIZE as int) == 0
        &&& roots_readable(m, rsdp as int)
        &&& acpi_in_range(t, m)
        &&& tables_readable(t, m)
        &&& t.mcfg matches Some(a) ==> extent_readable(m, a as int)
        &&& map_all_fits(s, pml4, acpi_pages(t, m), KERNEL_PAGE)
    }
}

/// Finds the ACPI tables, maps them and reports them.
pub fn init_acpi(
    info: &BootInfo,
    phys: &PhysMemory,
    pml4: u64,
    mem: &mut TableMemory,
    allocator: &mut FrameAllocator,
) -> (r: (Option<AcpiTables>, String))
    requires
        old(allocator).wf(),
        acpi_fits(phys@, info.acpi_rsdp_phys, pml4, paging_state(old(mem), old(allocator))),
    ensures
        final(allocator).wf(),
        final(allocator).regions() == old(allocator).regions(),
        final(allocator).layout() == old(allocator).layout(),
        (r.0, r.1@, paging_state(final(mem), final(allocator))) == acpi_outcome(
            phys@,
            info.acpi_rsdp_phys,
            pml4,
            paging_state(old(mem), old(allocator)),
        ),
{
    if info.acpi_rsdp_phys == 0 {
        return (None, String::from_str("ACPI: no RSDP found in EFI Configuration Table\n"));
    }
    let rsdp: u64 = match rsdp_from_address(phys, info.acpi_rsdp_phys) {
        Some(rsdp) => rsdp,
        None => info.acpi_rsdp_phys,
    };
    let tables = AcpiTables::from_rsdp(phys, rsdp);
    map_acpi_tables(phys, pml4, mem, allocator, &tables);
    let mut text = dump_tables(phys, &tables);
    match tables.madt_info(phys) {
        Some(madt) => {
            assert(madt@.apic_ids.len() == madt.cpu_count);
            let line = cpu_message(&madt);
            text.append(line.as_str());
        },
        None => {
            assert(text@ + Seq::<char>::empty() =~= text@);
        },
    }
    (Some(tables), text)
}

// ---------------------------------------------------------------------------
// Devices
// ---------------------------------------------------------------------------

/// The memory address in a base address register, without its flags.
pub open spec fn bar_low(bar0: u32) -> int {
    bar0 - bar0 as int % 16
}

/// Where an NVMe controller's registers lie: the second register holds the
/// upper half where it is set.
pub fn nvme_base(bar0: u32, bar1: u32) -> (base: u64)
    ensures
        base == nvme_address(bar0, bar1),
{
    let low: u64 = (bar0 as u64) & 0xFFFF_FFF0;
    let high: u64 = (bar1 as u64) << 32;
    assert((bar0 as u64) & 0xFFFF_FFF0 == bar0 - bar0 % 16) by (bit_vector);
    assert(low | high == low + high && high == bar1 * 0x1_0000_0000) by (bit_vector)
        requires
            low == (bar0 as u64) & 0xFFFF_FFF0,
            high == (bar1 as u64) << 32,
    ;
    if bar1 != 0 {
        low | high
    } else {
        low
    }
}

/// The register says that the address has 64 bits.
pub open spec fn is_wide_bar(bar0: u32) -> bool {
    bar0 as int / 2 % 4 == 2
}

/// Where an xHCI controller's registers lie: the second register holds the
/// upper half where the first says so.
pub fn xhci_base(bar0: u32, bar1: u32) -> (base: u64)
    ensures
        base == xhci_address(bar0, bar1),
{
    let low: u64 = (bar0 as u64) & 0xFFFF_FFF0;
    let high: u64 = (bar1 as u64) << 32;
    assert((bar0 as u64) & 0xFFFF_FFF0 == bar0 - bar0 % 16) by (bit_vector);
    assert((bar0 >> 1) & 0x3 == bar0 / 2 % 4) by (bit_vector);
    assert(low | high == low + high && high == bar1 * 0x1_0000_0000) by (bit_vector)
        requires
            low == (bar0 as u64) & 0xFFFF_FFF0,
            high == (bar1 as u64) << 32,
    ;
    let bar_type: u32 = (bar0 >> 1) & 0x3;
    if bar_type == 2 {
        low | high
    } else {
        low
    }
}

/// A run of bytes that a device works on.
#[derive(Debug, Clone, Copy, PartialEq, Eq, Structural)]
pub struct Buffer {
    pub base: u64,
    pub size: usize,
}

/// The pages of the first `n` buffers, each counted from its first byte on.
pub open spec fn buffer_pages(buffers: Seq<Buffer>, n: int) -> Seq<u64>
    decreases n,
{
    if n <= 0 {
        Seq::empty()
    } else {
        buffer_pages(buffers, n - 1) + page_run(
            buffers[n - 1].base as int,
            page_count(buffers[n - 1].size as int),
        )
    }
}

/// The buffer's pages have addresses.
pub open spec fn buffer_fits(b: Buffer) -> bool {
    b.size > 0 ==> b.base + (page_count(b.size as int) - 1) * PAGE_SIZE <= u64::MAX
}

proof fn lemma_buffer_pages_prefix(buffers: Seq<Buffer>, k: int, n: int)
    requires
        0 <= k <= n,
    ensures
        buffer_pages(buffers, k).len() <= buffer_pages(buffers, n).len(),
        buffer_pages(buffers, n).take(buffer_pages(buffers, k).len() as int) == buffer_pages(
            buffers,
            k,
        ),
    decreases n,
{
    let len = buffer_pages(buffers, k).len() as int;
    if k < n {
        lemma_buffer_pages_prefix(buffers, k, n - 1);
        assert(buffer_pages(buffers, n).take(len) =~= buffer_pages(buffers, n - 1).take(len));
    } else {
        assert(buffer_pages(buffers, n).take(len) =~= buffer_pages(buffers, n));
    }
}

/// Maps the buffers that a device works on to themselves.
pub fn map_buffers(
    buffers: &Vec<Buffer>,
    pml4: u64,
    mem: &mut TableMemory,
    allocator: &mut FrameAllocator,
)
    requires
        old(allocator).wf(),
        forall|i: int| 0 <= i < buffers@.len() ==> buffer_fits(#[trigger] buffers@[i]),
        map_all_fits(
            paging_state(old(mem), old(allocator)),
            pml4,
            buffer_pages(buffers@, buffers@.len() as int),
            KERNEL_PAGE,
        ),
    ensures
        final(allocator).wf(),
        final(allocator).regions() == old(allocator).regions(),
        final(allocator).layout() == old(allocator).layout(),
        paging_state(final(mem), final(allocator)) == map_all(
            paging_state(old(mem), old(allocator)),
            pml4,
            buffer_pages(buffers@, buffers@.len() as int),
            KERNEL_PAGE,
        ),
{
    let ghost s = paging_state(mem, allocator);
    let ghost n = buffers@.len() as int;
    let ghost all = buffer_pages(buffers@, n);
    let mut i: usize = 0;
    while i < buffers.len()
        invariant
            i <= buffers@.len(),
            n == buffers@.len(),
            all == buffer_pages(buffers@, n),
            forall|k: int| 0 <= k < buffers@.len() ==> buffer_fits(#[trigger] buffers@[k]),
            allocator.wf(),
            allocator.regions() == old(allocator).regions(),
            allocator.layout() == old(allocator).layout(),
            map_all_fits(s, pml4, all, KERNEL_PAGE),
            paging_state(mem, allocator) == map_all(
                s,
                pml4,
                buffer_pages(buffers@, i as int),
                KERNEL_PAGE,
            ),
        decreases buffers@.len() - i,
    {
        let b = buffers[i];
        let size: u64 = b.size as u64;
        let pages: u64 = size / PAGE_SIZE + if size % PAGE_SIZE == 0 {
            0u64
        } else {
            1u64
        };
        assert(pages == page_count(b.size as int));
        proof {
            let done = buffer_pages(buffers@, i as int);
            let next = page_run(b.base as int, pages as int);
            lemma_buffer_pages_prefix(buffers@, i + 1, n);
            lemma_map_all_fits_prefix(s, pml4, all, KERNEL_PAGE, (done + next).len() as int);
            assert(all.take((done + next).len() as int) =~= done + next);
            lemma_map_all_append(s, pml4, done, next, KERNEL_PAGE);
            assert(buffer_fits(buffers@[i as int]));
        }
        map_identity(mem, pml4, b.base, pages, KERNEL_PAGE, allocator);
        i += 1;
    }
}

/// Where an NVMe controller's registers lie, by its base address registers.
pub open spec fn nvme_address(bar0: u32, bar1: u32) -> int {
    bar_low(bar0) + bar1 * 0x1_0000_0000
}

/// Maps an NVMe controller's registers to themselves and says where they are.
pub fn map_nvme(
    bar0: u32,
    bar1: u32,
    pml4: u64,
    mem: &mut TableMemory,
    allocator: &mut FrameAllocator,
) -> (text: String)
    requires
        old(allocator).wf(),
        nvme_address(bar0, bar1) + (NVME_PAGES - 1) * PAGE_SIZE <= u64::MAX,
        map_all_fits(
            paging_state(old(mem), old(allocator)),
            pml4,
            page_run(nvme_address(bar0, bar1), NVME_PAGES as int),
            KERNEL_PAGE,
        ),
    ensures
        final(allocator).wf(),
        final(allocator).regions() == old(allocator).regions(),
        final(allocator).layout() == old(allocator).layout(),
        text@ == "Mapping NVMe BAR at "@ + hex_prefixed(nvme_address(bar0, bar1)) + "\n"@,
        paging_state(final(mem), final(allocator)) == map_all(
            paging_state(old(mem), old(allocator)),
            pml4,
            page_run(nvme_address(bar0, bar1), NVME_PAGES as int),
            KERNEL_PAGE,
        ),
{
    let base: u64 = nvme_base(bar0, bar1);
    let mut text = String::from_str("Mapping NVMe BAR at ");
    push_hex(&mut text, base);
    text.append("\n");
    map_identity(mem, pml4, base, NVME_PAGES, KERNEL_PAGE, allocator);
    text
}

/// The line about the volume, by the number of its clusters if it is
/// formatted.
pub fn mount_message(clusters: Option<u32>) -> (s: String)
    ensures
        s@ == (match clusters {
            Some(n) => "FS: FAT volume mounted successfully. Total clusters: "@ + decimal(n as int)
                + "\n"@,
            None => "FS: FAT volume is not formatted.\n"@,
        }),
{
    match clusters {
        Some(n) => {
            let mut s = String::from_str("FS: FAT volume mounted successfully. Total clusters: ");
            push_decimal(&mut s, n as u64);
            s.append("\n");
            s
        },
        None => String::from_str("FS: FAT volume is not formatted.\n"),
    }
}

/// Where an xHCI controller's registers lie, by its base address registers.
pub open spec fn xhci_address(bar0: u32, bar1: u32) -> int {
    bar_low(bar0) + (if is_wide_bar(bar0) {
        bar1 * 0x1_0000_0000
    } else {
        0
    })
}

/// Mapping an xHCI controller's registers, then the buffers it works on.
pub open spec fn xhci_outcome(
    s: PagingState,
    pml4: u64,
    base: int,
    buffers: Seq<Buffer>,
) -> PagingState {
    map_all(
        map_all(s, pml4, page_run(base, XHCI_PAGES as int), DEVICE_PAGE),
        pml4,
        buffer_pages(buffers, buffers.len() as int),
        KERNEL_PAGE,
    )
}

/// Maps an xHCI controller's registers and the buffers that it works on.
pub fn map_xhci(
    bar0: u32,
    bar1: u32,
    buffers: &Vec<Buffer>,
    pml4: u64,
    mem: &mut TableMemory,
    allocator: &mut FrameAllocator,
)
    requires
        old(allocator).wf(),
        xhci_address(bar0, bar1) + (XHCI_PAGES - 1) * PAGE_SIZE <= u64::MAX,
        forall|i: int| 0 <= i < buffers@.len() ==> buffer_fits(#[trigger] buffers@[i]),
        ({
            let s = paging_state(old(mem), old(allocator));
            let run = page_run(xhci_address(bar0, bar1), XHCI_PAGES as int);
            &&& map_all_fits(s, pml4, run, DEVICE_PAGE)
            &&& map_all_fits(
                map_all(s, pml4, run, DEVICE_PAGE),
                pml4,
                buffer_pages(buffers@, buffers@.len() as int),
                KERNEL_PAGE,
            )
        }),
    ensures
        final(allocator).wf(),
        final(allocator).regions() == old(allocator).regions(),
        final(allocator).layout() == old(allocator).layout(),
        paging_state(final(mem), final(allocator)) == xhci_outcome(
            paging_state(old(mem), old(allocator)),
            pml4,
            xhci_address(bar0, bar1),
            buffers@,
        ),
{
    let base: u64 = xhci_base(bar0, bar1);
    map_identity(mem, pml4, base, XHCI_PAGES, DEVICE_PAGE, allocator);
    map_buffers(buffers, pml4, mem, allocator);
}

/// The numbers of `s`, separated by commas.
pub open spec fn listed(s: Seq<u8>) -> Seq<char>
    decreases s.len(),
{
    if s.len() == 0 {
        Seq::empty()
    } else if s.len() == 1 {
        decimal(s[0] as int)
    } else {
        listed(s.drop_last()) + ", "@ + decimal(s.last() as int)
    }
}

fn push_listed(out: &mut String, v: &[u8])
    ensures
        final(out)@ == old(out)@ + listed(v@),
{
    let ghost head = out@;
    let mut i: usize = 0;
    assert(v@.take(0) =~= Seq::<u8>::empty());
    while i < v.len()
        invariant
            i <= v@.len(),
            out@ == head + listed(v@.take(i as int)),
        decreases v@.len() - i,
    {
        let ghost before = out@;
        assert(v@.take(i + 1).drop_last() =~= v@.take(i as int));
        if i > 0 {
            out.append(", ");
        }
        push_decimal(out, v[i] as u64);
        assert(out@ =~= head + listed(v@.take(i + 1)));
        i += 1;
    }
    assert(v@.take(v@.len() as int) =~= v@);
}

/// The lines about the network card's addresses.
pub fn network_message(ip: &[u8; 4], mac: &[u8; 6]) -> (s: String)
    ensures
        s@ == "ip:["@ + listed(ip@) + "]\nmac:["@ + listed(mac@) + "]\n"@,
{
    let mut s = String::from_str("ip:[");
    push_listed(&mut s, ip);
    s.append("]\nmac:[");
    push_listed(&mut s, mac);
    s.append("]\n");
    s
}

// ---------------------------------------------------------------------------
// Heap and interrupt controllers
// ---------------------------------------------------------------------------

/// Taking the heap's frames and mapping them: where it begins, and tables and
/// frames.
pub open spec fn heap_outcome(s: PagingState, pml4: u64) -> (u64, PagingState) {
    let start = s.frames[0];
    (
        start,
        map_all(
            PagingState { frames: s.frames.skip(HEAP_PAGES as int), ..s },
            pml4,
            page_run(start as int, HEAP_PAGES as int),
            KERNEL_PAGE,
        ),
    )
}

/// There are frames for the heap, they follow one another, and there are
/// tables for them.
pub open spec fn heap_fits(s: PagingState, pml4: u64) -> bool {
    &&& s.frames.len() >= HEAP_PAGES
    &&& contiguous(s.frames, HEAP_PAGES as int)
    &&& map_all_fits(
        PagingState { frames: s.frames.skip(HEAP_PAGES as int), ..s },
        pml4,
        page_run(s.frames[0] as int, HEAP_PAGES as int),
        KERNEL_PAGE,
    )
}

/// Sets up the heap and returns where it begins.
pub fn init_heap(allocator: &mut FrameAllocator, pml4: u64, mem: &mut TableMemory) -> (start: u64)
    requires
        old(allocator).wf(),
        heap_fits(paging_state(old(mem), old(allocator)), pml4),
    ensures
        final(allocator).wf(),
        final(allocator).regions() == old(allocator).regions(),
        final(allocator).layout() == old(allocator).layout(),
        (start, paging_state(final(mem), final(allocator))) == heap_outcome(
            paging_state(old(mem), old(allocator)),
            pml4,
        ),
{
    let ghost s = paging_state(mem, allocator);
    let start: u64 = match allocate_run(allocator, HEAP_PAGES) {
        Some(start) => start,
        None => 0,
    };
    proof {
        assert(paging_state(mem, allocator) == PagingState {
            frames: s.frames.skip(HEAP_PAGES as int),
            ..s
        });
        assert(s.frames[HEAP_PAGES - 1] == start + (HEAP_PAGES - 1) * PAGE_SIZE);
    }
    map_identity(mem, pml4, start, HEAP_PAGES, KERNEL_PAGE, allocator);
    start
}

/// The pages of the interrupt controllers: the local APIC's, and the I/O
/// APIC's where there is one.
pub open spec fn apic_pages(lapic: u64, io_apic: u32) -> Seq<u64> {
    if io_apic != 0 {
        seq![lapic, io_apic as u64]
    } else {
        seq![lapic]
    }
}

/// What is printed about mapping the interrupt controllers.
pub open spec fn apic_text(lapic: u64, io_apic: u32) -> Seq<char> {
    "Mapping Local APIC MMIO at "@ + hex_prefixed(lapic as int) + "\n"@ + (if io_apic != 0 {
        "Mapping I/O APIC MMIO at "@ + hex_prefixed(io_apic as int) + "\n"@
    } else {
        Seq::empty()
    })
}

/// Maps the interrupt controllers' registers to themselves.
pub fn map_apics(
    madt: &MadtInfo,
    pml4: u64,
    mem: &mut TableMemory,
    allocator: &mut FrameAllocator,
) -> (text: String)
    requires
        old(allocator).wf(),
        map_all_fits(
            paging_state(old(mem), old(allocator)),
            pml4,
            apic_pages(madt.local_apic_address, madt.io_apic_address),
            DEVICE_PAGE,
        ),
    ensures
        final(allocator).wf(),
        final(allocator).regions() == old(allocator).regions(),
        final(allocator).layout() == old(allocator).layout(),
        text@ == apic_text(madt.local_apic_address, madt.io_apic_address),
        paging_state(final(mem), final(allocator)) == map_all(
            paging_state(old(mem), old(allocator)),
            pml4,
            apic_pages(madt.local_apic_address, madt.io_apic_address),
            DEVICE_PAGE,
        ),
{
    let ghost s = paging_state(mem, allocator);
    let ghost all = apic_pages(madt.local_apic_address, madt.io_apic_address);
    let lapic: u64 = madt.local_apic_address;
    let mut text = String::from_str("Mapping Local APIC MMIO at ");
    push_hex(&mut text, lapic);
    text.append("\n");
    proof {
        lemma_map_all_fits_prefix(s, pml4, all, DEVICE_PAGE, 1);
        assert(all.take(1) =~= seq![lapic]);
        assert(seq![lapic].drop_last() =~= Seq::<u64>::empty());
        assert(seq![lapic].last() == lapic);
    }
    map_page(mem, pml4, lapic, lapic, DEVICE_PAGE, allocator);
    if madt.io_apic_address != 0 {
        let io_apic: u64 = madt.io_apic_address as u64;
        let ghost head = text@;
        text.append("Mapping I/O APIC MMIO at ");
        push_hex(&mut text, io_apic);
        text.append("\n");
        assert(text@ =~= head + ("Mapping I/O APIC MMIO at "@ + hex_prefixed(io_apic as int)
            + "\n"@));
        proof {
            assert(all.drop_last() =~= seq![lapic]);
            assert(all.last() == io_apic);
        }
        map_page(mem, pml4, io_apic, io_apic, DEVICE_PAGE, allocator);
    } else {
        assert(all =~= seq![lapic]);
    }
    assert(text@ =~= apic_text(madt.local_apic_address, madt.io_apic_address));
    text
}

/// Preparing to start the other processors: what the MADT says, if it was
/// found; what is printed; page tables and frames.
pub open spec fn processors_outcome(
    tables: Option<AcpiTables>,
    m: Map<int, u8>,
    pml4: u64,
    s: PagingState,
) -> (Option<MadtSummary>, Seq<char>, PagingState) {
    match tables {
        None => (None, "ACPI: tables not initialized. Cannot start APs.\n"@, s),
        Some(t) => match t.madt {
            None => (None, "ACPI: MADT table not found. Cannot start APs.\n"@, s),
            Some(a) => {
                let madt = madt_summary(m, a as int);
                (
                    Some(madt),
                    apic_text(madt.local_apic_address, madt.io_apic_address),
                    map_all(
                        s,
                        pml4,
                        apic_pages(madt.local_apic_address, madt.io_apic_address),
                        DEVICE_PAGE,
                    ),
                )
            },
        },
    }
}

/// Maps the interrupt controllers, where the tables tell of them; the other
/// processors can be started from what is returned.
pub fn init_processors(
    tables: &Option<AcpiTables>,
    phys: &PhysMemory,
    pml4: u64,
    mem: &mut TableMemory,
    allocator: &mut FrameAllocator,
) -> (r: (Option<MadtInfo>, String))
    requires
        old(allocator).wf(),
        (*tables) matches Some(t) ==> (t.madt matches Some(a) ==> {
            let madt = madt_summary(phys@, a as int);
            &&& madt_readable(phys@, a as int)
            &&& map_all_fits(
                paging_state(old(mem), old(allocator)),
                pml4,
                apic_pages(madt.local_apic_address, madt.io_apic_address),
                DEVICE_PAGE,
            )
        }),
    ensures
        final(allocator).wf(),
        final(allocator).regions() == old(allocator).regions(),
        final(allocator).layout() == old(allocator).layout(),
        r.0 matches Some(info) ==> info.wf(),
        (
            match r.0 {
                Some(info) => Some(info@),
                None => None,
            },
            r.1@,
            paging_state(final(mem), final(allocator)),
        ) == processors_outcome(
            *tables,
            phys@,
            pml4,
            paging_state(old(mem), old(allocator)),
        ),
{
    match tables {
        None => (
            None,
            String::from_str("ACPI: tables not initialized. Cannot start APs.\n"),
        ),
        Some(t) => match t.madt {
            None => (
                None,
                String::from_str("ACPI: MADT table not found. Cannot start APs.\n"),
            ),
            Some(a) => {
                let madt = parse_madt(phys, a);
                let text = map_apics(&madt, pml4, mem, allocator);
                (Some(madt), text)
            },
        },
    }
}

/// The line about the processors that were started.
pub fn online_message(count: usize) -> (s: String)
    ensures
        s@ == "Online APs: "@ + decimal(count as int) + "\n"@,
{
    let mut s = String::from_str("Online APs: ");
    push_decimal(&mut s, count as u64);
    s.append("\n");
    s
}

// ---------------------------------------------------------------------------
// The stack, and the order of it all
// ---------------------------------------------------------------------------

/// Maps the kernel's stack to itself and says where it lies.
pub fn map_stack(
    base: u64,
    pml4: u64,
    mem: &mut TableMemory,
    allocator: &mut FrameAllocator,
) -> (text: String)
    requires
        old(allocator).wf(),
        base + STACK_PAGES * PAGE_SIZE <= u64::MAX,
        map_all_fits(
            paging_state(old(mem), old(allocator)),
            pml4,
            page_run(base as int, STACK_PAGES as int),
            KERNEL_PAGE,
        ),
    ensures
        final(allocator).wf(),
        final(allocator).regions() == old(allocator).regions(),
        final(allocator).layout() == old(allocator).layout(),
        text@ == "Kernel stack base="@ + hex_prefixed(base as int) + " top="@ + hex_prefixed(
            base + STACK_PAGES * PAGE_SIZE,
        ) + "\n"@,
        paging_state(final(mem), final(allocator)) == map_all(
            paging_state(old(mem), old(allocator)),
            pml4,
            page_run(base as int, STACK_PAGES as int),
            KERNEL_PAGE,
        ),
{
    let top: u64 = base + STACK_PAGES * PAGE_SIZE;
    map_identity(mem, pml4, base, STACK_PAGES, KERNEL_PAGE, allocator);
    let mut text = String::from_str("Kernel stack base=");
    push_hex(&mut text, base);
    text.append(" top=");
    push_hex(&mut text, top);
    text.append("\n");
    text
}

/// The last lines before the scheduler takes over.
pub fn scheduler_message(rsp0: u64) -> (s: String)
    ensures
        s@ == "TSS rsp0="@ + hex_prefixed(rsp0 as int)
            + "\nStarting scheduler loop on BSP...\n"@,
{
    let mut s = String::from_str("TSS rsp0=");
    push_hex(&mut s, rsp0);
    s.append("\nStarting scheduler loop on BSP...\n");
    s
}

/// What the kernel does next while it starts.
#[derive(Debug, Clone, Copy, PartialEq, Eq, Structural)]
pub enum KernelStep {
    InitScreen,
    InitFrames,
    InitRuntimeServices,
    InitDescriptors,
    InitPaging,
    EnableInterrupts,
    InitSyscalls,
    InitAcpi,
    FindNvme,
    InitNvme,
    FindXhci,
    InitXhci,
    FindEthernet,
    InitNetwork,
    InitHeap,
    InitScheduler,
    InitProcessors,
    StartProgram,
    MapStack,
    /// Switch between tasks for ever.
    RunTasks,
    /// The first program could not be loaded.
    Halt,
}

/// What follows a step; `ok` is whether it found, or did, what it was for.
pub open spec fn following(step: KernelStep, ok: bool) -> KernelStep {
    match step {
        KernelStep::InitScreen => KernelStep::InitFrames,
        KernelStep::InitFrames => KernelStep::InitRuntimeServices,
        KernelStep::InitRuntimeServices => KernelStep::InitDescriptors,
        KernelStep::InitDescriptors => KernelStep::InitPaging,
        KernelStep::InitPaging => KernelStep::EnableInterrupts,
        KernelStep::EnableInterrupts => KernelStep::InitSyscalls,
        KernelStep::InitSyscalls => KernelStep::InitAcpi,
        KernelStep::InitAcpi => KernelStep::FindNvme,
        KernelStep::FindNvme => if ok {
            KernelStep::InitNvme
        } else {
            KernelStep::FindXhci
        },
        KernelStep::InitNvme => KernelStep::FindXhci,
        KernelStep::FindXhci => if ok {
            KernelStep::InitXhci
        } else {
            KernelStep::FindEthernet
        },
        KernelStep::InitXhci => KernelStep::FindEthernet,
        KernelStep::FindEthernet => if ok {
            KernelStep::InitNetwork
        } else {
            KernelStep::InitHeap
        },
        KernelStep::InitNetwork => KernelStep::InitHeap,
        KernelStep::InitHeap => KernelStep::InitScheduler,
        KernelStep::InitScheduler => KernelStep::InitProcessors,
        KernelStep::InitProcessors => KernelStep::StartProgram,
        KernelStep::StartProgram => if ok {
            KernelStep::MapStack
        } else {
            KernelStep::Halt
        },
        KernelStep::MapStack => KernelStep::RunTasks,
        KernelStep::RunTasks => KernelStep::RunTasks,
        KernelStep::Halt => KernelStep::Halt,
    }
}

/// What is printed once a step is over, besides what the step itself says.
pub open spec fn step_text(step: KernelStep, ok: bool) -> Seq<char> {
    match step {
        KernelStep::InitDescriptors => "GDT & IDT Initialized!\n"@,
        KernelStep::InitPaging => "Paging Initialized!\n"@,
        KernelStep::EnableInterrupts => "Interrupts Enabled!\n"@,
        KernelStep::InitSyscalls => "Syscalls Initialized!\n"@,
        KernelStep::FindNvme => if ok {
            ""@
        } else {
            "No NVMe device found!\n"@
        },
        KernelStep::FindXhci => if ok {
            "find xHCI device\n\n"@
        } else {
            "failed to find xHCI device\n\n"@
        },
        KernelStep::FindEthernet => if ok {
            ""@
        } else {
            "No Ethernet device found!\n"@
        },
        _ => ""@,
    }
}

/// Goes on with starting the kernel: what follows a step, and what is printed
/// first.
pub fn kernel_main(step: KernelStep, ok: bool) -> (r: (KernelStep, &'static str))
    ensures
        r.0 == following(step, ok),
        r.1@ == step_text(step, ok),
{
    match step {
        KernelStep::InitScreen => (KernelStep::InitFrames, ""),
        KernelStep::InitFrames => (KernelStep::InitRuntimeServices, ""),
        KernelStep::InitRuntimeServices => (KernelStep::InitDescriptors, ""),
        KernelStep::InitDescriptors => (KernelStep::InitPaging, "GDT & IDT Initialized!\n"),
        KernelStep::InitPaging => (KernelStep::EnableInterrupts, "Paging Initialized!\n"),
        KernelStep::EnableInterrupts => (KernelStep::InitSyscalls, "Interrupts Enabled!\n"),
        KernelStep::InitSyscalls => (KernelStep::InitAcpi, "Syscalls Initialized!\n"),
        KernelStep::InitAcpi => (KernelStep::FindNvme, ""),
        KernelStep::FindNvme => {
            if ok {
                (KernelStep::InitNvme, "")
            } else {
                (KernelStep::FindXhci, "No NVMe device found!\n")
            }
        },
        KernelStep::InitNvme => (KernelStep::FindXhci, ""),
        KernelStep::FindXhci => {
            if ok {
                (KernelStep::InitXhci, "find xHCI device\n\n")
            } else {
                (KernelStep::FindEthernet, "failed to find xHCI device\n\n")
            }
        },
        KernelStep::InitXhci => (KernelStep::FindEthernet, ""),
        KernelStep::FindEthernet => {
            if ok {
                (KernelStep::InitNetwork, "")
            } else {
                (KernelStep::InitHeap, "No Ethernet device found!\n")
            }
        },
        KernelStep::InitNetwork => (KernelStep::InitHeap, ""),
        KernelStep::InitHeap => (KernelStep::InitScheduler, ""),
        KernelStep::InitScheduler => (KernelStep::InitProcessors, ""),
        KernelStep::InitProcessors => (KernelStep::StartProgram, ""),
        KernelStep::StartProgram => {
            if ok {
                (KernelStep::MapStack, "")
            } else {
                (KernelStep::Halt, "")
            }
        },
        KernelStep::MapStack => (KernelStep::RunTasks, ""),
        KernelStep::RunTasks => (KernelStep::RunTasks, ""),
        KernelStep::Halt => (KernelStep::Halt, ""),
    }
}

/// The step that is reached after steps that went as `oks` says.
pub open spec fn reached(oks: Seq<bool>) -> KernelStep
    decreases oks.len(),
{
    if oks.len() == 0 {
        KernelStep::InitScreen
    } else {
        following(reached(oks.drop_last()), oks.last())
    }
}

/// How far along a step is.
pub open spec fn rank(step: KernelStep) -> int {
    match step {
        KernelStep::InitScreen => 0,
        KernelStep::InitFrames => 1,
        KernelStep::InitRuntimeServices => 2,
        KernelStep::InitDescriptors => 3,
        KernelStep::InitPaging => 4,
        KernelStep::EnableInterrupts => 5,
        KernelStep::InitSyscalls => 6,
        KernelStep::InitAcpi => 7,
        KernelStep::FindNvme => 8,
        KernelStep::InitNvme => 9,
        KernelStep::FindXhci => 10,
        KernelStep::InitXhci => 11,
        KernelStep::FindEthernet => 12,
        KernelStep::InitNetwork => 13,
        KernelStep::InitHeap => 14,
        KernelStep::InitScheduler => 15,
        KernelStep::InitProcessors => 16,
        KernelStep::StartProgram => 17,
        KernelStep::MapStack => 18,
        KernelStep::RunTasks => 19,
        KernelStep::Halt => 19,
    }
}

/// Starting the kernel comes to an end: after at most 19 steps tasks run, or
/// the kernel has halted.
pub proof fn law_kernel_starts(oks: Seq<bool>)
    ensures
        rank(reached(oks)) >= oks.len() || rank(reached(oks)) == 19,
    decreases oks.len(),
{
    if oks.len() > 0 {
        law_kernel_starts(oks.drop_last());
    }
}

/// Tasks run only after the first program was loaded, with the page tables,
/// the heap and the scheduler set up before.
pub proof fn law_program_loaded_first(oks: Seq<bool>)
    requires
        reached(oks) is RunTasks,
    ensures
        exists|n: int|
            0 <= n < oks.len() && reached(#[trigger] oks.take(n)) is StartProgram && oks[n],
        exists|n: int| 0 <= n < oks.len() && reached(#[trigger] oks.take(n)) is InitPaging,
        exists|n: int| 0 <= n < oks.len() && reached(#[trigger] oks.take(n)) is InitHeap,
        exists|n: int| 0 <= n < oks.len() && reached(#[trigger] oks.take(n)) is InitScheduler,
{
    lemma_came_through(oks);
}

/// What lies behind each of the late steps.
proof fn lemma_came_through(oks: Seq<bool>)
    ensures
        ({
            let step = reached(oks);
            &&& (step is MapStack || step is RunTasks) ==> exists|n: int|
                0 <= n < oks.len() && reached(#[trigger] oks.take(n)) is StartProgram && oks[n]
            &&& rank(step) > 4 ==> exists|n: int|
                0 <= n < oks.len() && reached(#[trigger] oks.take(n)) is InitPaging
            &&& rank(step) > 14 ==> exists|n: int|
                0 <= n < oks.len() && reached(#[trigger] oks.take(n)) is InitHeap
            &&& rank(step) > 15 ==> exists|n: int|
                0 <= n < oks.len() && reached(#[trigger] oks.take(n)) is InitScheduler
        }),
    decreases oks.len(),
{
    if oks.len() > 0 {
        let before = oks.drop_last();
        let last = oks.len() - 1;
        lemma_came_through(before);
        assert(oks.take(last) =~= before);
        assert forall|n: int| 0 <= n < before.len() implies #[trigger] before.take(n) == oks.take(
            n,
        ) by {
            assert(before.take(n) =~= oks.take(n));
        }
    }
}

// ---------------------------------------------------------------------------
// What holds of the start
// ---------------------------------------------------------------------------

/// The steps of starting on a machine that has every device.
pub open spec fn start_order() -> Seq<KernelStep> {
    seq![
        KernelStep::InitScreen,
        KernelStep::InitFrames,
        KernelStep::InitRuntimeServices,
        KernelStep::InitDescriptors,
        KernelStep::InitPaging,
        KernelStep::EnableInterrupts,
        KernelStep::InitSyscalls,
        KernelStep::InitAcpi,
        KernelStep::FindNvme,
        KernelStep::InitNvme,
        KernelStep::FindXhci,
        KernelStep::InitXhci,
        KernelStep::FindEthernet,
        KernelStep::InitNetwork,
        KernelStep::InitHeap,
        KernelStep::InitScheduler,
        KernelStep::InitProcessors,
        KernelStep::StartProgram,
        KernelStep::MapStack,
        KernelStep::RunTasks,
    ]
}

/// Each step is followed by the next one. Only a device that was not found is
/// passed over, and only a program that could not be loaded stops the kernel.
/// Nothing follows running tasks or the halt.
pub proof fn law_start_order(k: int)
    requires
        0 <= k < 19,
    ensures
        ({
            let step = start_order()[k];
            let next = start_order()[k + 1];
            &&& following(step, true) == next
            &&& following(step, false) == (if step is FindNvme || step is FindXhci || step
                is FindEthernet {
                start_order()[k + 2]
            } else if step is StartProgram {
                KernelStep::Halt
            } else {
                next
            })
        }),
        forall|ok: bool| #[trigger]
            following(KernelStep::RunTasks, ok) == KernelStep::RunTasks && following(
                KernelStep::Halt,
                ok,
            ) == KernelStep::Halt,
{
}

/// A device that was not found is reported, and so is whether a USB controller
/// was found; otherwise the steps on the way say that they are done.
pub proof fn law_step_texts(ok: bool)
    ensures
        step_text(KernelStep::FindNvme, false) == "No NVMe device found!\n"@,
        step_text(KernelStep::FindNvme, true) == ""@,
        step_text(KernelStep::FindXhci, false) == "failed to find xHCI device\n\n"@,
        step_text(KernelStep::FindXhci, true) == "find xHCI device\n\n"@,
        step_text(KernelStep::FindEthernet, false) == "No Ethernet device found!\n"@,
        step_text(KernelStep::FindEthernet, true) == ""@,
        step_text(KernelStep::InitPaging, ok) == "Paging Initialized!\n"@,
        step_text(KernelStep::InitDescriptors, ok) == "GDT & IDT Initialized!\n"@,
        step_text(KernelStep::EnableInterrupts, ok) == "Interrupts Enabled!\n"@,
        step_text(KernelStep::InitSyscalls, ok) == "Syscalls Initialized!\n"@,
        step_text(KernelStep::InitScreen, ok) == ""@ && step_text(KernelStep::InitFrames, ok) == ""@
            && step_text(KernelStep::InitRuntimeServices, ok) == ""@ && step_text(
            KernelStep::InitAcpi,
            ok,
        ) == ""@ && step_text(KernelStep::InitNvme, ok) == ""@ && step_text(
            KernelStep::InitXhci,
            ok,
        ) == ""@ && step_text(KernelStep::InitNetwork, ok) == ""@ && step_text(
            KernelStep::InitHeap,
            ok,
        ) == ""@ && step_text(KernelStep::InitScheduler, ok) == ""@ && step_text(
            KernelStep::InitProcessors,
            ok,
        ) == ""@ && step_text(KernelStep::StartProgram, ok) == ""@ && step_text(
            KernelStep::MapStack,
            ok,
        ) == ""@,
{
}

/// The low four bits of a base address register are flags. An NVMe controller
/// has the upper half of its address in the second register.
pub proof fn law_nvme_address(bar0: u32, bar1: u32)
    ensures
        nvme_address(bar0, bar1) % 16 == 0,
        nvme_address(bar0, bar1) % 0x1_0000_0000 / 16 == bar0 / 16,
        nvme_address(bar0, bar1) / 0x1_0000_0000 == bar1,
{
    let b = bar0 as int;
    let low = b - b % 16;
    assert(0 <= low < 0x1_0000_0000 && low % 16 == 0 && low / 16 == b / 16);
    lemma_halves(low, bar1 as int);
}

/// An xHCI controller has the upper half of its address in the second register
/// where bit two of the first is set and bit one is not, and else none.
pub proof fn law_xhci_address(bar0: u32, bar1: u32)
    ensures
        xhci_address(bar0, bar1) % 16 == 0,
        xhci_address(bar0, bar1) % 0x1_0000_0000 / 16 == bar0 / 16,
        xhci_address(bar0, bar1) / 0x1_0000_0000 == (if bar0 / 4 % 2 == 1 && bar0 / 2 % 2 == 0 {
            bar1 as int
        } else {
            0
        }),
{
    let b = bar0 as int;
    let low = b - b % 16;
    assert(0 <= low < 0x1_0000_0000 && low % 16 == 0 && low / 16 == b / 16);
    assert(is_wide_bar(bar0) <==> b / 4 % 2 == 1 && b / 2 % 2 == 0);
    lemma_halves(low, if is_wide_bar(bar0) {
        bar1 as int
    } else {
        0
    });
}

/// The halves of an address are found again in it.
proof fn lemma_halves(low: int, high: int)
    requires
        0 <= low < 0x1_0000_0000,
        low % 16 == 0,
    ensures
        (low + high * 0x1_0000_0000) % 16 == 0,
        (low + high * 0x1_0000_0000) % 0x1_0000_0000 == low,
        (low + high * 0x1_0000_0000) / 0x1_0000_0000 == high,
{
}

/// The buffers begin at a page and end where a table can reach them.
pub open spec fn buffers_translated(buffers: Seq<Buffer>) -> bool {
    forall|i: int|
        0 <= i < buffers.len() ==> (#[trigger] buffers[i]).base % 4096 == 0 && buffers[i].base
            + buffers[i].size + 0xFFF <= 0x1_0000_0000_0000
}

/// `v` lies in a page of one of the first `n` buffers.
pub open spec fn in_buffers(buffers: Seq<Buffer>, n: int, v: u64) -> bool {
    exists|i: int|
        0 <= i < n && (#[trigger] buffers[i]).base <= v && v - v % 4096 < buffers[i].base
            + buffers[i].size
}

proof fn lemma_buffers_contain(buffers: Seq<Buffer>, n: int, v: u64)
    requires
        0 <= n <= buffers.len(),
        buffers_translated(buffers),
    ensures
        whole_pages(buffer_pages(buffers, n)),
        buffer_pages(buffers, n).contains((v - v % 4096) as u64) <==> in_buffers(buffers, n, v),
    decreases n,
{
    if n > 0 {
        let b = buffers[n - 1];
        let k = (b.size + 0xFFF) / 4096;
        lemma_buffers_contain(buffers, n - 1, v);
        lemma_run_contains(b.base as int, k, v);
        lemma_two_lists(
            buffer_pages(buffers, n - 1),
            page_run(b.base as int, k),
            (v - v % 4096) as u64,
        );
        let here = b.base <= v && v - v % 4096 < b.base + b.size;
        assert(here == (b.base <= v < b.base + k * 4096));
        if in_buffers(buffers, n, v) && !here {
            let i = choose|i: int|
                0 <= i < n && (#[trigger] buffers[i]).base <= v && v - v % 4096 < buffers[i].base
                    + buffers[i].size;
            assert(i < n - 1);
        }
    }
}

/// Once a controller and its buffers are mapped, each page of the buffers is
/// mapped to itself, present and writable, and the 64 KiB of registers are too,
/// but not cached. Every other page is mapped as before.
pub proof fn law_xhci_mapped(s: PagingState, pml4: u64, base: int, buffers: Seq<Buffer>, v: u64)
    requires
        sound(s, pml4),
        map_all_fits(s, pml4, page_run(base, XHCI_PAGES as int), DEVICE_PAGE),
        map_all_fits(
            map_all(s, pml4, page_run(base, XHCI_PAGES as int), DEVICE_PAGE),
            pml4,
            buffer_pages(buffers, buffers.len() as int),
            KERNEL_PAGE,
        ),
        0 <= base,
        base % 4096 == 0,
        base + 0x1_0000 <= 0x1_0000_0000_0000,
        buffers_translated(buffers),
        translated(v as int),
    ensures
        mapping(xhci_outcome(s, pml4, base, buffers).tables, pml4, v) == (if in_buffers(
            buffers,
            buffers.len() as int,
            v,
        ) {
            Some((v - v % 4096 + 0x3) as u64)
        } else if base <= v < base + 0x1_0000 {
            Some((v - v % 4096 + 0x13) as u64)
        } else {
            mapping(s.tables, pml4, v)
        }),
{
    let p = (v - v % 4096) as u64;
    let s1 = map_all(s, pml4, page_run(base, 16), DEVICE_PAGE);
    let pages = buffer_pages(buffers, buffers.len() as int);
    law_run_mapped(s, pml4, base, 16, DEVICE_PAGE, v);
    lemma_buffers_contain(buffers, buffers.len() as int, v);
    law_map_all(s1, pml4, pages, KERNEL_PAGE, v);
    lemma_last_hit(pages, v);
    lemma_page_entry(p, KERNEL_PAGE);
    lemma_page_entry(p, DEVICE_PAGE);
}

/// The heap has the next 128 frames, and each of its bytes is mapped to itself,
/// present and writable. Page tables for it are put into later frames. Every
/// other page is mapped as before.
pub proof fn law_heap(s: PagingState, pml4: u64, v: u64)
    requires
        sound(s, pml4),
        heap_fits(s, pml4),
        s.frames[0] + 0x8_0000 <= 0x1_0000_0000_0000,
        translated(v as int),
    ensures
        ({
            let (start, s1) = heap_outcome(s, pml4);
            &&& start == s.frames[0]
            &&& mapping(s1.tables, pml4, v) == (if start <= v < start + 0x8_0000 {
                Some((v - v % 4096 + 0x3) as u64)
            } else {
                mapping(s.tables, pml4, v)
            })
            &&& forall|a: u64| #[trigger]
                s1.tables.contains_key(a) ==> s.tables.contains_key(a) || s.frames.skip(128).contains(
                    a,
                )
            &&& exists|t: int| t >= 128 && s1.frames == #[trigger] s.frames.skip(t)
        }),
{
    let start = s.frames[0];
    let s0 = PagingState { frames: s.frames.skip(128), ..s };
    lemma_take_run_sound(s, pml4, 128);
    assert(page_aligned(start)) by {
        let lv = choose|lv: Map<u64, int>| #[trigger]
            leveled(s.tables, pml4, lv) && fresh(s.frames, lv);
        assert(usable_frames(s.frames));
    }
    law_run_mapped(s0, pml4, start as int, 128, KERNEL_PAGE, v);
    lemma_page_entry((v - v % 4096) as u64, KERNEL_PAGE);
    let s1 = heap_outcome(s, pml4).1;
    let t = lemma_map_all_grows(s0, pml4, page_run(start as int, 128), KERNEL_PAGE);
    assert(s1.frames =~= s.frames.skip(128 + t));
    assert forall|a: u64| #[trigger] s1.tables.contains_key(a) implies s.tables.contains_key(a)
        || s.frames.skip(128).contains(a) by {
        if !s.tables.contains_key(a) {
            let j = choose|j: int| 0 <= j < t && s0.frames.take(t)[j] == a;
            assert(s.frames.skip(128)[j] == a);
        }
    }
}

/// Once the interrupt controllers are mapped, the page of the local one is mapped
/// to itself, present, writable and not cached, and so is that of the I/O APIC
/// where there is one. Every other page is mapped as before.
pub proof fn law_apics_mapped(s: PagingState, pml4: u64, lapic: u64, io_apic: u32, v: u64)
    requires
        sound(s, pml4),
        map_all_fits(s, pml4, apic_pages(lapic, io_apic), DEVICE_PAGE),
        lapic % 4096 == 0,
        io_apic % 4096 == 0,
        translated(lapic as int),
        translated(v as int),
    ensures
        mapping(map_all(s, pml4, apic_pages(lapic, io_apic), DEVICE_PAGE).tables, pml4, v) == (if v
            - v % 4096 == lapic || (io_apic != 0 && v - v % 4096 == io_apic) {
            Some((v - v % 4096 + 0x13) as u64)
        } else {
            mapping(s.tables, pml4, v)
        }),
{
    let p = (v - v % 4096) as u64;
    let pages = apic_pages(lapic, io_apic);
    law_map_all(s, pml4, pages, DEVICE_PAGE, v);
    assert(whole_pages(pages));
    lemma_last_hit(pages, v);
    lemma_page_entry(p, DEVICE_PAGE);
    if p == lapic {
        assert(pages[0] == p);
    }
    if io_apic != 0 && p == io_apic {
        assert(pages[1] == p);
    }
}

/// Without a root pointer there are no tables and nothing is mapped. With one,
/// the tables that it leads to are kept and reported, the processors behind them
/// where there is a MADT, and mapped.
pub proof fn law_acpi_found(m: Map<int, u8>, rsdp: u64, pml4: u64, s: PagingState)
    ensures
        ({
            let (t, text, s1) = acpi_outcome(m, rsdp, pml4, s);
            let found = tables_from(m, rsdp);
            &&& rsdp == 0 ==> t is None && text
                == "ACPI: no RSDP found in EFI Configuration Table\n"@ && s1 == s
            &&& rsdp != 0 ==> t == Some(found) && s1 == map_all(
                s,
                pml4,
                acpi_pages(found, m),
                KERNEL_PAGE,
            )
            &&& rsdp != 0 && found.madt is None ==> text == report(found, m)
            &&& rsdp != 0 ==> (found.madt matches Some(a) ==> text == report(found, m) + ("Found "@
                + decimal(madt_summary(m, a as int).apic_ids.len() as int)
                + " CPUs, I/O APIC @ "@ + hex_prefixed(
                madt_summary(m, a as int).io_apic_address as int,
            ) + "\n"@))
        }),
{
    let found = tables_from(m, rsdp);
    if rsdp != 0 && found.madt is None {
        assert(report(found, m) + Seq::<char>::empty() =~= report(found, m));
    }
}

/// Other processors can be started exactly where a MADT was found: what it says
/// is handed on and its controllers are mapped. Else nothing changes.
pub proof fn law_processors_found(
    tables: Option<AcpiTables>,
    m: Map<int, u8>,
    pml4: u64,
    s: PagingState,
)
    ensures
        ({
            let (r, text, s1) = processors_outcome(tables, m, pml4, s);
            &&& tables is None ==> r is None && s1 == s && text
                == "ACPI: tables not initialized. Cannot start APs.\n"@
            &&& tables matches Some(t) ==> {
                &&& t.madt is None ==> r is None && s1 == s && text
                    == "ACPI: MADT table not found. Cannot start APs.\n"@
                &&& t.madt matches Some(a) ==> {
                    let x = madt_summary(m, a as int);
                    let lapic = "Mapping Local APIC MMIO at "@ + hex_prefixed(
                        x.local_apic_address as int,
                    ) + "\n"@;
                    &&& r == Some(x)
                    &&& s1 == map_all(
                        s,
                        pml4,
                        apic_pages(x.local_apic_address, x.io_apic_address),
                        DEVICE_PAGE,
                    )
                    &&& x.io_apic_address == 0 ==> text == lapic
                    &&& x.io_apic_address != 0 ==> text == lapic + ("Mapping I/O APIC MMIO at "@
                        + hex_prefixed(x.io_apic_address as int) + "\n"@)
                }
            }
        }),
{
    if let Some(t) = tables {
        if let Some(a) = t.madt {
            let x = madt_summary(m, a as int);
            if x.io_apic_address == 0 {
                assert(apic_text(x.local_apic_address, 0) =~= "Mapping Local APIC MMIO at "@
                    + hex_prefixed(x.local_apic_address as int) + "\n"@);
            }
        }
    }
}

/// The numbers of a list are separated by a comma and a space: no number gives
/// nothing, one gives itself, and one more comes behind the others.
pub proof fn law_listed(s: Seq<u8>, x: u8)
    ensures
        listed(Seq::empty()) == Seq::<char>::empty(),
        listed(seq![x]) == decimal(x as int),
        s.len() > 0 ==> listed(s.push(x)) == listed(s) + ", "@ + decimal(x as int),
{
    assert(s.push(x).drop_last() =~= s);
}

/// The first lines give the width, the height and where the framebuffer is.
pub proof fn law_hello_text(w: u32, h: u32, fb: u64)
    ensures
        hello_text(w, h, fb) == "Hello World from Kernel!\nResolution: "@ + decimal(w as int) + "x"@
            + decimal(h as int) + "\nFramebuffer: "@ + hex_prefixed(fb as int) + "\n"@,
{
}

/// The sixteen KiB of an NVMe controller's registers, from the address in its
/// base address registers on, are mapped to themselves, present and writable, and
/// every other page as before.
pub proof fn law_nvme_mapped(s: PagingState, pml4: u64, bar0: u32, bar1: u32, v: u64)
    requires
        sound(s, pml4),
        map_all_fits(s, pml4, page_run(nvme_address(bar0, bar1), NVME_PAGES as int), KERNEL_PAGE),
        nvme_address(bar0, bar1) % 4096 == 0,
        nvme_address(bar0, bar1) + 0x4000 <= 0x1_0000_0000_0000,
        translated(v as int),
    ensures
        ({
            let base = nvme_address(bar0, bar1);
            let end = map_all(s, pml4, page_run(base, NVME_PAGES as int), KERNEL_PAGE);
            mapping(end.tables, pml4, v) == (if base <= v < base + 0x4000 {
                Some((v - v % 4096 + 0x3) as u64)
            } else {
                mapping(s.tables, pml4, v)
            })
        }),
{
    law_nvme_address(bar0, bar1);
    law_run_mapped(s, pml4, nvme_address(bar0, bar1), 4, KERNEL_PAGE, v);
    lemma_page_entry((v - v % 4096) as u64, KERNEL_PAGE);
}

/// The sixteen KiB of the kernel's stack are mapped to themselves, present and
/// writable, and every other page as before.
pub proof fn law_stack_mapped(s: PagingState, pml4: u64, base: u64, v: u64)
    requires
        sound(s, pml4),
        map_all_fits(s, pml4, page_run(base as int, STACK_PAGES as int), KERNEL_PAGE),
        base % 4096 == 0,
        base + 0x4000 <= 0x1_0000_0000_0000,
        translated(v as int),
    ensures
        ({
            let end = map_all(s, pml4, page_run(base as int, STACK_PAGES as int), KERNEL_PAGE);
            mapping(end.tables, pml4, v) == (if base <= v < base + 0x4000 {
                Some((v - v % 4096 + 0x3) as u64)
            } else {
                mapping(s.tables, pml4, v)
            })
        }),
{
    law_run_mapped(s, pml4, base as int, 4, KERNEL_PAGE, v);
    lemma_page_entry((v - v % 4096) as u64, KERNEL_PAGE);
}

} // verus!
