//! A summary of the tables, for the console.

use vstd::prelude::*;
use crate::acpi::fixed::{iter_mcfg_allocations, mcfg_allocations};
use crate::acpi::layout::McfgAllocation;
use crate::acpi::madt::{MadtInfo, MadtSummary, madt_summary, parse_madt};
use crate::acpi::sdt::extent_readable;
use crate::acpi::tables::{AcpiTables, dsdt_at, tables_readable};
use crate::memory::phys::{PhysMemory, mem_u64};
use crate::text::{decimal, hex_prefixed, push_decimal, push_hex};

verus! {

/// The lines about the root pointer and the root table.
pub open spec fn root_lines(t: AcpiTables) -> Seq<char> {
    "[ACPI] RSDP @ "@ + hex_prefixed(t.rsdp as int) + "\n"@ + (match (t.xsdt, t.rsdt) {
        (Some(x), _) => "[ACPI] XSDT @ "@ + hex_prefixed(x as int) + "\n"@,
        (None, Some(r)) => "[ACPI] RSDT @ "@ + hex_prefixed(r as int) + "\n"@,
        (None, None) => Seq::empty(),
    })
}

/// The line about processor `i`.
pub open spec fn cpu_line(s: MadtSummary, i: int) -> Seq<char> {
    "[ACPI]     CPU["@ + decimal(i) + "] APIC ID = "@ + decimal(s.apic_ids[i] as int) + "\n"@
}

/// The lines about the first `n` processors.
pub open spec fn cpu_lines(s: MadtSummary, n: int) -> Seq<char>
    decreases n,
{
    if n <= 0 {
        Seq::empty()
    } else {
        cpu_lines(s, n - 1) + cpu_line(s, n - 1)
    }
}

/// The lines about a MADT.
pub open spec fn madt_lines(a: u64, s: MadtSummary) -> Seq<char> {
    "[ACPI] MADT @ "@ + hex_prefixed(a as int) + "\n"@ + ("[ACPI]   Local APIC @ "@ + hex_prefixed(
        s.local_apic_address as int,
    ) + ", "@ + decimal(s.apic_ids.len() as int) + " CPU(s)\n"@) + cpu_lines(
        s,
        s.apic_ids.len() as int,
    ) + (if s.io_apic_address != 0 {
        "[ACPI]   I/O APIC @ "@ + hex_prefixed(s.io_apic_address as int) + " (GSI base "@ + decimal(
            s.io_apic_gsi_base as int,
        ) + ")\n"@
    } else {
        Seq::empty()
    })
}

/// The lines about a FADT.
pub open spec fn fadt_lines(a: u64, dsdt: u64) -> Seq<char> {
    "[ACPI] FADT @ "@ + hex_prefixed(a as int) + "\n"@ + ("[ACPI]   DSDT @ "@ + hex_prefixed(
        dsdt as int,
    ) + "\n"@)
}

/// The line about a HPET.
pub open spec fn hpet_line(a: u64, base: u64) -> Seq<char> {
    "[ACPI] HPET @ "@ + hex_prefixed(a as int) + " (base "@ + hex_prefixed(base as int) + ")\n"@
}

/// The line about a PCIe allocation.
pub open spec fn allocation_line(x: McfgAllocation) -> Seq<char> {
    "[ACPI]   PCIe segment "@ + decimal(x.pci_segment_group as int) + " buses "@ + decimal(
        x.start_bus_number as int,
    ) + "-"@ + decimal(x.end_bus_number as int) + " base "@ + hex_prefixed(x.base_address as int)
        + "\n"@
}

/// The lines about the first `n` allocations.
pub open spec fn allocation_lines(v: Seq<McfgAllocation>, n: int) -> Seq<char>
    decreases n,
{
    if n <= 0 {
        Seq::empty()
    } else {
        allocation_lines(v, n - 1) + allocation_line(v[n - 1])
    }
}

/// The lines about an MCFG.
pub open spec fn mcfg_lines(a: u64, v: Seq<McfgAllocation>) -> Seq<char> {
    "[ACPI] MCFG @ "@ + hex_prefixed(a as int) + "\n"@ + allocation_lines(v, v.len() as int)
}

/// The whole summary.
pub open spec fn report(t: AcpiTables, m: Map<int, u8>) -> Seq<char> {
    root_lines(t) + (match t.madt {
        Some(a) => madt_lines(a, madt_summary(m, a as int)),
        None => Seq::empty(),
    }) + (match t.fadt {
        Some(a) => fadt_lines(a, dsdt_at(m, a as int)),
        None => Seq::empty(),
    }) + (match t.hpet {
        Some(a) => hpet_line(a, mem_u64(m, a + 44)),
        None => Seq::empty(),
    }) + (match t.mcfg {
        Some(a) => mcfg_lines(a, mcfg_allocations(m, a as int)),
        None => Seq::empty(),
    })
}

fn push_address_line(out: &mut String, label: &str, a: u64)
    ensures
        final(out)@ == old(out)@ + (label@ + hex_prefixed(a as int) + "\n"@),
{
    out.append(label);
    push_hex(out, a);
    out.append("\n");
    assert(out@ =~= old(out)@ + (label@ + hex_prefixed(a as int) + "\n"@));
}

fn push_cpu_line(out: &mut String, info: &MadtInfo, i: usize)
    requires
        info.wf(),
        i < info.cpu_count,
    ensures
        final(out)@ == old(out)@ + cpu_line(info@, i as int),
{
    out.append("[ACPI]     CPU[");
    push_decimal(out, i as u64);
    out.append("] APIC ID = ");
    push_decimal(out, info.apic_ids[i] as u64);
    out.append("\n");
    assert(out@ =~= old(out)@ + cpu_line(info@, i as int));
}

fn push_local_apic_line(out: &mut String, info: &MadtInfo)
    requires
        info.wf(),
    ensures
        final(out)@ == old(out)@ + ("[ACPI]   Local APIC @ "@ + hex_prefixed(
            info.local_apic_address as int,
        ) + ", "@ + decimal(info@.apic_ids.len() as int) + " CPU(s)\n"@),
{
    out.append("[ACPI]   Local APIC @ ");
    push_hex(out, info.local_apic_address);
    out.append(", ");
    push_decimal(out, info.cpu_count as u64);
    out.append(" CPU(s)\n");
    assert(out@ =~= old(out)@ + ("[ACPI]   Local APIC @ "@ + hex_prefixed(
        info.local_apic_address as int,
    ) + ", "@ + decimal(info@.apic_ids.len() as int) + " CPU(s)\n"@));
}

fn push_io_apic_line(out: &mut String, info: &MadtInfo)
    ensures
        final(out)@ == old(out)@ + ("[ACPI]   I/O APIC @ "@ + hex_prefixed(
            info.io_apic_address as int,
        ) + " (GSI base "@ + decimal(info.io_apic_gsi_base as int) + ")\n"@),
{
    out.append("[ACPI]   I/O APIC @ ");
    push_hex(out, info.io_apic_address as u64);
    out.append(" (GSI base ");
    push_decimal(out, info.io_apic_gsi_base as u64);
    out.append(")\n");
    assert(out@ =~= old(out)@ + ("[ACPI]   I/O APIC @ "@ + hex_prefixed(
        info.io_apic_address as int,
    ) + " (GSI base "@ + decimal(info.io_apic_gsi_base as int) + ")\n"@));
}

fn push_madt_lines(out: &mut String, a: u64, info: &MadtInfo)
    requires
        info.wf(),
    ensures
        final(out)@ == old(out)@ + madt_lines(a, info@),
{
    push_address_line(out, "[ACPI] MADT @ ", a);
    push_local_apic_line(out, info);
    let ghost head = out@;
    let n: usize = info.cpu_count as usize;
    let mut i: usize = 0;
    assert(out@ =~= head + cpu_lines(info@, 0));
    while i < n
        invariant
            info.wf(),
            i <= n,
            n == info.cpu_count,
            out@ == head + cpu_lines(info@, i as int),
        decreases n - i,
    {
        push_cpu_line(out, info, i);
        i += 1;
        assert(out@ =~= head + cpu_lines(info@, i as int));
    }
    if info.io_apic_address != 0 {
        push_io_apic_line(out, info);
    }
    assert(out@ =~= old(out)@ + madt_lines(a, info@));
}

fn push_allocation_line(out: &mut String, x: &McfgAllocation)
    ensures
        final(out)@ == old(out)@ + allocation_line(*x),
{
    out.append("[ACPI]   PCIe segment ");
    push_decimal(out, x.pci_segment_group as u64);
    out.append(" buses ");
    push_decimal(out, x.start_bus_number as u64);
    out.append("-");
    push_decimal(out, x.end_bus_number as u64);
    out.append(" base ");
    push_hex(out, x.base_address);
    out.append("\n");
    assert(out@ =~= old(out)@ + allocation_line(*x));
}

fn push_mcfg_lines(out: &mut String, a: u64, v: &Vec<McfgAllocation>)
    ensures
        final(out)@ == old(out)@ + mcfg_lines(a, v@),
{
    push_address_line(out, "[ACPI] MCFG @ ", a);
    let ghost head = out@;
    let mut i: usize = 0;
    assert(out@ =~= head + allocation_lines(v@, 0));
    while i < v.len()
        invariant
            i <= v.len(),
            out@ == head + allocation_lines(v@, i as int),
        decreases v.len() - i,
    {
        push_allocation_line(out, &v[i]);
        i += 1;
        assert(out@ =~= head + allocation_lines(v@, i as int));
    }
    assert(out@ =~= old(out)@ + mcfg_lines(a, v@));
}

fn push_hpet_line(out: &mut String, a: u64, base: u64)
    ensures
        final(out)@ == old(out)@ + hpet_line(a, base),
{
    out.append("[ACPI] HPET @ ");
    push_hex(out, a);
    out.append(" (base ");
    push_hex(out, base);
    out.append(")\n");
    assert(out@ =~= old(out)@ + hpet_line(a, base));
}

/// A summary of the tables, line by line.
pub fn dump_tables(mem: &PhysMemory, tables: &AcpiTables) -> (out: String)
    requires
        tables_readable(*tables, mem@),
        tables.mcfg matches Some(a) ==> extent_readable(mem@, a as int),
    ensures
        out@ == report(*tables, mem@),
{
    let mut out = String::new();
    push_address_line(&mut out, "[ACPI] RSDP @ ", tables.rsdp);
    match (tables.xsdt, tables.rsdt) {
        (Some(x), _) => {
            push_address_line(&mut out, "[ACPI] XSDT @ ", x);
        },
        (None, Some(r)) => {
            push_address_line(&mut out, "[ACPI] RSDT @ ", r);
        },
        (None, None) => {},
    }
    assert(out@ =~= root_lines(*tables));
    let ghost part1 = out@;
    match tables.madt {
        Some(a) => {
            let info = parse_madt(mem, a);
            push_madt_lines(&mut out, a, &info);
        },
        None => {},
    }
    let ghost part2 = out@;
    match (tables.fadt, tables.dsdt_address(mem)) {
        (Some(a), Some(dsdt)) => {
            push_address_line(&mut out, "[ACPI] FADT @ ", a);
            push_address_line(&mut out, "[ACPI]   DSDT @ ", dsdt);
            assert(out@ =~= part2 + fadt_lines(a, dsdt));
        },
        _ => {},
    }
    let ghost part3 = out@;
    match (tables.hpet, tables.hpet_address(mem)) {
        (Some(a), Some(base)) => {
            push_hpet_line(&mut out, a, base);
        },
        _ => {},
    }
    let ghost part4 = out@;
    match tables.mcfg {
        Some(a) => {
            let v = iter_mcfg_allocations(mem, a);
            push_mcfg_lines(&mut out, a, &v);
        },
        None => {},
    }
    assert(out@ =~= report(*tables, mem@));
    out
}

/// Each processor has one line behind those of the processors before it, with
/// its number, counted from zero, and its APIC ID.
pub proof fn law_cpu_lines(s: MadtSummary, n: int)
    requires
        0 <= n,
    ensures
        cpu_lines(s, 0) == Seq::<char>::empty(),
        cpu_lines(s, n + 1) == cpu_lines(s, n) + ("[ACPI]     CPU["@ + decimal(n)
            + "] APIC ID = "@ + decimal(s.apic_ids[n] as int) + "\n"@),
{
}

/// Each allocation has one line behind those of the allocations before it, with
/// its segment, its first and its last bus and its address.
pub proof fn law_allocation_lines(v: Seq<McfgAllocation>, n: int)
    requires
        0 <= n,
    ensures
        allocation_lines(v, 0) == Seq::<char>::empty(),
        allocation_lines(v, n + 1) == allocation_lines(v, n) + ("[ACPI]   PCIe segment "@ + decimal(
            v[n].pci_segment_group as int,
        ) + " buses "@ + decimal(v[n].start_bus_number as int) + "-"@ + decimal(
            v[n].end_bus_number as int,
        ) + " base "@ + hex_prefixed(v[n].base_address as int) + "\n"@),
{
}

/// What a summary says of the tables that are there, in this order: the root
/// pointer, the XSDT or else the RSDT, the MADT with every processor that it
/// gives and its I/O APIC if it gives one, the FADT with its DSDT, the HPET with
/// the address at its byte 44, and the MCFG with every allocation.
pub proof fn law_report(t: AcpiTables, m: Map<int, u8>)
    ensures
        ({
            let nothing = Seq::<char>::empty();
            let root = match t.xsdt {
                Some(x) => "[ACPI] XSDT @ "@ + hex_prefixed(x as int) + "\n"@,
                None => match t.rsdt {
                    Some(r) => "[ACPI] RSDT @ "@ + hex_prefixed(r as int) + "\n"@,
                    None => nothing,
                },
            };
            let madt = match t.madt {
                Some(a) => {
                    let s = madt_summary(m, a as int);
                    let n = s.apic_ids.len() as int;
                    "[ACPI] MADT @ "@ + hex_prefixed(a as int) + "\n"@ + ("[ACPI]   Local APIC @ "@
                        + hex_prefixed(s.local_apic_address as int) + ", "@ + decimal(n)
                        + " CPU(s)\n"@) + cpu_lines(s, n) + (if s.io_apic_address == 0 {
                        nothing
                    } else {
                        "[ACPI]   I/O APIC @ "@ + hex_prefixed(s.io_apic_address as int)
                            + " (GSI base "@ + decimal(s.io_apic_gsi_base as int) + ")\n"@
                    })
                },
                None => nothing,
            };
            let fadt = match t.fadt {
                Some(a) => "[ACPI] FADT @ "@ + hex_prefixed(a as int) + "\n"@ + (
                "[ACPI]   DSDT @ "@ + hex_prefixed(dsdt_at(m, a as int) as int) + "\n"@),
                None => nothing,
            };
            let hpet = match t.hpet {
                Some(a) => "[ACPI] HPET @ "@ + hex_prefixed(a as int) + " (base "@ + hex_prefixed(
                    mem_u64(m, a + 44) as int,
                ) + ")\n"@,
                None => nothing,
            };
            let mcfg = match t.mcfg {
                Some(a) => {
                    let v = mcfg_allocations(m, a as int);
                    "[ACPI] MCFG @ "@ + hex_prefixed(a as int) + "\n"@ + allocation_lines(
                        v,
                        v.len() as int,
                    )
                },
                None => nothing,
            };
            report(t, m) == "[ACPI] RSDP @ "@ + hex_prefixed(t.rsdp as int) + "\n"@ + root + madt
                + fadt + hpet + mcfg
        }),
{
}

} // verus!
