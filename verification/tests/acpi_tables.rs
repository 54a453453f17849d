use kaguyaos::acpi::fixed::{
    PmTimerWait, ecam_address, fadt_dsdt_address, fadt_pm1a_control_port, fadt_pm_timer_port,
    hpet_base_address, hpet_minimum_tick, hpet_number, iter_mcfg_allocations,
};
use kaguyaos::acpi::layout::{Fadt, Hpet, McfgAllocation, Rsdp, RsdpV2, SdtHeader};
use kaguyaos::acpi::madt::{MadtEntryType, MadtInfo, iter_madt_entries, parse_madt};
use kaguyaos::acpi::mapping::{map_acpi_tables, map_rsdp_scan_regions};
use kaguyaos::acpi::report::dump_tables;
use kaguyaos::acpi::rsdp::{
    checksum, find_rsdp, find_rsdp_in_range, rsdp_from_address, rsdp_is_v2, rsdp_rsdt_address,
    rsdp_xsdt_address, verify_checksum,
};
use kaguyaos::acpi::sdt::{
    find_table_in_rsdt, find_table_in_xsdt, iter_rsdt, iter_xsdt, sdt_has_signature, sdt_length,
};
use kaguyaos::acpi::tables::AcpiTables;
use kaguyaos::boot::BootInfo;
use kaguyaos::memory::frames::FrameAllocator;
use kaguyaos::memory::paging::TableMemory;
use kaguyaos::memory::phys::PhysMemory;

fn with_checksum(mut b: Vec<u8>, at: usize, len: usize) -> Vec<u8> {
    b[at] = 0;
    let mut sum = 0u8;
    for x in &b[..len] {
        sum = sum.wrapping_add(*x);
    }
    b[at] = 0u8.wrapping_sub(sum);
    b
}

fn rsdp(revision: u8, rsdt: u32, xsdt: u64) -> Vec<u8> {
    let mut b = b"RSD PTR ".to_vec();
    b.push(0);
    b.extend_from_slice(b"KAGUYA");
    b.push(revision);
    b.extend_from_slice(&rsdt.to_le_bytes());
    b.extend_from_slice(&36u32.to_le_bytes());
    b.extend_from_slice(&xsdt.to_le_bytes());
    b.extend_from_slice(&[0, 0, 0, 0]);
    with_checksum(b, 8, 20)
}

fn table(sig: &[u8; 4], body: &[u8]) -> Vec<u8> {
    let mut b = sig.to_vec();
    b.extend_from_slice(&((36 + body.len()) as u32).to_le_bytes());
    b.extend_from_slice(&[1, 0]);
    b.extend_from_slice(b"OEMID ");
    b.extend_from_slice(b"TABLEID ");
    b.extend_from_slice(&7u32.to_le_bytes());
    b.extend_from_slice(&8u32.to_le_bytes());
    b.extend_from_slice(&9u32.to_le_bytes());
    b.extend_from_slice(body);
    let n = b.len();
    with_checksum(b, 9, n)
}

fn local_apic(id: u8, flags: u32) -> Vec<u8> {
    let mut b = vec![0, 8, id, id];
    b.extend_from_slice(&flags.to_le_bytes());
    b
}

fn io_apic(address: u32, gsi: u32) -> Vec<u8> {
    let mut b = vec![1, 12, 0, 0];
    b.extend_from_slice(&address.to_le_bytes());
    b.extend_from_slice(&gsi.to_le_bytes());
    b
}

fn madt_body(entries: &[Vec<u8>]) -> Vec<u8> {
    let mut b = 0xFEE0_0000u32.to_le_bytes().to_vec();
    b.extend_from_slice(&1u32.to_le_bytes());
    for e in entries {
        b.extend_from_slice(e);
    }
    b
}

const MADT: u64 = 0x2_0000;
const FADT: u64 = 0x2_1000;
const HPET: u64 = 0x2_2000;
const MCFG: u64 = 0x2_3000;
const XSDT: u64 = 0x2_4000;
const RSDT: u64 = 0x2_5000;
const ROOT: u64 = 0x2_6000;

fn fadt_body() -> Vec<u8> {
    let mut b = vec![0u8; 208];
    b[4..8].copy_from_slice(&0x1234u32.to_le_bytes());
    b[28..32].copy_from_slice(&0xB004u32.to_le_bytes());
    b[40..44].copy_from_slice(&0xB008u32.to_le_bytes());
    b
}

fn hpet_body() -> Vec<u8> {
    let mut b = 0x8086_A201u32.to_le_bytes().to_vec();
    b.extend_from_slice(&[0, 64, 0, 0]);
    b.extend_from_slice(&0xFED0_0000u64.to_le_bytes());
    b.push(3);
    b.extend_from_slice(&0x80u16.to_le_bytes());
    b.push(0);
    b
}

fn mcfg_body() -> Vec<u8> {
    let mut b = vec![0u8; 8];
    b.extend_from_slice(&0xE000_0000u64.to_le_bytes());
    b.extend_from_slice(&0u16.to_le_bytes());
    b.extend_from_slice(&[0, 0xFF]);
    b.extend_from_slice(&[0u8; 4]);
    b
}

fn memory(revision: u8) -> PhysMemory {
    let mut m = PhysMemory::new();
    m.write(
        MADT,
        &table(
            b"APIC",
            &madt_body(&[
                local_apic(0, 1),
                local_apic(1, 1),
                local_apic(2, 0),
                local_apic(4, 2),
                io_apic(0xFEC0_0000, 0),
                io_apic(0xFEC0_1000, 24),
            ]),
        ),
    );
    m.write(FADT, &table(b"FACP", &fadt_body()));
    m.write(HPET, &table(b"HPET", &hpet_body()));
    m.write(MCFG, &table(b"MCFG", &mcfg_body()));
    let all = [MADT, FADT, HPET, MCFG];
    let mut wide = Vec::new();
    let mut narrow = Vec::new();
    for a in all {
        wide.extend_from_slice(&a.to_le_bytes());
        narrow.extend_from_slice(&(a as u32).to_le_bytes());
    }
    m.write(XSDT, &table(b"XSDT", &wide));
    m.write(RSDT, &table(b"RSDT", &narrow));
    m.write(ROOT, &rsdp(revision, RSDT as u32, XSDT));
    m
}

#[test]
fn checksums_add_up() {
    let m = memory(2);
    assert_eq!(checksum(&m, ROOT, 20), 0);
    assert!(verify_checksum(&m, ROOT, 20));
    assert_eq!(checksum(&m, ROOT, 2), b'R'.wrapping_add(b'S'));
    assert!(!verify_checksum(&m, ROOT, 8));
}

#[test]
fn root_pointer_is_found_on_sixteen_byte_steps() {
    let mut m = PhysMemory::new();
    m.write(0xF_0000, &[0u8; 256]);
    assert_eq!(find_rsdp_in_range(&m, 0xF_0000, 256), None);
    m.write(0xF_0028, &rsdp(0, 1, 0));
    assert_eq!(find_rsdp_in_range(&m, 0xF_0000, 256), None);
    m.write(0xF_0040, &rsdp(0, 1, 0));
    m.write(0xF_0080, &rsdp(0, 2, 0));
    assert_eq!(find_rsdp_in_range(&m, 0xF_0000, 256), Some(0xF_0040));
    m.write(0xF_0050, &[0xEE]);
    assert_eq!(find_rsdp_in_range(&m, 0xF_0000, 256), Some(0xF_0080));
}

#[test]
fn root_pointer_is_searched_in_both_areas() {
    let mut m = PhysMemory::new();
    m.write(0x40E, &[0x00, 0x80]);
    m.write(0x8_0000, &[0u8; 1024]);
    m.write(0xE_0000, &vec![0u8; 0x2_0000]);
    assert_eq!(find_rsdp(&m), None);
    m.write(0xE_1230, &rsdp(0, 1, 0));
    assert_eq!(find_rsdp(&m), Some(0xE_1230));
    m.write(0x8_0010, &rsdp(0, 1, 0));
    assert_eq!(find_rsdp(&m), Some(0x8_0010));
}

#[test]
fn root_pointer_fields() {
    let m = memory(2);
    assert_eq!(rsdp_from_address(&m, ROOT), Some(ROOT));
    assert_eq!(rsdp_from_address(&m, MADT), None);
    assert!(rsdp_is_v2(&m, ROOT));
    assert_eq!(rsdp_xsdt_address(&m, ROOT), Some(XSDT));
    assert_eq!(rsdp_rsdt_address(&m, ROOT), RSDT as u32);
    let old = memory(0);
    assert!(!rsdp_is_v2(&old, ROOT));
    assert_eq!(rsdp_xsdt_address(&old, ROOT), None);
    let r = Rsdp::read(&m, ROOT);
    assert_eq!(r.signature, *b"RSD PTR ");
    assert_eq!(r.oem_id, *b"KAGUYA");
    let v2 = RsdpV2::read(&m, ROOT);
    assert_eq!(v2.length, 36);
    assert_eq!(v2.xsdt_address, XSDT);
}

#[test]
fn headers_and_signatures() {
    let m = memory(2);
    let h = SdtHeader::read(&m, MADT);
    assert_eq!(h.signature, *b"APIC");
    assert_eq!(h.oem_id, *b"OEMID ");
    assert_eq!((h.oem_revision, h.creator_id, h.creator_revision), (7, 8, 9));
    assert_eq!(sdt_length(&m, MADT), 36 + 8 + 4 * 8 + 2 * 12);
    assert!(sdt_has_signature(&m, HPET, b"HPET"));
    assert!(!sdt_has_signature(&m, HPET, b"HPES"));
}

#[test]
fn root_tables_list_their_entries() {
    let m = memory(2);
    assert_eq!(iter_xsdt(&m, XSDT), vec![MADT, FADT, HPET, MCFG]);
    assert_eq!(iter_rsdt(&m, RSDT), vec![MADT, FADT, HPET, MCFG]);
    assert_eq!(find_table_in_xsdt(&m, XSDT, b"HPET"), Some(HPET));
    assert_eq!(find_table_in_rsdt(&m, RSDT, b"FACP"), Some(FADT));
    assert_eq!(find_table_in_rsdt(&m, RSDT, b"SSDT"), None);
}

#[test]
fn madt_is_summarised() {
    let m = memory(2);
    let first = MADT + 44;
    assert_eq!(
        iter_madt_entries(&m, MADT),
        vec![first, first + 8, first + 16, first + 24, first + 32, first + 44]
    );
    let info = parse_madt(&m, MADT);
    assert_eq!(info.local_apic_address, 0xFEE0_0000);
    assert_eq!(info.io_apic_address, 0xFEC0_0000);
    assert_eq!(info.io_apic_gsi_base, 0);
    // Only processors that are enabled count.
    assert_eq!(info.cpu_count, 2);
    assert_eq!(info.apic_ids[..3], [0, 1, 0]);
}

#[test]
fn madt_entry_of_no_length_ends_the_list() {
    let mut m = PhysMemory::new();
    m.write(MADT, &table(b"APIC", &madt_body(&[local_apic(0, 1), vec![9, 0, 0, 0], local_apic(1, 1)])));
    assert_eq!(iter_madt_entries(&m, MADT), vec![MADT + 44]);
    assert_eq!(parse_madt(&m, MADT).cpu_count, 1);
}

#[test]
fn local_apic_address_can_be_overridden() {
    let mut over = vec![5, 12, 0, 0];
    over.extend_from_slice(&0x1_FEE0_0000u64.to_le_bytes());
    let mut m = PhysMemory::new();
    m.write(MADT, &table(b"APIC", &madt_body(&[over])));
    assert_eq!(parse_madt(&m, MADT).local_apic_address, 0x1_FEE0_0000);
}

#[test]
fn madt_entry_types() {
    assert_eq!(MadtEntryType::from(0), MadtEntryType::LocalApic);
    assert_eq!(MadtEntryType::from(1), MadtEntryType::IoApic);
    assert_eq!(MadtEntryType::from(5), MadtEntryType::LocalApicAddressOverride);
    assert_eq!(MadtEntryType::from(9), MadtEntryType::LocalX2Apic);
    assert_eq!(MadtEntryType::from(200), MadtEntryType::Unknown(200));
    let info = MadtInfo::default();
    assert_eq!(info.cpu_count, 0);
}

#[test]
fn fadt_addresses() {
    let m = memory(2);
    let mut fadt = Fadt::read(&m, FADT);
    assert_eq!(fadt_dsdt_address(&fadt), 0x1234);
    assert_eq!(fadt_pm1a_control_port(&fadt), 0xB004);
    assert_eq!(fadt_pm_timer_port(&fadt), 0xB008);
    fadt.x_dsdt = 0x1_0000_5678;
    assert_eq!(fadt_dsdt_address(&fadt), 0x1_0000_5678);
    fadt.x_pm_timer_block.address_space_id = 1;
    fadt.x_pm_timer_block.address = 0x608;
    assert_eq!(fadt_pm_timer_port(&fadt), 0x608);
    fadt.x_pm1a_control_block.address_space_id = 0;
    fadt.x_pm1a_control_block.address = 0x604;
    assert_eq!(fadt_pm1a_control_port(&fadt), 0xB004);
}

#[test]
fn timer_waits_across_the_wrap() {
    let mut w = PmTimerWait::begin(0xFFFF_FFFE, 1);
    assert_eq!((w.last, w.passed, w.ticks_needed), (0xFF_FFFE, 0, 4));
    assert!(!w.step(0xFF_FFFF));
    assert_eq!((w.last, w.passed), (0xFF_FFFF, 1));
    assert!(w.step(0x10));
    assert_eq!((w.last, w.passed), (0x10, 18));
    let mut none = PmTimerWait::begin(5, 0);
    assert!(none.step(5));
}

#[test]
fn long_waits_end() {
    let mut w = PmTimerWait::begin(0, 4_194_304);
    assert_eq!(w.ticks_needed, 0x100_0000);
    assert!(!w.step(0x80_0000));
    assert!(!w.step(0xFF_FFFF));
    assert!(w.step(0));
    assert_eq!(w.passed, 0x100_0000);
    let mut longest = PmTimerWait::begin(7, u32::MAX);
    assert_eq!(longest.ticks_needed, 17_179_869_180);
    // Half a round at a time.
    let mut readings: u32 = 1;
    while !longest.step(7 + (readings % 2) * 0x80_0000) {
        readings += 1;
    }
    assert_eq!(readings, 2048);
    assert_eq!(longest.passed, 1024 * 0x100_0000);
}

#[test]
fn hpet_fields() {
    let m = memory(2);
    let hpet = Hpet::read(&m, HPET);
    assert_eq!(hpet_base_address(&hpet), 0xFED0_0000);
    assert_eq!(hpet_number(&hpet), 3);
    assert_eq!(hpet_minimum_tick(&hpet), 0x80);
}

#[test]
fn configuration_space_addresses() {
    let m = memory(2);
    let v = iter_mcfg_allocations(&m, MCFG);
    assert_eq!(v.len(), 1);
    assert_eq!(v[0].base_address, 0xE000_0000);
    assert_eq!(ecam_address(&v[0], 1, 2, 3), Some(0xE000_0000 + (1 << 20) + (2 << 15) + (3 << 12)));
    let late = McfgAllocation { start_bus_number: 4, end_bus_number: 5, ..v[0] };
    assert_eq!(ecam_address(&late, 3, 0, 0), None);
    assert_eq!(ecam_address(&late, 6, 0, 0), None);
    assert_eq!(ecam_address(&late, 5, 0, 0), Some(0xE000_0000 + (1 << 20)));
}

#[test]
fn tables_are_found_from_the_root_pointer() {
    let m = memory(2);
    let t = AcpiTables::from_rsdp(&m, ROOT);
    assert_eq!(t.xsdt, Some(XSDT));
    assert_eq!(t.rsdt, None);
    assert_eq!((t.madt, t.fadt, t.hpet, t.mcfg), (Some(MADT), Some(FADT), Some(HPET), Some(MCFG)));
    assert_eq!(t.dsdt_address(&m), Some(0x1234));
    assert_eq!(t.hpet_address(&m), Some(0xFED0_0000));
    assert_eq!(t.madt_info(&m).unwrap().io_apic_address, 0xFEC0_0000);
    let old = AcpiTables::from_rsdp(&memory(0), ROOT);
    assert_eq!(old.xsdt, None);
    assert_eq!(old.rsdt, Some(RSDT));
    assert_eq!(old.hpet, Some(HPET));
}

#[test]
fn tables_are_reported() {
    let mut m = memory(2);
    m.write(MADT, &table(b"APIC", &madt_body(&[local_apic(7, 1), io_apic(0xFEC0_0000, 24)])));
    let t = AcpiTables::from_rsdp(&m, ROOT);
    let mut expected = String::new();
    expected.push_str(&format!("[ACPI] RSDP @ {:#x}\n", ROOT));
    expected.push_str(&format!("[ACPI] XSDT @ {:#x}\n", XSDT));
    expected.push_str(&format!("[ACPI] MADT @ {:#x}\n", MADT));
    expected.push_str("[ACPI]   Local APIC @ 0xfee00000, 1 CPU(s)\n");
    expected.push_str("[ACPI]     CPU[0] APIC ID = 7\n");
    expected.push_str("[ACPI]   I/O APIC @ 0xfec00000 (GSI base 24)\n");
    expected.push_str(&format!("[ACPI] FADT @ {:#x}\n", FADT));
    expected.push_str("[ACPI]   DSDT @ 0x1234\n");
    expected.push_str(&format!("[ACPI] HPET @ {:#x} (base 0xfed00000)\n", HPET));
    expected.push_str(&format!("[ACPI] MCFG @ {:#x}\n", MCFG));
    expected.push_str("[ACPI]   PCIe segment 0 buses 0-255 base 0xe0000000\n");
    assert_eq!(dump_tables(&m, &t), expected);
}

fn machine(frames: u64) -> (FrameAllocator, u64, TableMemory) {
    let mut map = 7u32.to_le_bytes().to_vec();
    map.extend_from_slice(&[0u8; 4]);
    map.extend_from_slice(&0x100_0000u64.to_le_bytes());
    map.extend_from_slice(&0u64.to_le_bytes());
    map.extend_from_slice(&frames.to_le_bytes());
    map.extend_from_slice(&[0u8; 8]);
    let info = BootInfo {
        framebuffer_base: 0,
        framebuffer_size: 0,
        horizontal_resolution: 0,
        vertical_resolution: 0,
        pixels_per_scanline: 0,
        pixel_format: 0,
        memory_map: map,
        memory_map_size: 40,
        descriptor_size: 40,
        descriptor_version: 1,
        runtime_services: 0,
        acpi_rsdp_phys: 0,
    };
    let mut a = FrameAllocator::new(&info);
    let pml4 = a.allocate_frame().unwrap();
    let mut tables = TableMemory::new();
    tables.clear_frame(pml4);
    (a, pml4, tables)
}

fn mapped(tables: &TableMemory, pml4: u64, virt: u64) -> bool {
    let mut table = pml4;
    for shift in [39u64, 30, 21] {
        let e = tables.entry(table, ((virt >> shift) & 0x1FF) as usize);
        if e & 1 == 0 {
            return false;
        }
        table = e & !0xFFF;
    }
    tables.entry(table, ((virt >> 12) & 0x1FF) as usize) == virt | 3
}

#[test]
fn table_pages_are_mapped() {
    let m = memory(2);
    let t = AcpiTables::from_rsdp(&m, ROOT);
    let (mut a, pml4, mut tables) = machine(16);
    map_acpi_tables(&m, pml4, &mut tables, &mut a, &t);
    for page in [MADT, FADT, HPET, MCFG, XSDT, ROOT] {
        assert!(mapped(&tables, pml4, page));
    }
    assert!(!mapped(&tables, pml4, RSDT));
}

#[test]
fn search_areas_are_mapped() {
    let mut m = PhysMemory::new();
    m.write(0x40E, &[0x10, 0x80]);
    let (mut a, pml4, mut tables) = machine(16);
    map_rsdp_scan_regions(&m, pml4, &mut tables, &mut a);
    for page in [0u64, 0x8_0000, 0x8_1000, 0xE_0000, 0xF_F000] {
        assert!(mapped(&tables, pml4, page));
    }
    assert!(!mapped(&tables, pml4, 0x1000));
    assert!(!mapped(&tables, pml4, 0x8_2000));
    assert!(!mapped(&tables, pml4, 0x10_0000));
}
