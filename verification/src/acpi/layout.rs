//! The structures of ACPI tables, as they lie in memory.

use vstd::prelude::*;
use crate::le::{u16_bytes, u32_bytes, u64_bytes};
use crate::memory::phys::{
    PhysMemory, bytes_at, law_memory_bytes, mapped, mem_u16, mem_u32, mem_u64,
};

verus! {

/// Bytes of a first-version root pointer.
pub const RSDP_SIZE: u64 = 20;

/// Bytes of a second-version root pointer.
pub const RSDP_V2_SIZE: u64 = 36;

/// Bytes of the header that every table begins with.
pub const SDT_HEADER_SIZE: u64 = 36;

/// Bytes of the MADT's own header.
pub const MADT_HEADER_SIZE: u64 = 8;

/// Bytes of a FADT.
pub const FADT_SIZE: u64 = 244;

/// Bytes of a HPET table.
pub const HPET_SIZE: u64 = 56;

/// Bytes of the MCFG's own header.
pub const MCFG_HEADER_SIZE: u64 = 8;

/// Bytes of an MCFG allocation.
pub const MCFG_ALLOCATION_SIZE: u64 = 16;

/// The root pointer of ACPI 1.0.
#[derive(Clone, Copy)]
pub struct Rsdp {
    /// `"RSD PTR "`.
    pub signature: [u8; 8],
    pub checksum: u8,
    pub oem_id: [u8; 6],
    /// Two or more from ACPI 2.0 on.
    pub revision: u8,
    /// Physical address of the RSDT.
    pub rsdt_address: u32,
}

/// The root pointer of ACPI 2.0.
#[derive(Clone, Copy)]
pub struct RsdpV2 {
    pub v1: Rsdp,
    pub length: u32,
    /// Physical address of the XSDT.
    pub xsdt_address: u64,
    pub extended_checksum: u8,
    pub reserved: [u8; 3],
}

/// The header that every table begins with.
#[derive(Clone, Copy)]
pub struct SdtHeader {
    pub signature: [u8; 4],
    pub length: u32,
    pub revision: u8,
    pub checksum: u8,
    pub oem_id: [u8; 6],
    pub oem_table_id: [u8; 8],
    pub oem_revision: u32,
    pub creator_id: u32,
    pub creator_revision: u32,
}

/// What follows the header in the MADT.
#[derive(Clone, Copy)]
pub struct MadtHeader {
    pub local_apic_address: u32,
    pub flags: u32,
}

/// What every MADT entry begins with.
#[derive(Clone, Copy)]
pub struct MadtEntryHeader {
    pub entry_type: u8,
    pub length: u8,
}

/// A processor's local APIC.
#[derive(Clone, Copy)]
pub struct LocalApicEntry {
    pub header: MadtEntryHeader,
    pub acpi_processor_uid: u8,
    pub apic_id: u8,
    /// Bit 0: the processor is enabled. Bit 1: it can come online.
    pub flags: u32,
}

/// An I/O APIC.
#[derive(Clone, Copy)]
pub struct IoApicEntry {
    pub header: MadtEntryHeader,
    pub io_apic_id: u8,
    pub reserved: u8,
    pub io_apic_address: u32,
    pub global_system_interrupt_base: u32,
}

/// An ISA interrupt that is wired elsewhere.
#[derive(Clone, Copy)]
pub struct InterruptSourceOverrideEntry {
    pub header: MadtEntryHeader,
    pub bus: u8,
    pub source: u8,
    pub global_system_interrupt: u32,
    pub flags: u16,
}

/// A non-maskable interrupt line of a local APIC.
#[derive(Clone, Copy)]
pub struct LocalApicNmiEntry {
    pub header: MadtEntryHeader,
    pub acpi_processor_uid: u8,
    pub flags: u16,
    pub local_apic_lint: u8,
}

/// The address of a register.
#[derive(Clone, Copy, Debug, PartialEq, Eq, Structural)]
pub struct GenericAddress {
    /// 0: memory. 1: I/O ports. 2: PCI configuration space.
    pub address_space_id: u8,
    pub register_bit_width: u8,
    pub register_bit_offset: u8,
    pub access_size: u8,
    pub address: u64,
}

/// The fixed ACPI description table.
#[derive(Clone, Copy)]
pub struct Fadt {
    pub header: SdtHeader,
    pub firmware_ctrl: u32,
    pub dsdt: u32,
    pub reserved1: u8,
    pub preferred_power_mgmt_profile: u8,
    pub sci_interrupt: u16,
    pub smi_command_port: u32,
    pub acpi_enable: u8,
    pub acpi_disable: u8,
    pub s4bios_req: u8,
    pub pstate_control: u8,
    pub pm1a_event_block: u32,
    pub pm1b_event_block: u32,
    pub pm1a_control_block: u32,
    pub pm1b_control_block: u32,
    pub pm2_control_block: u32,
    pub pm_timer_block: u32,
    pub gpe0_block: u32,
    pub gpe1_block: u32,
    pub pm1_event_length: u8,
    pub pm1_control_length: u8,
    pub pm2_control_length: u8,
    pub pm_timer_length: u8,
    pub gpe0_length: u8,
    pub gpe1_length: u8,
    pub gpe1_base: u8,
    pub cstate_control: u8,
    pub worst_c2_latency: u16,
    pub worst_c3_latency: u16,
    pub flush_size: u16,
    pub flush_stride: u16,
    pub duty_offset: u8,
    pub duty_width: u8,
    pub day_alarm: u8,
    pub month_alarm: u8,
    pub century: u8,
    pub boot_architecture_flags: u16,
    pub reserved2: u8,
    pub flags: u32,
    pub reset_reg: GenericAddress,
    pub reset_value: u8,
    pub arm_boot_arch: u16,
    pub fadt_minor_version: u8,
    pub x_firmware_control: u64,
    pub x_dsdt: u64,
    pub x_pm1a_event_block: GenericAddress,
    pub x_pm1b_event_block: GenericAddress,
    pub x_pm1a_control_block: GenericAddress,
    pub x_pm1b_control_block: GenericAddress,
    pub x_pm2_control_block: GenericAddress,
    pub x_pm_timer_block: GenericAddress,
    pub x_gpe0_block: GenericAddress,
    pub x_gpe1_block: GenericAddress,
}

/// The description of a high precision event timer.
#[derive(Clone, Copy)]
pub struct Hpet {
    pub header: SdtHeader,
    pub event_timer_block_id: u32,
    pub base_address: GenericAddress,
    pub hpet_number: u8,
    pub minimum_tick: u16,
    pub page_protection: u8,
}

/// What follows the header in the MCFG.
#[derive(Clone, Copy)]
pub struct McfgHeader {
    pub reserved: u64,
}

/// A range of PCIe buses and where its configuration space lies.
#[derive(Clone, Copy, Debug, PartialEq, Eq, Structural)]
pub struct McfgAllocation {
    pub base_address: u64,
    pub pci_segment_group: u16,
    pub start_bus_number: u8,
    pub end_bus_number: u8,
    pub reserved: u32,
}

// ---------------------------------------------------------------------------
// Reading
// ---------------------------------------------------------------------------

/// The register address at `a`.
pub open spec fn generic_address_at(m: Map<int, u8>, a: int) -> GenericAddress {
    GenericAddress {
        address_space_id: m[a],
        register_bit_width: m[a + 1],
        register_bit_offset: m[a + 2],
        access_size: m[a + 3],
        address: mem_u64(m, a + 4),
    }
}

/// The allocation at `a`.
pub open spec fn mcfg_allocation_at(m: Map<int, u8>, a: int) -> McfgAllocation {
    McfgAllocation {
        base_address: mem_u64(m, a),
        pci_segment_group: mem_u16(m, a + 8),
        start_bus_number: m[a + 10],
        end_bus_number: m[a + 11],
        reserved: mem_u32(m, a + 12),
    }
}

/// `h` is the header at `a`.
pub open spec fn is_header_at(m: Map<int, u8>, a: int, h: SdtHeader) -> bool {
    &&& h.signature@ == bytes_at(m, a, 4)
    &&& h.length == mem_u32(m, a + 4)
    &&& h.revision == m[a + 8]
    &&& h.checksum == m[a + 9]
    &&& h.oem_id@ == bytes_at(m, a + 10, 6)
    &&& h.oem_table_id@ == bytes_at(m, a + 16, 8)
    &&& h.oem_revision == mem_u32(m, a + 24)
    &&& h.creator_id == mem_u32(m, a + 28)
    &&& h.creator_revision == mem_u32(m, a + 32)
}

/// `r` is the root pointer at `a`.
pub open spec fn is_rsdp_at(m: Map<int, u8>, a: int, r: Rsdp) -> bool {
    &&& r.signature@ == bytes_at(m, a, 8)
    &&& r.checksum == m[a + 8]
    &&& r.oem_id@ == bytes_at(m, a + 9, 6)
    &&& r.revision == m[a + 15]
    &&& r.rsdt_address == mem_u32(m, a + 16)
}

/// `r` is the second-version root pointer at `a`.
pub open spec fn is_rsdp_v2_at(m: Map<int, u8>, a: int, r: RsdpV2) -> bool {
    &&& is_rsdp_at(m, a, r.v1)
    &&& r.length == mem_u32(m, a + 20)
    &&& r.xsdt_address == mem_u64(m, a + 24)
    &&& r.extended_checksum == m[a + 32]
    &&& r.reserved@ == bytes_at(m, a + 33, 3)
}

/// `h` is the timer description at `a`.
pub open spec fn is_hpet_at(m: Map<int, u8>, a: int, h: Hpet) -> bool {
    &&& is_header_at(m, a, h.header)
    &&& h.event_timer_block_id == mem_u32(m, a + 36)
    &&& h.base_address == generic_address_at(m, a + 40)
    &&& h.hpet_number == m[a + 52]
    &&& h.minimum_tick == mem_u16(m, a + 53)
    &&& h.page_protection == m[a + 55]
}

/// `f` is the fixed description table at `a`.
pub open spec fn is_fadt_at(m: Map<int, u8>, a: int, f: Fadt) -> bool {
    &&& is_header_at(m, a, f.header)
    &&& f.firmware_ctrl == mem_u32(m, a + 36)
    &&& f.dsdt == mem_u32(m, a + 40)
    &&& f.reserved1 == m[a + 44]
    &&& f.preferred_power_mgmt_profile == m[a + 45]
    &&& f.sci_interrupt == mem_u16(m, a + 46)
    &&& f.smi_command_port == mem_u32(m, a + 48)
    &&& f.acpi_enable == m[a + 52]
    &&& f.acpi_disable == m[a + 53]
    &&& f.s4bios_req == m[a + 54]
    &&& f.pstate_control == m[a + 55]
    &&& f.pm1a_event_block == mem_u32(m, a + 56)
    &&& f.pm1b_event_block == mem_u32(m, a + 60)
    &&& f.pm1a_control_block == mem_u32(m, a + 64)
    &&& f.pm1b_control_block == mem_u32(m, a + 68)
    &&& f.pm2_control_block == mem_u32(m, a + 72)
    &&& f.pm_timer_block == mem_u32(m, a + 76)
    &&& f.gpe0_block == mem_u32(m, a + 80)
    &&& f.gpe1_block == mem_u32(m, a + 84)
    &&& f.pm1_event_length == m[a + 88]
    &&& f.pm1_control_length == m[a + 89]
    &&& f.pm2_control_length == m[a + 90]
    &&& f.pm_timer_length == m[a + 91]
    &&& f.gpe0_length == m[a + 92]
    &&& f.gpe1_length == m[a + 93]
    &&& f.gpe1_base == m[a + 94]
    &&& f.cstate_control == m[a + 95]
    &&& f.worst_c2_latency == mem_u16(m, a + 96)
    &&& f.worst_c3_latency == mem_u16(m, a + 98)
    &&& f.flush_size == mem_u16(m, a + 100)
    &&& f.flush_stride == mem_u16(m, a + 102)
    &&& f.duty_offset == m[a + 104]
    &&& f.duty_width == m[a + 105]
    &&& f.day_alarm == m[a + 106]
    &&& f.month_alarm == m[a + 107]
    &&& f.century == m[a + 108]
    &&& f.boot_architecture_flags == mem_u16(m, a + 109)
    &&& f.reserved2 == m[a + 111]
    &&& f.flags == mem_u32(m, a + 112)
    &&& f.reset_reg == generic_address_at(m, a + 116)
    &&& f.reset_value == m[a + 128]
    &&& f.arm_boot_arch == mem_u16(m, a + 129)
    &&& f.fadt_minor_version == m[a + 131]
    &&& f.x_firmware_control == mem_u64(m, a + 132)
    &&& f.x_dsdt == mem_u64(m, a + 140)
    &&& f.x_pm1a_event_block == generic_address_at(m, a + 148)
    &&& f.x_pm1b_event_block == generic_address_at(m, a + 160)
    &&& f.x_pm1a_control_block == generic_address_at(m, a + 172)
    &&& f.x_pm1b_control_block == generic_address_at(m, a + 184)
    &&& f.x_pm2_control_block == generic_address_at(m, a + 196)
    &&& f.x_pm_timer_block == generic_address_at(m, a + 208)
    &&& f.x_gpe0_block == generic_address_at(m, a + 220)
    &&& f.x_gpe1_block == generic_address_at(m, a + 232)
}

/// The bytes `a .. a + n` are there and have addresses.
pub open spec fn readable(m: Map<int, u8>, a: int, n: int) -> bool {
    mapped(m, a, n) && 0 <= a && a + n <= u64::MAX
}

fn read_array4(mem: &PhysMemory, a: u64) -> (r: [u8; 4])
    requires
        readable(mem@, a as int, 4),
    ensures
        r@ == bytes_at(mem@, a as int, 4),
{
    let r: [u8; 4] = [mem.read_u8(a), mem.read_u8(a + 1), mem.read_u8(a + 2), mem.read_u8(a + 3)];
    assert(r@ =~= bytes_at(mem@, a as int, 4));
    r
}

fn read_array6(mem: &PhysMemory, a: u64) -> (r: [u8; 6])
    requires
        readable(mem@, a as int, 6),
    ensures
        r@ == bytes_at(mem@, a as int, 6),
{
    let r: [u8; 6] = [
        mem.read_u8(a),
        mem.read_u8(a + 1),
        mem.read_u8(a + 2),
        mem.read_u8(a + 3),
        mem.read_u8(a + 4),
        mem.read_u8(a + 5),
    ];
    assert(r@ =~= bytes_at(mem@, a as int, 6));
    r
}

fn read_array8(mem: &PhysMemory, a: u64) -> (r: [u8; 8])
    requires
        readable(mem@, a as int, 8),
    ensures
        r@ == bytes_at(mem@, a as int, 8),
{
    let r: [u8; 8] = [
        mem.read_u8(a),
        mem.read_u8(a + 1),
        mem.read_u8(a + 2),
        mem.read_u8(a + 3),
        mem.read_u8(a + 4),
        mem.read_u8(a + 5),
        mem.read_u8(a + 6),
        mem.read_u8(a + 7),
    ];
    assert(r@ =~= bytes_at(mem@, a as int, 8));
    r
}

impl GenericAddress {
    /// Reads the register address at `a`.
    pub fn read(mem: &PhysMemory, a: u64) -> (r: GenericAddress)
        requires
            readable(mem@, a as int, 12),
        ensures
            r == generic_address_at(mem@, a as int),
    {
        GenericAddress {
            address_space_id: mem.read_u8(a),
            register_bit_width: mem.read_u8(a + 1),
            register_bit_offset: mem.read_u8(a + 2),
            access_size: mem.read_u8(a + 3),
            address: mem.read_u64(a + 4),
        }
    }
}

impl McfgAllocation {
    /// Reads the allocation at `a`.
    pub fn read(mem: &PhysMemory, a: u64) -> (r: McfgAllocation)
        requires
            readable(mem@, a as int, MCFG_ALLOCATION_SIZE as int),
        ensures
            r == mcfg_allocation_at(mem@, a as int),
    {
        McfgAllocation {
            base_address: mem.read_u64(a),
            pci_segment_group: mem.read_u16(a + 8),
            start_bus_number: mem.read_u8(a + 10),
            end_bus_number: mem.read_u8(a + 11),
            reserved: mem.read_u32(a + 12),
        }
    }
}

impl Rsdp {
    /// Reads the root pointer at `a`.
    pub fn read(mem: &PhysMemory, a: u64) -> (r: Rsdp)
        requires
            readable(mem@, a as int, RSDP_SIZE as int),
        ensures
            is_rsdp_at(mem@, a as int, r),
    {
        Rsdp {
            signature: read_array8(mem, a),
            checksum: mem.read_u8(a + 8),
            oem_id: read_array6(mem, a + 9),
            revision: mem.read_u8(a + 15),
            rsdt_address: mem.read_u32(a + 16),
        }
    }
}

impl RsdpV2 {
    /// Reads the second-version root pointer at `a`.
    pub fn read(mem: &PhysMemory, a: u64) -> (r: RsdpV2)
        requires
            readable(mem@, a as int, RSDP_V2_SIZE as int),
        ensures
            is_rsdp_v2_at(mem@, a as int, r),
    {
        let reserved: [u8; 3] = [mem.read_u8(a + 33), mem.read_u8(a + 34), mem.read_u8(a + 35)];
        assert(reserved@ =~= bytes_at(mem@, a + 33, 3));
        RsdpV2 {
            v1: Rsdp::read(mem, a),
            length: mem.read_u32(a + 20),
            xsdt_address: mem.read_u64(a + 24),
            extended_checksum: mem.read_u8(a + 32),
            reserved,
        }
    }
}

impl SdtHeader {
    /// Reads the table header at `a`.
    pub fn read(mem: &PhysMemory, a: u64) -> (r: SdtHeader)
        requires
            readable(mem@, a as int, SDT_HEADER_SIZE as int),
        ensures
            is_header_at(mem@, a as int, r),
    {
        SdtHeader {
            signature: read_array4(mem, a),
            length: mem.read_u32(a + 4),
            revision: mem.read_u8(a + 8),
            checksum: mem.read_u8(a + 9),
            oem_id: read_array6(mem, a + 10),
            oem_table_id: read_array8(mem, a + 16),
            oem_revision: mem.read_u32(a + 24),
            creator_id: mem.read_u32(a + 28),
            creator_revision: mem.read_u32(a + 32),
        }
    }
}

impl Hpet {
    /// Reads the timer description at `a`.
    pub fn read(mem: &PhysMemory, a: u64) -> (r: Hpet)
        requires
            readable(mem@, a as int, HPET_SIZE as int),
        ensures
            is_hpet_at(mem@, a as int, r),
    {
        Hpet {
            header: SdtHeader::read(mem, a),
            event_timer_block_id: mem.read_u32(a + 36),
            base_address: GenericAddress::read(mem, a + 40),
            hpet_number: mem.read_u8(a + 52),
            minimum_tick: mem.read_u16(a + 53),
            page_protection: mem.read_u8(a + 55),
        }
    }
}

impl Fadt {
    /// Reads the fixed description table at `a`.
    #[verifier::rlimit(60)]
    pub fn read(mem: &PhysMemory, a: u64) -> (r: Fadt)
        requires
            readable(mem@, a as int, FADT_SIZE as int),
        ensures
            is_fadt_at(mem@, a as int, r),
    {
        Fadt {
            header: SdtHeader::read(mem, a),
            firmware_ctrl: mem.read_u32(a + 36),
            dsdt: mem.read_u32(a + 40),
            reserved1: mem.read_u8(a + 44),
            preferred_power_mgmt_profile: mem.read_u8(a + 45),
            sci_interrupt: mem.read_u16(a + 46),
            smi_command_port: mem.read_u32(a + 48),
            acpi_enable: mem.read_u8(a + 52),
            acpi_disable: mem.read_u8(a + 53),
            s4bios_req: mem.read_u8(a + 54),
            pstate_control: mem.read_u8(a + 55),
            pm1a_event_block: mem.read_u32(a + 56),
            pm1b_event_block: mem.read_u32(a + 60),
            pm1a_control_block: mem.read_u32(a + 64),
            pm1b_control_block: mem.read_u32(a + 68),
            pm2_control_block: mem.read_u32(a + 72),
            pm_timer_block: mem.read_u32(a + 76),
            gpe0_block: mem.read_u32(a + 80),
            gpe1_block: mem.read_u32(a + 84),
            pm1_event_length: mem.read_u8(a + 88),
            pm1_control_length: mem.read_u8(a + 89),
            pm2_control_length: mem.read_u8(a + 90),
            pm_timer_length: mem.read_u8(a + 91),
            gpe0_length: mem.read_u8(a + 92),
            gpe1_length: mem.read_u8(a + 93),
            gpe1_base: mem.read_u8(a + 94),
            cstate_control: mem.read_u8(a + 95),
            worst_c2_latency: mem.read_u16(a + 96),
            worst_c3_latency: mem.read_u16(a + 98),
            flush_size: mem.read_u16(a + 100),
            flush_stride: mem.read_u16(a + 102),
            duty_offset: mem.read_u8(a + 104),
            duty_width: mem.read_u8(a + 105),
            day_alarm: mem.read_u8(a + 106),
            month_alarm: mem.read_u8(a + 107),
            century: mem.read_u8(a + 108),
            boot_architecture_flags: mem.read_u16(a + 109),
            reserved2: mem.read_u8(a + 111),
            flags: mem.read_u32(a + 112),
            reset_reg: GenericAddress::read(mem, a + 116),
            reset_value: mem.read_u8(a + 128),
            arm_boot_arch: mem.read_u16(a + 129),
            fadt_minor_version: mem.read_u8(a + 131),
            x_firmware_control: mem.read_u64(a + 132),
            x_dsdt: mem.read_u64(a + 140),
            x_pm1a_event_block: GenericAddress::read(mem, a + 148),
            x_pm1b_event_block: GenericAddress::read(mem, a + 160),
            x_pm1a_control_block: GenericAddress::read(mem, a + 172),
            x_pm1b_control_block: GenericAddress::read(mem, a + 184),
            x_pm2_control_block: GenericAddress::read(mem, a + 196),
            x_pm_timer_block: GenericAddress::read(mem, a + 208),
            x_gpe0_block: GenericAddress::read(mem, a + 220),
            x_gpe1_block: GenericAddress::read(mem, a + 232),
        }
    }
}

// ---------------------------------------------------------------------------
// What holds of the structures
// ---------------------------------------------------------------------------

/// The bytes of a register address, field by field.
pub open spec fn generic_address_bytes(g: GenericAddress) -> Seq<u8> {
    seq![g.address_space_id] + seq![g.register_bit_width] + seq![g.register_bit_offset] + seq![
        g.access_size,
    ] + u64_bytes(g.address)
}

/// The bytes of a table header, field by field.
pub open spec fn header_bytes(h: SdtHeader) -> Seq<u8> {
    h.signature@ + u32_bytes(h.length) + seq![h.revision] + seq![h.checksum] + h.oem_id@
        + h.oem_table_id@ + u32_bytes(h.oem_revision) + u32_bytes(h.creator_id) + u32_bytes(
        h.creator_revision,
    )
}

proof fn lemma_bytes_append(m: Map<int, u8>, a: int, n: int, k: int)
    requires
        0 <= n,
        0 <= k,
    ensures
        bytes_at(m, a, n + k) == bytes_at(m, a, n) + bytes_at(m, a + n, k),
{
    assert(bytes_at(m, a, n + k) =~= bytes_at(m, a, n) + bytes_at(m, a + n, k));
}

proof fn lemma_u8_bytes(m: Map<int, u8>, a: int)
    ensures
        bytes_at(m, a, 1) == seq![m[a]],
{
    assert(bytes_at(m, a, 1) =~= seq![m[a]]);
}

proof fn lemma_u16_bytes(m: Map<int, u8>, a: int)
    ensures
        bytes_at(m, a, 2) == u16_bytes(mem_u16(m, a)),
{
    assert(bytes_at(m, a, 2) =~= u16_bytes(mem_u16(m, a)));
}

proof fn lemma_u32_bytes(m: Map<int, u8>, a: int)
    ensures
        bytes_at(m, a, 4) == u32_bytes(mem_u32(m, a)),
{
    assert(bytes_at(m, a, 4) =~= u32_bytes(mem_u32(m, a)));
}

proof fn lemma_u64_bytes(m: Map<int, u8>, a: int)
    ensures
        bytes_at(m, a, 8) == u64_bytes(mem_u64(m, a)),
{
    let low = mem_u32(m, a);
    let high = mem_u32(m, a + 4);
    law_memory_bytes(m, a, 8, 0);
    lemma_u32_bytes(m, a);
    lemma_u32_bytes(m, a + 4);
    lemma_bytes_append(m, a, 4, 4);
    assert(mem_u64(m, a) as int % 0x1_0000_0000 == low);
    assert(mem_u64(m, a) as int / 0x1_0000_0000 == high);
}

proof fn lemma_generic_address_bytes(m: Map<int, u8>, a: int)
    ensures
        bytes_at(m, a, 12) == generic_address_bytes(generic_address_at(m, a)),
{
    lemma_u8_bytes(m, a);
    lemma_u8_bytes(m, a + 1);
    lemma_bytes_append(m, a, 1, 1);
    lemma_u8_bytes(m, a + 2);
    lemma_bytes_append(m, a, 2, 1);
    lemma_u8_bytes(m, a + 3);
    lemma_bytes_append(m, a, 3, 1);
    lemma_u64_bytes(m, a + 4);
    lemma_bytes_append(m, a, 4, 8);
}

proof fn lemma_header_bytes(m: Map<int, u8>, a: int, h: SdtHeader)
    requires
        is_header_at(m, a, h),
    ensures
        bytes_at(m, a, 36) == header_bytes(h),
{
    lemma_u32_bytes(m, a + 4);
    lemma_bytes_append(m, a, 4, 4);
    lemma_u8_bytes(m, a + 8);
    lemma_bytes_append(m, a, 8, 1);
    lemma_u8_bytes(m, a + 9);
    lemma_bytes_append(m, a, 9, 1);
    lemma_bytes_append(m, a, 10, 6);
    lemma_bytes_append(m, a, 16, 8);
    lemma_u32_bytes(m, a + 24);
    lemma_bytes_append(m, a, 24, 4);
    lemma_u32_bytes(m, a + 28);
    lemma_bytes_append(m, a, 28, 4);
    lemma_u32_bytes(m, a + 32);
    lemma_bytes_append(m, a, 32, 4);
}

/// A register address and a table header are read from their fields as these lie
/// one behind the other, without gaps.
pub proof fn law_packed_parts(m: Map<int, u8>, a: int, h: SdtHeader)
    requires
        is_header_at(m, a, h),
    ensures
        bytes_at(m, a, 36) == header_bytes(h),
        bytes_at(m, a, 12) == generic_address_bytes(generic_address_at(m, a)),
{
    lemma_header_bytes(m, a, h);
    lemma_generic_address_bytes(m, a);
}

/// The fields of a root pointer lie one behind the other, without gaps, in 20
/// bytes.
pub proof fn law_packed_rsdp(m: Map<int, u8>, a: int, r: Rsdp)
    requires
        is_rsdp_at(m, a, r),
    ensures
        bytes_at(m, a, 20) == r.signature@ + seq![r.checksum] + r.oem_id@ + seq![r.revision]
            + u32_bytes(r.rsdt_address),
{
    lemma_u8_bytes(m, a + 8);
    lemma_bytes_append(m, a, 8, 1);
    lemma_bytes_append(m, a, 9, 6);
    lemma_u8_bytes(m, a + 15);
    lemma_bytes_append(m, a, 15, 1);
    lemma_u32_bytes(m, a + 16);
    lemma_bytes_append(m, a, 16, 4);
}

/// The fields of a second-version root pointer follow those of the first, in 36
/// bytes in all.
pub proof fn law_packed_rsdp_v2(m: Map<int, u8>, a: int, r: RsdpV2)
    requires
        is_rsdp_v2_at(m, a, r),
    ensures
        is_rsdp_at(m, a, r.v1),
        bytes_at(m, a, 36) == bytes_at(m, a, 20) + u32_bytes(r.length) + u64_bytes(r.xsdt_address)
            + seq![r.extended_checksum] + r.reserved@,
{
    lemma_u32_bytes(m, a + 20);
    lemma_bytes_append(m, a, 20, 4);
    lemma_u64_bytes(m, a + 24);
    lemma_bytes_append(m, a, 24, 8);
    lemma_u8_bytes(m, a + 32);
    lemma_bytes_append(m, a, 32, 1);
    lemma_bytes_append(m, a, 33, 3);
}

/// The fields of a timer description lie one behind the other, without gaps, in
/// 56 bytes.
pub proof fn law_packed_hpet(m: Map<int, u8>, a: int, h: Hpet)
    requires
        is_hpet_at(m, a, h),
    ensures
        bytes_at(m, a, 56) == header_bytes(h.header) + u32_bytes(h.event_timer_block_id)
            + generic_address_bytes(h.base_address) + seq![h.hpet_number] + u16_bytes(
            h.minimum_tick,
        ) + seq![h.page_protection],
{
    lemma_header_bytes(m, a, h.header);
    lemma_u32_bytes(m, a + 36);
    lemma_bytes_append(m, a, 36, 4);
    lemma_generic_address_bytes(m, a + 40);
    lemma_bytes_append(m, a, 40, 12);
    lemma_u8_bytes(m, a + 52);
    lemma_bytes_append(m, a, 52, 1);
    lemma_u16_bytes(m, a + 53);
    lemma_bytes_append(m, a, 53, 2);
    lemma_u8_bytes(m, a + 55);
    lemma_bytes_append(m, a, 55, 1);
}

/// The fields of an allocation lie one behind the other, without gaps, in
/// sixteen bytes.
pub proof fn law_packed_allocation(m: Map<int, u8>, a: int)
    ensures
        ({
            let x = mcfg_allocation_at(m, a);
            bytes_at(m, a, 16) == u64_bytes(x.base_address) + u16_bytes(x.pci_segment_group) + seq![
                x.start_bus_number,
            ] + seq![x.end_bus_number] + u32_bytes(x.reserved)
        }),
{
    lemma_u64_bytes(m, a);
    lemma_u16_bytes(m, a + 8);
    lemma_bytes_append(m, a, 8, 2);
    lemma_u8_bytes(m, a + 10);
    lemma_bytes_append(m, a, 10, 1);
    lemma_u8_bytes(m, a + 11);
    lemma_bytes_append(m, a, 11, 1);
    lemma_u32_bytes(m, a + 12);
    lemma_bytes_append(m, a, 12, 4);
}

/// The bytes of a FADT's fields up to `s4bios_req`, one behind the other.
pub open spec fn fadt_bytes_to_s4bios_req(f: Fadt) -> Seq<u8> {
    header_bytes(f.header) + u32_bytes(f.firmware_ctrl) + u32_bytes(f.dsdt) + seq![f.reserved1]
        + seq![f.preferred_power_mgmt_profile] + u16_bytes(f.sci_interrupt)
        + u32_bytes(f.smi_command_port) + seq![f.acpi_enable] + seq![f.acpi_disable]
        + seq![f.s4bios_req]
}

/// The bytes of a FADT's fields up to `pm1_event_length`, one behind the other.
pub open spec fn fadt_bytes_to_pm1_event_length(f: Fadt) -> Seq<u8> {
    fadt_bytes_to_s4bios_req(f) + seq![f.pstate_control] + u32_bytes(f.pm1a_event_block)
        + u32_bytes(f.pm1b_event_block) + u32_bytes(f.pm1a_control_block)
        + u32_bytes(f.pm1b_control_block) + u32_bytes(f.pm2_control_block)
        + u32_bytes(f.pm_timer_block) + u32_bytes(f.gpe0_block) + u32_bytes(f.gpe1_block)
        + seq![f.pm1_event_length]
}

/// The bytes of a FADT's fields up to `flush_size`, one behind the other.
pub open spec fn fadt_bytes_to_flush_size(f: Fadt) -> Seq<u8> {
    fadt_bytes_to_pm1_event_length(f) + seq![f.pm1_control_length] + seq![f.pm2_control_length]
        + seq![f.pm_timer_length] + seq![f.gpe0_length] + seq![f.gpe1_length] + seq![f.gpe1_base]
        + seq![f.cstate_control] + u16_bytes(f.worst_c2_latency) + u16_bytes(f.worst_c3_latency)
        + u16_bytes(f.flush_size)
}

/// The bytes of a FADT's fields up to `reset_reg`, one behind the other.
pub open spec fn fadt_bytes_to_reset_reg(f: Fadt) -> Seq<u8> {
    fadt_bytes_to_flush_size(f) + u16_bytes(f.flush_stride) + seq![f.duty_offset]
        + seq![f.duty_width] + seq![f.day_alarm] + seq![f.month_alarm] + seq![f.century]
        + u16_bytes(f.boot_architecture_flags) + seq![f.reserved2] + u32_bytes(f.flags)
        + generic_address_bytes(f.reset_reg)
}

/// The bytes of a FADT's fields up to `x_pm2_control_block`, one behind the other.
pub open spec fn fadt_bytes_to_x_pm2_control_block(f: Fadt) -> Seq<u8> {
    fadt_bytes_to_reset_reg(f) + seq![f.reset_value] + u16_bytes(f.arm_boot_arch)
        + seq![f.fadt_minor_version] + u64_bytes(f.x_firmware_control) + u64_bytes(f.x_dsdt)
        + generic_address_bytes(f.x_pm1a_event_block)
        + generic_address_bytes(f.x_pm1b_event_block)
        + generic_address_bytes(f.x_pm1a_control_block)
        + generic_address_bytes(f.x_pm1b_control_block)
        + generic_address_bytes(f.x_pm2_control_block)
}

/// The bytes of a FADT, field by field.
pub open spec fn fadt_bytes(f: Fadt) -> Seq<u8> {
    fadt_bytes_to_x_pm2_control_block(f) + generic_address_bytes(f.x_pm_timer_block)
        + generic_address_bytes(f.x_gpe0_block) + generic_address_bytes(f.x_gpe1_block)
}

proof fn lemma_fadt_bytes_to_s4bios_req(m: Map<int, u8>, a: int, f: Fadt)
    requires
        is_fadt_at(m, a, f),
    ensures
        bytes_at(m, a, 55) == fadt_bytes_to_s4bios_req(f),
{
    lemma_header_bytes(m, a, f.header);
    lemma_u32_bytes(m, a + 36);
    lemma_bytes_append(m, a, 36, 4);
    lemma_u32_bytes(m, a + 40);
    lemma_bytes_append(m, a, 40, 4);
    lemma_u8_bytes(m, a + 44);
    lemma_bytes_append(m, a, 44, 1);
    lemma_u8_bytes(m, a + 45);
    lemma_bytes_append(m, a, 45, 1);
    lemma_u16_bytes(m, a + 46);
    lemma_bytes_append(m, a, 46, 2);
    lemma_u32_bytes(m, a + 48);
    lemma_bytes_append(m, a, 48, 4);
    lemma_u8_bytes(m, a + 52);
    lemma_bytes_append(m, a, 52, 1);
    lemma_u8_bytes(m, a + 53);
    lemma_bytes_append(m, a, 53, 1);
    lemma_u8_bytes(m, a + 54);
    lemma_bytes_append(m, a, 54, 1);
}

proof fn lemma_fadt_bytes_to_pm1_event_length(m: Map<int, u8>, a: int, f: Fadt)
    requires
        is_fadt_at(m, a, f),
    ensures
        bytes_at(m, a, 89) == fadt_bytes_to_pm1_event_length(f),
{
    lemma_fadt_bytes_to_s4bios_req(m, a, f);
    lemma_u8_bytes(m, a + 55);
    lemma_bytes_append(m, a, 55, 1);
    lemma_u32_bytes(m, a + 56);
    lemma_bytes_append(m, a, 56, 4);
    lemma_u32_bytes(m, a + 60);
    lemma_bytes_append(m, a, 60, 4);
    lemma_u32_bytes(m, a + 64);
    lemma_bytes_append(m, a, 64, 4);
    lemma_u32_bytes(m, a + 68);
    lemma_bytes_append(m, a, 68, 4);
    lemma_u32_bytes(m, a + 72);
    lemma_bytes_append(m, a, 72, 4);
    lemma_u32_bytes(m, a + 76);
    lemma_bytes_append(m, a, 76, 4);
    lemma_u32_bytes(m, a + 80);
    lemma_bytes_append(m, a, 80, 4);
    lemma_u32_bytes(m, a + 84);
    lemma_bytes_append(m, a, 84, 4);
    lemma_u8_bytes(m, a + 88);
    lemma_bytes_append(m, a, 88, 1);
}

proof fn lemma_fadt_bytes_to_flush_size(m: Map<int, u8>, a: int, f: Fadt)
    requires
        is_fadt_at(m, a, f),
    ensures
        bytes_at(m, a, 102) == fadt_bytes_to_flush_size(f),
{
    lemma_fadt_bytes_to_pm1_event_length(m, a, f);
    lemma_u8_bytes(m, a + 89);
    lemma_bytes_append(m, a, 89, 1);
    lemma_u8_bytes(m, a + 90);
    lemma_bytes_append(m, a, 90, 1);
    lemma_u8_bytes(m, a + 91);
    lemma_bytes_append(m, a, 91, 1);
    lemma_u8_bytes(m, a + 92);
    lemma_bytes_append(m, a, 92, 1);
    lemma_u8_bytes(m, a + 93);
    lemma_bytes_append(m, a, 93, 1);
    lemma_u8_bytes(m, a + 94);
    lemma_bytes_append(m, a, 94, 1);
    lemma_u8_bytes(m, a + 95);
    lemma_bytes_append(m, a, 95, 1);
    lemma_u16_bytes(m, a + 96);
    lemma_bytes_append(m, a, 96, 2);
    lemma_u16_bytes(m, a + 98);
    lemma_bytes_append(m, a, 98, 2);
    lemma_u16_bytes(m, a + 100);
    lemma_bytes_append(m, a, 100, 2);
}

proof fn lemma_fadt_bytes_to_reset_reg(m: Map<int, u8>, a: int, f: Fadt)
    requires
        is_fadt_at(m, a, f),
    ensures
        bytes_at(m, a, 128) == fadt_bytes_to_reset_reg(f),
{
    lemma_fadt_bytes_to_flush_size(m, a, f);
    lemma_u16_bytes(m, a + 102);
    lemma_bytes_append(m, a, 102, 2);
    lemma_u8_bytes(m, a + 104);
    lemma_bytes_append(m, a, 104, 1);
    lemma_u8_bytes(m, a + 105);
    lemma_bytes_append(m, a, 105, 1);
    lemma_u8_bytes(m, a + 106);
    lemma_bytes_append(m, a, 106, 1);
    lemma_u8_bytes(m, a + 107);
    lemma_bytes_append(m, a, 107, 1);
    lemma_u8_bytes(m, a + 108);
    lemma_bytes_append(m, a, 108, 1);
    lemma_u16_bytes(m, a + 109);
    lemma_bytes_append(m, a, 109, 2);
    lemma_u8_bytes(m, a + 111);
    lemma_bytes_append(m, a, 111, 1);
    lemma_u32_bytes(m, a + 112);
    lemma_bytes_append(m, a, 112, 4);
    lemma_generic_address_bytes(m, a + 116);
    lemma_bytes_append(m, a, 116, 12);
}

proof fn lemma_fadt_bytes_to_x_pm2_control_block(m: Map<int, u8>, a: int, f: Fadt)
    requires
        is_fadt_at(m, a, f),
    ensures
        bytes_at(m, a, 208) == fadt_bytes_to_x_pm2_control_block(f),
{
    lemma_fadt_bytes_to_reset_reg(m, a, f);
    lemma_u8_bytes(m, a + 128);
    lemma_bytes_append(m, a, 128, 1);
    lemma_u16_bytes(m, a + 129);
    lemma_bytes_append(m, a, 129, 2);
    lemma_u8_bytes(m, a + 131);
    lemma_bytes_append(m, a, 131, 1);
    lemma_u64_bytes(m, a + 132);
    lemma_bytes_append(m, a, 132, 8);
    lemma_u64_bytes(m, a + 140);
    lemma_bytes_append(m, a, 140, 8);
    lemma_generic_address_bytes(m, a + 148);
    lemma_bytes_append(m, a, 148, 12);
    lemma_generic_address_bytes(m, a + 160);
    lemma_bytes_append(m, a, 160, 12);
    lemma_generic_address_bytes(m, a + 172);
    lemma_bytes_append(m, a, 172, 12);
    lemma_generic_address_bytes(m, a + 184);
    lemma_bytes_append(m, a, 184, 12);
    lemma_generic_address_bytes(m, a + 196);
    lemma_bytes_append(m, a, 196, 12);
}

proof fn lemma_fadt_bytes(m: Map<int, u8>, a: int, f: Fadt)
    requires
        is_fadt_at(m, a, f),
    ensures
        bytes_at(m, a, 244) == fadt_bytes(f),
{
    lemma_fadt_bytes_to_x_pm2_control_block(m, a, f);
    lemma_generic_address_bytes(m, a + 208);
    lemma_bytes_append(m, a, 208, 12);
    lemma_generic_address_bytes(m, a + 220);
    lemma_bytes_append(m, a, 220, 12);
    lemma_generic_address_bytes(m, a + 232);
    lemma_bytes_append(m, a, 232, 12);
}

/// The fields of a FADT lie one behind the other, without gaps, in 244 bytes, in
/// the order in which the structure declares them.
pub proof fn law_packed_fadt(m: Map<int, u8>, a: int, f: Fadt)
    requires
        is_fadt_at(m, a, f),
    ensures
        bytes_at(m, a, 244) == fadt_bytes(f),
{
    lemma_fadt_bytes(m, a, f);
}

} // verus!
