//! Model specific registers and processor identification.

use vstd::prelude::*;

verus! {

pub const MSR_IA32_EFER: u32 = 0xC000_0080;

pub const MSR_IA32_APIC_BASE: u32 = 0x0000_001B;

pub const MSR_IA32_GS_BASE: u32 = 0xC000_0101;

pub const MSR_IA32_KERNEL_GS_BASE: u32 = 0xC000_0102;

/// What the kernel keeps for each processor.
#[derive(Debug, Clone, Copy, PartialEq, Eq, Structural)]
pub struct PercpuData {
    /// The processor's APIC ID.
    pub apic_id: u8,
    /// The processor's number, counted from zero.
    pub cpu_index: u8,
    /// Where the processor's kernel stack begins.
    pub kernel_stack_top: u64,
}

/// A write to a model specific register.
#[derive(Debug, Clone, Copy, PartialEq, Eq, Structural)]
pub struct MsrWrite {
    pub msr: u32,
    pub value: u64,
}

/// The value of a register that was read in two halves.
pub fn rdmsr(lo: u32, hi: u32) -> (value: u64)
    ensures
        value == lo + 0x1_0000_0000 * hi,
{
    let value: u64 = ((hi as u64) << 32) | (lo as u64);
    assert(((hi as u64) << 32) | (lo as u64) == lo + 0x1_0000_0000 * hi) by (bit_vector);
    value
}

/// The halves, low first, in which `value` is written to a register.
pub fn wrmsr(value: u64) -> (halves: (u32, u32))
    ensures
        halves.0 + 0x1_0000_0000 * halves.1 == value,
{
    ((value % 0x1_0000_0000) as u32, (value / 0x1_0000_0000) as u32)
}

/// The APIC ID of a processor, from what it reports about itself in EBX.
pub fn current_apic_id(ebx: u32) -> (id: u8)
    ensures
        id == ebx / 0x100_0000,
{
    (ebx / 0x100_0000) as u8
}

/// The address in the local APIC's base register: its bits 12 to 51.
pub fn lapic_base_from_msr(value: u64) -> (base: u64)
    ensures
        base == value & 0x000F_FFFF_FFFF_F000,
        base % 0x1000 == 0,
        base < 0x10_0000_0000_0000,
{
    let base: u64 = value & 0x000F_FFFF_FFFF_F000;
    assert(base % 0x1000 == 0 && base < 0x10_0000_0000_0000) by (bit_vector)
        requires
            base == value & 0x000F_FFFF_FFFF_F000,
    ;
    base
}

/// The write that makes the data at `address` the current processor's.
pub fn set_percpu_data(address: u64) -> (w: MsrWrite)
    ensures
        w == (MsrWrite { msr: MSR_IA32_GS_BASE, value: address }),
{
    MsrWrite { msr: MSR_IA32_GS_BASE, value: address }
}

/// The registers for the base of GS have the numbers that the processor gives
/// them.
pub proof fn law_register_numbers()
    ensures
        MSR_IA32_GS_BASE == 0xC000_0101,
        MSR_IA32_KERNEL_GS_BASE == MSR_IA32_GS_BASE + 1,
{
}

} // verus!
