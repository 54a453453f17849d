//! Making the processor take system calls.

use vstd::prelude::*;
use crate::interrupts::idt::KERNEL_CODE_SEL;
use crate::processor::msr::{
    MSR_IA32_GS_BASE, MSR_IA32_KERNEL_GS_BASE, MsrWrite, PercpuData, set_percpu_data,
};

verus! {

pub const MSR_EFER: u32 = 0xC000_0080;

pub const MSR_STAR: u32 = 0xC000_0081;

pub const MSR_LSTAR: u32 = 0xC000_0082;

pub const MSR_SFMASK: u32 = 0xC000_0084;

/// The flag that enables the system call instructions.
pub const EFER_SCE: u64 = 1;

/// The selector that user segments are counted from.
pub const USER_BASE_SEL: u16 = 0x10;

/// The flag that lets interrupts in, which is off while a call begins.
pub const SYSCALL_FLAG_MASK: u64 = 0x200;

/// Bytes of the stack that system calls run on.
pub const SYSCALL_STACK_SIZE: u64 = 16384;

/// What the entry code finds relative to GS.
#[derive(Debug, Clone, Copy, PartialEq, Eq, Structural)]
pub struct KernelGsBase {
    pub kernel_stack: u64,
    pub user_stack: u64,
    pub scratch: u64,
}

/// The segment selectors, user base above kernel code.
pub open spec fn star_value() -> int {
    USER_BASE_SEL * 0x1_0000_0000_0000 + KERNEL_CODE_SEL * 0x1_0000_0000
}

/// The register writes that make a processor take system calls at `handler`;
/// `efer` is what the feature register holds.
pub fn init_cpu(efer: u64, handler: u64) -> (writes: [MsrWrite; 4])
    ensures
        writes@ == seq![
            MsrWrite { msr: MSR_EFER, value: efer | EFER_SCE },
            MsrWrite { msr: MSR_STAR, value: star_value() as u64 },
            MsrWrite { msr: MSR_LSTAR, value: handler },
            MsrWrite { msr: MSR_SFMASK, value: SYSCALL_FLAG_MASK },
        ],
{
    let star: u64 = ((USER_BASE_SEL as u64) << 48) | ((KERNEL_CODE_SEL as u64) << 32);
    assert((0x10u64 << 48) | (0x08u64 << 32) == 0x0010_0008_0000_0000) by (bit_vector);
    let writes: [MsrWrite; 4] = [
        MsrWrite { msr: MSR_EFER, value: efer | EFER_SCE },
        MsrWrite { msr: MSR_STAR, value: star },
        MsrWrite { msr: MSR_LSTAR, value: handler },
        MsrWrite { msr: MSR_SFMASK, value: SYSCALL_FLAG_MASK },
    ];
    assert(writes@ =~= seq![
        MsrWrite { msr: MSR_EFER, value: efer | EFER_SCE },
        MsrWrite { msr: MSR_STAR, value: star_value() as u64 },
        MsrWrite { msr: MSR_LSTAR, value: handler },
        MsrWrite { msr: MSR_SFMASK, value: SYSCALL_FLAG_MASK },
    ]);
    writes
}

/// What is set up for the first processor.
pub struct BspSetup {
    /// The data kept for it.
    pub percpu: PercpuData,
    /// The writes that let both rings find that data.
    pub gs_base: MsrWrite,
    pub kernel_gs_base: MsrWrite,
    /// The stack that interrupts from user mode switch to.
    pub tss_stack: u64,
}

/// Sets the first processor up: `stack` is where its system call stack lies,
/// `percpu` where its data does.
pub fn init(stack: u64, apic_id: u8, percpu: u64) -> (s: BspSetup)
    requires
        stack + SYSCALL_STACK_SIZE <= u64::MAX,
    ensures
        s.percpu == (PercpuData {
            apic_id,
            cpu_index: 0,
            kernel_stack_top: (stack + SYSCALL_STACK_SIZE) as u64,
        }),
        s.gs_base == (MsrWrite { msr: MSR_IA32_GS_BASE, value: percpu }),
        s.kernel_gs_base == (MsrWrite { msr: MSR_IA32_KERNEL_GS_BASE, value: percpu }),
        s.tss_stack == stack + SYSCALL_STACK_SIZE,
{
    let stack_end: u64 = stack + SYSCALL_STACK_SIZE;
    BspSetup {
        percpu: PercpuData { apic_id, cpu_index: 0, kernel_stack_top: stack_end },
        gs_base: set_percpu_data(percpu),
        kernel_gs_base: MsrWrite { msr: MSR_IA32_KERNEL_GS_BASE, value: percpu },
        tss_stack: stack_end,
    }
}

/// Calls enter the kernel's code segment, which stands in bits 32 to 47, and
/// return to segments counted from the one in bits 48 to 63; the rest is zero.
pub proof fn law_star_value()
    ensures
        star_value() % 0x1_0000_0000 == 0,
        star_value() / 0x1_0000_0000 % 0x1_0000 == 0x08,
        star_value() / 0x1_0000_0000_0000 == 0x10,
{
}

/// The registers for system calls have the numbers that the processor gives them;
/// interrupts are off while a call begins, and its stack has 16 KiB.
pub proof fn law_syscall_registers()
    ensures
        MSR_EFER == 0xC000_0080 && MSR_STAR == 0xC000_0081 && MSR_LSTAR == 0xC000_0082
            && MSR_SFMASK == 0xC000_0084,
        EFER_SCE == 1,
        SYSCALL_FLAG_MASK == 0x200,
        SYSCALL_STACK_SIZE == 0x4000,
{
}

} // verus!
