//! The interrupt descriptor table.

use vstd::prelude::*;

verus! {

/// Entries of the table.
pub const IDT_ENTRIES: usize = 256;

/// The selector of the kernel's code segment.
pub const KERNEL_CODE_SEL: u16 = 0x08;

/// A present interrupt gate of the highest privilege.
pub const INTERRUPT_GATE: u8 = 0x8E;

/// The vector of the double fault.
pub const DOUBLE_FAULT: usize = 8;

/// Vectors that have handlers: the exceptions and the hardware interrupts.
pub const HANDLERS: usize = 48;

/// One gate.
#[derive(Debug, Clone, Copy, PartialEq, Eq, Structural)]
pub struct IdtEntry {
    pub offset_low: u16,
    pub selector: u16,
    pub ist: u8,
    pub type_attr: u8,
    pub offset_mid: u16,
    pub offset_high: u32,
    pub zero: u32,
}

/// A gate that is not present.
pub open spec fn empty_gate() -> IdtEntry {
    IdtEntry {
        offset_low: 0,
        selector: 0,
        ist: 0,
        type_attr: 0,
        offset_mid: 0,
        offset_high: 0,
        zero: 0,
    }
}

impl Default for IdtEntry {
    fn default() -> (e: IdtEntry)
        ensures
            e == empty_gate(),
    {
        IdtEntry {
            offset_low: 0,
            selector: 0,
            ist: 0,
            type_attr: 0,
            offset_mid: 0,
            offset_high: 0,
            zero: 0,
        }
    }
}

/// What the processor is told about the table.
#[derive(Debug, Clone, Copy, PartialEq, Eq, Structural)]
pub struct IdtPointer {
    pub limit: u16,
    pub base: u64,
}

/// The table.
pub struct Idt {
    pub entries: [IdtEntry; 256],
}

/// The table entry that leads to the handler at `address`.
pub open spec fn gate(address: u64, selector: u16, type_attr: u8) -> IdtEntry {
    IdtEntry {
        offset_low: (address as int % 0x1_0000) as u16,
        selector,
        ist: 0,
        type_attr,
        offset_mid: (address as int / 0x1_0000 % 0x1_0000) as u16,
        offset_high: (address as int / 0x1_0000_0000) as u32,
        zero: 0,
    }
}

/// The address of the handler that an entry leads to.
pub open spec fn gate_address(e: IdtEntry) -> int {
    e.offset_low + 0x1_0000 * e.offset_mid + 0x1_0000_0000 * e.offset_high
}

/// A gate leads to the handler that it was set to.
pub proof fn law_gate_address(address: u64, selector: u16, type_attr: u8)
    ensures
        gate_address(gate(address, selector, type_attr)) == address,
{
}

/// Sets the entry of `vector`.
pub fn set_gate(idt: &mut Idt, vector: usize, address: u64, selector: u16, type_attr: u8)
    requires
        vector < IDT_ENTRIES,
    ensures
        final(idt).entries@ == old(idt).entries@.update(
            vector as int,
            gate(address, selector, type_attr),
        ),
{
    let entry = IdtEntry {
        offset_low: (address % 0x1_0000) as u16,
        selector,
        ist: 0,
        type_attr,
        offset_mid: (address / 0x1_0000 % 0x1_0000) as u16,
        offset_high: (address / 0x1_0000_0000) as u32,
        zero: 0,
    };
    idt.entries[vector] = entry;
}

/// The entry of `vector` in a table with the given handlers: the double fault
/// runs on a stack of its own.
pub open spec fn kernel_gate(handlers: Seq<u64>, vector: int, ist: u8) -> IdtEntry {
    let g = gate(handlers[vector], KERNEL_CODE_SEL, INTERRUPT_GATE);
    if vector == DOUBLE_FAULT {
        IdtEntry { ist, ..g }
    } else {
        g
    }
}

/// Sets the gates of all exceptions and hardware interrupts. `handlers` are the
/// addresses of their entry stubs, `ist` the number of the double fault's
/// stack, `base` where the table lies in memory; the result is what the
/// processor is told about it.
pub fn init_idt(idt: &mut Idt, handlers: &[u64; 48], ist: u8, base: u64) -> (p: IdtPointer)
    ensures
        p == (IdtPointer { limit: 4095, base }),
        forall|v: int|
            0 <= v < IDT_ENTRIES ==> #[trigger] final(idt).entries@[v] == (if v < HANDLERS {
                kernel_gate(handlers@, v, ist)
            } else {
                old(idt).entries@[v]
            }),
{
    let mut v: usize = 0;
    while v < HANDLERS
        invariant
            v <= HANDLERS,
            forall|k: int|
                0 <= k < IDT_ENTRIES ==> #[trigger] idt.entries@[k] == (if k < v {
                    kernel_gate(handlers@, k, ist)
                } else {
                    old(idt).entries@[k]
                }),
        decreases HANDLERS - v,
    {
        set_gate(idt, v, handlers[v], KERNEL_CODE_SEL, INTERRUPT_GATE);
        if v == DOUBLE_FAULT {
            let entry = IdtEntry { ist, ..idt.entries[v] };
            idt.entries[v] = entry;
        }
        v += 1;
    }
    IdtPointer { limit: 4095, base }
}

/// Each exception and hardware interrupt leads to its own handler in the kernel's
/// code segment, by an entry of the kind for interrupts that is present. Only the
/// double fault, vector eight, has a stack of its own.
pub proof fn law_kernel_gate(handlers: Seq<u64>, vector: int, ist: u8)
    ensures
        ({
            let g = kernel_gate(handlers, vector, ist);
            &&& g.offset_low + 0x1_0000 * g.offset_mid + 0x1_0000_0000 * g.offset_high
                == handlers[vector]
            &&& g.selector == 0x08
            &&& g.type_attr == 0x8E
            &&& g.zero == 0
            &&& vector == 8 ==> g.ist == ist
            &&& vector != 8 ==> g.ist == 0
        }),
{
}

/// A gate has the selector and the kind that it was set to, no stack of its own
/// and nothing in its last field; one that is not present is all zero.
pub proof fn law_gate_fields(address: u64, selector: u16, type_attr: u8)
    ensures
        gate(address, selector, type_attr).selector == selector,
        gate(address, selector, type_attr).type_attr == type_attr,
        gate(address, selector, type_attr).ist == 0,
        gate(address, selector, type_attr).zero == 0,
        empty_gate() == gate(0, 0, 0),
{
}

} // verus!
