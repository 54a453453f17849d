//! The local APIC: its registers, its timer, and interrupts between
//! processors.

use vstd::prelude::*;

verus! {

pub const LAPIC_ID: u32 = 0x020;

pub const LAPIC_VERSION: u32 = 0x030;

pub const LAPIC_TPR: u32 = 0x080;

pub const LAPIC_EOI: u32 = 0x0B0;

pub const LAPIC_SVR: u32 = 0x0F0;

pub const LAPIC_ICR_LOW: u32 = 0x300;

pub const LAPIC_ICR_HIGH: u32 = 0x310;

pub const LAPIC_LVT_TIMER: u32 = 0x320;

pub const LAPIC_TIMER_INIT: u32 = 0x380;

pub const LAPIC_TIMER_CUR: u32 = 0x390;

pub const LAPIC_TIMER_DIV: u32 = 0x3E0;

pub const ICR_DELIVERY_FIXED: u32 = 0x000;

pub const ICR_DELIVERY_INIT: u32 = 0x500;

pub const ICR_DELIVERY_STARTUP: u32 = 0x600;

pub const ICR_LEVEL_ASSERT: u32 = 0x4000;

pub const ICR_LEVEL_DEASSERT: u32 = 0x0000;

pub const ICR_TRIGGER_EDGE: u32 = 0x0000;

pub const ICR_TRIGGER_LEVEL: u32 = 0x8000;

pub const ICR_DEST_NONE: u32 = 0x0_0000;

pub const ICR_DEST_SELF: u32 = 0x4_0000;

pub const ICR_DEST_ALL_INCL: u32 = 0x8_0000;

pub const ICR_DEST_ALL_EXCL: u32 = 0xC_0000;

pub const LAPIC_SVR_ENABLE: u32 = 0x100;

pub const LAPIC_SPURIOUS_VEC: u32 = 0xFF;

/// The flag that says an interrupt is still being sent.
pub const ICR_PENDING: u32 = 0x1000;

/// The flag that makes the timer start over.
pub const LVT_TIMER_PERIODIC: u32 = 0x2_0000;

/// The flag that keeps the timer quiet.
pub const LVT_MASKED: u32 = 0x1_0000;

/// The last register lies here.
pub const LAPIC_LAST: u32 = 0x3F0;

/// A 32-bit write to a register.
#[derive(Debug, Clone, Copy, PartialEq, Eq, Structural)]
pub struct MmioWrite {
    pub address: u64,
    pub value: u32,
}

/// The registers have addresses.
pub open spec fn lapic_in_range(base: u64) -> bool {
    base + LAPIC_LAST <= u64::MAX
}

/// The write of `value` to the register at `offset`.
pub open spec fn register_write(base: u64, offset: u32, value: u32) -> MmioWrite {
    MmioWrite { address: (base + offset) as u64, value }
}

/// The write of `value` to the register at `offset`.
pub fn lapic_write(base: u64, offset: u32, value: u32) -> (w: MmioWrite)
    requires
        base + offset <= u64::MAX,
    ensures
        w == register_write(base, offset, value),
{
    MmioWrite { address: base + offset as u64, value }
}

/// Where the register at `offset` is read.
pub fn lapic_read(base: u64, offset: u32) -> (address: u64)
    requires
        base + offset <= u64::MAX,
    ensures
        address == base + offset,
{
    base + offset as u64
}

/// The writes that switch the local APIC on and let every interrupt through.
pub fn lapic_enable(base: u64) -> (writes: [MmioWrite; 2])
    requires
        lapic_in_range(base),
    ensures
        writes@ == seq![
            register_write(base, LAPIC_SVR, 0x1FF),
            register_write(base, LAPIC_TPR, 0),
        ],
{
    let svr: u32 = LAPIC_SVR_ENABLE | LAPIC_SPURIOUS_VEC;
    assert(0x100u32 | 0xFFu32 == 0x1FF) by (bit_vector);
    let writes: [MmioWrite; 2] = [lapic_write(base, LAPIC_SVR, svr), lapic_write(base, LAPIC_TPR, 0)];
    assert(writes@ =~= seq![
        register_write(base, LAPIC_SVR, 0x1FF),
        register_write(base, LAPIC_TPR, 0),
    ]);
    writes
}

/// The write that ends the handling of an interrupt.
pub fn lapic_eoi(base: u64) -> (w: MmioWrite)
    requires
        lapic_in_range(base),
    ensures
        w == register_write(base, LAPIC_EOI, 0),
{
    lapic_write(base, LAPIC_EOI, 0)
}

/// Whether the last interrupt has been sent, from the low command register.
pub fn icr_idle(low: u32) -> (idle: bool)
    ensures
        idle == (low & ICR_PENDING == 0),
{
    low & ICR_PENDING == 0
}

/// The two writes that send an interrupt to the processor `dest`: the second
/// one sets it off.
pub open spec fn ipi_writes(base: u64, dest: u8, low: u32) -> Seq<MmioWrite> {
    seq![
        register_write(base, LAPIC_ICR_HIGH, (dest * 0x100_0000) as u32),
        register_write(base, LAPIC_ICR_LOW, low),
    ]
}

/// The two writes that send an interrupt to the processor `dest`.
pub fn icr_send(base: u64, dest: u8, low: u32) -> (writes: [MmioWrite; 2])
    requires
        lapic_in_range(base),
    ensures
        writes@ == ipi_writes(base, dest, low),
{
    let writes: [MmioWrite; 2] = [
        lapic_write(base, LAPIC_ICR_HIGH, dest as u32 * 0x100_0000),
        lapic_write(base, LAPIC_ICR_LOW, low),
    ];
    assert(writes@ =~= ipi_writes(base, dest, low));
    writes
}

/// The timer's entry in the vector table.
pub open spec fn timer_entry(vector: u8, periodic: bool) -> u32 {
    if periodic {
        (vector + LVT_TIMER_PERIODIC) as u32
    } else {
        vector as u32
    }
}

/// The writes that start the timer: divisor, vector and mode, then the count.
pub fn lapic_timer_start(
    base: u64,
    vector: u8,
    initial_count: u32,
    divisor_cfg: u32,
    periodic: bool,
) -> (writes: [MmioWrite; 3])
    requires
        lapic_in_range(base),
    ensures
        writes@ == seq![
            register_write(base, LAPIC_TIMER_DIV, divisor_cfg),
            register_write(base, LAPIC_LVT_TIMER, timer_entry(vector, periodic)),
            register_write(base, LAPIC_TIMER_INIT, initial_count),
        ],
{
    let mode: u32 = if periodic {
        LVT_TIMER_PERIODIC
    } else {
        0
    };
    let v: u32 = vector as u32;
    assert(v < 256 ==> (v | 0x2_0000 == v + 0x2_0000) && (v | 0 == v)) by (bit_vector);
    let writes: [MmioWrite; 3] = [
        lapic_write(base, LAPIC_TIMER_DIV, divisor_cfg),
        lapic_write(base, LAPIC_LVT_TIMER, v | mode),
        lapic_write(base, LAPIC_TIMER_INIT, initial_count),
    ];
    assert(writes@ =~= seq![
        register_write(base, LAPIC_TIMER_DIV, divisor_cfg),
        register_write(base, LAPIC_LVT_TIMER, timer_entry(vector, periodic)),
        register_write(base, LAPIC_TIMER_INIT, initial_count),
    ]);
    writes
}

/// The writes that stop the timer.
pub fn lapic_timer_stop(base: u64) -> (writes: [MmioWrite; 2])
    requires
        lapic_in_range(base),
    ensures
        writes@ == seq![
            register_write(base, LAPIC_LVT_TIMER, LVT_MASKED),
            register_write(base, LAPIC_TIMER_INIT, 0),
        ],
{
    let writes: [MmioWrite; 2] = [
        lapic_write(base, LAPIC_LVT_TIMER, LVT_MASKED),
        lapic_write(base, LAPIC_TIMER_INIT, 0),
    ];
    assert(writes@ =~= seq![
        register_write(base, LAPIC_LVT_TIMER, LVT_MASKED),
        register_write(base, LAPIC_TIMER_INIT, 0),
    ]);
    writes
}

/// Where the timer's remaining count is read.
pub fn lapic_timer_current(base: u64) -> (address: u64)
    requires
        lapic_in_range(base),
    ensures
        address == base + LAPIC_TIMER_CUR,
{
    lapic_read(base, LAPIC_TIMER_CUR)
}

/// An interrupt is sent by two writes: first the processor's number, in the
/// highest byte, to the register at 0x310, then the command to the one at 0x300,
/// which sets it off.
pub proof fn law_ipi_writes(base: u64, dest: u8, low: u32)
    requires
        lapic_in_range(base),
    ensures
        ({
            let w = ipi_writes(base, dest, low);
            &&& w.len() == 2
            &&& w[0].address == base + 0x310
            &&& w[0].value / 0x100_0000 == dest && w[0].value % 0x100_0000 == 0
            &&& w[1].address == base + 0x300
            &&& w[1].value == low
        }),
{
}

/// A register is written at its offset from the first one.
pub proof fn law_register_write(base: u64, offset: u32, value: u32)
    requires
        base + offset <= u64::MAX,
    ensures
        register_write(base, offset, value).address - base == offset,
        register_write(base, offset, value).value == value,
{
}

/// The timer's entry has the vector in its low byte, and bit 17, and no other,
/// says whether the timer starts over.
pub proof fn law_timer_entry(vector: u8, periodic: bool)
    ensures
        timer_entry(vector, periodic) % 0x100 == vector,
        timer_entry(vector, periodic) / 0x100 == (if periodic {
            0x200int
        } else {
            0
        }),
{
}

/// The registers lie at multiples of sixteen bytes, at the places that the APIC
/// gives them, and its flags have the bits that it gives them.
pub proof fn law_lapic_registers()
    ensures
        LAPIC_TPR == 8 * 16 && LAPIC_EOI == 11 * 16 && LAPIC_SVR == 15 * 16,
        LAPIC_LVT_TIMER == 50 * 16 && LAPIC_TIMER_INIT == 56 * 16 && LAPIC_TIMER_CUR == 57 * 16
            && LAPIC_TIMER_DIV == 62 * 16,
        LVT_MASKED == 0x1_0000 && ICR_PENDING == 0x1000,
{
}

} // verus!
