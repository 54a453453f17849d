//! The FADT, the HPET table, the MCFG and the ACPI timer.

use vstd::prelude::*;
use crate::acpi::layout::{
    Fadt, Hpet, MCFG_ALLOCATION_SIZE, MCFG_HEADER_SIZE, McfgAllocation, SDT_HEADER_SIZE,
    mcfg_allocation_at,
};
use crate::acpi::sdt::{extent_readable, sdt_length, table_length};
use crate::le::{
    lemma_u16_round_trip, lemma_u32_round_trip, lemma_u64_round_trip, u16_bytes, u32_bytes,
    u64_bytes,
};
use crate::memory::phys::{PhysMemory, bytes_at};

verus! {

/// The address of the DSDT: the wide field where it is set, else the narrow
/// one.
pub open spec fn dsdt_of(fadt: Fadt) -> u64 {
    if fadt.x_dsdt != 0 {
        fadt.x_dsdt
    } else {
        fadt.dsdt as u64
    }
}

/// The address of the DSDT.
pub fn fadt_dsdt_address(fadt: &Fadt) -> (a: u64)
    ensures
        a == dsdt_of(*fadt),
{
    if fadt.x_dsdt != 0 {
        fadt.x_dsdt
    } else {
        fadt.dsdt as u64
    }
}

/// The port of the PM1a control block: the extended address where it names a
/// port, else the old field. Ports have sixteen bits.
pub fn fadt_pm1a_control_port(fadt: &Fadt) -> (port: u16)
    ensures
        port == (if fadt.x_pm1a_control_block.address_space_id == 1
            && fadt.x_pm1a_control_block.address != 0 {
            fadt.x_pm1a_control_block.address as int % 0x1_0000
        } else {
            fadt.pm1a_control_block as int % 0x1_0000
        }),
{
    let ext = fadt.x_pm1a_control_block;
    if ext.address_space_id == 1 && ext.address != 0 {
        (ext.address % 0x1_0000) as u16
    } else {
        (fadt.pm1a_control_block % 0x1_0000) as u16
    }
}

/// The port of the ACPI timer: the extended address where it names a port,
/// else the old field.
pub fn fadt_pm_timer_port(fadt: &Fadt) -> (port: u32)
    ensures
        port == (if fadt.x_pm_timer_block.address_space_id == 1 && fadt.x_pm_timer_block.address
            != 0 {
            fadt.x_pm_timer_block.address as int % 0x1_0000_0000
        } else {
            fadt.pm_timer_block as int
        }),
{
    let ext = fadt.x_pm_timer_block;
    if ext.address_space_id == 1 && ext.address != 0 {
        (ext.address % 0x1_0000_0000) as u32
    } else {
        fadt.pm_timer_block
    }
}

/// Values of the ACPI timer before it begins again.
pub const PM_TIMER_RANGE: u32 = 0x100_0000;

/// Ticks of the ACPI timer that are taken for a microsecond.
pub const TICKS_PER_US: u32 = 4;

/// A wait by the ACPI timer.
#[derive(Debug, Clone, Copy, PartialEq, Eq, Structural)]
pub struct PmTimerWait {
    /// What the timer read last.
    pub last: u32,
    /// Ticks that have passed so far.
    pub passed: u64,
    pub ticks_needed: u64,
}

/// As many ticks as are needed have passed.
pub open spec fn wait_over(w: PmTimerWait) -> bool {
    w.passed >= w.ticks_needed
}

/// The wait after the timer, which counts round and round, was read once more.
pub open spec fn after_reading(w: PmTimerWait, timer: u32) -> PmTimerWait {
    PmTimerWait {
        last: timer % PM_TIMER_RANGE,
        passed: (w.passed + (timer - w.last) % (PM_TIMER_RANGE as int)) as u64,
        ..w
    }
}

/// The wait after each of `readings`.
pub open spec fn after_readings(w: PmTimerWait, readings: Seq<u32>) -> PmTimerWait
    decreases readings.len(),
{
    if readings.len() == 0 {
        w
    } else {
        after_reading(after_readings(w, readings.drop_last()), readings.last())
    }
}

/// `ticks` are times, counted in ticks without end, at which a timer that stood
/// at `start` can have been read as `readings`: each falls less than one round
/// behind the one before it.
pub open spec fn read_at(start: int, ticks: Seq<int>, readings: Seq<u32>) -> bool {
    &&& ticks.len() == readings.len()
    &&& forall|k: int|
        0 <= k < ticks.len() ==> (#[trigger] readings[k]) as int % (PM_TIMER_RANGE as int)
            == ticks[k] % (PM_TIMER_RANGE as int)
    &&& forall|k: int|
        0 <= k < ticks.len() ==> 0 <= (#[trigger] ticks[k]) - (if k == 0 {
            start
        } else {
            ticks[k - 1]
        }) < PM_TIMER_RANGE
}

/// A wait of any length is over exactly when as many ticks as it needs have
/// passed since it began, however often the timer has begun again.
pub proof fn law_wait_ends(w: PmTimerWait, start: int, ticks: Seq<int>, readings: Seq<u32>)
    requires
        w.passed == 0,
        w.last == start % (PM_TIMER_RANGE as int),
        read_at(start, ticks, readings),
        ticks.len() > 0,
        ticks.last() - start <= u64::MAX,
    ensures
        after_readings(w, readings).passed == ticks.last() - start,
        wait_over(after_readings(w, readings)) <==> ticks.last() - start >= w.ticks_needed,
{
    lemma_ticks_add_up(w, start, ticks, readings);
}

/// The remainder of the difference of two readings tells the ticks between them,
/// where they are fewer than one round.
proof fn lemma_round(reading: int, last: int, before: int, now: int)
    requires
        last == before % (PM_TIMER_RANGE as int),
        reading % (PM_TIMER_RANGE as int) == now % (PM_TIMER_RANGE as int),
        0 <= now - before < PM_TIMER_RANGE,
    ensures
        (reading - last) % (PM_TIMER_RANGE as int) == now - before,
{
    let r = PM_TIMER_RANGE as int;
    let q = reading / r - now / r + before / r;
    assert(reading - last == q * r + (now - before));
}

/// The ticks between the readings add up.
proof fn lemma_ticks_add_up(w: PmTimerWait, start: int, ticks: Seq<int>, readings: Seq<u32>)
    requires
        w.passed == 0,
        w.last == start % (PM_TIMER_RANGE as int),
        read_at(start, ticks, readings),
        ticks.len() > 0 ==> ticks.last() - start <= u64::MAX,
    ensures
        ({
            let now = if ticks.len() == 0 {
                start
            } else {
                ticks.last()
            };
            let end = after_readings(w, readings);
            &&& start <= now
            &&& end.last == now % (PM_TIMER_RANGE as int)
            &&& end.passed == now - start
            &&& end.ticks_needed == w.ticks_needed
        }),
    decreases ticks.len(),
{
    if ticks.len() > 0 {
        let n = ticks.len() - 1;
        let t0 = ticks.drop_last();
        let r0 = readings.drop_last();
        assert forall|k: int| 0 <= k < t0.len() implies (#[trigger] r0[k]) as int % (
        PM_TIMER_RANGE as int) == t0[k] % (PM_TIMER_RANGE as int) by {
            assert(r0[k] == readings[k]);
        }
        assert forall|k: int| 0 <= k < t0.len() implies 0 <= (#[trigger] t0[k]) - (if k == 0 {
            start
        } else {
            t0[k - 1]
        }) < PM_TIMER_RANGE by {
            assert(t0[k] == ticks[k]);
        }
        let before = if n == 0 {
            start
        } else {
            ticks[n - 1]
        };
        assert(0 <= ticks[n] - before < PM_TIMER_RANGE);
        assert(readings[n] as int % (PM_TIMER_RANGE as int) == ticks[n] % (PM_TIMER_RANGE as int));
        lemma_ticks_add_up(w, start, t0, r0);
        let w0 = after_readings(w, r0);
        lemma_round(readings[n] as int, w0.last as int, before, ticks[n]);
    }
}

impl PmTimerWait {
    /// A wait of `microseconds` that begins when the timer reads `timer`.
    pub fn begin(timer: u32, microseconds: u32) -> (w: PmTimerWait)
        ensures
            w.last == timer % PM_TIMER_RANGE,
            w.passed == 0,
            w.ticks_needed == microseconds * TICKS_PER_US,
    {
        assert(microseconds * TICKS_PER_US <= u32::MAX * 4);
        PmTimerWait {
            last: timer % PM_TIMER_RANGE,
            passed: 0,
            ticks_needed: microseconds as u64 * TICKS_PER_US as u64,
        }
    }

    /// Adds the ticks that have passed when the timer, which has begun again at
    /// most once since it was read last, reads `timer`; whether the wait is over
    /// then.
    pub fn step(&mut self, timer: u32) -> (over: bool)
        requires
            old(self).last < PM_TIMER_RANGE,
            old(self).passed + PM_TIMER_RANGE <= u64::MAX,
        ensures
            *final(self) == after_reading(*old(self), timer),
            final(self).passed == old(self).passed + (timer - old(self).last) % (
            PM_TIMER_RANGE as int),
            over == wait_over(*final(self)),
    {
        let now: u32 = timer % PM_TIMER_RANGE;
        let elapsed: u32 = if now >= self.last {
            now - self.last
        } else {
            now + (PM_TIMER_RANGE - self.last)
        };
        assert(elapsed == (timer - self.last) % (PM_TIMER_RANGE as int));
        self.last = now;
        self.passed = self.passed + elapsed as u64;
        self.passed >= self.ticks_needed
    }
}

/// The base address of the timer's registers.
pub fn hpet_base_address(hpet: &Hpet) -> (a: u64)
    ensures
        a == hpet.base_address.address,
{
    hpet.base_address.address
}

/// The number of the timer.
pub fn hpet_number(hpet: &Hpet) -> (n: u8)
    ensures
        n == hpet.hpet_number,
{
    hpet.hpet_number
}

/// The shortest tick that the timer can be set to.
pub fn hpet_minimum_tick(hpet: &Hpet) -> (n: u16)
    ensures
        n == hpet.minimum_tick,
{
    hpet.minimum_tick
}

/// Where the allocations of an MCFG begin.
pub const MCFG_ALLOCATIONS: u64 = 44;

/// The allocations that the MCFG at `a` lists.
pub open spec fn mcfg_allocations(m: Map<int, u8>, a: int) -> Seq<McfgAllocation> {
    if table_length(m, a) <= MCFG_ALLOCATIONS {
        Seq::empty()
    } else {
        Seq::new(
            ((table_length(m, a) - MCFG_ALLOCATIONS) / (MCFG_ALLOCATION_SIZE as int)) as nat,
            |i: int| mcfg_allocation_at(m, a + MCFG_ALLOCATIONS + MCFG_ALLOCATION_SIZE * i),
        )
    }
}

/// The allocations that the MCFG at `mcfg` lists, in order.
pub fn iter_mcfg_allocations(mem: &PhysMemory, mcfg: u64) -> (v: Vec<McfgAllocation>)
    requires
        extent_readable(mem@, mcfg as int),
    ensures
        v@ == mcfg_allocations(mem@, mcfg as int),
{
    let len: u64 = sdt_length(mem, mcfg) as u64;
    let header: u64 = SDT_HEADER_SIZE + MCFG_HEADER_SIZE;
    let mut v: Vec<McfgAllocation> = Vec::new();
    if len <= header {
        return v;
    }
    let count: u64 = (len - header) / MCFG_ALLOCATION_SIZE;
    let mut i: u64 = 0;
    while i < count
        invariant
            i <= count,
            header == MCFG_ALLOCATIONS,
            len == table_length(mem@, mcfg as int),
            len > header,
            count == (len - header) / (MCFG_ALLOCATION_SIZE as int),
            extent_readable(mem@, mcfg as int),
            v@ =~= mcfg_allocations(mem@, mcfg as int).take(i as int),
        decreases count - i,
    {
        let at: u64 = mcfg + header + MCFG_ALLOCATION_SIZE * i;
        v.push(McfgAllocation::read(mem, at));
        i += 1;
    }
    assert(v@ =~= mcfg_allocations(mem@, mcfg as int));
    v
}

/// How far into an allocation the configuration space of a function lies.
pub open spec fn ecam_offset(alloc: McfgAllocation, bus: u8, device: u8, function: u8) -> u64 {
    (((bus - alloc.start_bus_number) as u64) << 20) | ((device as u64) << 15) | ((function as u64)
        << 12)
}

/// The physical address of a PCIe function's configuration space, where the
/// allocation has its bus.
pub fn ecam_address(alloc: &McfgAllocation, bus: u8, device: u8, function: u8) -> (a: Option<u64>)
    requires
        alloc.start_bus_number <= bus <= alloc.end_bus_number ==> alloc.base_address + ecam_offset(
            *alloc,
            bus,
            device,
            function,
        ) <= u64::MAX,
    ensures
        a == (if alloc.start_bus_number <= bus <= alloc.end_bus_number {
            Some((alloc.base_address + ecam_offset(*alloc, bus, device, function)) as u64)
        } else {
            None
        }),
{
    if bus < alloc.start_bus_number || bus > alloc.end_bus_number {
        return None;
    }
    let offset: u64 = ((bus as u64 - alloc.start_bus_number as u64) << 20) | ((device as u64) << 15)
        | ((function as u64) << 12);
    Some(alloc.base_address + offset)
}

/// For the 32 devices of a bus and the 8 functions of a device, offsets do not
/// overlap: each is the sum of its parts, in steps of a page.
pub proof fn law_ecam_offset(alloc: McfgAllocation, bus: u8, device: u8, function: u8)
    requires
        bus >= alloc.start_bus_number,
        device < 32,
        function < 8,
    ensures
        ecam_offset(alloc, bus, device, function) == (bus - alloc.start_bus_number) * 0x10_0000
            + device * 0x8000 + function * 0x1000,
{
    let b = (bus - alloc.start_bus_number) as u64;
    let d = device as u64;
    let f = function as u64;
    assert(b < 256 && d < 32 && f < 8 ==> ((b << 20) | (d << 15) | (f << 12)) == b * 0x10_0000 + d
        * 0x8000 + f * 0x1000) by (bit_vector);
}

/// The DSDT is at the wide address where the table gives one, else at the narrow
/// one.
pub proof fn law_dsdt(fadt: Fadt)
    ensures
        fadt.x_dsdt != 0 ==> dsdt_of(fadt) == fadt.x_dsdt,
        fadt.x_dsdt == 0 ==> dsdt_of(fadt) == fadt.dsdt,
{
}

/// The allocations in an MCFG begin 44 bytes behind its start and have sixteen
/// bytes each: the address in eight, the segment in two, the first and the last
/// bus in one each, and four more. As many are listed as the table has room for.
pub proof fn law_mcfg_allocations(m: Map<int, u8>, a: int, i: int, x: McfgAllocation)
    requires
        0 <= i,
        44 + 16 * (i + 1) <= table_length(m, a),
        ({
            let at = a + 44 + 16 * i;
            &&& bytes_at(m, at, 8) == u64_bytes(x.base_address)
            &&& bytes_at(m, at + 8, 2) == u16_bytes(x.pci_segment_group)
            &&& m[at + 10] == x.start_bus_number
            &&& m[at + 11] == x.end_bus_number
            &&& bytes_at(m, at + 12, 4) == u32_bytes(x.reserved)
        }),
    ensures
        i < mcfg_allocations(m, a).len(),
        mcfg_allocations(m, a)[i] == x,
        44 + 16 * mcfg_allocations(m, a).len() <= table_length(m, a),
        table_length(m, a) < 44 + 16 * (mcfg_allocations(m, a).len() + 1),
{
    lemma_u64_round_trip(x.base_address);
    lemma_u16_round_trip(x.pci_segment_group);
    lemma_u32_round_trip(x.reserved);
}

/// An MCFG without room for an allocation lists none.
pub proof fn law_no_allocations(m: Map<int, u8>, a: int)
    requires
        table_length(m, a) < 60,
    ensures
        mcfg_allocations(m, a).len() == 0,
{
}

/// The timer has 24 bits, and four of its ticks are taken for a microsecond,
/// which is a little more than the 3.58 MHz at which it runs.
pub proof fn law_timer_rate(microseconds: u32)
    ensures
        PM_TIMER_RANGE == 0x100_0000,
        microseconds * TICKS_PER_US * 1_000_000 >= microseconds * 3_579_545,
        TICKS_PER_US == 4,
{
}

} // verus!
