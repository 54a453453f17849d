//! Bringing up the other processors.

use vstd::prelude::*;
use crate::acpi::madt::MadtInfo;
use crate::processor::lapic::{
    ICR_DELIVERY_INIT, ICR_DELIVERY_STARTUP, ICR_LEVEL_ASSERT, ICR_LEVEL_DEASSERT,
    ICR_TRIGGER_LEVEL, LAPIC_SVR, LAPIC_TPR, MmioWrite, icr_send, ipi_writes, lapic_enable,
    lapic_in_range, register_write,
};
use crate::processor::msr::lapic_base_from_msr;
use crate::processor::trampoline::SIPI_VECTOR;
use crate::text::{decimal, hex_prefixed, push_decimal, push_hex};

verus! {

/// The most processors that are brought up besides the first.
pub const MAX_AP_COUNT: usize = 63;

/// Bytes of the kernel stack of each of them.
pub const AP_STACK_SIZE: usize = 16384;

/// How many processors have come up besides the first.
pub struct ApCounter {
    online: u32,
}

impl ApCounter {
    /// The count.
    pub closed spec fn count(&self) -> u32 {
        self.online
    }

    /// No other processor has come up.
    pub fn new() -> (c: ApCounter)
        ensures
            c.count() == 0,
    {
        ApCounter { online: 0 }
    }

    /// One more has come up. The count begins again behind its last value.
    pub fn came_online(&mut self)
        ensures
            final(self).count() == (old(self).count() + 1) % 0x1_0000_0000,
    {
        self.online = self.online.wrapping_add(1);
    }
}

/// How many processors have come up besides the first.
pub fn online_ap_count(counter: &ApCounter) -> (n: u32)
    ensures
        n == counter.count(),
{
    counter.online
}

// ---------------------------------------------------------------------------
// On a processor that was started
// ---------------------------------------------------------------------------

/// One step of a processor that was started.
#[derive(Debug, Clone, Copy, PartialEq, Eq, Structural)]
pub enum EntryStep {
    /// Load the descriptor tables that the first processor set up.
    LoadTables,
    /// Make this write.
    Write(MmioWrite),
    /// Set the flag by which the processor says that it runs.
    RaiseOnlineFlag,
    /// Count the processor with [`ApCounter::came_online`].
    Count,
    /// Let interrupts in and wait for them for ever.
    Park,
}

/// The steps of a processor that was started, by the value of its APIC base
/// register: it says that it runs once its own interrupt controller is on.
pub fn ap_entry(apic_base: u64) -> (steps: [EntryStep; 6])
    ensures
        ({
            let base = apic_base & 0x000F_FFFF_FFFF_F000;
            steps@ == seq![
                EntryStep::LoadTables,
                EntryStep::Write(register_write(base, LAPIC_SVR, 0x1FF)),
                EntryStep::Write(register_write(base, LAPIC_TPR, 0)),
                EntryStep::RaiseOnlineFlag,
                EntryStep::Count,
                EntryStep::Park,
            ]
        }),
{
    let base: u64 = lapic_base_from_msr(apic_base);
    let w = lapic_enable(base);
    let steps: [EntryStep; 6] = [
        EntryStep::LoadTables,
        EntryStep::Write(w[0]),
        EntryStep::Write(w[1]),
        EntryStep::RaiseOnlineFlag,
        EntryStep::Count,
        EntryStep::Park,
    ];
    assert(steps@ =~= seq![
        EntryStep::LoadTables,
        EntryStep::Write(register_write(base, LAPIC_SVR, 0x1FF)),
        EntryStep::Write(register_write(base, LAPIC_TPR, 0)),
        EntryStep::RaiseOnlineFlag,
        EntryStep::Count,
        EntryStep::Park,
    ]);
    steps
}

// ---------------------------------------------------------------------------
// One processor
// ---------------------------------------------------------------------------

/// The command that asks a processor to reset.
pub const INIT_ASSERT: u32 = 0xC500;

/// The command that ends the reset.
pub const INIT_DEASSERT: u32 = 0x8500;

/// The command that starts a processor at the trampoline.
pub const STARTUP: u32 = 0x4608;

/// One step of starting a processor.
#[derive(Debug, Clone, Copy, PartialEq, Eq, Structural)]
pub enum ApStep {
    /// Clear the flag by which the processor says that it runs.
    ClearOnlineFlag,
    /// Once the last interrupt has been sent, make these writes in order.
    SendIpi { high: MmioWrite, low: MmioWrite },
    /// Write to the delay port this many times.
    IoWait(u32),
}

/// Sending the command `low` to the processor `dest`.
pub open spec fn ipi_step(base: u64, dest: u8, low: u32) -> ApStep {
    ApStep::SendIpi {
        high: ipi_writes(base, dest, low)[0],
        low: ipi_writes(base, dest, low)[1],
    }
}

/// The steps that start the processor `dest`: reset, end of reset, and two
/// startup commands, with a pause behind each.
pub open spec fn start_steps(base: u64, dest: u8) -> Seq<ApStep> {
    seq![
        ApStep::ClearOnlineFlag,
        ipi_step(base, dest, INIT_ASSERT),
        ApStep::IoWait(10_000),
        ipi_step(base, dest, INIT_DEASSERT),
        ApStep::IoWait(10_000),
        ipi_step(base, dest, STARTUP),
        ApStep::IoWait(200),
        ipi_step(base, dest, STARTUP),
        ApStep::IoWait(200),
    ]
}

fn send(base: u64, dest: u8, low: u32) -> (s: ApStep)
    requires
        lapic_in_range(base),
    ensures
        s == ipi_step(base, dest, low),
{
    let w = icr_send(base, dest, low);
    ApStep::SendIpi { high: w[0], low: w[1] }
}

/// The steps that start the processor `dest_id`. Waiting for it is
/// [`OnlinePoll`]'s.
pub fn start_ap(lapic_base: u64, dest_id: u8) -> (steps: Vec<ApStep>)
    requires
        lapic_in_range(lapic_base),
    ensures
        steps@ == start_steps(lapic_base, dest_id),
{
    let assert_cmd: u32 = ICR_DELIVERY_INIT | ICR_LEVEL_ASSERT | ICR_TRIGGER_LEVEL;
    let deassert_cmd: u32 = ICR_DELIVERY_INIT | ICR_LEVEL_DEASSERT | ICR_TRIGGER_LEVEL;
    let startup_cmd: u32 = ICR_DELIVERY_STARTUP | ICR_LEVEL_ASSERT | SIPI_VECTOR;
    assert(0x500u32 | 0x4000u32 | 0x8000u32 == 0xC500) by (bit_vector);
    assert(0x500u32 | 0x0000u32 | 0x8000u32 == 0x8500) by (bit_vector);
    assert(0x600u32 | 0x4000u32 | 0x8u32 == 0x4608) by (bit_vector);
    let mut steps: Vec<ApStep> = Vec::new();
    steps.push(ApStep::ClearOnlineFlag);
    steps.push(send(lapic_base, dest_id, assert_cmd));
    steps.push(ApStep::IoWait(10_000));
    steps.push(send(lapic_base, dest_id, deassert_cmd));
    steps.push(ApStep::IoWait(10_000));
    let mut i: u8 = 0;
    let ghost head = steps@;
    while i < 2
        invariant
            i <= 2,
            lapic_in_range(lapic_base),
            startup_cmd == STARTUP,
            i == 0 ==> steps@ == head,
            i == 1 ==> steps@ == head.push(ipi_step(lapic_base, dest_id, STARTUP)).push(
                ApStep::IoWait(200),
            ),
            i == 2 ==> steps@ == head.push(ipi_step(lapic_base, dest_id, STARTUP)).push(
                ApStep::IoWait(200),
            ).push(ipi_step(lapic_base, dest_id, STARTUP)).push(ApStep::IoWait(200)),
        decreases 2 - i,
    {
        steps.push(send(lapic_base, dest_id, startup_cmd));
        steps.push(ApStep::IoWait(200));
        i += 1;
    }
    assert(steps@ =~= start_steps(lapic_base, dest_id));
    steps
}

/// What to do after the flag was looked at.
#[derive(Debug, Clone, Copy, PartialEq, Eq, Structural)]
pub enum PollResult {
    /// The processor runs.
    Online,
    /// Look again.
    Again,
    /// It has been waited for long enough.
    TimedOut,
}

/// How often the flag is looked at again at most.
pub const ONLINE_POLLS: u32 = 1_000_000;

/// The wait for a processor that was started.
pub struct OnlinePoll {
    timeout: u32,
}

impl OnlinePoll {
    /// How often the flag may still be looked at again.
    pub closed spec fn left(&self) -> u32 {
        self.timeout
    }

    /// Begins to wait.
    pub fn new() -> (p: OnlinePoll)
        ensures
            p.left() == ONLINE_POLLS,
    {
        OnlinePoll { timeout: ONLINE_POLLS }
    }

    /// Goes on after the flag was found to be `flag`.
    pub fn step(&mut self, flag: u32) -> (r: PollResult)
        ensures
            r == (if flag != 0 {
                PollResult::Online
            } else if old(self).left() == 0 {
                PollResult::TimedOut
            } else {
                PollResult::Again
            }),
            final(self).left() == (if r is Again {
                (old(self).left() - 1) as u32
            } else {
                old(self).left()
            }),
    {
        if flag != 0 {
            return PollResult::Online;
        }
        match self.timeout.checked_sub(1) {
            Some(v) => {
                self.timeout = v;
                PollResult::Again
            },
            None => PollResult::TimedOut,
        }
    }
}

/// The line about how the wait for the processor `dest` ended.
pub fn poll_message(dest: u8, online: bool) -> (s: String)
    ensures
        s@ == "[SMP] AP APIC ID="@ + decimal(dest as int) + (if online {
            " came online\n"@
        } else {
            " timed out waiting for online flag\n"@
        }),
{
    let mut s = String::from_str("[SMP] AP APIC ID=");
    push_decimal(&mut s, dest as u64);
    if online {
        s.append(" came online\n");
    } else {
        s.append(" timed out waiting for online flag\n");
    }
    s
}

// ---------------------------------------------------------------------------
// All processors
// ---------------------------------------------------------------------------

/// What is done about a processor.
#[derive(Debug, Clone, Copy, PartialEq, Eq, Structural)]
pub enum ApPlan {
    /// It is started, with a number and a stack of its own.
    Start { index: usize, apic_id: u8, stack_top: u64 },
    /// There are too many.
    TooMany { apic_id: u8 },
}

/// How many of the plans start a processor.
pub open spec fn starts(plans: Seq<ApPlan>) -> int
    decreases plans.len(),
{
    if plans.len() == 0 {
        0
    } else {
        starts(plans.drop_last()) + (if plans.last() is Start {
            1int
        } else {
            0int
        })
    }
}

/// Where the stack of the processor with number `index` begins.
pub open spec fn stack_top(stacks: u64, index: int) -> int {
    stacks + (index + 1) * AP_STACK_SIZE
}

/// The plans for the first `n` of the processors `ids`: the first processor
/// itself is passed over.
pub open spec fn ap_plans(ids: Seq<u8>, bsp: u8, stacks: u64, n: int) -> Seq<ApPlan>
    decreases n,
{
    if n <= 0 {
        Seq::empty()
    } else {
        let before = ap_plans(ids, bsp, stacks, n - 1);
        let id = ids[n - 1];
        if id == bsp {
            before
        } else if starts(before) >= MAX_AP_COUNT {
            before.push(ApPlan::TooMany { apic_id: id })
        } else {
            before.push(
                ApPlan::Start {
                    index: starts(before) as usize,
                    apic_id: id,
                    stack_top: stack_top(stacks, starts(before)) as u64,
                },
            )
        }
    }
}

/// Plans which processors are started, from what the MADT says. `stacks` is
/// where their stacks lie.
pub fn start_all_aps(madt: &MadtInfo, bsp_apic_id: u8, stacks: u64) -> (plans: Vec<ApPlan>)
    requires
        madt.wf(),
        stack_top(stacks, MAX_AP_COUNT - 1) <= u64::MAX,
    ensures
        plans@ == (if madt@.apic_ids.len() <= 1 {
            Seq::empty()
        } else {
            ap_plans(madt@.apic_ids, bsp_apic_id, stacks, madt@.apic_ids.len() as int)
        }),
{
    let mut plans: Vec<ApPlan> = Vec::new();
    if madt.cpu_count <= 1 {
        return plans;
    }
    let n: usize = madt.cpu_count as usize;
    let mut ap_index: usize = 0;
    let mut i: usize = 0;
    while i < n
        invariant
            madt.wf(),
            n == madt.cpu_count,
            i <= n,
            ap_index <= MAX_AP_COUNT,
            ap_index == starts(plans@),
            plans@ == ap_plans(madt@.apic_ids, bsp_apic_id, stacks, i as int),
            stack_top(stacks, MAX_AP_COUNT - 1) <= u64::MAX,
        decreases n - i,
    {
        let apic_id: u8 = madt.apic_ids[i];
        let ghost before = plans@;
        assert(madt@.apic_ids[i as int] == apic_id);
        if apic_id != bsp_apic_id {
            if ap_index >= MAX_AP_COUNT {
                plans.push(ApPlan::TooMany { apic_id });
            } else {
                let number: u64 = ap_index as u64 + 1;
                assert(number * AP_STACK_SIZE <= MAX_AP_COUNT * AP_STACK_SIZE);
                let top: u64 = stacks + number * AP_STACK_SIZE as u64;
                plans.push(ApPlan::Start { index: ap_index, apic_id, stack_top: top });
                ap_index += 1;
            }
            assert(plans@.drop_last() =~= before);
        }
        i += 1;
    }
    plans
}

/// The lines about a plan.
pub open spec fn plan_line(p: ApPlan) -> Seq<char> {
    match p {
        ApPlan::Start { index, apic_id, stack_top } => "[SMP] Starting AP "@ + decimal(
            index as int,
        ) + " (APIC ID="@ + decimal(apic_id as int) + ", stack top="@ + hex_prefixed(
            stack_top as int,
        ) + ")\n"@,
        ApPlan::TooMany { apic_id } => "[SMP] Too many APs, skipping APIC ID="@ + decimal(
            apic_id as int,
        ) + "\n"@,
    }
}

/// The line about a plan.
pub fn plan_message(p: &ApPlan) -> (s: String)
    ensures
        s@ == plan_line(*p),
{
    match p {
        ApPlan::Start { index, apic_id, stack_top } => {
            let mut s = String::from_str("[SMP] Starting AP ");
            push_decimal(&mut s, *index as u64);
            s.append(" (APIC ID=");
            push_decimal(&mut s, *apic_id as u64);
            s.append(", stack top=");
            push_hex(&mut s, *stack_top);
            s.append(")\n");
            s
        },
        ApPlan::TooMany { apic_id } => {
            let mut s = String::from_str("[SMP] Too many APs, skipping APIC ID=");
            push_decimal(&mut s, *apic_id as u64);
            s.append("\n");
            s
        },
    }
}

/// The lines that come first.
pub open spec fn smp_head(lapic_base: u64, cpus: int, bsp: u8) -> Seq<char> {
    "[SMP] BSP APIC ID="@ + decimal(bsp as int) + ", LAPIC base="@ + hex_prefixed(lapic_base as int)
        + "\n[SMP] "@ + decimal(cpus) + " CPU(s) detected\n"@ + (if cpus <= 1 {
        "[SMP] Single-CPU system, skipping AP bring-up\n"@
    } else {
        Seq::empty()
    })
}

/// The lines that come first.
pub fn smp_banner(madt: &MadtInfo, bsp_apic_id: u8) -> (s: String)
    requires
        madt.wf(),
    ensures
        s@ == smp_head(madt.local_apic_address, madt@.apic_ids.len() as int, bsp_apic_id),
{
    let mut s = String::from_str("[SMP] BSP APIC ID=");
    push_decimal(&mut s, bsp_apic_id as u64);
    s.append(", LAPIC base=");
    push_hex(&mut s, madt.local_apic_address);
    s.append("\n[SMP] ");
    push_decimal(&mut s, madt.cpu_count as u64);
    s.append(" CPU(s) detected\n");
    if madt.cpu_count <= 1 {
        s.append("[SMP] Single-CPU system, skipping AP bring-up\n");
    }
    assert(s@ =~= smp_head(madt.local_apic_address, madt@.apic_ids.len() as int, bsp_apic_id));
    s
}

/// The line that comes last.
pub fn smp_summary(online: u32) -> (s: String)
    ensures
        s@ == "[SMP] All APs started. Online AP count: "@ + decimal(online as int) + "\n"@,
{
    let mut s = String::from_str("[SMP] All APs started. Online AP count: ");
    push_decimal(&mut s, online as u64);
    s.append("\n");
    s
}

/// Processors that are started have numbers of their own, counted from zero,
/// and so stacks that do not overlap; the first processor is never started,
/// and no more than the limit are.
pub proof fn law_ap_plans(ids: Seq<u8>, bsp: u8, stacks: u64, n: int, i: int, j: int)
    requires
        0 <= n <= ids.len(),
        stack_top(stacks, MAX_AP_COUNT - 1) <= u64::MAX,
        0 <= i < j < ap_plans(ids, bsp, stacks, n).len(),
    ensures
        ({
            let plans = ap_plans(ids, bsp, stacks, n);
            &&& starts(plans) <= MAX_AP_COUNT
            &&& plan_id(plans[i]) != bsp && plan_id(plans[j]) != bsp
            &&& plans[i] matches ApPlan::Start { index, apic_id, stack_top } ==> index
                < MAX_AP_COUNT && stack_top == stacks + (index + 1) * AP_STACK_SIZE
            &&& plans[i] matches ApPlan::Start { index, apic_id, stack_top } ==> plans[j] matches ApPlan::Start {
                index: index2,
                apic_id: id2,
                stack_top: top2,
            } ==> index < index2 && stack_top + AP_STACK_SIZE <= top2
        }),
    decreases n,
{
    let plans = ap_plans(ids, bsp, stacks, n);
    let before = ap_plans(ids, bsp, stacks, n - 1);
    lemma_starts(ids, bsp, stacks, n);
    lemma_starts(ids, bsp, stacks, n - 1);
    if plans != before {
        assert(plans.drop_last() =~= before);
    }
    lemma_plan_at(ids, bsp, stacks, n, i);
    lemma_plan_at(ids, bsp, stacks, n, j);
    lemma_starts_grow(plans, i, j);
}

/// There is one plan for every listed processor but the first, in the order
/// of the list.
pub proof fn law_every_processor_planned(ids: Seq<u8>, bsp: u8, stacks: u64, n: int)
    requires
        0 <= n <= ids.len(),
    ensures
        ap_plans(ids, bsp, stacks, n).map_values(|p: ApPlan| plan_id(p)) == ids.take(n).filter(
            |id: u8| id != bsp,
        ),
    decreases n,
{
    let other = |id: u8| id != bsp;
    let of = |p: ApPlan| plan_id(p);
    reveal(Seq::filter);
    if n > 0 {
        law_every_processor_planned(ids, bsp, stacks, n - 1);
        assert(ids.take(n).drop_last() =~= ids.take(n - 1));
        let before = ap_plans(ids, bsp, stacks, n - 1);
        let plans = ap_plans(ids, bsp, stacks, n);
        if ids[n - 1] != bsp {
            assert(plans.map_values(of) =~= before.map_values(of).push(ids[n - 1]));
        }
    } else {
        assert(ap_plans(ids, bsp, stacks, n).map_values(of) =~= Seq::<u8>::empty());
        assert(ids.take(n).filter(other) =~= Seq::<u8>::empty());
    }
}

/// The processor that the plan is about.
pub open spec fn plan_id(p: ApPlan) -> u8 {
    match p {
        ApPlan::Start { apic_id, .. } => apic_id,
        ApPlan::TooMany { apic_id } => apic_id,
    }
}

proof fn lemma_starts(ids: Seq<u8>, bsp: u8, stacks: u64, n: int)
    ensures
        0 <= starts(ap_plans(ids, bsp, stacks, n)) <= MAX_AP_COUNT,
    decreases n,
{
    if n > 0 {
        lemma_starts(ids, bsp, stacks, n - 1);
        let before = ap_plans(ids, bsp, stacks, n - 1);
        let plans = ap_plans(ids, bsp, stacks, n);
        if ids[n - 1] != bsp {
            assert(plans.drop_last() =~= before);
        }
    }
}

/// Plan `i` was made when the plans before it had been.
proof fn lemma_plan_at(ids: Seq<u8>, bsp: u8, stacks: u64, n: int, i: int)
    requires
        0 <= n <= ids.len(),
        stack_top(stacks, MAX_AP_COUNT - 1) <= u64::MAX,
        0 <= i < ap_plans(ids, bsp, stacks, n).len(),
    ensures
        ({
            let plans = ap_plans(ids, bsp, stacks, n);
            &&& plan_id(plans[i]) != bsp
            &&& plans[i] matches ApPlan::Start { index, apic_id, stack_top } ==> index == starts(
                plans.take(i),
            ) && index < MAX_AP_COUNT && stack_top == stacks + (index + 1) * AP_STACK_SIZE
        }),
    decreases n,
{
    let plans = ap_plans(ids, bsp, stacks, n);
    let before = ap_plans(ids, bsp, stacks, n - 1);
    lemma_starts(ids, bsp, stacks, n - 1);
    if i < before.len() {
        lemma_plan_at(ids, bsp, stacks, n - 1, i);
        assert(plans[i] == before[i]);
        assert(plans.take(i) =~= before.take(i));
    } else {
        assert(plans.take(i) =~= before);
    }
}

proof fn lemma_starts_grow(plans: Seq<ApPlan>, i: int, j: int)
    requires
        0 <= i < j <= plans.len(),
    ensures
        starts(plans.take(i)) <= starts(plans.take(j)),
        plans[i] is Start ==> starts(plans.take(i)) < starts(plans.take(j)),
    decreases j,
{
    assert(plans.take(j).drop_last() =~= plans.take(j - 1));
    assert(plans.take(j).last() == plans[j - 1]);
    if i < j - 1 {
        lemma_starts_grow(plans, i, j - 1);
    }
}

/// A processor is started by four commands, all to its own number: reset, end of
/// reset, and twice the start at page eight. Its flag is cleared before them, and
/// behind each is a pause, long for the first two and short for the others.
pub proof fn law_start_steps(base: u64, dest: u8, k: int)
    requires
        lapic_in_range(base),
        0 <= k < 4,
    ensures
        ({
            let s = start_steps(base, dest);
            &&& s.len() == 9
            &&& s[0] == ApStep::ClearOnlineFlag
            &&& s[1 + 2 * k] == (ApStep::SendIpi {
                high: MmioWrite { address: (base + 0x310) as u64, value: (dest * 0x100_0000) as u32 },
                low: MmioWrite {
                    address: (base + 0x300) as u64,
                    value: if k == 0 {
                        0xC500
                    } else if k == 1 {
                        0x8500
                    } else {
                        0x4608
                    },
                },
            })
            &&& s[2 + 2 * k] == ApStep::IoWait(
                if k < 2 {
                    10_000
                } else {
                    200
                },
            )
        }),
{
}

/// The processors but the first, in the order of the list, get the numbers from
/// zero on and stacks of 16 KiB one above the other, each beginning at its end.
/// From the 64th on there are too many.
pub proof fn law_plan(ids: Seq<u8>, bsp: u8, stacks: u64, n: int, k: int)
    requires
        0 <= n <= ids.len(),
        stacks + 63 * 16384 <= u64::MAX,
        0 <= k < ap_plans(ids, bsp, stacks, n).len(),
    ensures
        ({
            let others = ids.take(n).filter(|id: u8| id != bsp);
            &&& ap_plans(ids, bsp, stacks, n).len() == others.len()
            &&& ap_plans(ids, bsp, stacks, n)[k] == (if k < 63 {
                ApPlan::Start {
                    index: k as usize,
                    apic_id: others[k],
                    stack_top: (stacks + (k + 1) * 16384) as u64,
                }
            } else {
                ApPlan::TooMany { apic_id: others[k] }
            })
        }),
{
    let plans = ap_plans(ids, bsp, stacks, n);
    let others = ids.take(n).filter(|id: u8| id != bsp);
    law_every_processor_planned(ids, bsp, stacks, n);
    assert(plans.map_values(|p: ApPlan| plan_id(p))[k] == plan_id(plans[k]));
    lemma_plan_kind(ids, bsp, stacks, n, k);
}

proof fn lemma_plan_kind(ids: Seq<u8>, bsp: u8, stacks: u64, n: int, k: int)
    requires
        0 <= n <= ids.len(),
        stacks + 63 * 16384 <= u64::MAX,
    ensures
        ({
            let plans = ap_plans(ids, bsp, stacks, n);
            &&& starts(plans) == (if plans.len() < 63 {
                plans.len() as int
            } else {
                63
            })
            &&& 0 <= k < plans.len() ==> plans[k] == (if k < 63 {
                ApPlan::Start {
                    index: k as usize,
                    apic_id: plan_id(plans[k]),
                    stack_top: (stacks + (k + 1) * 16384) as u64,
                }
            } else {
                ApPlan::TooMany { apic_id: plan_id(plans[k]) }
            })
        }),
    decreases n,
{
    if n > 0 {
        let before = ap_plans(ids, bsp, stacks, n - 1);
        let plans = ap_plans(ids, bsp, stacks, n);
        lemma_plan_kind(ids, bsp, stacks, n - 1, k);
        if ids[n - 1] != bsp {
            assert(plans.drop_last() =~= before);
        }
    }
}

/// The first lines give the first processor's number, the controller's address
/// and how many processors there are, and say so where there is only one.
pub proof fn law_smp_head(lapic_base: u64, cpus: int, bsp: u8)
    requires
        0 <= cpus,
    ensures
        ({
            let found = "[SMP] BSP APIC ID="@ + decimal(bsp as int) + ", LAPIC base="@
                + hex_prefixed(lapic_base as int) + "\n[SMP] "@ + decimal(cpus)
                + " CPU(s) detected\n"@;
            &&& cpus >= 2 ==> smp_head(lapic_base, cpus, bsp) == found
            &&& cpus < 2 ==> smp_head(lapic_base, cpus, bsp) == found
                + "[SMP] Single-CPU system, skipping AP bring-up\n"@
        }),
{
    let s = smp_head(lapic_base, cpus, bsp);
    if cpus >= 2 {
        assert(s =~= "[SMP] BSP APIC ID="@ + decimal(bsp as int) + ", LAPIC base="@ + hex_prefixed(
            lapic_base as int,
        ) + "\n[SMP] "@ + decimal(cpus) + " CPU(s) detected\n"@);
    }
}

/// The line about a plan names the processor, and for one that is started its
/// number and where its stack begins.
pub proof fn law_plan_line(index: usize, apic_id: u8, top: u64)
    ensures
        plan_line(ApPlan::Start { index, apic_id, stack_top: top }) == "[SMP] Starting AP "@
            + decimal(index as int) + " (APIC ID="@ + decimal(apic_id as int) + ", stack top="@
            + hex_prefixed(top as int) + ")\n"@,
        plan_line(ApPlan::TooMany { apic_id }) == "[SMP] Too many APs, skipping APIC ID="@
            + decimal(apic_id as int) + "\n"@,
{
}

/// Up to 63 processors are started besides the first, each with 16 KiB of stack,
/// and each is looked at again a million times at most.
pub proof fn law_limits()
    ensures
        MAX_AP_COUNT == 63,
        AP_STACK_SIZE == 0x4000,
        ONLINE_POLLS == 1_000_000,
{
}

} // verus!
