use kaguyaos::acpi::madt::MadtInfo;
use kaguyaos::memory::phys::PhysMemory;
use kaguyaos::processor::lapic::{
    MmioWrite, icr_idle, icr_send, lapic_enable, lapic_eoi, lapic_read, lapic_timer_current,
    lapic_timer_start, lapic_timer_stop, lapic_write,
};
use kaguyaos::processor::msr::{
    MSR_IA32_GS_BASE, MsrWrite, current_apic_id, lapic_base_from_msr, rdmsr, set_percpu_data, wrmsr,
};
use kaguyaos::processor::smp::{
    ApCounter, ApPlan, ApStep, EntryStep, OnlinePoll, PollResult, ap_entry, online_ap_count,
    plan_message, poll_message, smp_banner, smp_summary, start_all_aps, start_ap,
};
use kaguyaos::processor::trampoline::{
    TRAMPOLINE_PHYS, install_trampoline, set_online_flag, trampoline, write_trampoline_params,
};

const BASE: u64 = 0xFEE0_0000;

#[test]
fn register_addresses() {
    assert_eq!(lapic_write(BASE, 0xF0, 7), MmioWrite { address: BASE + 0xF0, value: 7 });
    assert_eq!(lapic_read(BASE, 0x20), BASE + 0x20);
    assert_eq!(lapic_timer_current(BASE), BASE + 0x390);
    assert_eq!(lapic_eoi(BASE), MmioWrite { address: BASE + 0xB0, value: 0 });
}

#[test]
fn enabling_a_local_apic() {
    assert_eq!(
        lapic_enable(BASE),
        [
            MmioWrite { address: BASE + 0xF0, value: 0x1FF },
            MmioWrite { address: BASE + 0x80, value: 0 },
        ]
    );
}

#[test]
fn sending_an_interrupt() {
    assert_eq!(
        icr_send(BASE, 5, 0x4608),
        [
            MmioWrite { address: BASE + 0x310, value: 5 << 24 },
            MmioWrite { address: BASE + 0x300, value: 0x4608 },
        ]
    );
    assert!(icr_idle(0x4608));
    assert!(!icr_idle(0x1000));
}

#[test]
fn timer_writes() {
    let w = lapic_timer_start(BASE, 0x20, 1000, 0x3, true);
    assert_eq!(w[0], MmioWrite { address: BASE + 0x3E0, value: 3 });
    assert_eq!(w[1], MmioWrite { address: BASE + 0x320, value: 0x2_0020 });
    assert_eq!(w[2], MmioWrite { address: BASE + 0x380, value: 1000 });
    assert_eq!(lapic_timer_start(BASE, 0x20, 1, 0, false)[1].value, 0x20);
    let w = lapic_timer_stop(BASE);
    assert_eq!(w[0].value, 0x1_0000);
    assert_eq!(w[1], MmioWrite { address: BASE + 0x380, value: 0 });
}

#[test]
fn register_halves() {
    assert_eq!(rdmsr(0x2222_1111, 0x4444_3333), 0x4444_3333_2222_1111);
    assert_eq!(wrmsr(0x4444_3333_2222_1111), (0x2222_1111, 0x4444_3333));
    assert_eq!(current_apic_id(0x0710_0800), 7);
    assert_eq!(lapic_base_from_msr(0xFFF0_0000_FEE0_0900), 0xFEE0_0000);
    assert_eq!(set_percpu_data(0x9000), MsrWrite { msr: MSR_IA32_GS_BASE, value: 0x9000 });
}

#[test]
fn steps_of_a_processor_that_was_started() {
    let steps = ap_entry(0xFEE0_0900);
    assert_eq!(steps[0], EntryStep::LoadTables);
    assert_eq!(steps[1], EntryStep::Write(MmioWrite { address: BASE + 0xF0, value: 0x1FF }));
    assert_eq!(steps[2], EntryStep::Write(MmioWrite { address: BASE + 0x80, value: 0 }));
    assert_eq!(steps[3..], [EntryStep::RaiseOnlineFlag, EntryStep::Count, EntryStep::Park]);
}

#[test]
fn counter_counts() {
    let mut c = ApCounter::new();
    assert_eq!(online_ap_count(&c), 0);
    c.came_online();
    c.came_online();
    assert_eq!(online_ap_count(&c), 2);
}

#[test]
fn steps_of_starting_a_processor() {
    let steps = start_ap(BASE, 3);
    assert_eq!(steps.len(), 9);
    assert_eq!(steps[0], ApStep::ClearOnlineFlag);
    let sent: Vec<u32> = steps
        .iter()
        .filter_map(|s| match s {
            ApStep::SendIpi { high, low } => {
                assert_eq!(high.value, 3 << 24);
                Some(low.value)
            }
            _ => None,
        })
        .collect();
    assert_eq!(sent, vec![0xC500, 0x8500, 0x4608, 0x4608]);
    assert_eq!(steps[2], ApStep::IoWait(10_000));
    assert_eq!(steps[8], ApStep::IoWait(200));
}

#[test]
fn waiting_for_a_processor() {
    let mut p = OnlinePoll::new();
    assert!(matches!(p.step(0), PollResult::Again));
    assert!(matches!(p.step(1), PollResult::Online));
    for _ in 1..1_000_000 {
        assert!(matches!(p.step(0), PollResult::Again));
    }
    assert!(matches!(p.step(0), PollResult::TimedOut));
    assert_eq!(poll_message(4, true), "[SMP] AP APIC ID=4 came online\n");
    assert_eq!(
        poll_message(4, false),
        "[SMP] AP APIC ID=4 timed out waiting for online flag\n"
    );
}

fn madt(ids: &[u8]) -> MadtInfo {
    let mut info = MadtInfo::default();
    info.local_apic_address = BASE;
    info.cpu_count = ids.len() as u8;
    info.apic_ids[..ids.len()].copy_from_slice(ids);
    info
}

#[test]
fn every_other_processor_is_planned() {
    let plans = start_all_aps(&madt(&[0, 2, 4]), 2, 0x10_0000);
    assert_eq!(plans.len(), 2);
    assert_eq!(plans[0], ApPlan::Start { index: 0, apic_id: 0, stack_top: 0x10_4000 });
    assert_eq!(plans[1], ApPlan::Start { index: 1, apic_id: 4, stack_top: 0x10_8000 });
    assert_eq!(
        plan_message(&plans[1]),
        "[SMP] Starting AP 1 (APIC ID=4, stack top=0x108000)\n"
    );
}

#[test]
fn single_processor_has_no_plan() {
    assert!(start_all_aps(&madt(&[0]), 5, 0).is_empty());
    assert_eq!(
        smp_banner(&madt(&[0]), 0),
        "[SMP] BSP APIC ID=0, LAPIC base=0xfee00000\n[SMP] 1 CPU(s) detected\n[SMP] Single-CPU system, skipping AP bring-up\n"
    );
    assert_eq!(
        smp_banner(&madt(&[0, 1]), 1),
        "[SMP] BSP APIC ID=1, LAPIC base=0xfee00000\n[SMP] 2 CPU(s) detected\n"
    );
    assert_eq!(smp_summary(3), "[SMP] All APs started. Online AP count: 3\n");
}

#[test]
fn too_many_processors() {
    let ids: Vec<u8> = (0..64).collect();
    let plans = start_all_aps(&madt(&ids), 200, 0);
    assert_eq!(plans.len(), 64);
    assert_eq!(plans[62], ApPlan::Start { index: 62, apic_id: 62, stack_top: 63 * 16384 });
    assert_eq!(plans[63], ApPlan::TooMany { apic_id: 63 });
    assert_eq!(plan_message(&plans[63]), "[SMP] Too many APs, skipping APIC ID=63\n");
}

#[test]
fn trampoline_page() {
    let code = trampoline();
    assert_eq!(code.len(), 304);
    let mut m = PhysMemory::new();
    install_trampoline(&mut m);
    assert_eq!(m.read(TRAMPOLINE_PHYS, code.len()), code);
    set_online_flag(&mut m, 1);
    assert_eq!(m.read_u32(0x8F18), 1);
    write_trampoline_params(&mut m, 0x1111, 0x2222, 0x3333);
    assert_eq!(m.read_u64(0x8F00), 0x1111);
    assert_eq!(m.read_u64(0x8F08), 0x2222);
    assert_eq!(m.read_u64(0x8F10), 0x3333);
    assert_eq!(m.read_u32(0x8F18), 0);
    assert_eq!(m.read(TRAMPOLINE_PHYS, code.len()), code);
}
