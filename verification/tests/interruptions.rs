use kaguyaos::interrupts::handlers::{
    FaultAction, InterruptFrame, debug_print_int_no, exception_handler, exception_message,
    irq_handler,
};
use kaguyaos::interrupts::idt::{Idt, IdtEntry, init_idt, set_gate};
use kaguyaos::interrupts::spinlock::{InterruptSpinlock, interrupts_enabled};

fn frame(int_no: u64, cs: u64) -> InterruptFrame {
    InterruptFrame {
        r15: 0,
        r14: 0,
        r13: 0,
        r12: 0,
        r11: 0,
        r10: 0,
        r9: 0,
        r8: 0,
        rsi: 5,
        rdi: 6,
        rbp: 7,
        rdx: 4,
        rcx: 3,
        rbx: 2,
        rax: 1,
        int_no,
        err_code: 0x11,
        rip: 0x401000,
        cs,
        rflags: 0x202,
        rsp: 8,
        ss: 0,
    }
}

fn registers() -> String {
    String::from(
        "ERROR CODE: 0x11\nRIP: 0x401000\nRAX: 0x1  RBX: 0x2  RCX: 0x3  RDX: 0x4\nRSI: 0x5  RDI: 0x6  RBP: 0x7  RSP: 0x8\n",
    )
}

#[test]
fn page_fault_in_user_mode_ends_the_task() {
    let r = exception_handler(&frame(14, 0x23), 0xDEAD_B000);
    let expected = format!(
        "\nEXCEPTION OCCURRED!\nINTERRUPT: 0xe (PAGE FAULT)\n{}CR2 (ADDR): 0xdeadb000\nKilling user process due to exception.\n",
        registers()
    );
    assert_eq!(r.report, expected);
    assert!(matches!(r.action, FaultAction::TerminateTask(0xDEAD)));
}

#[test]
fn fault_in_the_kernel_halts() {
    let r = exception_handler(&frame(13, 0x08), 0);
    let expected = format!(
        "\nEXCEPTION OCCURRED!\nINTERRUPT: 0xd (GENERAL PROTECTION FAULT)\n{}",
        registers()
    );
    assert_eq!(r.report, expected);
    assert!(matches!(r.action, FaultAction::Halt));
}

#[test]
fn exception_without_a_name() {
    let r = exception_handler(&frame(40, 0x08), 0);
    assert!(r.report.starts_with("\nEXCEPTION OCCURRED!\nINTERRUPT: 0x28 \nERROR CODE"));
    assert_eq!(exception_message(28), "HYPervisor INJECTION EXCEPTION");
    assert_eq!(exception_message(31), "RESERVED");
}

#[test]
fn hardware_interrupts_are_acknowledged() {
    let timer = irq_handler(&frame(32, 8));
    assert!(timer.message.is_none());
    assert_eq!(timer.acknowledge, Some(0));
    let keyboard = irq_handler(&frame(33, 8));
    assert!(keyboard.message.is_none());
    assert_eq!(keyboard.acknowledge, Some(1));
    let other = irq_handler(&frame(47, 8));
    assert_eq!(other.message.unwrap(), "Unknown IRQ: 15\n");
    assert_eq!(other.acknowledge, Some(15));
    let invalid = irq_handler(&frame(48, 8));
    assert_eq!(invalid.message.unwrap(), "Invalid IRQ vector: 0x30\n");
    assert_eq!(invalid.acknowledge, None);
    assert_eq!(irq_handler(&frame(31, 8)).message.unwrap(), "Invalid IRQ vector: 0x1f\n");
}

#[test]
fn debug_line() {
    assert_eq!(debug_print_int_no(0x1000, 0), "DEBUG: RSP=0x1000, offset120=0x0\n");
}

fn address(e: &IdtEntry) -> u64 {
    e.offset_low as u64 | (e.offset_mid as u64) << 16 | (e.offset_high as u64) << 32
}

#[test]
fn table_leads_to_its_handlers() {
    let mut idt = Idt { entries: [IdtEntry::default(); 256] };
    let mut handlers = [0u64; 48];
    for i in 0..48 {
        handlers[i] = 0xFFFF_8000_1234_0000 + i as u64;
    }
    let p = init_idt(&mut idt, &handlers, 1, 0x7000);
    assert_eq!((p.limit, p.base), (4095, 0x7000));
    for i in 0..48 {
        let e = &idt.entries[i];
        assert_eq!(address(e), handlers[i]);
        assert_eq!((e.selector, e.type_attr, e.zero), (0x08, 0x8E, 0));
        assert_eq!(e.ist, if i == 8 { 1 } else { 0 });
    }
    assert_eq!(idt.entries[48].type_attr, 0);
    set_gate(&mut idt, 255, 0x1122_3344_5566_7788, 0x10, 0xEE);
    assert_eq!(address(&idt.entries[255]), 0x1122_3344_5566_7788);
    assert_eq!(idt.entries[255].type_attr, 0xEE);
}

#[test]
fn lock_keeps_others_out() {
    let mut lock = InterruptSpinlock::new(5);
    let guard = lock.lock(0x202);
    let (second, enable) = lock.try_lock(0x202);
    assert!(second.is_none());
    assert!(enable);
    let (third, enable) = lock.try_lock(0x2);
    assert!(third.is_none());
    assert!(!enable);
    *lock.get_mut(&guard) = 6;
    assert_eq!(*lock.get(&guard), 6);
    assert!(lock.unlock(guard));
    let (fourth, enable) = lock.try_lock(0x2);
    assert!(!enable);
    assert!(!lock.unlock(fourth.unwrap()));
}

#[test]
fn lock_can_be_forced() {
    let mut lock = InterruptSpinlock::new(String::from("screen"));
    let _held = lock.lock(0x202);
    let guard = lock.seize(0x2);
    assert_eq!(lock.get(&guard), "screen");
    lock.force_unlock();
    assert!(lock.try_lock(0).0.is_some());
    assert!(interrupts_enabled(0x200));
    assert!(!interrupts_enabled(0xFFFF_FDFF));
}
