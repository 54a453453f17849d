//! What the interrupt handlers print and decide.

use vstd::prelude::*;
use crate::text::{decimal, hex_prefixed, push_decimal, push_hex};

verus! {

/// The registers that an entry stub and the processor push, in the order of
/// their addresses.
#[derive(Debug, Clone, Copy, PartialEq, Eq, Structural)]
pub struct InterruptFrame {
    pub r15: u64,
    pub r14: u64,
    pub r13: u64,
    pub r12: u64,
    pub r11: u64,
    pub r10: u64,
    pub r9: u64,
    pub r8: u64,
    pub rsi: u64,
    pub rdi: u64,
    pub rbp: u64,
    pub rdx: u64,
    pub rcx: u64,
    pub rbx: u64,
    pub rax: u64,
    pub int_no: u64,
    pub err_code: u64,
    pub rip: u64,
    pub cs: u64,
    pub rflags: u64,
    pub rsp: u64,
    pub ss: u64,
}

/// The first vector of the hardware interrupts.
pub const FIRST_IRQ: u64 = 32;

/// What a hardware interrupt leads to: a line on the console, and the
/// interrupt that the controller is told has been dealt with.
pub struct IrqOutcome {
    pub message: Option<String>,
    pub acknowledge: Option<u8>,
}

/// The line that a hardware interrupt with this vector prints.
pub open spec fn irq_message(int_no: u64) -> Option<Seq<char>> {
    if !(32 <= int_no < 48) {
        Some("Invalid IRQ vector: "@ + hex_prefixed(int_no as int) + "\n"@)
    } else if int_no - FIRST_IRQ <= 1 {
        None
    } else {
        Some("Unknown IRQ: "@ + decimal(int_no - FIRST_IRQ) + "\n"@)
    }
}

/// Deals with a hardware interrupt: the timer and the keyboard are silent, the
/// others are reported, and each that exists is acknowledged.
pub fn irq_handler(frame: &InterruptFrame) -> (r: IrqOutcome)
    ensures
        match (r.message, irq_message(frame.int_no)) {
            (Some(s), Some(t)) => s@ == t,
            (None, None) => true,
            _ => false,
        },
        r.acknowledge == (if 32 <= frame.int_no < 48 {
            Some((frame.int_no - FIRST_IRQ) as u8)
        } else {
            None
        }),
{
    let int_no: u64 = frame.int_no;
    if int_no < 32 || int_no >= 48 {
        let mut s = String::from_str("Invalid IRQ vector: ");
        push_hex(&mut s, int_no);
        s.append("\n");
        return IrqOutcome { message: Some(s), acknowledge: None };
    }
    let irq: u64 = int_no - FIRST_IRQ;
    if irq <= 1 {
        IrqOutcome { message: None, acknowledge: Some(irq as u8) }
    } else {
        let mut s = String::from_str("Unknown IRQ: ");
        push_decimal(&mut s, irq);
        s.append("\n");
        IrqOutcome { message: Some(s), acknowledge: Some(irq as u8) }
    }
}

/// The name of exception `n`, which is below 32.
pub open spec fn exception_name(n: int) -> Seq<char> {
    if n == 0 {
        "DIVISION BY ZERO"@
    } else if n == 1 {
        "DEBUG"@
    } else if n == 2 {
        "NON MASKABLE INTERRUPT"@
    } else if n == 3 {
        "BREAKPOINT"@
    } else if n == 4 {
        "INTO DETECTED OVERFLOW"@
    } else if n == 5 {
        "OUT OF BOUNDS"@
    } else if n == 6 {
        "INVALID OPCODE"@
    } else if n == 7 {
        "NO COPROCESSOR"@
    } else if n == 8 {
        "DOUBLE FAULT"@
    } else if n == 9 {
        "COPROCESSOR SEGMENT OVERRUN"@
    } else if n == 10 {
        "BAD TSS"@
    } else if n == 11 {
        "SEGMENT NOT PRESENT"@
    } else if n == 12 {
        "STACK FAULT"@
    } else if n == 13 {
        "GENERAL PROTECTION FAULT"@
    } else if n == 14 {
        "PAGE FAULT"@
    } else if n == 15 {
        "UNKNOWN INTERRUPT"@
    } else if n == 16 {
        "CO-PROCESSOR FAULT"@
    } else if n == 17 {
        "ALIGNMENT CHECK"@
    } else if n == 18 {
        "MACHINE CHECK"@
    } else if n == 19 {
        "SIMD FLOATING POINT EXCEPTION"@
    } else if n == 20 {
        "VIRTUALIZATION EXCEPTION"@
    } else if n == 21 {
        "CONTROL PROTECTION EXCEPTION"@
    } else if n == 28 {
        "HYPervisor INJECTION EXCEPTION"@
    } else if n == 29 {
        "VMX COMMUNICATION EXCEPTION"@
    } else if n == 30 {
        "SECURITY EXCEPTION"@
    } else {
        "RESERVED"@
    }
}

/// The name of exception `n`.
pub fn exception_message(n: u64) -> (s: &'static str)
    requires
        n < 32,
    ensures
        s@ == exception_name(n as int),
{
    match n {
        0 => "DIVISION BY ZERO",
        1 => "DEBUG",
        2 => "NON MASKABLE INTERRUPT",
        3 => "BREAKPOINT",
        4 => "INTO DETECTED OVERFLOW",
        5 => "OUT OF BOUNDS",
        6 => "INVALID OPCODE",
        7 => "NO COPROCESSOR",
        8 => "DOUBLE FAULT",
        9 => "COPROCESSOR SEGMENT OVERRUN",
        10 => "BAD TSS",
        11 => "SEGMENT NOT PRESENT",
        12 => "STACK FAULT",
        13 => "GENERAL PROTECTION FAULT",
        14 => "PAGE FAULT",
        15 => "UNKNOWN INTERRUPT",
        16 => "CO-PROCESSOR FAULT",
        17 => "ALIGNMENT CHECK",
        18 => "MACHINE CHECK",
        19 => "SIMD FLOATING POINT EXCEPTION",
        20 => "VIRTUALIZATION EXCEPTION",
        21 => "CONTROL PROTECTION EXCEPTION",
        28 => "HYPervisor INJECTION EXCEPTION",
        29 => "VMX COMMUNICATION EXCEPTION",
        30 => "SECURITY EXCEPTION",
        _ => "RESERVED",
    }
}

/// The exit code of a task that is ended because of an exception.
pub const FAULT_EXIT_CODE: usize = 0xDEAD;

/// How the kernel goes on after an exception.
#[derive(Debug, Clone, Copy, PartialEq, Eq, Structural)]
pub enum FaultAction {
    /// The task that caused it ends with this exit code.
    TerminateTask(usize),
    /// The processor stops.
    Halt,
}

/// What an exception leads to: lines on the console, and how to go on.
pub struct FaultOutcome {
    pub report: String,
    pub action: FaultAction,
}

/// The exception came from user mode.
pub open spec fn from_user_mode(frame: InterruptFrame) -> bool {
    frame.cs % 4 == 3
}

/// The line that names the exception.
pub open spec fn exception_line(int_no: u64) -> Seq<char> {
    "INTERRUPT: "@ + hex_prefixed(int_no as int) + " "@ + (if int_no < 32 {
        "("@ + exception_name(int_no as int) + ")\n"@
    } else {
        "\n"@
    })
}

/// A line of four registers.
pub open spec fn register_line(
    n1: Seq<char>,
    v1: u64,
    n2: Seq<char>,
    v2: u64,
    n3: Seq<char>,
    v3: u64,
    n4: Seq<char>,
    v4: u64,
) -> Seq<char> {
    n1 + hex_prefixed(v1 as int) + n2 + hex_prefixed(v2 as int) + n3 + hex_prefixed(v3 as int) + n4
        + hex_prefixed(v4 as int) + "\n"@
}

/// What is printed about the exception; a page fault's address is `cr2`.
pub open spec fn exception_report(f: InterruptFrame, cr2: u64) -> Seq<char> {
    "\nEXCEPTION OCCURRED!\n"@ + exception_line(f.int_no) + ("ERROR CODE: "@ + hex_prefixed(
        f.err_code as int,
    ) + "\n"@) + ("RIP: "@ + hex_prefixed(f.rip as int) + "\n"@) + register_line(
        "RAX: "@,
        f.rax,
        "  RBX: "@,
        f.rbx,
        "  RCX: "@,
        f.rcx,
        "  RDX: "@,
        f.rdx,
    ) + register_line(
        "RSI: "@,
        f.rsi,
        "  RDI: "@,
        f.rdi,
        "  RBP: "@,
        f.rbp,
        "  RSP: "@,
        f.rsp,
    ) + (if f.int_no == 14 {
        "CR2 (ADDR): "@ + hex_prefixed(cr2 as int) + "\n"@
    } else {
        Seq::empty()
    }) + (if from_user_mode(f) {
        "Killing user process due to exception.\n"@
    } else {
        Seq::empty()
    })
}

fn push_value_line(out: &mut String, label: &str, v: u64)
    ensures
        final(out)@ == old(out)@ + (label@ + hex_prefixed(v as int) + "\n"@),
{
    out.append(label);
    push_hex(out, v);
    out.append("\n");
    assert(out@ =~= old(out)@ + (label@ + hex_prefixed(v as int) + "\n"@));
}

fn push_exception_line(out: &mut String, int_no: u64)
    ensures
        final(out)@ == old(out)@ + exception_line(int_no),
{
    out.append("INTERRUPT: ");
    push_hex(out, int_no);
    out.append(" ");
    if int_no < 32 {
        out.append("(");
        out.append(exception_message(int_no));
        out.append(")\n");
    } else {
        out.append("\n");
    }
    assert(out@ =~= old(out)@ + exception_line(int_no));
}

fn push_register_line(
    out: &mut String,
    n1: &str,
    v1: u64,
    n2: &str,
    v2: u64,
    n3: &str,
    v3: u64,
    n4: &str,
    v4: u64,
)
    ensures
        final(out)@ == old(out)@ + register_line(n1@, v1, n2@, v2, n3@, v3, n4@, v4),
{
    out.append(n1);
    push_hex(out, v1);
    out.append(n2);
    push_hex(out, v2);
    out.append(n3);
    push_hex(out, v3);
    out.append(n4);
    push_hex(out, v4);
    out.append("\n");
    assert(out@ =~= old(out)@ + register_line(n1@, v1, n2@, v2, n3@, v3, n4@, v4));
}

/// Deals with an exception: reports it, and ends the task that caused it if
/// that ran in user mode; the kernel itself cannot go on.
pub fn exception_handler(frame: &InterruptFrame, cr2: u64) -> (r: FaultOutcome)
    ensures
        r.report@ == exception_report(*frame, cr2),
        r.action == (if from_user_mode(*frame) {
            FaultAction::TerminateTask(FAULT_EXIT_CODE)
        } else {
            FaultAction::Halt
        }),
{
    let mut out = String::from_str("\nEXCEPTION OCCURRED!\n");
    push_exception_line(&mut out, frame.int_no);
    push_value_line(&mut out, "ERROR CODE: ", frame.err_code);
    push_value_line(&mut out, "RIP: ", frame.rip);
    push_register_line(
        &mut out,
        "RAX: ",
        frame.rax,
        "  RBX: ",
        frame.rbx,
        "  RCX: ",
        frame.rcx,
        "  RDX: ",
        frame.rdx,
    );
    push_register_line(
        &mut out,
        "RSI: ",
        frame.rsi,
        "  RDI: ",
        frame.rdi,
        "  RBP: ",
        frame.rbp,
        "  RSP: ",
        frame.rsp,
    );
    if frame.int_no == 14 {
        push_value_line(&mut out, "CR2 (ADDR): ", cr2);
    }
    if frame.cs % 4 == 3 {
        out.append("Killing user process due to exception.\n");
        assert(out@ =~= exception_report(*frame, cr2));
        FaultOutcome { report: out, action: FaultAction::TerminateTask(FAULT_EXIT_CODE) }
    } else {
        assert(out@ =~= exception_report(*frame, cr2));
        FaultOutcome { report: out, action: FaultAction::Halt }
    }
}

/// The line that shows a stack pointer and a value on the stack.
pub fn debug_print_int_no(frame: u64, val: u64) -> (s: String)
    ensures
        s@ == "DEBUG: RSP="@ + hex_prefixed(frame as int) + ", offset120="@ + hex_prefixed(
            val as int,
        ) + "\n"@,
{
    let mut s = String::from_str("DEBUG: RSP=");
    push_hex(&mut s, frame);
    s.append(", offset120=");
    push_hex(&mut s, val);
    s.append("\n");
    s
}

/// The vectors from 32 to 47 are hardware interrupts: of these the first two, the
/// timer and the keyboard, are silent, and the others are reported by their
/// number from 32 on. Other vectors are reported as they are.
pub proof fn law_irq_message(int_no: u64)
    ensures
        int_no == 32 || int_no == 33 ==> irq_message(int_no) is None,
        34 <= int_no <= 47 ==> irq_message(int_no) == Some(
            "Unknown IRQ: "@ + decimal(int_no - 32) + "\n"@,
        ),
        int_no < 32 || int_no > 47 ==> irq_message(int_no) == Some(
            "Invalid IRQ vector: "@ + hex_prefixed(int_no as int) + "\n"@,
        ),
{
}

/// An exception came from user mode exactly where the low two bits of the code
/// segment's selector are both set.
pub proof fn law_from_user_mode(f: InterruptFrame)
    ensures
        from_user_mode(f) <==> f.cs % 2 == 1 && f.cs / 2 % 2 == 1,
{
}

/// Exceptions go by the names of what causes them; those from 22 to 27 and 31 have
/// no cause and share a name.
pub proof fn law_exception_names(n: int)
    requires
        0 <= n < 32,
    ensures
        22 <= n <= 27 || n == 31 ==> exception_name(n) == "RESERVED"@,
        exception_name(0) == "DIVISION BY ZERO"@,
        exception_name(1) == "DEBUG"@,
        exception_name(2) == "NON MASKABLE INTERRUPT"@,
        exception_name(3) == "BREAKPOINT"@,
        exception_name(4) == "INTO DETECTED OVERFLOW"@,
        exception_name(5) == "OUT OF BOUNDS"@,
        exception_name(6) == "INVALID OPCODE"@,
        exception_name(7) == "NO COPROCESSOR"@,
        exception_name(8) == "DOUBLE FAULT"@,
        exception_name(9) == "COPROCESSOR SEGMENT OVERRUN"@,
        exception_name(10) == "BAD TSS"@,
        exception_name(11) == "SEGMENT NOT PRESENT"@,
        exception_name(12) == "STACK FAULT"@,
        exception_name(13) == "GENERAL PROTECTION FAULT"@,
        exception_name(14) == "PAGE FAULT"@,
        exception_name(15) == "UNKNOWN INTERRUPT"@,
        exception_name(16) == "CO-PROCESSOR FAULT"@,
        exception_name(17) == "ALIGNMENT CHECK"@,
        exception_name(18) == "MACHINE CHECK"@,
        exception_name(19) == "SIMD FLOATING POINT EXCEPTION"@,
        exception_name(20) == "VIRTUALIZATION EXCEPTION"@,
        exception_name(21) == "CONTROL PROTECTION EXCEPTION"@,
        exception_name(28) == "HYPervisor INJECTION EXCEPTION"@,
        exception_name(29) == "VMX COMMUNICATION EXCEPTION"@,
        exception_name(30) == "SECURITY EXCEPTION"@,
{
}

/// The report of an exception shows its number, with its name where it has one,
/// its error code, where it happened, and the registers, each behind its own
/// name. A page fault also shows the address that was wanted, and one from user
/// mode says that the task ends.
pub proof fn law_exception_report(f: InterruptFrame, cr2: u64)
    ensures
        ({
            let nothing = Seq::<char>::empty();
            exception_report(f, cr2) == "\nEXCEPTION OCCURRED!\n"@ + ("INTERRUPT: "@ + hex_prefixed(
                f.int_no as int,
            ) + " "@ + (if f.int_no <= 31 {
                "("@ + exception_name(f.int_no as int) + ")\n"@
            } else {
                "\n"@
            })) + ("ERROR CODE: "@ + hex_prefixed(f.err_code as int) + "\n"@) + ("RIP: "@
                + hex_prefixed(f.rip as int) + "\n"@) + ("RAX: "@ + hex_prefixed(f.rax as int)
                + "  RBX: "@ + hex_prefixed(f.rbx as int) + "  RCX: "@ + hex_prefixed(f.rcx as int)
                + "  RDX: "@ + hex_prefixed(f.rdx as int) + "\n"@) + ("RSI: "@ + hex_prefixed(
                f.rsi as int,
            ) + "  RDI: "@ + hex_prefixed(f.rdi as int) + "  RBP: "@ + hex_prefixed(f.rbp as int)
                + "  RSP: "@ + hex_prefixed(f.rsp as int) + "\n"@) + (if f.int_no == 14 {
                "CR2 (ADDR): "@ + hex_prefixed(cr2 as int) + "\n"@
            } else {
                nothing
            }) + (if f.cs % 4 == 3 {
                "Killing user process due to exception.\n"@
            } else {
                nothing
            })
        }),
{
}

} // verus!
