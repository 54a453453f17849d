//! Which system call does what.

use vstd::prelude::*;
use vstd::utf8::{
    decode_utf8, decode_utf8_encode_utf8, encode_utf8, encode_utf8_decode_utf8,
    encode_utf8_valid_utf8, valid_utf8,
};
use crate::acpi::layout::readable;
use crate::device::{BLOCK_SIZE, BlockDevice, DeviceState};
use crate::fs::check::{can_create, can_delete, can_read};
use crate::fs::healthy::law_operations_fit;
use crate::fs::laws::{consistent, tidy, within_capacity};
use crate::fs::model::{create_fits, format_outcome, read_fits, remove_fits};
use crate::memory::phys::{PhysMemory, bytes_at};
use crate::syscall::files::{
    RECORD_STRIDE, fsls_outcome, fsread_outcome, fsrm_outcome, fswrite_outcome, sys_fsformat,
    sys_fsls, sys_fsread, sys_fsrm, sys_fswrite, unit_result,
};
use crate::text::{
    decimal, describe_utf8_error, hex, hex_prefixed, push_decimal, push_hex, text_from_utf8,
    utf8_error_text,
};

verus! {

/// Bytes of the stack that a new user task is given.
pub const TASK_STACK_SIZE: usize = 16384;

/// What the rest of the kernel has to do for a call.
#[derive(Debug, Clone, Copy, PartialEq, Eq, Structural)]
pub enum Request {
    Alloc { size: usize, align: usize },
    Free { ptr: usize },
    AddTask { entry: usize, user_rsp: usize, stack_size: usize },
    SwitchTask,
    TerminateTask { exit_code: usize },
    PollKeyboard,
    Shutdown,
    ReadKey,
    Clear,
    Realloc { ptr: usize, size: usize, align: usize },
    TaskStatus { task_id: usize },
    TaskExitCode { task_id: usize },
    RunApScheduler,
}

/// How a call goes on.
pub enum Dispatch {
    /// It is done and returns this.
    Done(usize),
    /// This is printed, then it returns this.
    Print(String, usize),
    /// This has to be done first; [`reply`] tells what it returns.
    Perform(Request),
}

/// The mathematical value of a [`Dispatch`].
pub enum DispatchView {
    Done(int),
    Print(Seq<char>, int),
    Perform(Request),
}

impl View for Dispatch {
    type V = DispatchView;

    open spec fn view(&self) -> DispatchView {
        match self {
            Dispatch::Done(n) => DispatchView::Done(*n as int),
            Dispatch::Print(s, n) => DispatchView::Print(s@, *n as int),
            Dispatch::Perform(r) => DispatchView::Perform(*r),
        }
    }
}

/// What a call returns once `request` has been done with the given result:
/// calls that ask for something return it, the others return zero.
pub open spec fn reply_value(request: Request, result: usize) -> usize {
    match request {
        Request::Alloc { .. } => result,
        Request::AddTask { .. } => result,
        Request::ReadKey => result,
        Request::Realloc { .. } => result,
        Request::TaskStatus { .. } => result,
        Request::TaskExitCode { .. } => result,
        _ => 0,
    }
}

/// What a call returns once `request` has been done with the given result.
pub fn reply(request: &Request, result: usize) -> (n: usize)
    ensures
        n == reply_value(*request, result),
{
    match request {
        Request::Alloc { .. } => result,
        Request::AddTask { .. } => result,
        Request::ReadKey => result,
        Request::Realloc { .. } => result,
        Request::TaskStatus { .. } => result,
        Request::TaskExitCode { .. } => result,
        _ => 0,
    }
}

/// The result of looking for a key: its code, or zero where there is none.
pub fn key_result(key: Option<u8>) -> (n: usize)
    ensures
        n == (match key {
            Some(k) => k as int,
            None => 0,
        }),
{
    match key {
        Some(k) => k as usize,
        None => 0,
    }
}

// ---------------------------------------------------------------------------
// Memory
// ---------------------------------------------------------------------------

/// The alignment that is meant: eight where none is asked for.
pub open spec fn meant_align(align: usize) -> usize {
    if align == 0 {
        8
    } else {
        align
    }
}

/// `size` bytes at a multiple of `align` can be asked of an allocator: the
/// alignment is a power of two, and the size, rounded up to it, stays in range.
pub open spec fn layout_ok(size: usize, align: usize) -> bool {
    align != 0 && align & ((align - 1) as usize) == 0 && size + (align - 1) <= isize::MAX
}

fn valid_layout(size: usize, align: usize) -> (ok: bool)
    ensures
        ok == layout_ok(size, align),
{
    if align == 0 || align & (align - 1) != 0 {
        return false;
    }
    let limit: usize = isize::MAX as usize;
    align - 1 <= limit && size <= limit - (align - 1)
}

/// Asking for memory.
pub open spec fn alloc_dispatch(size: usize, align: usize) -> DispatchView {
    if layout_ok(size, meant_align(align)) {
        DispatchView::Perform(Request::Alloc { size, align: meant_align(align) })
    } else {
        DispatchView::Done(0)
    }
}

/// Asks for memory.
pub fn sys_alloc(size: usize, align: usize) -> (r: Dispatch)
    ensures
        r@ == alloc_dispatch(size, align),
{
    let align: usize = if align == 0 {
        8
    } else {
        align
    };
    if valid_layout(size, align) {
        Dispatch::Perform(Request::Alloc { size, align })
    } else {
        Dispatch::Done(0)
    }
}

/// Asking for memory of another size.
pub open spec fn realloc_dispatch(ptr: usize, size: usize, align: usize) -> DispatchView {
    if layout_ok(size, meant_align(align)) {
        DispatchView::Perform(Request::Realloc { ptr, size, align: meant_align(align) })
    } else {
        DispatchView::Done(0)
    }
}

/// Asks for memory of another size.
pub fn sys_realloc(ptr: usize, size: usize, align: usize) -> (r: Dispatch)
    ensures
        r@ == realloc_dispatch(ptr, size, align),
{
    let align: usize = if align == 0 {
        8
    } else {
        align
    };
    if valid_layout(size, align) {
        Dispatch::Perform(Request::Realloc { ptr, size, align })
    } else {
        Dispatch::Done(0)
    }
}

// ---------------------------------------------------------------------------
// Printing
// ---------------------------------------------------------------------------

/// The complaint about `len` bytes at `ptr` that begin with `byte` and are no
/// text; `err` says why.
pub open spec fn complaint(ptr: usize, len: int, byte: u8, err: Seq<char>) -> Seq<char> {
    "(sys_print: invalid utf8, ptr="@ + hex_prefixed(ptr as int) + ", len="@ + decimal(len)
        + ", byte="@ + hex_prefixed(byte as int) + ", err="@ + err + ")"@
}

/// The complaint about bytes that are no text.
pub fn invalid_text(ptr: usize, len: usize, byte: u8, err: &str) -> (s: String)
    ensures
        s@ == complaint(ptr, len as int, byte, err@),
{
    let mut s = String::from_str("(sys_print: invalid utf8, ptr=");
    push_hex(&mut s, ptr as u64);
    s.append(", len=");
    push_decimal(&mut s, len as u64);
    s.append(", byte=");
    push_hex(&mut s, byte as u64);
    s.append(", err=");
    s.append(err);
    s.append(")");
    s
}

/// What printing these bytes, which stand at `ptr`, puts on the console.
pub open spec fn printed(ptr: usize, bytes: Seq<u8>) -> Seq<char> {
    if valid_utf8(bytes) {
        decode_utf8(bytes)
    } else {
        complaint(ptr, bytes.len() as int, bytes[0], utf8_error_text(bytes))
    }
}

/// The text of a print call.
pub fn sys_print(user: &PhysMemory, ptr: usize, len: usize) -> (s: String)
    requires
        readable(user@, ptr as int, len as int),
    ensures
        s@ == printed(ptr, bytes_at(user@, ptr as int, len as int)),
{
    let bytes = user.read(ptr as u64, len);
    match text_from_utf8(&bytes) {
        Some(text) => String::from_str(text),
        None => {
            assert(bytes@.len() > 0) by {
                reveal_with_fuel(valid_utf8, 2);
            }
            let err = describe_utf8_error(&bytes);
            invalid_text(ptr, len, bytes[0], err.as_str())
        },
    }
}

// ---------------------------------------------------------------------------
// All calls
// ---------------------------------------------------------------------------

/// The numbers of a call, as the entry code hands them on.
#[derive(Debug, Clone, Copy, PartialEq, Eq, Structural)]
pub struct SyscallArgs {
    pub id: usize,
    pub arg1: usize,
    pub arg2: usize,
    pub arg3: usize,
    pub arg4: usize,
}

/// What the arguments of a call point to can be read, and what it writes has
/// an address.
pub open spec fn arguments_fit(c: SyscallArgs, m: Map<int, u8>) -> bool {
    &&& c.id == 1 || 16 <= c.id <= 18 ==> readable(m, c.arg1 as int, c.arg2 as int)
    &&& c.id == 15 && c.arg1 != 0 ==> c.arg1 + RECORD_STRIDE * c.arg2 <= u64::MAX
    &&& c.id == 16 ==> readable(m, c.arg3 as int, c.arg4 as int) && c.arg4 + BLOCK_SIZE
        <= usize::MAX
}

/// What a call works on can be read, and no number it computes leaves its
/// range.
pub open spec fn call_fits(c: SyscallArgs, d: DeviceState, m: Map<int, u8>) -> bool {
    let first = bytes_at(m, c.arg1 as int, c.arg2 as int);
    &&& arguments_fit(c, m)
    &&& c.id == 16 && valid_utf8(first) ==> create_fits(
        d,
        first,
        bytes_at(m, c.arg3 as int, c.arg4 as int),
    )
    &&& c.id == 17 && valid_utf8(first) ==> read_fits(d, first)
    &&& c.id == 18 && valid_utf8(first) ==> remove_fits(d, first)
}

/// Whether the volume lets a call keep every number in range.
pub fn can_call(c: &SyscallArgs, dev: &BlockDevice, user: &PhysMemory) -> (b: bool)
    requires
        arguments_fit(*c, user@),
    ensures
        b == call_fits(*c, dev@, user@),
{
    if c.id < 16 || c.id > 18 {
        return true;
    }
    let name = user.read(c.arg1 as u64, c.arg2);
    match text_from_utf8(&name) {
        None => true,
        Some(filename) => {
            proof {
                decode_utf8_encode_utf8(name@);
            }
            if c.id == 16 {
                let content = user.read(c.arg3 as u64, c.arg4);
                can_create(dev, filename, &content)
            } else if c.id == 17 {
                can_read(dev, filename)
            } else {
                can_delete(dev, filename)
            }
        },
    }
}

/// The outcome of a call: how it goes on, the volume, and user memory.
pub open spec fn call_outcome(c: SyscallArgs, d: DeviceState, m: Map<int, u8>) -> (
    DispatchView,
    DeviceState,
    Map<int, u8>,
) {
    let first = bytes_at(m, c.arg1 as int, c.arg2 as int);
    match c.id {
        1 => (DispatchView::Print(printed(c.arg1, first), 0), d, m),
        2 => (alloc_dispatch(c.arg1, c.arg2), d, m),
        3 => (DispatchView::Perform(Request::Free { ptr: c.arg1 }), d, m),
        4 => (
            DispatchView::Perform(
                Request::AddTask {
                    entry: c.arg1,
                    user_rsp: c.arg2,
                    stack_size: TASK_STACK_SIZE,
                },
            ),
            d,
            m,
        ),
        5 => (DispatchView::Perform(Request::SwitchTask), d, m),
        6 => (DispatchView::Perform(Request::TerminateTask { exit_code: c.arg1 }), d, m),
        9 => (DispatchView::Perform(Request::PollKeyboard), d, m),
        10 => (DispatchView::Perform(Request::Shutdown), d, m),
        11 => (DispatchView::Perform(Request::ReadKey), d, m),
        12 => (DispatchView::Perform(Request::Clear), d, m),
        13 => (realloc_dispatch(c.arg1, c.arg2, c.arg3), d, m),
        14 => {
            let (r, d1) = format_outcome(d);
            (DispatchView::Done(unit_result(r)), d1, m)
        },
        15 => {
            let (n, m1) = fsls_outcome(d, m, c.arg1, c.arg2);
            (DispatchView::Done(n), d, m1)
        },
        16 => {
            let (n, d1) = fswrite_outcome(d, first, bytes_at(m, c.arg3 as int, c.arg4 as int));
            (DispatchView::Done(n), d1, m)
        },
        17 => {
            let (n, m1) = fsread_outcome(d, m, first, c.arg3, c.arg4);
            (DispatchView::Done(n), d, m1)
        },
        18 => {
            let (n, d1) = fsrm_outcome(d, first);
            (DispatchView::Done(n), d1, m)
        },
        19 => (DispatchView::Perform(Request::TaskStatus { task_id: c.arg1 }), d, m),
        20 => (DispatchView::Perform(Request::TaskExitCode { task_id: c.arg1 }), d, m),
        21 => (DispatchView::Perform(Request::RunApScheduler), d, m),
        _ => (
            DispatchView::Print(
                "Unknown syscall: "@ + decimal(c.id as int) + "\n"@,
                usize::MAX as int,
            ),
            d,
            m,
        ),
    }
}

/// Takes a system call.
pub fn syscall_dispatcher_impl(c: &SyscallArgs, dev: &mut BlockDevice, user: &mut PhysMemory) -> (r:
    Dispatch)
    requires
        call_fits(*c, old(dev)@, old(user)@),
    ensures
        (r@, final(dev)@, final(user)@) == call_outcome(*c, old(dev)@, old(user)@),
{
    match c.id {
        1 => Dispatch::Print(sys_print(user, c.arg1, c.arg2), 0),
        2 => sys_alloc(c.arg1, c.arg2),
        3 => Dispatch::Perform(Request::Free { ptr: c.arg1 }),
        4 => Dispatch::Perform(
            Request::AddTask { entry: c.arg1, user_rsp: c.arg2, stack_size: TASK_STACK_SIZE },
        ),
        5 => Dispatch::Perform(Request::SwitchTask),
        6 => Dispatch::Perform(Request::TerminateTask { exit_code: c.arg1 }),
        9 => Dispatch::Perform(Request::PollKeyboard),
        10 => Dispatch::Perform(Request::Shutdown),
        11 => Dispatch::Perform(Request::ReadKey),
        12 => Dispatch::Perform(Request::Clear),
        13 => sys_realloc(c.arg1, c.arg2, c.arg3),
        14 => Dispatch::Done(sys_fsformat(dev)),
        15 => Dispatch::Done(sys_fsls(dev, user, c.arg1, c.arg2)),
        16 => Dispatch::Done(sys_fswrite(dev, user, c.arg1, c.arg2, c.arg3, c.arg4)),
        17 => Dispatch::Done(sys_fsread(dev, user, c.arg1, c.arg2, c.arg3, c.arg4)),
        18 => Dispatch::Done(sys_fsrm(dev, user, c.arg1, c.arg2)),
        19 => Dispatch::Perform(Request::TaskStatus { task_id: c.arg1 }),
        20 => Dispatch::Perform(Request::TaskExitCode { task_id: c.arg1 }),
        21 => Dispatch::Perform(Request::RunApScheduler),
        _ => {
            let mut s = String::from_str("Unknown syscall: ");
            push_decimal(&mut s, c.id as u64);
            s.append("\n");
            Dispatch::Print(s, usize::MAX)
        },
    }
}

// ---------------------------------------------------------------------------
// What holds of the calls
// ---------------------------------------------------------------------------

/// `n` is a power of two.
pub open spec fn power_of_two(n: usize) -> bool {
    exists|k: nat| #[trigger] vstd::arithmetic::power2::pow2(k) == n
}

/// Clearing the lowest bit that is set leaves nothing exactly of a power of
/// two.
proof fn lemma_power_of_two(n: usize)
    requires
        n > 0,
    ensures
        power_of_two(n) <==> n & ((n - 1) as usize) == 0,
    decreases n,
{
    vstd::arithmetic::power2::lemma2_to64();
    let half = (n / 2) as usize;
    assert(n >= 2 ==> (n % 2 == 0 && (n & ((n - 1) as usize) == 0 <==> (n / 2) & (((n / 2) - 1)
        as usize) == 0)) || (n % 2 == 1 && n & ((n - 1) as usize) != 0)) by (bit_vector);
    assert(1usize & 0usize == 0) by (bit_vector);
    if n == 1 {
        assert(vstd::arithmetic::power2::pow2(0) == n);
    } else {
        lemma_power_of_two(half);
        if power_of_two(n) {
            let k = choose|k: nat| #[trigger] vstd::arithmetic::power2::pow2(k) == n;
            assert(k > 0);
            vstd::arithmetic::power2::lemma_pow2_unfold(k);
            assert(vstd::arithmetic::power2::pow2((k - 1) as nat) == half);
        }
        if n % 2 == 0 && power_of_two(half) {
            let k = choose|k: nat| #[trigger] vstd::arithmetic::power2::pow2(k) == half;
            vstd::arithmetic::power2::lemma_pow2_unfold(k + 1);
            assert(vstd::arithmetic::power2::pow2(k + 1) == n);
        }
    }
}

/// Call 2 asks for `size` bytes at a multiple of `align`, or of eight where
/// `align` is zero. It goes on with just these two numbers where the alignment
/// is a power of two and the size, rounded up, stays in range; else it returns
/// zero. The volume and user memory stay.
pub proof fn law_alloc_call(c: SyscallArgs, d: DeviceState, m: Map<int, u8>)
    requires
        c.id == 2,
    ensures
        ({
            let size = c.arg1;
            let align = if c.arg2 == 0 {
                8
            } else {
                c.arg2
            };
            call_outcome(c, d, m) == (
                if power_of_two(align) && size + align - 1 <= isize::MAX {
                    DispatchView::Perform(Request::Alloc { size, align })
                } else {
                    DispatchView::Done(0)
                },
                d,
                m,
            )
        }),
{
    lemma_power_of_two(if c.arg2 == 0 {
        8
    } else {
        c.arg2
    });
}

/// Call 13 asks for the memory at its first argument to have the size in its
/// second, at the alignment in its third, under the same conditions as a first
/// request.
pub proof fn law_realloc_call(c: SyscallArgs, d: DeviceState, m: Map<int, u8>)
    requires
        c.id == 13,
    ensures
        ({
            let size = c.arg2;
            let align = if c.arg3 == 0 {
                8
            } else {
                c.arg3
            };
            call_outcome(c, d, m) == (
                if power_of_two(align) && size + align - 1 <= isize::MAX {
                    DispatchView::Perform(Request::Realloc { ptr: c.arg1, size, align })
                } else {
                    DispatchView::Done(0)
                },
                d,
                m,
            )
        }),
{
    lemma_power_of_two(if c.arg3 == 0 {
        8
    } else {
        c.arg3
    });
}

/// The calls on tasks, the keyboard, the screen and power, and the call that
/// frees memory, each ask for one thing: freeing and ending a task and asking
/// after one are about the first argument, and a new task begins at the first
/// with its stack at the second. The volume and user memory stay.
pub proof fn law_task_calls(c: SyscallArgs, d: DeviceState, m: Map<int, u8>)
    ensures
        ({
            let r = call_outcome(c, d, m);
            &&& c.id == 3 ==> r == (DispatchView::Perform(Request::Free { ptr: c.arg1 }), d, m)
            &&& c.id == 4 ==> r == (
                DispatchView::Perform(
                    Request::AddTask { entry: c.arg1, user_rsp: c.arg2, stack_size: 16384 },
                ),
                d,
                m,
            )
            &&& c.id == 5 ==> r == (DispatchView::Perform(Request::SwitchTask), d, m)
            &&& c.id == 6 ==> r == (
                DispatchView::Perform(Request::TerminateTask { exit_code: c.arg1 }),
                d,
                m,
            )
            &&& c.id == 9 ==> r == (DispatchView::Perform(Request::PollKeyboard), d, m)
            &&& c.id == 10 ==> r == (DispatchView::Perform(Request::Shutdown), d, m)
            &&& c.id == 11 ==> r == (DispatchView::Perform(Request::ReadKey), d, m)
            &&& c.id == 12 ==> r == (DispatchView::Perform(Request::Clear), d, m)
            &&& c.id == 19 ==> r == (
                DispatchView::Perform(Request::TaskStatus { task_id: c.arg1 }),
                d,
                m,
            )
            &&& c.id == 20 ==> r == (
                DispatchView::Perform(Request::TaskExitCode { task_id: c.arg1 }),
                d,
                m,
            )
            &&& c.id == 21 ==> r == (DispatchView::Perform(Request::RunApScheduler), d, m)
        }),
{
}

/// No number but those of the calls is taken: each other one is reported, with
/// the number, and returns the largest value. Nothing changes.
pub proof fn law_unknown_call(c: SyscallArgs, d: DeviceState, m: Map<int, u8>)
    requires
        c.id == 0 || c.id == 7 || c.id == 8 || c.id > 21,
    ensures
        call_outcome(c, d, m) == (
            DispatchView::Print(
                "Unknown syscall: "@ + decimal(c.id as int) + "\n"@,
                usize::MAX as int,
            ),
            d,
            m,
        ),
{
}

/// Text that lies in user memory is printed as it is, and the call returns
/// zero; bytes that are no text are complained of, with their address, their
/// number and the first of them.
pub proof fn law_print_call(c: SyscallArgs, d: DeviceState, m: Map<int, u8>, text: Seq<char>)
    requires
        c.id == 1,
    ensures
        bytes_at(m, c.arg1 as int, c.arg2 as int) == encode_utf8(text) ==> call_outcome(c, d, m)
            == (DispatchView::Print(text, 0), d, m),
        !valid_utf8(bytes_at(m, c.arg1 as int, c.arg2 as int)) ==> call_outcome(c, d, m) == (
            DispatchView::Print(
                "(sys_print: invalid utf8, ptr=0x"@ + hex(c.arg1 as int) + ", len="@ + decimal(
                    c.arg2 as int,
                ) + ", byte=0x"@ + hex(m[c.arg1 as int] as int) + ", err="@ + utf8_error_text(
                    bytes_at(m, c.arg1 as int, c.arg2 as int),
                ) + ")"@,
                0,
            ),
            d,
            m,
        ),
{
    let bytes = bytes_at(m, c.arg1 as int, c.arg2 as int);
    if bytes == encode_utf8(text) {
        encode_utf8_valid_utf8(text);
        encode_utf8_decode_utf8(text);
    }
    if !valid_utf8(bytes) {
        assert(bytes.len() > 0) by {
            reveal_with_fuel(valid_utf8, 2);
        }
        reveal_strlit("0x");
        reveal_strlit("(sys_print: invalid utf8, ptr=0x");
        reveal_strlit("(sys_print: invalid utf8, ptr=");
        reveal_strlit(", byte=0x");
        reveal_strlit(", byte=");
        assert("(sys_print: invalid utf8, ptr=0x"@ =~= "(sys_print: invalid utf8, ptr="@ + "0x"@);
        assert(", byte=0x"@ =~= ", byte="@ + "0x"@);
        let x = call_outcome(c, d, m).0->Print_0;
        assert(x =~= "(sys_print: invalid utf8, ptr=0x"@ + hex(c.arg1 as int) + ", len="@ + decimal(
            c.arg2 as int,
        ) + ", byte=0x"@ + hex(m[c.arg1 as int] as int) + ", err="@ + utf8_error_text(bytes)
            + ")"@);
    }
}

/// A call that asks for memory, a new task, a key or something about a task
/// returns what it is given; every other request returns zero.
pub proof fn law_reply(result: usize, a: usize, b: usize, e: usize)
    ensures
        reply_value(Request::Alloc { size: a, align: b }, result) == result,
        reply_value(Request::Realloc { ptr: e, size: a, align: b }, result) == result,
        reply_value(Request::AddTask { entry: a, user_rsp: b, stack_size: e }, result) == result,
        reply_value(Request::ReadKey, result) == result,
        reply_value(Request::TaskStatus { task_id: a }, result) == result,
        reply_value(Request::TaskExitCode { task_id: a }, result) == result,
        reply_value(Request::Free { ptr: a }, result) == 0,
        reply_value(Request::SwitchTask, result) == 0,
        reply_value(Request::TerminateTask { exit_code: a }, result) == 0,
        reply_value(Request::PollKeyboard, result) == 0,
        reply_value(Request::Shutdown, result) == 0,
        reply_value(Request::Clear, result) == 0,
        reply_value(Request::RunApScheduler, result) == 0,
{
}

/// The file calls: 14 formats; 15 lists into the buffer at its first argument,
/// which takes as many records as its second says. 16, 17 and 18 write, read and
/// delete the file whose name stands at the first argument and is as long as the
/// second says. For writing, the third and fourth say where the contents stand
/// and how long they are, for reading, where the buffer is and how long it is.
/// Listing and reading leave the volume, the others leave user memory.
pub proof fn law_file_calls(c: SyscallArgs, d: DeviceState, m: Map<int, u8>)
    ensures
        ({
            let (r, d1, m1) = call_outcome(c, d, m);
            let name = bytes_at(m, c.arg1 as int, c.arg2 as int);
            &&& c.id == 14 ==> {
                &&& m1 == m
                &&& d1 == format_outcome(d).1
                &&& r == DispatchView::Done(0) <==> format_outcome(d).0 is Ok
            }
            &&& c.id == 15 ==> {
                &&& d1 == d
                &&& (r, m1) == (
                    DispatchView::Done(fsls_outcome(d, m, c.arg1, c.arg2).0),
                    fsls_outcome(d, m, c.arg1, c.arg2).1,
                )
            }
            &&& c.id == 16 ==> {
                let data = bytes_at(m, c.arg3 as int, c.arg4 as int);
                &&& m1 == m
                &&& (r, d1) == (
                    DispatchView::Done(fswrite_outcome(d, name, data).0),
                    fswrite_outcome(d, name, data).1,
                )
            }
            &&& c.id == 17 ==> {
                &&& d1 == d
                &&& (r, m1) == (
                    DispatchView::Done(fsread_outcome(d, m, name, c.arg3, c.arg4).0),
                    fsread_outcome(d, m, name, c.arg3, c.arg4).1,
                )
            }
            &&& c.id == 18 ==> {
                &&& m1 == m
                &&& (r, d1) == (
                    DispatchView::Done(fsrm_outcome(d, name).0),
                    fsrm_outcome(d, name).1,
                )
            }
        }),
{
}

/// Calls but those for printing and for files take any arguments. Where what the
/// arguments point to can be read, a call can be made on any volume, unless it
/// writes, reads or deletes a file; these can be made on every sound and tidy
/// volume.
pub proof fn law_calls_fit(c: SyscallArgs, d: DeviceState, m: Map<int, u8>)
    ensures
        c.id != 1 && !(15 <= c.id <= 18) ==> arguments_fit(c, m),
        c.id == 1 ==> (arguments_fit(c, m) <==> readable(m, c.arg1 as int, c.arg2 as int)),
        arguments_fit(c, m) && !(16 <= c.id <= 18) ==> call_fits(c, d, m),
        arguments_fit(c, m) && consistent(d) && tidy(d) && within_capacity(d) ==> call_fits(c, d, m),
{
    if consistent(d) && tidy(d) && within_capacity(d) {
        law_operations_fit(
            d,
            bytes_at(m, c.arg1 as int, c.arg2 as int),
            bytes_at(m, c.arg3 as int, c.arg4 as int),
        );
    }
}

} // verus!
