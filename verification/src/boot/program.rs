//! The first program: finding, creating and loading it, and what it does.

use vstd::prelude::*;
use vstd::utf8::{encode_utf8, is_ascii_chars_encode_utf8};
use crate::device::{BlockDevice, DeviceState, law_whole_sectors};
use crate::fat::disk::DiskState;
use crate::fat::laws::{TABLE_CLUSTERS, no_zero};
use crate::fat::layout::CLUSTER_SIZE;
use crate::fat::model::insert_outcome;
use crate::fs::check::can_create;
use crate::fs::error::{FsError, error_name};
use crate::fs::healthy::{law_format, law_operations_fit};
use crate::fs::images::{faultless, law_formatted_image, shows};
use crate::fs::kagfat::lemma_simple_is_not_fat;
use crate::fs::laws::{
    absent, consistent, law_create_then_read, lemma_not_found, tidy, within_capacity,
};
use crate::fs::layout::EntryView;
use crate::fs::model::{
    create_fits, create_outcome, find_outcome, format_outcome, formatted, list_outcome, read_fits,
    read_outcome,
};
use crate::fs::{create_file, find_file, is_formatted, is_ready, read_file};
use crate::kef::{LoadResult, load_fits, load_kef, load_outcome};
use crate::memory::frames::FrameAllocator;
use crate::memory::paging::{PagingState, TableMemory, paging_state};
use crate::memory::phys::PhysMemory;
use crate::text::{hex_prefixed, push_hex};

verus! {

/// The name of the first program.
pub open spec fn program_name() -> Seq<u8> {
    encode_utf8("init.kef"@)
}

/// Making the volume ready: whether it is, what is printed, and the volume.
pub open spec fn prepare_outcome(d: DeviceState) -> (bool, Seq<char>, DeviceState) {
    if !d.ready() {
        (false, Seq::empty(), d)
    } else if formatted(d) {
        (true, Seq::empty(), d)
    } else {
        let (r, d1) = format_outcome(d);
        (r is Ok, "FS: FAT volume not formatted. Formatting...\n"@, d1)
    }
}

/// Makes the volume ready: one that is not formatted is formatted.
pub fn prepare_volume(dev: &mut BlockDevice) -> (r: (bool, String))
    ensures
        (r.0, r.1@, final(dev)@) == prepare_outcome(old(dev)@),
{
    if !is_ready(dev) {
        return (false, String::new());
    }
    if is_formatted(dev) {
        return (true, String::new());
    }
    let s = String::from_str("FS: FAT volume not formatted. Formatting...\n");
    match crate::fs::format(dev) {
        Ok(_) => (true, s),
        Err(_) => (false, s),
    }
}

/// A volume that is formatted is never wiped: making it ready writes nothing.
pub proof fn law_formatted_volume_is_kept(d: DeviceState)
    requires
        formatted(d),
    ensures
        prepare_outcome(d).2 == d,
        d.ready() ==> prepare_outcome(d).0,
{
}

/// The volume has the first program.
pub open spec fn has_program(d: DeviceState) -> bool {
    find_outcome(d, program_name()) matches Ok(Some(_))
}

/// The contents of the program that is created where there is none.
pub open spec fn default_program() -> Seq<u8> {
    seq![0u8]
}

/// Seeing to it that the volume has the first program: what is printed, and
/// the volume.
pub open spec fn ensure_outcome(d: DeviceState) -> (Seq<char>, DeviceState) {
    if has_program(d) {
        (Seq::empty(), d)
    } else {
        let (r, d1) = create_outcome(d, program_name(), default_program());
        (
            "FS: init.kef not found. Assembling and creating default init.kef...\n"@ + (match r {
                Ok(_) => "FS: Successfully created init.kef\n"@,
                Err(e) => "FS: Failed to create init.kef: "@ + error_name(e) + "\n"@,
            }),
            d1,
        )
    }
}

/// Sees to it that the volume has the first program.
pub fn ensure_program(dev: &mut BlockDevice) -> (s: String)
    requires
        !has_program(old(dev)@) ==> create_fits(old(dev)@, program_name(), default_program()),
    ensures
        (s@, final(dev)@) == ensure_outcome(old(dev)@),
{
    let exists: bool = match find_file(dev, "init.kef") {
        Ok(Some(_)) => true,
        _ => false,
    };
    if exists {
        return String::new();
    }
    let mut s = String::from_str(
        "FS: init.kef not found. Assembling and creating default init.kef...\n",
    );
    let contents: [u8; 1] = [0u8];
    assert(contents@ =~= default_program());
    match create_file(dev, "init.kef", &contents) {
        Ok(_) => {
            s.append("FS: Successfully created init.kef\n");
        },
        Err(e) => {
            let ghost head = s@;
            s.append("FS: Failed to create init.kef: ");
            s.append(e.name());
            s.append("\n");
            assert(s@ =~= head + ("FS: Failed to create init.kef: "@ + error_name(e) + "\n"@));
        },
    }
    s
}

/// What is printed about loading the program.
pub open spec fn load_text(r: LoadResult) -> Seq<char> {
    match r {
        Ok((entry, rsp)) => "Loader: Successfully loaded init.kef. Entry="@ + hex_prefixed(
            entry as int,
        ) + ", RSP="@ + hex_prefixed(rsp as int) + "\n"@,
        Err(e) => "Loader: Failed to load init.kef: "@ + e + "\n"@,
    }
}

/// Loading the program that `file` holds: where it begins and its stack ends, if
/// it was loaded; what is printed; tables, frames and memory.
pub open spec fn loaded_outcome(file: Seq<u8>, pml4: u64, s: PagingState, m: Map<int, u8>) -> (
    Option<(u64, u64)>,
    Seq<char>,
    PagingState,
    Map<int, u8>,
) {
    let (r, s1, m1) = load_outcome(file, pml4, s, m);
    (
        match r {
            Ok(x) => Some(x),
            Err(_) => None,
        },
        load_text(r),
        s1,
        m1,
    )
}

/// Loading the first program: where it begins and its stack ends, if it was
/// loaded; what is printed; tables, frames and memory.
pub open spec fn start_outcome(d: DeviceState, pml4: u64, s: PagingState, m: Map<int, u8>) -> (
    Option<(u64, u64)>,
    Seq<char>,
    PagingState,
    Map<int, u8>,
) {
    match read_outcome(d, program_name()) {
        Err(e) => (
            None,
            "FS: Failed to read init.kef: "@ + error_name(e) + "\n"@,
            s,
            m,
        ),
        Ok(file) => loaded_outcome(file, pml4, s, m),
    }
}

/// What is printed about loading the program.
fn load_message(r: &Result<(u64, u64), &'static str>) -> (s: String)
    ensures
        s@ == load_text(crate::kef::load_result(*r)),
{
    match r {
        Ok((entry, rsp)) => {
            let mut s = String::from_str("Loader: Successfully loaded init.kef. Entry=");
            push_hex(&mut s, *entry);
            s.append(", RSP=");
            push_hex(&mut s, *rsp);
            s.append("\n");
            s
        },
        Err(e) => {
            let mut s = String::from_str("Loader: Failed to load init.kef: ");
            s.append(e);
            s.append("\n");
            s
        },
    }
}

/// Loads the first program from the volume.
pub fn load_program(
    dev: &BlockDevice,
    allocator: &mut FrameAllocator,
    pml4: u64,
    mem: &mut TableMemory,
    phys: &mut PhysMemory,
) -> (r: (Option<(u64, u64)>, String))
    requires
        old(allocator).wf(),
        read_fits(dev@, program_name()),
        read_outcome(dev@, program_name()) matches Ok(file) ==> load_fits(
            file,
            pml4,
            paging_state(old(mem), old(allocator)),
        ),
    ensures
        final(allocator).wf(),
        final(allocator).regions() == old(allocator).regions(),
        final(allocator).layout() == old(allocator).layout(),
        (r.0, r.1@, paging_state(final(mem), final(allocator)), final(phys)@) == start_outcome(
            dev@,
            pml4,
            paging_state(old(mem), old(allocator)),
            old(phys)@,
        ),
{
    match read_file(dev, "init.kef") {
        Err(e) => {
            let mut s = String::from_str("FS: Failed to read init.kef: ");
            s.append(e.name());
            s.append("\n");
            (None, s)
        },
        Ok(file) => {
            let r = load_kef(&file, allocator, pml4, mem, phys);
            let s = load_message(&r);
            match r {
                Ok(x) => (Some(x), s),
                Err(_) => (None, s),
            }
        },
    }
}

/// Making the volume ready and seeing to it that the first program is there:
/// whether the program can be loaded, what is printed, and the volume.
pub open spec fn provide_outcome(d: DeviceState) -> (bool, Seq<char>, DeviceState) {
    let (ready, t0, d1) = prepare_outcome(d);
    if !ready {
        (false, t0, d1)
    } else {
        let (t1, d2) = ensure_outcome(d1);
        (true, t0 + t1, d2)
    }
}

/// No number overflows on the way.
pub open spec fn provide_fits(d: DeviceState) -> bool {
    d.ready() && formatted(d) && !has_program(d) ==> create_fits(
        d,
        program_name(),
        default_program(),
    )
}

/// Whether no number overflows when the first program is provided.
pub fn can_provide(dev: &BlockDevice) -> (b: bool)
    ensures
        b == provide_fits(dev@),
{
    if !is_ready(dev) || !is_formatted(dev) {
        return true;
    }
    match find_file(dev, "init.kef") {
        Ok(Some(_)) => true,
        _ => {
            let contents: [u8; 1] = [0u8];
            assert(contents@ =~= default_program());
            can_create(dev, "init.kef", &contents)
        },
    }
}

/// Formatting leaves room for the first program.
proof fn lemma_room_after_format(d: DeviceState)
    requires
        d.wf(),
        format_outcome(d).0 is Ok,
    ensures
        create_fits(format_outcome(d).1, program_name(), default_program()),
{
    law_format(d, program_name());
    law_operations_fit(format_outcome(d).1, program_name(), default_program());
}

/// Makes the volume ready and sees to it that the first program is there;
/// whether the program can be loaded, and what is printed.
pub fn provide_program(dev: &mut BlockDevice) -> (r: (bool, String))
    requires
        provide_fits(old(dev)@),
    ensures
        (r.0, r.1@, final(dev)@) == provide_outcome(old(dev)@),
{
    proof {
        law_whole_sectors(dev);
        if dev@.ready() && !formatted(dev@) && format_outcome(dev@).0 is Ok {
            lemma_room_after_format(dev@);
        }
    }
    let (ready, mut text) = prepare_volume(dev);
    if !ready {
        return (false, text);
    }
    let created = ensure_program(dev);
    text.append(created.as_str());
    (true, text)
}

/// The name of the first program is one that every volume takes.
proof fn lemma_program_name()
    ensures
        program_name().len() == 8,
        no_zero(program_name()),
{
    reveal_strlit("init.kef");
    is_ascii_chars_encode_utf8("init.kef"@);
}

/// A program that was inserted into a freshly formatted disk image is what the
/// kernel loads from it, and the volume stays as it is.
pub proof fn law_inserted_program_is_loaded(
    d: DeviceState,
    disk: DiskState,
    file: Seq<u8>,
    pml4: u64,
    s: PagingState,
    m: Map<int, u8>,
)
    requires
        file.len() <= (TABLE_CLUSTERS - 2) * CLUSTER_SIZE,
        shows(d, insert_outcome(crate::fat::model::format_outcome(disk), program_name(), file).1),
        faultless(d),
    ensures
        provide_outcome(d) == (true, Seq::<char>::empty(), d),
        start_outcome(d, pml4, s, m) == loaded_outcome(file, pml4, s, m),
{
    lemma_program_name();
    law_formatted_image(d, disk, program_name(), file);
    assert(Seq::<char>::empty() + Seq::<char>::empty() =~= Seq::<char>::empty());
}

/// The message of the panic that ends the start where no program was loaded.
pub fn halt_message() -> (s: &'static str)
    ensures
        s@ == "Failed to load user-mode init process. System halted."@,
{
    "Failed to load user-mode init process. System halted."
}

// ---------------------------------------------------------------------------
// What the program does
// ---------------------------------------------------------------------------

/// The text that the program begins with.
pub fn banner() -> (s: &'static str)
    ensures
        s@ == "\n=========================================\n🦀 Hello from Rust User Mode (Ring 3)! 🦀\n=========================================\ninit.kef loaded and executed successfully.\nPress any key to trigger shutdown...\n"@,
{
    "\n=========================================\n🦀 Hello from Rust User Mode (Ring 3)! 🦀\n=========================================\ninit.kef loaded and executed successfully.\nPress any key to trigger shutdown...\n"
}

/// What the program does next.
#[derive(Debug, Clone, Copy, PartialEq, Eq, Structural)]
pub enum ProgramStep {
    /// Give way to other tasks, let the kernel look for keys, and ask for one.
    PollAgain,
    /// Say goodbye and shut the system down.
    Shutdown,
}

/// Goes on after the program asked for a key; zero stands for none.
pub fn after_key(key: usize) -> (s: ProgramStep)
    ensures
        s == (if key != 0 {
            ProgramStep::Shutdown
        } else {
            ProgramStep::PollAgain
        }),
{
    if key != 0 {
        ProgramStep::Shutdown
    } else {
        ProgramStep::PollAgain
    }
}

/// The text that the program ends with.
pub fn farewell() -> (s: &'static str)
    ensures
        s@ == "\nShutting down the system. Goodbye!\n"@,
{
    "\nShutting down the system. Goodbye!\n"
}

/// Where a panic's message goes.
#[derive(Debug, Clone, Copy, PartialEq, Eq, Structural)]
pub enum PanicRoute {
    /// By a system call, since the code runs in user mode.
    SystemCall,
    /// To the kernel's console.
    Console,
}

/// Where a panic's message goes, from the code segment that was running.
pub fn panic_route(cs: u16) -> (r: PanicRoute)
    ensures
        r == (if cs % 4 == 3 {
            PanicRoute::SystemCall
        } else {
            PanicRoute::Console
        }),
{
    if cs % 4 == 3 {
        PanicRoute::SystemCall
    } else {
        PanicRoute::Console
    }
}

/// The first program is called `init.kef`.
pub proof fn law_program_name()
    ensures
        program_name() == seq![
            'i' as u8,
            'n' as u8,
            'i' as u8,
            't' as u8,
            '.' as u8,
            'k' as u8,
            'e' as u8,
            'f' as u8,
        ],
{
    reveal_strlit("init.kef");
    is_ascii_chars_encode_utf8("init.kef"@);
    assert(program_name() =~= seq![
        'i' as u8,
        'n' as u8,
        'i' as u8,
        't' as u8,
        '.' as u8,
        'k' as u8,
        'e' as u8,
        'f' as u8,
    ]);
}

/// Without a device nothing is provided and nothing changes; a volume that has
/// the program stays as it is, and nothing is printed.
pub proof fn law_program_is_kept(d: DeviceState)
    ensures
        d.nsid is None ==> provide_outcome(d) == (false, Seq::<char>::empty(), d),
        d.nsid is Some && formatted(d) && (find_outcome(d, program_name()) matches Ok(Some(_)))
            ==> provide_outcome(d) == (true, Seq::<char>::empty(), d),
{
    assert(Seq::<char>::empty() + Seq::<char>::empty() =~= Seq::<char>::empty());
}

/// On a device that holds no volume the program is provided on a new one, as a
/// file of one zero byte: where formatting and creating it work, it can be read,
/// and no other file can.
pub proof fn law_program_is_created(d: DeviceState, p: Seq<u8>)
    requires
        d.wf(),
        d.nsid is Some,
        !formatted(d),
        format_outcome(d).0 is Ok,
        create_outcome(format_outcome(d).1, program_name(), seq![0u8]).0 is Ok,
    ensures
        ({
            let (ok, text, d1) = provide_outcome(d);
            &&& ok
            &&& text == "FS: FAT volume not formatted. Formatting...\n"@ + (
            "FS: init.kef not found. Assembling and creating default init.kef...\n"@
                + "FS: Successfully created init.kef\n"@)
            &&& read_outcome(d1, program_name()) == Ok::<Seq<u8>, FsError>(seq![0u8])
            &&& p != program_name() && 1 <= p.len() <= 46 ==> read_outcome(d1, p) == Err::<
                Seq<u8>,
                FsError,
            >(FsError::FileNotFound)
        }),
{
    let d0 = format_outcome(d).1;
    lemma_program_name();
    law_format(d, program_name());
    law_format(d, p);
    law_create_then_read(d0, program_name(), seq![0u8], p);
    assert(crate::fs::laws::no_zero(program_name()));
    lemma_nothing_there(d0, program_name());
    if 1 <= p.len() <= 46 {
        lemma_nothing_there(d0, p);
    }
}

/// A listed volume without files finds no name.
proof fn lemma_nothing_there(d: DeviceState, q: Seq<u8>)
    requires
        consistent(d),
        absent(d, q),
        list_outcome(d) is Ok,
        1 <= q.len() <= 46,
    ensures
        find_outcome(d, q) == Ok::<Option<(usize, EntryView)>, FsError>(None),
        read_outcome(d, q) == Err::<Seq<u8>, FsError>(FsError::FileNotFound),
{
    lemma_not_found(d, q);
    lemma_simple_is_not_fat(d);
}

/// A program that cannot be read is not loaded: the error is printed, and tables,
/// frames and memory stay. One that is read is loaded as its file says, with the
/// two addresses or the reason in the line that is printed.
pub proof fn law_program_loading(d: DeviceState, pml4: u64, s: PagingState, m: Map<int, u8>)
    ensures
        read_outcome(d, program_name()) matches Err(e) ==> start_outcome(d, pml4, s, m) == (
            None::<(u64, u64)>,
            "FS: Failed to read init.kef: "@ + error_name(e) + "\n"@,
            s,
            m,
        ),
        read_outcome(d, program_name()) matches Ok(file) ==> {
            let (r, text, s1, m1) = start_outcome(d, pml4, s, m);
            let (x, s2, m2) = load_outcome(file, pml4, s, m);
            &&& s1 == s2 && m1 == m2
            &&& x matches Ok((entry, rsp)) ==> r == Some((entry, rsp)) && text
                == "Loader: Successfully loaded init.kef. Entry="@ + hex_prefixed(entry as int)
                + ", RSP="@ + hex_prefixed(rsp as int) + "\n"@
            &&& x matches Err(e) ==> r is None && text == "Loader: Failed to load init.kef: "@ + e
                + "\n"@
        },
{
}

/// The first program can be provided on a device without a volume and on every
/// sound and tidy volume.
pub proof fn law_provide_fits(d: DeviceState)
    ensures
        d.nsid is None || !formatted(d) ==> provide_fits(d),
        consistent(d) && tidy(d) && within_capacity(d) ==> provide_fits(d),
{
    if consistent(d) && tidy(d) && within_capacity(d) {
        law_operations_fit(d, program_name(), default_program());
    }
}

} // verus!
