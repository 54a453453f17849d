//! The loader, which the firmware starts: it finds the screen, takes the
//! memory map, ends the boot services and goes to the kernel.

use vstd::prelude::*;
use vstd::utf8::encode_utf8;
use crate::boot::BootInfo;

verus! {

/// Bytes of the buffer for the memory map.
pub const MEMORY_MAP_BUFFER: usize = 16384;

/// Characters of the buffer for a message to the firmware's console.
pub const MESSAGE_BUFFER: usize = 64;

/// The bytes of `msg` as 16-bit characters; the last place stays zero.
pub open spec fn wide_text(bytes: Seq<u8>) -> Seq<u16> {
    Seq::new(
        MESSAGE_BUFFER as nat,
        |i: int|
            if i < bytes.len() && i < MESSAGE_BUFFER - 1 {
                bytes[i] as u16
            } else {
                0
            },
    )
}

/// A message for the firmware's console, which takes 16-bit characters.
pub fn console_message(msg: &str) -> (buffer: [u16; 64])
    ensures
        buffer@ == wide_text(encode_utf8(msg@)),
{
    let bytes = msg.as_bytes();
    let mut buffer: [u16; 64] = [0u16; 64];
    let mut i: usize = 0;
    while i < bytes.len() && i < MESSAGE_BUFFER - 1
        invariant
            i <= bytes@.len(),
            i <= MESSAGE_BUFFER - 1,
            forall|k: int|
                0 <= k < MESSAGE_BUFFER ==> #[trigger] buffer@[k] == (if k < i {
                    bytes@[k] as u16
                } else {
                    0
                }),
        decreases bytes@.len() - i,
    {
        buffer[i] = bytes[i] as u16;
        i += 1;
    }
    assert(buffer@ =~= wide_text(encode_utf8(msg@)));
    buffer
}

/// The message that the loader begins with.
pub fn loader_message() -> (s: &'static str)
    ensures
        s@ == "Getting ready to jump to kernel...\r\n\0"@,
{
    "Getting ready to jump to kernel...\r\n\0"
}

/// What the loader asks of the firmware next.
#[derive(Debug, Clone, Copy, PartialEq, Eq, Structural)]
pub enum LoaderStep {
    LocateGraphics,
    /// Look for the ACPI root pointer, which can be absent.
    FindRsdp,
    /// Take the memory map, into the whole buffer.
    GetMemoryMap,
    ExitBootServices,
    /// The map has changed meanwhile: take it again.
    GetMemoryMapAgain,
    ExitBootServicesAgain,
    /// Go to the kernel.
    StartKernel,
    /// Give up and return this status.
    Return(u64),
}

/// What follows a step that ended with `status`; zero is success.
pub open spec fn next_step(step: LoaderStep, status: u64) -> LoaderStep {
    match step {
        LoaderStep::LocateGraphics => if status == 0 {
            LoaderStep::FindRsdp
        } else {
            LoaderStep::Return(status)
        },
        LoaderStep::FindRsdp => LoaderStep::GetMemoryMap,
        LoaderStep::GetMemoryMap => if status == 0 {
            LoaderStep::ExitBootServices
        } else {
            LoaderStep::Return(status)
        },
        LoaderStep::ExitBootServices => if status == 0 {
            LoaderStep::StartKernel
        } else {
            LoaderStep::GetMemoryMapAgain
        },
        LoaderStep::GetMemoryMapAgain => if status == 0 {
            LoaderStep::ExitBootServicesAgain
        } else {
            LoaderStep::Return(status)
        },
        LoaderStep::ExitBootServicesAgain => if status == 0 {
            LoaderStep::StartKernel
        } else {
            LoaderStep::Return(status)
        },
        LoaderStep::StartKernel => LoaderStep::StartKernel,
        LoaderStep::Return(s) => LoaderStep::Return(s),
    }
}

/// Goes on with the loader: what follows a step that ended with `status`.
pub fn efi_main(step: LoaderStep, status: u64) -> (r: LoaderStep)
    ensures
        r == next_step(step, status),
{
    match step {
        LoaderStep::LocateGraphics => {
            if status != 0 {
                LoaderStep::Return(status)
            } else {
                LoaderStep::FindRsdp
            }
        },
        LoaderStep::FindRsdp => LoaderStep::GetMemoryMap,
        LoaderStep::GetMemoryMap => {
            if status != 0 {
                LoaderStep::Return(status)
            } else {
                LoaderStep::ExitBootServices
            }
        },
        LoaderStep::ExitBootServices => {
            if status != 0 {
                LoaderStep::GetMemoryMapAgain
            } else {
                LoaderStep::StartKernel
            }
        },
        LoaderStep::GetMemoryMapAgain => {
            if status != 0 {
                LoaderStep::Return(status)
            } else {
                LoaderStep::ExitBootServicesAgain
            }
        },
        LoaderStep::ExitBootServicesAgain => {
            if status != 0 {
                LoaderStep::Return(status)
            } else {
                LoaderStep::StartKernel
            }
        },
        LoaderStep::StartKernel => LoaderStep::StartKernel,
        LoaderStep::Return(s) => LoaderStep::Return(s),
    }
}

/// Where the loader stands after steps that ended with these statuses.
pub open spec fn after_steps(statuses: Seq<u64>) -> LoaderStep
    decreases statuses.len(),
{
    if statuses.len() == 0 {
        LoaderStep::LocateGraphics
    } else {
        next_step(after_steps(statuses.drop_last()), statuses.last())
    }
}

/// The first steps, unrolled.
proof fn lemma_first_steps(s: Seq<u64>)
    ensures
        s.len() == 0 ==> after_steps(s) == LoaderStep::LocateGraphics,
        s.len() == 1 ==> after_steps(s) == next_step(LoaderStep::LocateGraphics, s[0]),
        s.len() == 2 ==> after_steps(s) == next_step(
            next_step(LoaderStep::LocateGraphics, s[0]),
            s[1],
        ),
        s.len() == 3 ==> after_steps(s) == next_step(
            next_step(next_step(LoaderStep::LocateGraphics, s[0]), s[1]),
            s[2],
        ),
    decreases s.len(),
{
    if s.len() > 0 {
        lemma_first_steps(s.drop_last());
    }
}

/// Whatever the firmware answers, the loader asks it at most six things; then
/// it has given up or goes to the kernel.
pub proof fn law_loader_ends(statuses: Seq<u64>)
    requires
        statuses.len() >= 6,
    ensures
        after_steps(statuses) is StartKernel || after_steps(statuses) is Return,
    decreases statuses.len(),
{
    if statuses.len() > 6 {
        law_loader_ends(statuses.drop_last());
    } else {
        let s5 = statuses.drop_last();
        let s4 = s5.drop_last();
        let s3 = s4.drop_last();
        lemma_first_steps(s3);
        assert(after_steps(s4) == next_step(after_steps(s3), s4.last()));
        assert(after_steps(s5) == next_step(after_steps(s4), s5.last()));
    }
}

/// The loader goes to the kernel exactly where each thing it needs succeeds:
/// the screen, the memory map, and ending the boot services at the first try,
/// or at the second with a map taken again. What looking for the root pointer
/// gives does not matter.
pub proof fn law_loader_starts(s: Seq<u64>)
    requires
        s.len() == 6,
    ensures
        after_steps(s) is StartKernel <==> s[0] == 0 && s[2] == 0 && (s[3] == 0 || (s[4] == 0
            && s[5] == 0)),
{
    let s5 = s.drop_last();
    let s4 = s5.drop_last();
    let s3 = s4.drop_last();
    lemma_first_steps(s3);
    assert(after_steps(s4) == next_step(after_steps(s3), s4.last()));
    assert(after_steps(s5) == next_step(after_steps(s4), s5.last()));
    assert(after_steps(s) == next_step(after_steps(s5), s.last()));
}

/// The root pointer is looked for while the boot services still run: before
/// they are ended, the step has been taken.
pub proof fn law_rsdp_before_exit(s: Seq<u64>)
    requires
        after_steps(s) is ExitBootServices,
    ensures
        s.len() == 3,
        after_steps(s.take(1)) is FindRsdp,
{
    lemma_first_steps(s.take(1));
    lemma_first_steps(s);
    if s.len() > 3 {
        lemma_past_exit(s);
    }
}

/// Ending the boot services comes fourth, or not at all.
proof fn lemma_past_exit(s: Seq<u64>)
    requires
        s.len() > 3,
    ensures
        !(after_steps(s) is LocateGraphics || after_steps(s) is FindRsdp || after_steps(s)
            is GetMemoryMap || after_steps(s) is ExitBootServices),
    decreases s.len(),
{
    if s.len() > 4 {
        lemma_past_exit(s.drop_last());
    } else {
        lemma_first_steps(s.drop_last());
    }
}

/// What the firmware says about the screen.
#[derive(Debug, Clone, Copy, PartialEq, Eq, Structural)]
pub struct GraphicsMode {
    pub framebuffer_base: u64,
    pub framebuffer_size: usize,
    pub horizontal_resolution: u32,
    pub vertical_resolution: u32,
    pub pixels_per_scanline: u32,
    pub pixel_format: u32,
}

/// Puts together what the kernel is handed.
pub fn boot_info(
    mode: &GraphicsMode,
    memory_map: Vec<u8>,
    memory_map_size: usize,
    descriptor_size: usize,
    descriptor_version: u32,
    runtime_services: u64,
    acpi_rsdp_phys: u64,
) -> (info: BootInfo)
    ensures
        info.framebuffer_base == mode.framebuffer_base,
        info.framebuffer_size == mode.framebuffer_size,
        info.horizontal_resolution == mode.horizontal_resolution,
        info.vertical_resolution == mode.vertical_resolution,
        info.pixels_per_scanline == mode.pixels_per_scanline,
        info.pixel_format == mode.pixel_format,
        info.memory_map@ == memory_map@,
        info.memory_map_size == memory_map_size,
        info.descriptor_size == descriptor_size,
        info.descriptor_version == descriptor_version,
        info.runtime_services == runtime_services,
        info.acpi_rsdp_phys == acpi_rsdp_phys,
{
    BootInfo {
        framebuffer_base: mode.framebuffer_base,
        framebuffer_size: mode.framebuffer_size,
        horizontal_resolution: mode.horizontal_resolution,
        vertical_resolution: mode.vertical_resolution,
        pixels_per_scanline: mode.pixels_per_scanline,
        pixel_format: mode.pixel_format,
        memory_map,
        memory_map_size,
        descriptor_size,
        descriptor_version,
        runtime_services,
        acpi_rsdp_phys,
    }
}

/// A message for the firmware's console has 64 places: the first 63 bytes of the
/// text, one to a place, and zero in the places behind them, so that it ends.
pub proof fn law_wide_text(bytes: Seq<u8>, i: int)
    requires
        0 <= i < 64,
    ensures
        wide_text(bytes).len() == 64,
        i < 63 && i < bytes.len() ==> wide_text(bytes)[i] == bytes[i],
        i == 63 || i >= bytes.len() ==> wide_text(bytes)[i] == 0,
{
}

/// The loader asks for the screen, the root pointer, the memory map and the end
/// of the boot services, in this order, and for the map and the end once more
/// where the end failed. It returns the status of the first request that failed,
/// where that was not the one for the root pointer or the first end.
pub proof fn law_loader_order(s: Seq<u64>)
    requires
        s.len() == 6,
    ensures
        after_steps(s.take(0)) == LoaderStep::LocateGraphics,
        s[0] == 0 ==> after_steps(s.take(1)) == LoaderStep::FindRsdp && after_steps(s.take(2))
            == LoaderStep::GetMemoryMap,
        s[0] == 0 && s[2] == 0 ==> after_steps(s.take(3)) == LoaderStep::ExitBootServices,
        s[0] == 0 && s[2] == 0 && s[3] != 0 ==> after_steps(s.take(4))
            == LoaderStep::GetMemoryMapAgain,
        s[0] == 0 && s[2] == 0 && s[3] != 0 && s[4] == 0 ==> after_steps(s.take(5))
            == LoaderStep::ExitBootServicesAgain,
        after_steps(s) == (if s[0] != 0 {
            LoaderStep::Return(s[0])
        } else if s[2] != 0 {
            LoaderStep::Return(s[2])
        } else if s[3] == 0 {
            LoaderStep::StartKernel
        } else if s[4] != 0 {
            LoaderStep::Return(s[4])
        } else if s[5] != 0 {
            LoaderStep::Return(s[5])
        } else {
            LoaderStep::StartKernel
        }),
{
    assert(s.take(6) =~= s);
    assert(s.take(6).drop_last() =~= s.take(5));
    assert(s.take(5).drop_last() =~= s.take(4));
    assert(s.take(4).drop_last() =~= s.take(3));
    lemma_first_steps(s.take(0));
    lemma_first_steps(s.take(1));
    lemma_first_steps(s.take(2));
    lemma_first_steps(s.take(3));
    assert(after_steps(s.take(4)) == next_step(after_steps(s.take(3)), s[3]));
    assert(after_steps(s.take(5)) == next_step(after_steps(s.take(4)), s[4]));
    assert(after_steps(s) == next_step(after_steps(s.take(5)), s[5]));
}

} // verus!
