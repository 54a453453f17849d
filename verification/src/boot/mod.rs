//! Starting up: from the firmware to the first program.

pub mod kernel;
pub mod loader;
pub mod program;

use vstd::prelude::*;

verus! {

/// What the loader hands to the kernel: facts about the machine that are
/// gathered before the firmware's boot services end.
pub struct BootInfo {
    pub framebuffer_base: u64,
    pub framebuffer_size: usize,
    pub horizontal_resolution: u32,
    pub vertical_resolution: u32,
    pub pixels_per_scanline: u32,
    pub pixel_format: u32,
    /// The buffer that holds the memory map.
    pub memory_map: Vec<u8>,
    /// How many bytes of the buffer the memory map takes.
    pub memory_map_size: usize,
    pub descriptor_size: usize,
    pub descriptor_version: u32,
    pub runtime_services: u64,
    /// Physical address of the ACPI root pointer; zero if there is none.
    pub acpi_rsdp_phys: u64,
}

} // verus!
