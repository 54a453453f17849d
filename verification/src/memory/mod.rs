//! Physical frames, page tables and physical memory.

pub mod frames;
pub mod laws;
pub mod paging;
pub mod phys;

use vstd::prelude::*;

verus! {

pub const PAGE_SIZE: u64 = 4096;

pub const PAGE_PRESENT: u64 = 0x1;

pub const PAGE_WRITABLE: u64 = 0x2;

pub const PAGE_USER: u64 = 0x4;

pub const PAGE_CACHE_DISABLE: u64 = 0x10;

pub const PAGE_NO_EXECUTE: u64 = 0x8000_0000_0000_0000;

/// The flags of the kernel's own pages: present and writable.
pub const KERNEL_PAGE: u64 = 0x3;

/// The flags of a device's registers: present, writable and not cached.
pub const DEVICE_PAGE: u64 = 0x13;

} // verus!
