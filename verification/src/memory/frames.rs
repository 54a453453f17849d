//! The frame allocator, which hands out the pages of the firmware's memory map.

use vstd::prelude::*;
use crate::boot::BootInfo;
use crate::le::{read_u32, read_u64, u32_at, u64_at};
use crate::memory::PAGE_SIZE;

verus! {

/// Size of the fields that every descriptor of the memory map has.
pub const DESCRIPTOR_FIELDS: usize = 40;

pub const EFI_LOADER_CODE: u32 = 1;

pub const EFI_LOADER_DATA: u32 = 2;

pub const EFI_BOOT_SERVICES_CODE: u32 = 3;

pub const EFI_BOOT_SERVICES_DATA: u32 = 4;

pub const EFI_RUNTIME_SERVICES_CODE: u32 = 5;

pub const EFI_RUNTIME_SERVICES_DATA: u32 = 6;

pub const EFI_CONVENTIONAL_MEMORY: u32 = 7;

pub const EFI_ACPI_RECLAIM_MEMORY: u32 = 9;

pub const EFI_ACPI_MEMORY_NVS: u32 = 10;

pub const EFI_MEMORY_MAPPED_IO: u32 = 11;

pub const EFI_MEMORY_MAPPED_IO_PORT_SPACE: u32 = 12;

/// A region of the memory map.
#[derive(Clone, Copy)]
pub struct MemoryRegion {
    pub kind: u32,
    pub start: u64,
    pub pages: u64,
}

/// Descriptor `i` of a memory map whose descriptors are `step` bytes apart.
pub open spec fn region_at(bytes: Seq<u8>, step: int, i: int) -> MemoryRegion {
    MemoryRegion {
        kind: u32_at(bytes, i * step),
        start: u64_at(bytes, i * step + 8),
        pages: u64_at(bytes, i * step + 24),
    }
}

/// The regions that `size` bytes of memory map describe.
pub open spec fn regions(bytes: Seq<u8>, size: int, step: int) -> Seq<MemoryRegion> {
    Seq::new((size / step) as nat, |i: int| region_at(bytes, step, i))
}

/// A memory map that can be read: whole descriptors of at least the standard
/// fields, inside the buffer.
pub open spec fn map_readable(bytes: Seq<u8>, size: int, step: int) -> bool {
    step >= DESCRIPTOR_FIELDS && 0 <= size <= bytes.len()
}

/// The region ends inside the address space.
pub open spec fn region_fits(r: MemoryRegion) -> bool {
    r.start + r.pages * PAGE_SIZE <= u64::MAX
}

/// Every frame of the region has an address.
pub open spec fn frames_fit(r: MemoryRegion) -> bool {
    r.pages > 0 ==> r.start + (r.pages - 1) * PAGE_SIZE <= u64::MAX
}

/// Every frame of the conventional regions has an address.
pub open spec fn conventional_fits(rs: Seq<MemoryRegion>) -> bool {
    forall|i: int|
        0 <= i < rs.len() && (#[trigger] rs[i]).kind == EFI_CONVENTIONAL_MEMORY ==> frames_fit(
            rs[i],
        )
}

/// The frames that the region still gives once `offset` of its pages are
/// passed. Address zero is never given, and a region that reaches it is left.
pub open spec fn region_frames(r: MemoryRegion, offset: int) -> Seq<u64> {
    if r.kind != EFI_CONVENTIONAL_MEMORY || offset >= r.pages || r.start + offset * PAGE_SIZE == 0 {
        Seq::empty()
    } else {
        Seq::new(
            (r.pages - offset) as nat,
            |k: int| (r.start + (offset + k) * PAGE_SIZE) as u64,
        )
    }
}

/// The frames that the regions from `i` on give, `offset` pages of the first
/// of them passed.
pub open spec fn frames_from(rs: Seq<MemoryRegion>, i: int, offset: int) -> Seq<u64>
    decreases rs.len() - i,
{
    if i >= rs.len() {
        Seq::empty()
    } else {
        region_frames(rs[i], offset) + frames_from(rs, i + 1, 0)
    }
}

/// A descriptor of the map lies inside the map.
proof fn lemma_descriptor_inside(size: int, step: int, i: int)
    requires
        step >= DESCRIPTOR_FIELDS,
        0 <= i < size / step,
        size >= 0,
    ensures
        0 <= i * step,
        i * step + DESCRIPTOR_FIELDS <= size,
{
    assert((i + 1) * step <= (size / step) * step) by (nonlinear_arith)
        requires
            i + 1 <= size / step,
            step >= 0,
    ;
    assert((size / step) * step <= size) by (nonlinear_arith)
        requires
            size >= 0,
            step > 0,
    ;
    assert((i + 1) * step == i * step + step) by (nonlinear_arith);
    assert(0 <= i * step) by (nonlinear_arith)
        requires
            0 <= i,
            0 <= step,
    ;
}

/// Hands out the pages of the conventional regions, in the order of the map.
pub struct FrameAllocator {
    memory_map: Vec<u8>,
    memory_map_size: usize,
    pub descriptor_size: usize,
    pub descriptor_version: u32,
    current_descriptor_index: usize,
    current_page_offset: u64,
}

impl Clone for FrameAllocator {
    /// An allocator that would hand out the same frames.
    fn clone(&self) -> (a: FrameAllocator)
        ensures
            a.wf() == self.wf(),
            a.regions() == self.regions(),
            a.layout() == self.layout(),
            a.remaining() == self.remaining(),
    {
        let mut memory_map: Vec<u8> = Vec::new();
        memory_map.extend_from_slice(self.memory_map.as_slice());
        assert(memory_map@ == self.memory_map@);
        FrameAllocator {
            memory_map,
            memory_map_size: self.memory_map_size,
            descriptor_size: self.descriptor_size,
            descriptor_version: self.descriptor_version,
            current_descriptor_index: self.current_descriptor_index,
            current_page_offset: self.current_page_offset,
        }
    }
}

impl FrameAllocator {
    /// The regions of the memory map.
    pub closed spec fn regions(&self) -> Seq<MemoryRegion> {
        regions(self.memory_map@, self.memory_map_size as int, self.descriptor_size as int)
    }

    /// The layout of the descriptors: their size and version.
    pub closed spec fn layout(&self) -> (usize, u32) {
        (self.descriptor_size, self.descriptor_version)
    }

    /// The frames that have not been handed out, in order.
    pub closed spec fn remaining(&self) -> Seq<u64> {
        frames_from(
            self.regions(),
            self.current_descriptor_index as int,
            self.current_page_offset as int,
        )
    }

    /// The map can be read and its frames have addresses.
    pub closed spec fn wf(&self) -> bool {
        &&& map_readable(
            self.memory_map@,
            self.memory_map_size as int,
            self.descriptor_size as int,
        )
        &&& conventional_fits(self.regions())
    }

    /// An allocator over the memory map of `boot_info`.
    pub fn new(boot_info: &BootInfo) -> (a: FrameAllocator)
        requires
            map_readable(
                boot_info.memory_map@,
                boot_info.memory_map_size as int,
                boot_info.descriptor_size as int,
            ),
            conventional_fits(
                regions(
                    boot_info.memory_map@,
                    boot_info.memory_map_size as int,
                    boot_info.descriptor_size as int,
                ),
            ),
        ensures
            a.wf(),
            a.layout() == (boot_info.descriptor_size, boot_info.descriptor_version),
            a.regions() == regions(
                boot_info.memory_map@,
                boot_info.memory_map_size as int,
                boot_info.descriptor_size as int,
            ),
            a.remaining() == frames_from(a.regions(), 0, 0),
    {
        let mut memory_map: Vec<u8> = Vec::new();
        memory_map.extend_from_slice(boot_info.memory_map.as_slice());
        assert(memory_map@ == boot_info.memory_map@);
        FrameAllocator {
            memory_map,
            memory_map_size: boot_info.memory_map_size,
            descriptor_size: boot_info.descriptor_size,
            descriptor_version: boot_info.descriptor_version,
            current_descriptor_index: 0,
            current_page_offset: 0,
        }
    }

    /// Number of regions in the memory map.
    pub fn region_count(&self) -> (n: usize)
        requires
            self.wf(),
        ensures
            n == self.regions().len(),
    {
        self.memory_map_size / self.descriptor_size
    }

    /// Region `i` of the memory map.
    pub fn region(&self, i: usize) -> (r: MemoryRegion)
        requires
            self.wf(),
            i < self.regions().len(),
        ensures
            r == self.regions()[i as int],
    {
        proof {
            lemma_descriptor_inside(
                self.memory_map_size as int,
                self.descriptor_size as int,
                i as int,
            );
        }
        let offset: usize = i * self.descriptor_size;
        assert(self.memory_map.len() == self.memory_map@.len());
        MemoryRegion {
            kind: read_u32(&self.memory_map, offset),
            start: read_u64(&self.memory_map, offset + 8),
            pages: read_u64(&self.memory_map, offset + 24),
        }
    }

    /// Hands out the next frame.
    pub fn allocate_frame(&mut self) -> (frame: Option<u64>)
        requires
            old(self).wf(),
        ensures
            final(self).wf(),
            final(self).regions() == old(self).regions(),
            final(self).layout() == old(self).layout(),
            match frame {
                Some(f) => old(self).remaining().len() > 0 && f == old(self).remaining()[0]
                    && final(self).remaining() == old(self).remaining().drop_first(),
                None => old(self).remaining().len() == 0 && final(self).remaining().len() == 0,
            },
    {
        let count: usize = self.region_count();
        let ghost rs = self.regions();
        let ghost before = self.remaining();
        while self.current_descriptor_index < count
            invariant
                self.wf(),
                self.regions() == rs,
                old(self).regions() == rs,
                self.layout() == old(self).layout(),
                count == rs.len(),
                self.remaining() == before,
                old(self).remaining() == before,
            decreases count - self.current_descriptor_index,
        {
            let region = self.region(self.current_descriptor_index);
            let ghost i = self.current_descriptor_index as int;
            let ghost offset = self.current_page_offset as int;
            if region.kind == EFI_CONVENTIONAL_MEMORY {
                if self.current_page_offset < region.pages {
                    assert(frames_fit(rs[i]));
                    assert(offset * PAGE_SIZE <= (region.pages - 1) * PAGE_SIZE);
                    let frame_address: u64 = region.start + self.current_page_offset * PAGE_SIZE;
                    self.current_page_offset = self.current_page_offset + 1;
                    if frame_address > 0 {
                        proof {
                            lemma_region_frames_step(region, offset);
                            let rest = frames_from(rs, i + 1, 0);
                            assert(before == seq![frame_address] + region_frames(
                                region,
                                offset + 1,
                            ) + rest);
                            assert(before.drop_first() == region_frames(region, offset + 1) + rest);
                        }
                        return Some(frame_address);
                    }
                }
            }
            assert(region_frames(rs[i], offset).len() == 0);
            assert(before == frames_from(rs, i + 1, 0));
            self.current_descriptor_index = self.current_descriptor_index + 1;
            self.current_page_offset = 0;
        }
        None
    }
}

/// The frames of a region are its next frame and those behind it.
proof fn lemma_region_frames_step(r: MemoryRegion, offset: int)
    requires
        frames_fit(r),
        r.kind == EFI_CONVENTIONAL_MEMORY,
        0 <= offset < r.pages,
        r.start + offset * PAGE_SIZE > 0,
    ensures
        region_frames(r, offset) == seq![(r.start + offset * PAGE_SIZE) as u64] + region_frames(
            r,
            offset + 1,
        ),
{
    let a = region_frames(r, offset);
    let b = seq![(r.start + offset * PAGE_SIZE) as u64] + region_frames(r, offset + 1);
    assert(a.len() == b.len());
    assert forall|k: int| 0 <= k < a.len() implies a[k] == b[k] by {
        if k > 0 {
            assert(offset + k == (offset + 1) + (k - 1));
        }
    }
    assert(a == b);
}

} // verus!
