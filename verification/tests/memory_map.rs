use kaguyaos::boot::BootInfo;
use kaguyaos::kef::{allocate_run, load_kef};
use kaguyaos::memory::frames::{FrameAllocator, MemoryRegion};
use kaguyaos::memory::paging::{
    PageTable, TableMemory, get_table_mut, init_paging, map_identity, map_page,
};
use kaguyaos::memory::phys::PhysMemory;

/// A memory map of 48-byte descriptors.
fn memory_map(regions: &[(u32, u64, u64)]) -> Vec<u8> {
    let mut v = Vec::new();
    for (kind, start, pages) in regions {
        v.extend_from_slice(&kind.to_le_bytes());
        v.extend_from_slice(&[0u8; 4]);
        v.extend_from_slice(&start.to_le_bytes());
        v.extend_from_slice(&0u64.to_le_bytes());
        v.extend_from_slice(&pages.to_le_bytes());
        v.extend_from_slice(&[0u8; 16]);
    }
    v
}

fn boot_info(regions: &[(u32, u64, u64)]) -> BootInfo {
    let map = memory_map(regions);
    let size = map.len();
    BootInfo {
        framebuffer_base: 0x8000_0000,
        framebuffer_size: 0x2000,
        horizontal_resolution: 1024,
        vertical_resolution: 768,
        pixels_per_scanline: 1024,
        pixel_format: 1,
        memory_map: map,
        memory_map_size: size,
        descriptor_size: 48,
        descriptor_version: 1,
        runtime_services: 0,
        acpi_rsdp_phys: 0,
    }
}

fn allocator(regions: &[(u32, u64, u64)]) -> FrameAllocator {
    FrameAllocator::new(&boot_info(regions))
}

/// Where the tables lead `virt`, by walking them.
fn walk(mem: &TableMemory, pml4: u64, virt: u64) -> Option<u64> {
    let mut table = pml4;
    for shift in [39u64, 30, 21, 12] {
        let e = mem.entry(table, ((virt >> shift) & 0x1FF) as usize);
        if e & 1 == 0 {
            return None;
        }
        if shift == 12 {
            return Some(e);
        }
        table = e & !0xFFF;
    }
    None
}

#[test]
fn frames_come_from_conventional_memory_in_order() {
    let mut a = allocator(&[(4, 0x1000, 3), (7, 0x10000, 2), (0, 0x90000, 9), (7, 0x40000, 1)]);
    assert_eq!(a.descriptor_size, 48);
    assert_eq!(a.allocate_frame(), Some(0x10000));
    assert_eq!(a.allocate_frame(), Some(0x11000));
    assert_eq!(a.allocate_frame(), Some(0x40000));
    assert_eq!(a.allocate_frame(), None);
    assert_eq!(a.allocate_frame(), None);
}

#[test]
fn region_that_begins_at_zero_is_left_out() {
    let mut a = allocator(&[(7, 0, 4), (7, 0x5000, 1)]);
    assert_eq!(a.allocate_frame(), Some(0x5000));
    assert_eq!(a.allocate_frame(), None);
}

#[test]
fn regions_are_read_from_descriptors() {
    let a = allocator(&[(7, 0x10000, 2), (9, 0x7000, 5)]);
    assert_eq!(a.region_count(), 2);
    let r: MemoryRegion = a.region(1);
    assert_eq!((r.kind, r.start, r.pages), (9, 0x7000, 5));
}

#[test]
fn runs_of_frames() {
    let mut a = allocator(&[(7, 0x10000, 6)]);
    assert_eq!(allocate_run(&mut a, 4), Some(0x10000));
    assert_eq!(a.allocate_frame(), Some(0x14000));
    assert_eq!(allocate_run(&mut a, 2), None);
}

#[test]
fn table_is_zeroed() {
    let mut t = PageTable { entries: [9u64; 512] };
    t.zero();
    assert!(t.entries.iter().all(|e| *e == 0));
    let mut mem = TableMemory::new();
    mem.clear_frame(0x3000);
    get_table_mut(&mut mem, 0x3000).entries[5] = 77;
    assert_eq!(mem.entry(0x3000, 5), 77);
    mem.clear_frame(0x3000);
    assert_eq!(mem.entry(0x3000, 5), 0);
}

#[test]
fn mapping_a_page_builds_the_tables() {
    let mut a = allocator(&[(7, 0x10000, 16)]);
    let mut mem = TableMemory::new();
    let pml4 = a.allocate_frame().unwrap();
    mem.clear_frame(pml4);
    let virt = 0xFFFF_8040_0020_3000u64;
    map_page(&mut mem, pml4, virt, 0x7000, 0x2, &mut a);
    assert_eq!(mem.entry(0x10000, 256), 0x11007);
    assert_eq!(mem.entry(0x11000, 256), 0x12007);
    assert_eq!(mem.entry(0x12000, 1), 0x13007);
    assert_eq!(mem.entry(0x13000, 3), 0x7003);
    assert_eq!(walk(&mem, pml4, virt), Some(0x7003));
    assert_eq!(walk(&mem, pml4, virt + 0x1000), None);
    // A neighbour needs no new table.
    map_page(&mut mem, pml4, virt + 0x1000, 0x8000, 0x12, &mut a);
    assert_eq!(walk(&mem, pml4, virt + 0x1000), Some(0x8013));
    assert_eq!(walk(&mem, pml4, virt), Some(0x7003));
    assert_eq!(a.allocate_frame(), Some(0x14000));
}

#[test]
fn mapping_again_replaces() {
    let mut a = allocator(&[(7, 0x10000, 16)]);
    let mut mem = TableMemory::new();
    let pml4 = a.allocate_frame().unwrap();
    mem.clear_frame(pml4);
    map_page(&mut mem, pml4, 0x5000, 0x7000, 0x2, &mut a);
    map_page(&mut mem, pml4, 0x5000, 0x9000, 0x4, &mut a);
    assert_eq!(walk(&mem, pml4, 0x5000), Some(0x9005));
}

#[test]
fn identity_mapping() {
    let mut a = allocator(&[(7, 0x10000, 16)]);
    let mut mem = TableMemory::new();
    let pml4 = a.allocate_frame().unwrap();
    mem.clear_frame(pml4);
    map_identity(&mut mem, pml4, 0x1F_F000, 3, 0x2, &mut a);
    assert_eq!(walk(&mem, pml4, 0x1F_F000), Some(0x1F_F003));
    assert_eq!(walk(&mem, pml4, 0x20_1000), Some(0x20_1003));
    assert_eq!(walk(&mem, pml4, 0x20_2000), None);
}

#[test]
fn initial_tables_map_memory_and_screen() {
    let info = boot_info(&[(7, 0x10_0000, 64), (8, 0x20_0000, 2), (9, 0x30_0000, 1)]);
    let mut a = FrameAllocator::new(&info);
    let mut mem = TableMemory::new();
    let pml4 = init_paging(&info, &mut mem, &mut a);
    assert_eq!(pml4, 0x10_0000);
    assert_eq!(walk(&mem, pml4, 0x10_0000), Some(0x10_0003));
    assert_eq!(walk(&mem, pml4, 0x13_F000), Some(0x13_F003));
    assert_eq!(walk(&mem, pml4, 0x14_0000), None);
    assert_eq!(walk(&mem, pml4, 0x20_0000), None);
    assert_eq!(walk(&mem, pml4, 0x30_0000), Some(0x30_0003));
    assert_eq!(walk(&mem, pml4, 0x8000_1000), Some(0x8000_1003));
    assert_eq!(walk(&mem, pml4, 0x8000_2000), None);
}

#[test]
fn physical_memory_reads_back() {
    let mut m = PhysMemory::new();
    m.write(0x1000, &[1, 2, 3, 4, 5, 6, 7, 8, 9]);
    m.write(0x1002, &[0xAA, 0xBB]);
    assert_eq!(m.read_u8(0x1000), 1);
    assert_eq!(m.read(0x1001, 4), vec![2, 0xAA, 0xBB, 5]);
    assert_eq!(m.read_u16(0x1002), 0xBBAA);
    assert_eq!(m.read_u32(0x1001), 0x05BB_AA02);
    assert_eq!(m.read_u64(0x1001), 0x0908_0706_05BB_AA02);
}

fn program(entry: u32, offset: u32, size: u32, code: &[u8]) -> Vec<u8> {
    let mut v = vec![b'K', b'E', b'F', 0];
    v.extend_from_slice(&entry.to_le_bytes());
    v.extend_from_slice(&offset.to_le_bytes());
    v.extend_from_slice(&size.to_le_bytes());
    v.extend_from_slice(code);
    v
}

struct Machine {
    allocator: FrameAllocator,
    pml4: u64,
    tables: TableMemory,
    phys: PhysMemory,
}

fn machine(frames: u64) -> Machine {
    let mut a = allocator(&[(7, 0x10_0000, frames)]);
    let mut tables = TableMemory::new();
    let pml4 = a.allocate_frame().unwrap();
    tables.clear_frame(pml4);
    Machine { allocator: a, pml4, tables, phys: PhysMemory::new() }
}

fn load(m: &mut Machine, file: &[u8]) -> Result<(u64, u64), &'static str> {
    load_kef(file, &mut m.allocator, m.pml4, &mut m.tables, &mut m.phys)
}

#[test]
fn program_is_loaded_with_a_stack() {
    let mut m = machine(32);
    let code: Vec<u8> = (0..5000u32).map(|i| (i % 253) as u8).collect();
    let r = load(&mut m, &program(0x10, 16, 5000, &code));
    // Two frames of code, three of tables, four of stack.
    assert_eq!(r, Ok((0x10_1010, 0x10_A000)));
    assert_eq!(m.phys.read(0x10_1000, 5000), code);
    assert_eq!(walk(&m.tables, m.pml4, 0x10_1000), Some(0x10_1007));
    assert_eq!(walk(&m.tables, m.pml4, 0x10_2000), Some(0x10_2007));
    assert_eq!(walk(&m.tables, m.pml4, 0x10_9000), Some(0x10_9007));
    assert_eq!(walk(&m.tables, m.pml4, 0x10_A000), None);
}

#[test]
fn broken_programs_are_refused() {
    let mut m = machine(32);
    assert_eq!(load(&mut m, &[0]), Err("File too small to contain KEF header"));
    let mut bad = program(0, 16, 1, &[0x90]);
    bad[3] = b'2';
    assert_eq!(load(&mut m, &bad), Err("Invalid KEF magic number"));
    assert_eq!(load(&mut m, &program(0, 16, 0, &[])), Err("KEF code size is 0"));
    assert_eq!(
        load(&mut m, &program(0, 16, 2, &[0x90])),
        Err("KEF code segment extends past end of file")
    );
}

#[test]
fn program_without_frames_is_refused() {
    let mut m = machine(1);
    assert_eq!(load(&mut m, &program(0, 16, 1, &[0x90])), Err("OOM allocating code frame"));
    let mut m = machine(7);
    assert_eq!(load(&mut m, &program(0, 16, 1, &[0x90])), Err("OOM allocating stack frame"));
}
