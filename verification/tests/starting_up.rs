use kaguyaos::acpi::madt::MadtInfo;
use kaguyaos::boot::BootInfo;
use kaguyaos::boot::kernel::{
    Buffer, KernelStep, cpu_message, hello, init_acpi, init_heap, init_processors, kernel_main,
    map_apics, map_buffers, map_nvme, map_stack, map_xhci, mount_message, network_message,
    nvme_base, online_message, scheduler_message, xhci_base,
};
use kaguyaos::boot::loader::{
    GraphicsMode, LoaderStep, boot_info, console_message, efi_main, loader_message,
};
use kaguyaos::boot::program::{
    PanicRoute, ProgramStep, after_key, banner, can_provide, ensure_program, farewell, halt_message,
    load_program, panic_route, prepare_volume, provide_program,
};
use kaguyaos::device::{BlockDevice, Sector};
use kaguyaos::fat::disk::Disk;
use kaguyaos::fat::{format_disk, insert_file};
use kaguyaos::fs::layout::Superblock;
use kaguyaos::fs::{create_file, list_files, read_file, read_superblock, write_superblock};
use kaguyaos::memory::frames::FrameAllocator;
use kaguyaos::memory::paging::TableMemory;
use kaguyaos::memory::phys::PhysMemory;

fn info(frames: u64) -> BootInfo {
    let mut map = 7u32.to_le_bytes().to_vec();
    map.extend_from_slice(&[0u8; 4]);
    map.extend_from_slice(&0x100_0000u64.to_le_bytes());
    map.extend_from_slice(&0u64.to_le_bytes());
    map.extend_from_slice(&frames.to_le_bytes());
    map.extend_from_slice(&[0u8; 8]);
    let mode = GraphicsMode {
        framebuffer_base: 0x8000_0000,
        framebuffer_size: 4096,
        horizontal_resolution: 1280,
        vertical_resolution: 800,
        pixels_per_scanline: 1280,
        pixel_format: 1,
    };
    boot_info(&mode, map, 40, 40, 1, 0x7777, 0)
}

struct Machine {
    allocator: FrameAllocator,
    pml4: u64,
    tables: TableMemory,
    phys: PhysMemory,
}

fn machine(frames: u64) -> Machine {
    let mut allocator = FrameAllocator::new(&info(frames));
    let pml4 = allocator.allocate_frame().unwrap();
    let mut tables = TableMemory::new();
    tables.clear_frame(pml4);
    Machine { allocator, pml4, tables, phys: PhysMemory::new() }
}

fn entry(m: &Machine, virt: u64) -> Option<u64> {
    let mut table = m.pml4;
    for shift in [39u64, 30, 21] {
        let e = m.tables.entry(table, ((virt >> shift) & 0x1FF) as usize);
        if e & 1 == 0 {
            return None;
        }
        table = e & !0xFFF;
    }
    let e = m.tables.entry(table, ((virt >> 12) & 0x1FF) as usize);
    if e & 1 == 0 { None } else { Some(e) }
}

fn device(sectors: usize) -> BlockDevice {
    let mut v = Vec::new();
    for _ in 0..sectors {
        v.push(Sector { data: [0u8; 512], defective: false });
    }
    BlockDevice { nsid: Some(1), sectors: v, log: Vec::new() }
}

#[test]
fn loader_message_is_widened() {
    let b = console_message(loader_message());
    assert_eq!(b[0], 'G' as u16);
    assert_eq!(b[34], '\r' as u16);
    assert_eq!(b[35], '\n' as u16);
    assert_eq!(b[36], 0);
    assert_eq!(b[63], 0);
    let long = console_message(&"x".repeat(100));
    assert_eq!(long[62], 'x' as u16);
    assert_eq!(long[63], 0);
}

#[test]
fn loader_without_trouble() {
    let mut step = LoaderStep::LocateGraphics;
    let mut asked = Vec::new();
    while step != LoaderStep::StartKernel {
        asked.push(step);
        step = efi_main(step, 0);
    }
    assert_eq!(
        asked,
        vec![
            LoaderStep::LocateGraphics,
            LoaderStep::FindRsdp,
            LoaderStep::GetMemoryMap,
            LoaderStep::ExitBootServices,
        ]
    );
}

#[test]
fn loader_tries_to_leave_twice() {
    let step = efi_main(LoaderStep::ExitBootServices, 2);
    assert_eq!(step, LoaderStep::GetMemoryMapAgain);
    assert_eq!(efi_main(step, 5), LoaderStep::Return(5));
    let step = efi_main(step, 0);
    assert_eq!(step, LoaderStep::ExitBootServicesAgain);
    assert_eq!(efi_main(step, 3), LoaderStep::Return(3));
    assert_eq!(efi_main(step, 0), LoaderStep::StartKernel);
    assert_eq!(efi_main(LoaderStep::LocateGraphics, 14), LoaderStep::Return(14));
    assert_eq!(efi_main(LoaderStep::GetMemoryMap, 1), LoaderStep::Return(1));
    assert_eq!(efi_main(LoaderStep::FindRsdp, 9), LoaderStep::GetMemoryMap);
}

#[test]
fn kernel_greets() {
    let i = info(8);
    assert_eq!(i.runtime_services, 0x7777);
    assert_eq!(
        hello(&i),
        "Hello World from Kernel!\nResolution: 1280x800\nFramebuffer: 0x80000000\n"
    );
}

#[test]
fn kernel_without_devices() {
    let mut step = KernelStep::InitScreen;
    let mut text = String::new();
    let mut steps = 0;
    while step != KernelStep::RunTasks {
        let found = step == KernelStep::StartProgram;
        let (next, line) = kernel_main(step, found);
        text.push_str(line);
        step = next;
        steps += 1;
    }
    assert!(steps <= 19);
    assert_eq!(
        text,
        "GDT & IDT Initialized!\nPaging Initialized!\nInterrupts Enabled!\nSyscalls Initialized!\nNo NVMe device found!\nfailed to find xHCI device\n\nNo Ethernet device found!\n"
    );
    assert_eq!(kernel_main(KernelStep::StartProgram, false).0, KernelStep::Halt);
    assert_eq!(kernel_main(KernelStep::FindNvme, true).0, KernelStep::InitNvme);
    assert_eq!(kernel_main(KernelStep::FindXhci, true), (KernelStep::InitXhci, "find xHCI device\n\n"));
    assert_eq!(kernel_main(KernelStep::FindEthernet, true).0, KernelStep::InitNetwork);
}

#[test]
fn base_address_registers() {
    assert_eq!(nvme_base(0xFEBF_0004, 0), 0xFEBF_0000);
    assert_eq!(nvme_base(0x0000_0004, 0x8), 0x8_0000_0000);
    assert_eq!(xhci_base(0xFEBF_0004, 1), 0x1_FEBF_0000);
    assert_eq!(xhci_base(0xFEBF_0000, 1), 0xFEBF_0000);
}

#[test]
fn device_registers_are_mapped() {
    let mut m = machine(64);
    let text = map_nvme(0xFEBF_0004, 0, m.pml4, &mut m.tables, &mut m.allocator);
    assert_eq!(text, "Mapping NVMe BAR at 0xfebf0000\n");
    assert_eq!(entry(&m, 0xFEBF_3000), Some(0xFEBF_3003));
    assert_eq!(entry(&m, 0xFEBF_4000), None);
    let buffers = vec![Buffer { base: 0x40_0000, size: 4096 }, Buffer { base: 0x50_0000, size: 4097 }];
    map_xhci(0xFD00_0000, 0, &buffers, m.pml4, &mut m.tables, &mut m.allocator);
    assert_eq!(entry(&m, 0xFD00_F000), Some(0xFD00_F013));
    assert_eq!(entry(&m, 0xFD01_0000), None);
    assert_eq!(entry(&m, 0x40_0000), Some(0x40_0003));
    assert_eq!(entry(&m, 0x40_1000), None);
    assert_eq!(entry(&m, 0x50_1000), Some(0x50_1003));
    map_buffers(
        &vec![Buffer { base: 0x60_0000, size: 0 }],
        m.pml4,
        &mut m.tables,
        &mut m.allocator,
    );
    assert_eq!(entry(&m, 0x60_0000), None);
}

#[test]
fn heap_is_mapped() {
    let mut m = machine(256);
    let start = init_heap(&mut m.allocator, m.pml4, &mut m.tables);
    assert_eq!(start, 0x100_1000);
    assert_eq!(entry(&m, start), Some(start | 3));
    assert_eq!(entry(&m, start + 127 * 4096), Some((start + 127 * 4096) | 3));
    assert_eq!(entry(&m, start + 128 * 4096), None);
}

#[test]
fn stack_is_mapped() {
    let mut m = machine(16);
    let text = map_stack(0x62D_8200, m.pml4, &mut m.tables, &mut m.allocator);
    assert_eq!(text, "Kernel stack base=0x62d8200 top=0x62dc200\n");
    assert!(entry(&m, 0x62D_B200).is_some());
    assert_eq!(
        scheduler_message(0x62E_0200),
        "TSS rsp0=0x62e0200\nStarting scheduler loop on BSP...\n"
    );
}

#[test]
fn interrupt_controllers_are_mapped() {
    let mut m = machine(16);
    let mut madt = MadtInfo::default();
    madt.local_apic_address = 0xFEE0_0000;
    madt.io_apic_address = 0xFEC0_0000;
    madt.cpu_count = 2;
    let text = map_apics(&madt, m.pml4, &mut m.tables, &mut m.allocator);
    assert_eq!(
        text,
        "Mapping Local APIC MMIO at 0xfee00000\nMapping I/O APIC MMIO at 0xfec00000\n"
    );
    assert_eq!(entry(&m, 0xFEE0_0000), Some(0xFEE0_0013));
    assert_eq!(entry(&m, 0xFEC0_0000), Some(0xFEC0_0013));
    assert_eq!(cpu_message(&madt), "Found 2 CPUs, I/O APIC @ 0xfec00000\n");
    assert_eq!(online_message(1), "Online APs: 1\n");
}

#[test]
fn machine_without_acpi() {
    let mut m = machine(16);
    let (tables, text) = init_acpi(&info(16), &m.phys, m.pml4, &mut m.tables, &mut m.allocator);
    assert!(tables.is_none());
    assert_eq!(text, "ACPI: no RSDP found in EFI Configuration Table\n");
    let (madt, text) = init_processors(&tables, &m.phys, m.pml4, &mut m.tables, &mut m.allocator);
    assert!(madt.is_none());
    assert_eq!(text, "ACPI: tables not initialized. Cannot start APs.\n");
}

#[test]
fn machine_with_a_root_table_only() {
    let mut m = machine(16);
    let mut root = b"RSD PTR ".to_vec();
    root.extend_from_slice(&[0, 0, 0, 0, 0, 0, 0, 0]);
    root.extend_from_slice(&0x9_0000u32.to_le_bytes());
    let mut sum = 0u8;
    for b in &root {
        sum = sum.wrapping_add(*b);
    }
    root[8] = 0u8.wrapping_sub(sum);
    m.phys.write(0x8_0000, &root);
    let mut rsdt = b"RSDT".to_vec();
    rsdt.extend_from_slice(&36u32.to_le_bytes());
    rsdt.extend_from_slice(&[0u8; 28]);
    m.phys.write(0x9_0000, &rsdt);
    let mut i = info(16);
    i.acpi_rsdp_phys = 0x8_0000;
    let (tables, text) = init_acpi(&i, &m.phys, m.pml4, &mut m.tables, &mut m.allocator);
    assert_eq!(text, "[ACPI] RSDP @ 0x80000\n[ACPI] RSDT @ 0x90000\n");
    assert_eq!(entry(&m, 0x8_0000), Some(0x8_0003));
    assert_eq!(entry(&m, 0x9_0000), Some(0x9_0003));
    let (_, text) = init_processors(&tables, &m.phys, m.pml4, &mut m.tables, &mut m.allocator);
    assert_eq!(text, "ACPI: MADT table not found. Cannot start APs.\n");
}

#[test]
fn volume_and_network_lines() {
    assert_eq!(
        mount_message(Some(262133)),
        "FS: FAT volume mounted successfully. Total clusters: 262133\n"
    );
    assert_eq!(mount_message(None), "FS: FAT volume is not formatted.\n");
    assert_eq!(
        network_message(&[10, 0, 2, 15], &[0x52, 0x54, 0, 0x12, 0x34, 0x56]),
        format!("ip:{:?}\nmac:{:?}\n", [10, 0, 2, 15], [0x52, 0x54, 0, 0x12, 0x34, 0x56])
    );
}

#[test]
fn unformatted_volume_is_formatted() {
    let mut dev = device(40);
    assert_eq!(
        prepare_volume(&mut dev),
        (true, String::from("FS: FAT volume not formatted. Formatting...\n"))
    );
    assert_eq!(prepare_volume(&mut dev), (true, String::new()));
    dev.nsid = None;
    assert_eq!(prepare_volume(&mut dev), (false, String::new()));
}

#[test]
fn missing_program_is_created() {
    let mut dev = device(40);
    prepare_volume(&mut dev);
    assert_eq!(
        ensure_program(&mut dev),
        "FS: init.kef not found. Assembling and creating default init.kef...\nFS: Successfully created init.kef\n"
    );
    assert_eq!(read_file(&dev, "init.kef"), Ok(vec![0]));
    assert_eq!(ensure_program(&mut dev), "");
    let mut small = device(17);
    prepare_volume(&mut small);
    assert!(ensure_program(&mut small).contains("FS: Failed to create init.kef: "));
}

#[test]
fn default_program_cannot_be_loaded() {
    let mut dev = device(40);
    let mut m = machine(32);
    assert!(can_provide(&dev));
    assert_eq!(
        provide_program(&mut dev),
        (
            true,
            String::from(
                "FS: FAT volume not formatted. Formatting...\nFS: init.kef not found. Assembling and creating default init.kef...\nFS: Successfully created init.kef\n"
            )
        )
    );
    let (r, text) = load_program(&dev, &mut m.allocator, m.pml4, &mut m.tables, &mut m.phys);
    assert!(r.is_none());
    assert_eq!(text, "Loader: Failed to load init.kef: File too small to contain KEF header\n");
    assert_eq!(list_files(&dev).unwrap().len(), 1);
}

#[test]
fn program_is_started() {
    let mut dev = device(40);
    prepare_volume(&mut dev);
    create_file(&mut dev, "init.kef", &program()).unwrap();
    let mut m = machine(32);
    assert_eq!(provide_program(&mut dev), (true, String::new()));
    let (r, text) = load_program(&dev, &mut m.allocator, m.pml4, &mut m.tables, &mut m.phys);
    // One frame of code, three of tables, four of stack.
    assert_eq!(r, Some((0x100_1010, 0x100_9000)));
    assert_eq!(
        text,
        "Loader: Successfully loaded init.kef. Entry=0x1001010, RSP=0x1009000\n"
    );
    assert_eq!(m.phys.read(0x100_1000, 100), vec![0x90; 100]);
}

#[test]
fn program_that_cannot_be_read() {
    let mut dev = device(40);
    prepare_volume(&mut dev);
    let mut m = machine(32);
    let (r, text) = load_program(&dev, &mut m.allocator, m.pml4, &mut m.tables, &mut m.phys);
    assert!(r.is_none());
    assert_eq!(text, "FS: Failed to read init.kef: FileNotFound\n");
    dev.nsid = None;
    assert_eq!(provide_program(&mut dev), (false, String::new()));
    assert_eq!(halt_message(), "Failed to load user-mode init process. System halted.");
}

fn program() -> Vec<u8> {
    let mut file = b"KEF\0".to_vec();
    file.extend_from_slice(&0x10u32.to_le_bytes());
    file.extend_from_slice(&16u32.to_le_bytes());
    file.extend_from_slice(&100u32.to_le_bytes());
    file.extend_from_slice(&[0x90; 100]);
    file
}

fn device_with(disk: &Disk) -> BlockDevice {
    let mut dev = device(disk.image.len() / 512);
    for (i, s) in dev.sectors.iter_mut().enumerate() {
        s.data.copy_from_slice(&disk.image[512 * i..512 * (i + 1)]);
    }
    dev
}

#[test]
fn program_is_loaded_from_a_disk_image() {
    let mut disk = Disk::new(Vec::new());
    format_disk(&mut disk);
    insert_file(&mut disk, "init.kef", &program()).unwrap();
    let mut dev = device_with(&disk);
    assert!(can_provide(&dev));
    assert_eq!(provide_program(&mut dev), (true, String::new()));
    assert!(dev.log.is_empty());
    let mut m = machine(32);
    let (r, text) = load_program(&dev, &mut m.allocator, m.pml4, &mut m.tables, &mut m.phys);
    assert_eq!(r, Some((0x100_1010, 0x100_9000)));
    assert_eq!(text, "Loader: Successfully loaded init.kef. Entry=0x1001010, RSP=0x1009000\n");
    assert_eq!(m.phys.read(0x100_1000, 100), vec![0x90; 100]);
}

#[test]
fn image_without_the_program_is_left_alone() {
    let mut disk = Disk::new(Vec::new());
    format_disk(&mut disk);
    let mut dev = device_with(&disk);
    assert_eq!(
        provide_program(&mut dev),
        (
            true,
            String::from(
                "FS: init.kef not found. Assembling and creating default init.kef...\nFS: Failed to create init.kef: NotFormatted\n"
            )
        )
    );
    assert!(dev.log.is_empty());
}

#[test]
fn full_counters_leave_no_room_for_the_program() {
    let mut dev = device(40);
    prepare_volume(&mut dev);
    let sb = read_superblock(&dev).unwrap();
    write_superblock(&mut dev, &Superblock { file_count: u32::MAX, ..sb }).unwrap();
    assert!(!can_provide(&dev));
    write_superblock(&mut dev, &Superblock { next_free_block: u64::MAX, ..sb }).unwrap();
    assert!(!can_provide(&dev));
    write_superblock(&mut dev, &sb).unwrap();
    assert!(can_provide(&dev));
}

#[test]
fn first_program_waits_for_a_key() {
    assert!(banner().contains("Hello from Rust User Mode (Ring 3)!"));
    assert!(banner().ends_with("Press any key to trigger shutdown...\n"));
    assert_eq!(after_key(0), ProgramStep::PollAgain);
    assert_eq!(after_key(65), ProgramStep::Shutdown);
    assert_eq!(farewell(), "\nShutting down the system. Goodbye!\n");
    assert_eq!(panic_route(0x23), PanicRoute::SystemCall);
    assert_eq!(panic_route(0x08), PanicRoute::Console);
}
