use kaguyaos::device::{BlockDevice, Sector};
use kaguyaos::fat::disk::Disk;
use kaguyaos::fat::{format_disk, insert_file};
use kaguyaos::fs::check::{can_create, can_delete, can_read};
use kaguyaos::fs::error::{FsError, result_from_syscall};
use kaguyaos::fs::layout::{FileEntry, MAX_BLOCKS, SFS_MAGIC, Superblock};
use kaguyaos::fs::{
    block_size, create_file, delete_file, delete_file_at, find_file, find_free_entry, is_formatted, is_ready,
    list_files, read_block, read_blocks, read_boot_sector, read_file, read_superblock, write_block, write_blocks,
    write_directory_entry, write_superblock,
};

fn device(sectors: usize) -> BlockDevice {
    let mut v = Vec::new();
    for _ in 0..sectors {
        v.push(Sector { data: [0u8; 512], defective: false });
    }
    BlockDevice { nsid: Some(1), sectors: v, log: Vec::new() }
}

fn volume(sectors: usize) -> BlockDevice {
    let mut dev = device(sectors);
    assert_eq!(kaguyaos::fs::format(&mut dev), Ok(()));
    dev
}

fn bytes(n: usize, seed: u8) -> Vec<u8> {
    (0..n).map(|i| (i as u8).wrapping_mul(31).wrapping_add(seed)).collect()
}

#[test]
fn sector_size() {
    assert_eq!(block_size(), 512);
}

#[test]
fn error_codes() {
    assert_eq!(FsError::NotReady.code(), -1);
    assert_eq!(FsError::InvalidArgument.code(), -2);
    assert_eq!(FsError::DeviceError.code(), -3);
    assert_eq!(FsError::NotFormatted.code(), -4);
    assert_eq!(FsError::NoSpace.code(), -5);
    assert_eq!(FsError::FileNotFound.code(), -6);
    assert_eq!(FsError::NoSpace.name(), format!("{:?}", FsError::NoSpace));
}

#[test]
fn transfer_results() {
    assert_eq!(result_from_syscall(0), Ok(()));
    assert_eq!(result_from_syscall(-1), Err(FsError::NotReady));
    assert_eq!(result_from_syscall(-2), Err(FsError::InvalidArgument));
    assert_eq!(result_from_syscall(-3), Err(FsError::DeviceError));
}

#[test]
fn device_without_namespace_is_not_ready() {
    let mut dev = device(40);
    dev.nsid = None;
    assert!(!is_ready(&dev));
    assert_eq!(kaguyaos::fs::format(&mut dev), Err(FsError::NotReady));
    assert_eq!(read_file(&dev, "a"), Err(FsError::NotReady));
}

#[test]
fn fresh_volume_has_no_files() {
    let dev = volume(40);
    let sb = read_superblock(&dev).unwrap();
    assert_eq!(sb.magic, SFS_MAGIC);
    assert_eq!(sb.next_free_block, 17);
    assert_eq!(sb.file_count, 0);
    assert!(list_files(&dev).unwrap().is_empty());
    assert_eq!(find_free_entry(&dev), Ok(Some(0)));
}

#[test]
fn unformatted_volume_is_refused() {
    let mut dev = device(40);
    assert!(matches!(read_superblock(&dev), Err(FsError::NotFormatted)));
    assert_eq!(create_file(&mut dev, "a", b"x"), Err(FsError::NotFormatted));
}

#[test]
fn created_file_reads_back() {
    let mut dev = volume(60);
    let data = bytes(1300, 5);
    assert_eq!(create_file(&mut dev, "a.txt", &data), Ok(()));
    assert_eq!(read_file(&dev, "a.txt"), Ok(data));
    let (index, entry) = find_file(&dev, "a.txt").unwrap().unwrap();
    assert_eq!(index, 0);
    assert_eq!(entry.start_block, 17);
    assert_eq!(entry.size, 1300);
    assert_eq!(entry.in_use, 1);
    let sb = read_superblock(&dev).unwrap();
    assert_eq!(sb.next_free_block, 20);
    assert_eq!(sb.file_count, 1);
}

#[test]
fn empty_file_takes_no_sectors() {
    let mut dev = volume(40);
    assert_eq!(create_file(&mut dev, "empty", b""), Ok(()));
    assert_eq!(read_file(&dev, "empty"), Ok(vec![]));
    assert_eq!(read_superblock(&dev).unwrap().next_free_block, 17);
}

#[test]
fn names_have_one_to_forty_six_bytes() {
    let mut dev = volume(40);
    assert_eq!(create_file(&mut dev, "", b"x"), Err(FsError::InvalidArgument));
    let long = "n".repeat(47);
    assert_eq!(create_file(&mut dev, &long, b"x"), Err(FsError::InvalidArgument));
    assert_eq!(read_file(&dev, &long), Err(FsError::InvalidArgument));
    let fits = "n".repeat(46);
    assert_eq!(create_file(&mut dev, &fits, b"x"), Ok(()));
    assert_eq!(read_file(&dev, &fits), Ok(vec![b'x']));
}

#[test]
fn missing_file_is_not_found() {
    let mut dev = volume(40);
    assert_eq!(read_file(&dev, "nope"), Err(FsError::FileNotFound));
    assert_eq!(delete_file(&mut dev, "nope"), Err(FsError::FileNotFound));
    assert!(find_file(&dev, "nope").unwrap().is_none());
}

#[test]
fn creating_again_replaces() {
    let mut dev = volume(60);
    create_file(&mut dev, "a", &bytes(900, 1)).unwrap();
    create_file(&mut dev, "b", &bytes(10, 2)).unwrap();
    create_file(&mut dev, "a", &bytes(20, 3)).unwrap();
    assert_eq!(read_file(&dev, "a"), Ok(bytes(20, 3)));
    assert_eq!(read_file(&dev, "b"), Ok(bytes(10, 2)));
    assert_eq!(list_files(&dev).unwrap().len(), 2);
    assert_eq!(read_superblock(&dev).unwrap().file_count, 2);
}

#[test]
fn deleting_closes_the_gap() {
    let mut dev = volume(80);
    create_file(&mut dev, "a", &bytes(1000, 1)).unwrap();
    create_file(&mut dev, "b", &bytes(600, 2)).unwrap();
    create_file(&mut dev, "c", &bytes(513, 3)).unwrap();
    assert_eq!(delete_file(&mut dev, "b"), Ok(()));
    assert_eq!(read_file(&dev, "b"), Err(FsError::FileNotFound));
    assert_eq!(read_file(&dev, "a"), Ok(bytes(1000, 1)));
    assert_eq!(read_file(&dev, "c"), Ok(bytes(513, 3)));
    let (_, c) = find_file(&dev, "c").unwrap().unwrap();
    assert_eq!(c.start_block, 19);
    let sb = read_superblock(&dev).unwrap();
    assert_eq!(sb.next_free_block, 21);
    assert_eq!(sb.file_count, 2);
}

#[test]
fn listing_is_in_slot_order() {
    let mut dev = volume(80);
    create_file(&mut dev, "a", b"1").unwrap();
    create_file(&mut dev, "b", b"22").unwrap();
    delete_file(&mut dev, "a").unwrap();
    create_file(&mut dev, "c", b"333").unwrap();
    let list = list_files(&dev).unwrap();
    assert_eq!(list.len(), 2);
    assert_eq!(list[0].name, "c");
    assert_eq!(list[0].size, 3);
    assert_eq!(list[1].name, "b");
    assert_eq!(list[1].start_block, 17);
}

#[test]
fn broken_names_are_listed_with_replacement_characters() {
    let mut dev = volume(40);
    let mut name = [0u8; 47];
    name[0] = b'x';
    name[1] = 0xFF;
    let entry = FileEntry { name, start_block: 17, size: 0, in_use: 1 };
    assert_eq!(write_directory_entry(&mut dev, 3, &entry), Ok(()));
    assert_eq!(list_files(&dev).unwrap()[0].name, "x\u{FFFD}");
    assert_eq!(write_directory_entry(&mut dev, 128, &entry), Err(FsError::InvalidArgument));
}

#[test]
fn full_directory_has_no_space() {
    let mut dev = volume(40);
    for i in 0..128 {
        assert_eq!(create_file(&mut dev, &format!("f{}", i), b""), Ok(()));
    }
    assert_eq!(find_free_entry(&dev), Ok(None));
    assert_eq!(create_file(&mut dev, "one more", b""), Err(FsError::NoSpace));
    assert_eq!(create_file(&mut dev, "f7", b""), Ok(()));
}

#[test]
fn volume_limit_has_no_space() {
    let mut dev = volume(40);
    let mut sb = read_superblock(&dev).unwrap();
    sb.next_free_block = MAX_BLOCKS;
    write_superblock(&mut dev, &sb).unwrap();
    assert_eq!(create_file(&mut dev, "a", b"x"), Err(FsError::NoSpace));
    assert_eq!(create_file(&mut dev, "a", b""), Ok(()));
}

#[test]
fn defective_sector_is_a_device_error() {
    let mut dev = volume(40);
    create_file(&mut dev, "a", b"x").unwrap();
    dev.sectors[17].defective = true;
    assert_eq!(read_file(&dev, "a"), Err(FsError::DeviceError));
    assert_eq!(read_file(&dev, "b"), Err(FsError::FileNotFound));
}

#[test]
fn blocks_round_trip_and_are_checked() {
    let mut dev = device(8);
    let data = bytes(1024, 9);
    assert_eq!(write_blocks(&mut dev, 2, 2, &data), Ok(()));
    let mut back = vec![0u8; 1024];
    assert_eq!(read_blocks(&dev, 2, 2, &mut back), Ok(()));
    assert_eq!(back, data);
    let mut sector = [0u8; 512];
    assert_eq!(read_block(&dev, 3, &mut sector), Ok(()));
    assert_eq!(&sector[..], &data[512..]);
    assert_eq!(write_block(&mut dev, 7, &sector), Ok(()));
    assert_eq!(read_blocks(&dev, 0, 0, &mut back), Err(FsError::InvalidArgument));
    assert!(read_block(&dev, 8, &mut sector).is_err());
}

#[test]
fn layouts_round_trip() {
    let entry = FileEntry { name: [7u8; 47], start_block: 0x0102_0304, size: 99, in_use: 1 };
    let b = entry.to_bytes();
    assert_eq!(b[46], 7);
    assert_eq!(&b[47..51], &[4, 3, 2, 1]);
    assert_eq!(b[55], 99);
    assert_eq!(b[63], 1);
    let back = FileEntry::from_bytes(&b, 0);
    assert_eq!(back.start_block, 0x0102_0304);
    assert_eq!(back.size, 99);
    let sb = Superblock { magic: SFS_MAGIC, next_free_block: 17, file_count: 3, padding: [0; 492] };
    let b = sb.to_bytes();
    assert_eq!(&b[..8], &SFS_MAGIC.to_le_bytes());
    assert_eq!(b[8], 17);
    assert_eq!(b[16], 3);
    assert_eq!(Superblock::from_bytes(&b).file_count, 3);
}

#[test]
fn deleting_twice_finds_nothing() {
    let mut dev = volume(80);
    create_file(&mut dev, "a", &bytes(700, 1)).unwrap();
    create_file(&mut dev, "b", &bytes(5, 2)).unwrap();
    let (index, _) = find_file(&dev, "a").unwrap().unwrap();
    delete_file(&mut dev, "a").unwrap();
    let writes = dev.log.len();
    assert_eq!(delete_file(&mut dev, "a"), Err(FsError::FileNotFound));
    assert_eq!(delete_file_at(&mut dev, index), Ok(()));
    assert_eq!(dev.log.len(), writes);
    assert_eq!(dev.nsid, Some(1));
}

/// A device that holds an image with the given files.
fn image(files: &[(&str, Vec<u8>)]) -> BlockDevice {
    let mut disk = Disk::new(Vec::new());
    format_disk(&mut disk);
    for (name, data) in files {
        insert_file(&mut disk, name, data).unwrap();
    }
    let mut dev = device(disk.image.len() / 512);
    for (i, s) in dev.sectors.iter_mut().enumerate() {
        s.data.copy_from_slice(&disk.image[512 * i..512 * (i + 1)]);
    }
    dev
}

#[test]
fn files_of_a_disk_image_are_read() {
    let dev = image(&[
        ("init.kef", vec![0x90; 640]),
        ("empty", vec![]),
        ("large", bytes(10_000, 7)),
        ("whole", bytes(8192, 9)),
    ]);
    assert!(is_formatted(&dev));
    assert_eq!(read_boot_sector(&dev).unwrap().total_clusters, 262133);
    assert_eq!(read_file(&dev, "init.kef"), Ok(vec![0x90; 640]));
    assert_eq!(read_file(&dev, "empty"), Ok(vec![]));
    assert_eq!(read_file(&dev, "large"), Ok(bytes(10_000, 7)));
    assert_eq!(read_file(&dev, "whole"), Ok(bytes(8192, 9)));
    assert_eq!(read_file(&dev, "none"), Err(FsError::FileNotFound));
    assert_eq!(read_file(&dev, ""), Err(FsError::InvalidArgument));
    assert_eq!(read_file(&dev, &"n".repeat(47)), Err(FsError::InvalidArgument));
    for n in [22, 23, 46] {
        assert_eq!(read_file(&dev, &"n".repeat(n)), Err(FsError::FileNotFound));
        assert!(find_file(&dev, &"n".repeat(n)).unwrap().is_none());
    }
    assert_eq!(find_file(&dev, &"n".repeat(47)).err(), Some(FsError::InvalidArgument));
    let (index, entry) = find_file(&dev, "large").unwrap().unwrap();
    assert_eq!((index, entry.start_block, entry.size, entry.in_use), (2, 89, 10_000, 1));
    assert_eq!(&entry.name[..6], b"large\0");
    let (index, entry) = find_file(&dev, "empty").unwrap().unwrap();
    assert_eq!((index, entry.start_block, entry.size), (1, 0, 0));
    assert!(find_file(&dev, "none").unwrap().is_none());
}

#[test]
fn a_disk_image_is_not_changed() {
    let mut dev = image(&[("a", bytes(5000, 1))]);
    assert_eq!(create_file(&mut dev, "b", &[1]), Err(FsError::NotFormatted));
    assert_eq!(delete_file(&mut dev, "a"), Err(FsError::FileNotFound));
    assert_eq!(delete_file(&mut dev, ""), Err(FsError::InvalidArgument));
    assert_eq!(list_files(&dev).err(), Some(FsError::NotFormatted));
    assert!(dev.log.is_empty());
    assert!(can_read(&dev, "a") && can_create(&dev, "a", &[1]) && can_delete(&dev, "a"));
    kaguyaos::fs::format(&mut dev).unwrap();
    assert_eq!(read_boot_sector(&dev), Err(FsError::NotFormatted));
    assert!(is_formatted(&dev));
    assert_eq!(read_file(&dev, "a"), Err(FsError::FileNotFound));
}

#[test]
fn faults_of_a_disk_image() {
    let mut dev = image(&[("a", bytes(5000, 1))]);
    dev.sectors[90].defective = true;
    assert_eq!(read_file(&dev, "a"), Err(FsError::DeviceError));
    dev.sectors[90].defective = false;
    // The chain of the first cluster ends too early.
    dev.sectors[1].data[4] = 0xFF;
    dev.sectors[1].data[5] = 0xFF;
    assert_eq!(read_file(&dev, "a"), Err(FsError::DeviceError));
    dev.sectors[65].defective = true;
    assert_eq!(read_file(&dev, "a"), Err(FsError::DeviceError));
    assert!(find_file(&dev, "a").is_err());
    dev.sectors[0].defective = true;
    assert!(!is_formatted(&dev));
    assert_eq!(read_boot_sector(&dev), Err(FsError::DeviceError));
    assert!(!is_formatted(&device(40)));
}

#[test]
fn operations_that_keep_numbers_in_range() {
    let mut dev = volume(80);
    create_file(&mut dev, "a", &bytes(700, 1)).unwrap();
    assert!(can_read(&dev, "a") && can_create(&dev, "a", &[1]) && can_delete(&dev, "a"));
    let (index, entry) = find_file(&dev, "a").unwrap().unwrap();
    write_directory_entry(&mut dev, index, &FileEntry { size: u64::MAX, ..entry }).unwrap();
    assert!(!can_read(&dev, "a") && !can_create(&dev, "a", &[1]) && !can_delete(&dev, "a"));
    assert!(can_read(&dev, "b") && can_create(&dev, "b", &[1]) && can_delete(&dev, "b"));
    let sb = read_superblock(&dev).unwrap();
    write_superblock(&mut dev, &Superblock { next_free_block: u64::MAX, ..sb }).unwrap();
    assert!(can_create(&dev, "b", &[]) && !can_create(&dev, "b", &[1]));
    // A full counter matters only where a file would be stored.
    let full = Superblock { file_count: u32::MAX, ..sb };
    write_superblock(&mut dev, &full).unwrap();
    assert!(!can_create(&dev, "b", &[1]));
    write_superblock(&mut dev, &Superblock { next_free_block: MAX_BLOCKS, ..full }).unwrap();
    assert!(can_create(&dev, "b", &[1]));
    assert_eq!(create_file(&mut dev, "b", &[1]), Err(FsError::NoSpace));
}

#[test]
fn damaged_volumes_where_nothing_overflows() {
    let mut dev = volume(80);
    create_file(&mut dev, "a", &bytes(700, 1)).unwrap();
    create_file(&mut dev, "b", &bytes(5, 2)).unwrap();
    let sb = read_superblock(&dev).unwrap();
    write_superblock(&mut dev, &Superblock { file_count: 0, ..sb }).unwrap();
    assert!(can_create(&dev, "a", &[1]) && can_delete(&dev, "a"));
    let writes = dev.log.len();
    assert!(can_delete(&dev, "b"));
    assert_eq!(dev.log.len(), writes);
    delete_file(&mut dev, "a").unwrap();
    assert_eq!(read_file(&dev, "b"), Ok(bytes(5, 2)));
    // A file that would have to move below the first sector.
    let (index, entry) = find_file(&dev, "b").unwrap().unwrap();
    create_file(&mut dev, "c", &bytes(512 * 30, 3)).unwrap();
    write_directory_entry(&mut dev, index, &FileEntry { start_block: 19, ..entry }).unwrap();
    assert!(!can_delete(&dev, "c") && !can_create(&dev, "c", &[]));
    assert!(can_delete(&dev, "b"));
    // The superblock has too few sectors to give back.
    let sb = read_superblock(&dev).unwrap();
    write_superblock(&mut dev, &Superblock { next_free_block: 0, ..sb }).unwrap();
    assert!(!can_delete(&dev, "b"));
}

#[test]
fn deleting_undoes_creating() {
    let mut dev = volume(80);
    create_file(&mut dev, "a", &bytes(700, 1)).unwrap();
    create_file(&mut dev, "empty", &[]).unwrap();
    let names = |dev: &BlockDevice| -> Vec<(String, u64, u64)> {
        list_files(dev).unwrap().into_iter().map(|f| (f.name, f.size, f.start_block)).collect()
    };
    let listed = names(&dev);
    let sb = read_superblock(&dev).unwrap();
    create_file(&mut dev, "b", &bytes(1500, 2)).unwrap();
    delete_file(&mut dev, "b").unwrap();
    assert_eq!(names(&dev), listed);
    let after = read_superblock(&dev).unwrap();
    assert_eq!(
        (after.next_free_block, after.file_count, after.padding),
        (sb.next_free_block, sb.file_count, sb.padding)
    );
    assert_eq!(read_file(&dev, "a"), Ok(bytes(700, 1)));
    assert_eq!(read_file(&dev, "empty"), Ok(vec![]));
    assert_eq!(read_file(&dev, "b"), Err(FsError::FileNotFound));
}

#[test]
fn misplaced_empty_files_do_no_harm() {
    let mut dev = volume(80);
    create_file(&mut dev, "empty", &[]).unwrap();
    let (index, entry) = find_file(&dev, "empty").unwrap().unwrap();
    write_directory_entry(&mut dev, index, &FileEntry { start_block: 5000, ..entry }).unwrap();
    create_file(&mut dev, "a", &bytes(700, 1)).unwrap();
    create_file(&mut dev, "b", &bytes(5, 2)).unwrap();
    create_file(&mut dev, "a", &bytes(10, 3)).unwrap();
    assert_eq!(read_file(&dev, "a"), Ok(bytes(10, 3)));
    assert_eq!(read_file(&dev, "b"), Ok(bytes(5, 2)));
    assert_eq!(read_file(&dev, "empty"), Ok(vec![]));
    assert_eq!(read_superblock(&dev).unwrap().next_free_block, 19);
}
