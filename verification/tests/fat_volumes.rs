use kaguyaos::fat::disk::{Disk, DiskError};
use kaguyaos::fat::layout::{BootSector, FAT_MAGIC, FatDirEntry};
use kaguyaos::fat::report::{file_row, list_files};
use kaguyaos::fat::{
    alloc_cluster, cluster_to_lba, create_file, delete_file, find_file, find_free_slot, format_disk,
    free_cluster_chain, insert_file, read_boot_sector, read_dir_entry, read_fat_entry,
    write_dir_entry, write_fat_entry,
};

fn volume(sectors: usize) -> Disk {
    let mut disk = Disk::new(vec![0u8; sectors * 512]);
    format_disk(&mut disk);
    disk
}

/// The contents of a file, cluster by cluster.
fn contents(disk: &Disk, name: &str) -> Vec<u8> {
    let (_, entry) = find_file(disk, name).unwrap().unwrap();
    let mut data = Vec::new();
    let mut cluster = entry.first_cluster;
    while cluster >= 2 && cluster < 0xFFF0 {
        let at = cluster_to_lba(cluster) as usize * 512;
        data.extend_from_slice(&disk.image[at..at + 4096]);
        cluster = read_fat_entry(disk, cluster).unwrap();
    }
    data.truncate(entry.size as usize);
    data
}

#[test]
fn clusters_begin_behind_the_directory() {
    assert_eq!(cluster_to_lba(2), 81);
    assert_eq!(cluster_to_lba(3), 89);
}

#[test]
fn formatting_writes_the_boot_sector() {
    let disk = volume(200);
    let bs = read_boot_sector(&disk).unwrap();
    assert_eq!(bs.magic, FAT_MAGIC);
    assert_eq!(bs.bytes_per_sector, 512);
    assert_eq!(bs.sectors_per_cluster, 8);
    assert_eq!(bs.fat_start_lba, 1);
    assert_eq!(bs.fat_sectors, 64);
    assert_eq!(bs.root_dir_start_lba, 65);
    assert_eq!(bs.root_dir_sectors, 16);
    assert_eq!(bs.data_start_lba, 81);
    assert_eq!(bs.total_clusters, 262133);
    assert_eq!(read_fat_entry(&disk, 0), Ok(0xFFF8));
    assert_eq!(read_fat_entry(&disk, 1), Ok(0xFFFF));
    assert_eq!(read_fat_entry(&disk, 2), Ok(0));
    assert_eq!(&disk.image[..8], &FAT_MAGIC.to_le_bytes());
}

#[test]
fn formatting_grows_a_short_image() {
    let mut disk = Disk::new(Vec::new());
    format_disk(&mut disk);
    assert_eq!(disk.image.len(), 81 * 512);
    assert!(!disk.writes.is_empty());
    assert_eq!(disk.writes[0].offset, 0);
}

#[test]
fn listing_an_inserted_file() {
    let mut disk = volume(200);
    let data = vec![3u8; 640];
    assert_eq!(insert_file(&mut disk, "init.kef", &data), Ok(()));
    assert_eq!(contents(&disk, "init.kef"), data);
    let (text, end) = list_files(&disk);
    assert_eq!(end, Ok(()));
    let mut expected = format!("{:<22} {:<12} {:<10}\n", "Filename", "Size (bytes)", "First Cluster");
    expected.push_str(&format!("{}\n", "-".repeat(48)));
    expected.push_str(&format!("{:<22} {:<12} {:<10}\n", "init.kef", 640, 2));
    expected.push_str("\nTotal files: 1\n");
    assert_eq!(text, expected);
}

#[test]
fn listing_an_empty_volume() {
    let (text, end) = list_files(&volume(100));
    assert_eq!(end, Ok(()));
    assert!(text.ends_with("---\n\nTotal files: 0\n"));
}

#[test]
fn listing_broken_names() {
    let mut disk = volume(100);
    let mut name = [0u8; 22];
    name[0] = 0xC3;
    name[1] = b'a';
    let entry = FatDirEntry { name, first_cluster: 0, size: 1, in_use: 1 };
    write_dir_entry(&mut disk, 9, &entry).unwrap();
    let (text, _) = list_files(&disk);
    assert!(text.contains(&format!("{:<22} {:<12} {:<10}\n", "\u{FFFD}a", 1, 0)));
}

#[test]
fn listing_stops_where_the_image_ends() {
    let mut disk = volume(100);
    insert_file(&mut disk, "a", b"x").unwrap();
    disk.image.truncate(66 * 512);
    let (text, end) = list_files(&disk);
    assert_eq!(end, Err(DiskError::UnexpectedEnd));
    assert!(text.ends_with(&format!("{:<22} {:<12} {:<10}\n", "a", 1, 2)));
}

#[test]
fn rows_are_padded_but_not_cut() {
    assert_eq!(file_row("abc", 7, 2), format!("{:<22} {:<12} {:<10}\n", "abc", 7, 2));
    let long = "x".repeat(30);
    assert_eq!(file_row(&long, 7, 2), format!("{:<22} {:<12} {:<10}\n", long, 7, 2));
    assert_eq!(file_row("é", 0, 0), format!("{:<22} {:<12} {:<10}\n", "é", 0, 0));
}

#[test]
fn unformatted_image_is_refused() {
    let mut disk = Disk::new(vec![0u8; 100 * 512]);
    assert_eq!(list_files(&disk), (String::new(), Err(DiskError::NotFormatted)));
    assert_eq!(insert_file(&mut disk, "a", b"x"), Err(DiskError::NotFormatted));
    assert_eq!(
        list_files(&Disk::new(vec![0u8; 10])),
        (String::new(), Err(DiskError::UnexpectedEnd))
    );
}

#[test]
fn large_file_is_chained() {
    let mut disk = volume(300);
    let data: Vec<u8> = (0..9000u32).map(|i| (i % 251) as u8).collect();
    insert_file(&mut disk, "big", &data).unwrap();
    assert_eq!(contents(&disk, "big"), data);
    assert_eq!(read_fat_entry(&disk, 2), Ok(3));
    assert_eq!(read_fat_entry(&disk, 3), Ok(4));
    assert_eq!(read_fat_entry(&disk, 4), Ok(0xFFFF));
}

#[test]
fn inserting_again_overwrites_and_keeps_others() {
    let mut disk = volume(300);
    insert_file(&mut disk, "a", &vec![1u8; 5000]).unwrap();
    insert_file(&mut disk, "b", &vec![2u8; 100]).unwrap();
    insert_file(&mut disk, "a", &vec![3u8; 10]).unwrap();
    assert_eq!(contents(&disk, "a"), vec![3u8; 10]);
    assert_eq!(contents(&disk, "b"), vec![2u8; 100]);
    assert_eq!(read_fat_entry(&disk, 3), Ok(0));
    assert!(list_files(&disk).0.ends_with("\nTotal files: 2\n"));
}

#[test]
fn deleting_frees_the_chain() {
    let mut disk = volume(300);
    insert_file(&mut disk, "a", &vec![1u8; 5000]).unwrap();
    assert_eq!(delete_file(&mut disk, "a"), Ok(()));
    assert_eq!(read_fat_entry(&disk, 2), Ok(0));
    assert_eq!(read_fat_entry(&disk, 3), Ok(0));
    assert!(find_file(&disk, "a").unwrap().is_none());
    assert_eq!(delete_file(&mut disk, "a"), Ok(()));
}

#[test]
fn names_have_one_to_twenty_one_bytes() {
    let mut disk = volume(200);
    assert_eq!(insert_file(&mut disk, "", b""), Err(DiskError::InvalidName));
    assert_eq!(insert_file(&mut disk, &"n".repeat(22), b""), Err(DiskError::InvalidName));
    assert_eq!(insert_file(&mut disk, &"n".repeat(21), b""), Ok(()));
    assert!(find_file(&disk, &"n".repeat(21)).unwrap().is_some());
}

#[test]
fn empty_file_has_no_cluster() {
    let mut disk = volume(200);
    insert_file(&mut disk, "empty", b"").unwrap();
    let (_, entry) = find_file(&disk, "empty").unwrap().unwrap();
    assert_eq!(entry.first_cluster, 0);
    assert_eq!(entry.size, 0);
}

#[test]
fn volume_without_free_clusters_is_full() {
    let mut disk = volume(200);
    assert_eq!(create_file(&mut disk, "a", &vec![1u8; 4097], 1), Err(DiskError::DiskFull));
    let mut disk = volume(200);
    assert_eq!(alloc_cluster(&mut disk, 2), Ok(2));
    assert_eq!(alloc_cluster(&mut disk, 2), Ok(3));
    assert_eq!(alloc_cluster(&mut disk, 2), Err(DiskError::DiskFull));
}

#[test]
fn directory_without_free_slots() {
    let mut disk = volume(200);
    let entry = FatDirEntry { name: [b'x'; 22], first_cluster: 0, size: 0, in_use: 1 };
    for i in 0..256 {
        write_dir_entry(&mut disk, i, &entry).unwrap();
    }
    assert_eq!(find_free_slot(&disk), Ok(None));
    assert_eq!(insert_file(&mut disk, "a", b""), Err(DiskError::NoFreeSlot));
}

#[test]
fn chain_that_loops_is_freed() {
    let mut disk = volume(200);
    write_fat_entry(&mut disk, 5, 6).unwrap();
    write_fat_entry(&mut disk, 6, 5).unwrap();
    assert_eq!(free_cluster_chain(&mut disk, 5), Ok(()));
    assert_eq!(read_fat_entry(&disk, 5), Ok(0));
    assert_eq!(read_fat_entry(&disk, 6), Ok(0));
}

#[test]
fn error_messages() {
    assert_eq!(DiskError::NotFormatted.message(), "Disk is not formatted with KAGFAT16");
    assert_ne!(DiskError::DiskFull.message(), DiskError::NoFreeSlot.message());
}

#[test]
fn boot_sector_round_trip() {
    let bs = BootSector {
        magic: 1,
        bytes_per_sector: 2,
        sectors_per_cluster: 3,
        fat_start_lba: 4,
        fat_sectors: 5,
        root_dir_start_lba: 6,
        root_dir_sectors: 7,
        data_start_lba: 8,
        total_clusters: 9,
    };
    let b = bs.to_bytes();
    assert_eq!(b[8], 2);
    assert_eq!(b[34], 9);
    assert_eq!(BootSector::from_bytes(&b).total_clusters, 9);
}

#[test]
fn directory_entry_round_trip() {
    let mut disk = volume(100);
    let entry = FatDirEntry { name: [5u8; 22], first_cluster: 0x1234, size: 77, in_use: 1 };
    let b = entry.to_bytes();
    assert_eq!(&b[22..24], &[0x34, 0x12]);
    assert_eq!(b[24], 77);
    assert_eq!(b[28], 1);
    write_dir_entry(&mut disk, 17, &entry).unwrap();
    let back = read_dir_entry(&disk, 17).unwrap();
    assert_eq!(back.first_cluster, 0x1234);
    assert_eq!(back.name, [5u8; 22]);
}

#[test]
fn refused_file_leaves_the_others() {
    let mut disk = volume(200);
    create_file(&mut disk, "a", &vec![1u8; 4096], 3).unwrap();
    create_file(&mut disk, "b", &vec![2u8; 4096], 3).unwrap();
    assert_eq!(create_file(&mut disk, "b", &vec![3u8; 9000], 3), Err(DiskError::DiskFull));
    assert!(find_file(&disk, "b").unwrap().is_none());
    assert_eq!(contents(&disk, "a"), vec![1u8; 4096]);
}

#[test]
fn replaced_file_makes_room() {
    let mut disk = volume(200);
    create_file(&mut disk, "a", &vec![1u8; 8192], 2).unwrap();
    assert_eq!(create_file(&mut disk, "a", &vec![2u8; 8000], 2), Ok(()));
    assert_eq!(contents(&disk, "a"), vec![2u8; 8000]);
}
