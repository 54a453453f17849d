//! Whether an operation keeps every number in range, as it owes its caller.

use vstd::prelude::*;
use vstd::utf8::encode_utf8;
use crate::device::{BLOCK_SIZE, BlockDevice};
use crate::fs::layout::{FileEntry, MAX_BLOCKS, Superblock, free_entry};
use crate::fs::model::{
    Relocation, blocks_for, create_fits, delete_fits, first_free, load_superblock, read_fits,
    relocate_all, relocations_fit, remove_fits,
};
use crate::fs::{
    collect_relocations, delete_file_at, find_entry, find_free_entry, holds_fat,
    put_directory_entry, read_directory_entry, read_superblock, relocate_file, uncount,
};

verus! {

/// Sectors that a file of `size` bytes takes.
fn sectors_of(size: u64) -> (n: u64)
    ensures
        n == blocks_for(size as int),
{
    let whole: u64 = size / BLOCK_SIZE as u64;
    if size % BLOCK_SIZE as u64 == 0 {
        whole
    } else {
        whole + 1
    }
}

/// Whether the file `name` has a size that the machine can represent.
pub fn can_read(dev: &BlockDevice, name: &str) -> (b: bool)
    ensures
        b == read_fits(dev@, encode_utf8(name@)),
{
    if holds_fat(dev) {
        return true;
    }
    match find_entry(dev, name) {
        Ok(Some((_, e))) => {
            e.size <= usize::MAX as u64 - BLOCK_SIZE as u64 && sectors_of(e.size)
                <= u32::MAX as u64
        },
        _ => true,
    }
}

/// Whether every number stays in range when the files `ms` move down by `r` and
/// the sectors are given back.
fn can_relocate(dev: BlockDevice, ms: &Vec<Relocation>, r: u64) -> (b: bool)
    ensures
        b == (relocations_fit(dev@, ms@, r as int, 0) && (match relocate_all(
            dev@,
            ms@,
            r as int,
            0,
        ) {
            (Err(_), _) => true,
            (Ok(_), d1) => load_superblock(d1) matches Ok(sb) ==> sb.next_free >= r,
        })),
{
    let ghost d0 = dev@;
    let mut trial = dev;
    let mut k: usize = 0;
    while k < ms.len()
        invariant
            k <= ms@.len(),
            relocations_fit(d0, ms@, r as int, 0) == relocations_fit(
                trial@,
                ms@,
                r as int,
                k as int,
            ),
            relocate_all(d0, ms@, r as int, 0) == relocate_all(trial@, ms@, r as int, k as int),
            d0 == dev@,
        decreases ms@.len() - k,
    {
        let m: Relocation = ms[k];
        if m.size > u64::MAX - BLOCK_SIZE as u64 || m.start < r {
            return false;
        }
        match relocate_file(&mut trial, m, r) {
            Err(_) => {
                return true;
            },
            Ok(_) => {},
        }
        k += 1;
    }
    match read_superblock(&trial) {
        Err(_) => true,
        Ok(sb) => sb.next_free_block >= r,
    }
}

/// Whether the file in slot `index` can be deleted with every number in range.
fn can_delete_at(dev: &BlockDevice, index: usize) -> (b: bool)
    ensures
        b == delete_fits(dev@, index as int),
{
    let entry = match read_directory_entry(dev, index) {
        Err(_) => {
            return true;
        },
        Ok(e) => e,
    };
    if entry.in_use == 0 {
        return true;
    }
    if entry.size > u64::MAX - BLOCK_SIZE as u64 {
        return false;
    }
    let r: u64 = sectors_of(entry.size);
    let mut trial = dev.clone();
    let free = FileEntry { name: [0u8; 47], start_block: 0, size: 0, in_use: 0 };
    assert(free@ == free_entry());
    match put_directory_entry(&mut trial, index, &free) {
        Err(_) => {
            return true;
        },
        Ok(_) => {},
    }
    match uncount(&mut trial) {
        Err(_) => {
            return true;
        },
        Ok(_) => {},
    }
    if r == 0 {
        return true;
    }
    match collect_relocations(&trial, entry.start_block) {
        Err(_) => true,
        Ok(ms) => can_relocate(trial, &ms, r),
    }
}

/// Whether the file `name` can be deleted with every number in range. The
/// deletion is tried out on a copy.
pub fn can_delete(dev: &BlockDevice, name: &str) -> (b: bool)
    ensures
        b == remove_fits(dev@, encode_utf8(name@)),
{
    match find_entry(dev, name) {
        Ok(Some((i, _))) => can_delete_at(dev, i),
        _ => true,
    }
}

/// Whether a file of `len` bytes can be added with every number in range to a
/// volume whose superblock is `sb`.
fn can_add(dev: &BlockDevice, sb: &Superblock, len: usize) -> (b: bool)
    ensures
        b == (first_free(dev@) matches Ok(Some(_)) ==> {
            let end = sb.next_free_block + blocks_for(len as int);
            &&& end <= u64::MAX
            &&& end <= MAX_BLOCKS ==> sb.file_count < u32::MAX
        }),
{
    match find_free_entry(dev) {
        Ok(Some(_)) => match sb.next_free_block.checked_add(sectors_of(len as u64)) {
            None => false,
            Some(end) => end > MAX_BLOCKS || sb.file_count < u32::MAX,
        },
        _ => true,
    }
}

/// Whether the file `name` can be created with the contents `data` and every
/// number in range. The deletion of a file that it replaces is tried out on a
/// copy.
pub fn can_create(dev: &BlockDevice, name: &str, data: &[u8]) -> (b: bool)
    ensures
        b == create_fits(dev@, encode_utf8(name@), data@),
{
    assert(data.len() == data@.len());
    let sb = match read_superblock(dev) {
        Err(_) => {
            return true;
        },
        Ok(sb) => sb,
    };
    match find_entry(dev, name) {
        Err(_) => true,
        Ok(None) => can_add(dev, &sb, data.len()),
        Ok(Some((i, _))) => {
            if !can_delete_at(dev, i) {
                return false;
            }
            let mut trial = dev.clone();
            match delete_file_at(&mut trial, i) {
                Err(_) => {
                    return true;
                },
                Ok(_) => {},
            }
            match read_superblock(&trial) {
                Err(_) => true,
                Ok(sb1) => can_add(&trial, &sb1, data.len()),
            }
        },
    }
}

} // verus!
