//! Finding the root pointer.

use vstd::prelude::*;
use crate::acpi::layout::{RSDP_SIZE, RSDP_V2_SIZE, readable};
use crate::le::{lemma_u64_round_trip, u64_bytes};
use crate::memory::phys::{PhysMemory, bytes_at, mem_u16, mem_u32, mem_u64};

verus! {

/// The sum of the bytes.
pub open spec fn byte_sum(s: Seq<u8>) -> int
    decreases s.len(),
{
    if s.len() == 0 {
        0
    } else {
        byte_sum(s.drop_last()) + s.last()
    }
}

/// The sum of the `len` bytes from `a` on, modulo 256.
pub open spec fn checksum_at(m: Map<int, u8>, a: int, len: int) -> int {
    byte_sum(bytes_at(m, a, len)) % 0x100
}

/// Adds up the `len` bytes from `a` on, modulo 256.
pub fn checksum(mem: &PhysMemory, a: u64, len: usize) -> (sum: u8)
    requires
        readable(mem@, a as int, len as int),
    ensures
        sum == checksum_at(mem@, a as int, len as int),
{
    let mut sum: u8 = 0;
    let mut i: usize = 0;
    while i < len
        invariant
            i <= len,
            readable(mem@, a as int, len as int),
            sum == checksum_at(mem@, a as int, i as int),
        decreases len - i,
    {
        let b: u8 = mem.read_u8(a + i as u64);
        proof {
            let s = bytes_at(mem@, a as int, i + 1);
            assert(s.drop_last() =~= bytes_at(mem@, a as int, i as int));
            assert(s.last() == b);
        }
        sum = sum.wrapping_add(b);
        i += 1;
    }
    sum
}

/// Whether the `len` bytes from `a` on add up to zero.
pub fn verify_checksum(mem: &PhysMemory, a: u64, len: usize) -> (ok: bool)
    requires
        readable(mem@, a as int, len as int),
    ensures
        ok == (checksum_at(mem@, a as int, len as int) == 0),
{
    checksum(mem, a, len) == 0
}

/// The text `RSD PTR `.
pub open spec fn rsdp_signature() -> Seq<u8> {
    seq![0x52u8, 0x53u8, 0x44u8, 0x20u8, 0x50u8, 0x54u8, 0x52u8, 0x20u8]
}

/// A valid root pointer begins at `a`.
pub open spec fn is_rsdp(m: Map<int, u8>, a: int) -> bool {
    bytes_at(m, a, 8) == rsdp_signature() && checksum_at(m, a, RSDP_SIZE as int) == 0
}

/// The first valid root pointer at `a`, `a + 16` and so on that ends no later
/// than `end`.
pub open spec fn first_rsdp(m: Map<int, u8>, a: int, end: int) -> Option<u64>
    decreases end - a,
{
    if a + RSDP_SIZE > end {
        None
    } else if is_rsdp(m, a) {
        Some(a as u64)
    } else {
        first_rsdp(m, a + 16, end)
    }
}

fn has_rsdp_signature(mem: &PhysMemory, a: u64) -> (b: bool)
    requires
        readable(mem@, a as int, 8),
    ensures
        b == (bytes_at(mem@, a as int, 8) == rsdp_signature()),
{
    let s = mem.read(a, 8);
    let b: bool = s[0] == 0x52 && s[1] == 0x53 && s[2] == 0x44 && s[3] == 0x20 && s[4] == 0x50
        && s[5] == 0x54 && s[6] == 0x52 && s[7] == 0x20;
    proof {
        let t = rsdp_signature();
        if b {
            assert(s@ =~= t);
        } else if s@ == t {
            assert(t[0] == 0x52 && t[1] == 0x53 && t[2] == 0x44 && t[3] == 0x20 && t[4] == 0x50
                && t[5] == 0x54 && t[6] == 0x52 && t[7] == 0x20);
        }
    }
    b
}

/// Searches the `len` bytes from `start` on for a valid root pointer, at every
/// sixteenth byte.
pub fn find_rsdp_in_range(mem: &PhysMemory, start: u64, len: u64) -> (r: Option<u64>)
    requires
        readable(mem@, start as int, len as int),
    ensures
        r == first_rsdp(mem@, start as int, start + len),
{
    let end: u64 = start + len;
    let mut address: u64 = start;
    while address <= end && end - address >= RSDP_SIZE
        invariant
            end == start + len,
            start <= address <= end + 16,
            readable(mem@, start as int, len as int),
            first_rsdp(mem@, start as int, end as int) == first_rsdp(
                mem@,
                address as int,
                end as int,
            ),
        decreases end + 16 - address,
    {
        if has_rsdp_signature(mem, address) && verify_checksum(mem, address, RSDP_SIZE as usize) {
            return Some(address);
        }
        address += 16;
    }
    None
}

/// Where the extended BIOS data area begins.
pub open spec fn ebda_base(m: Map<int, u8>) -> int {
    mem_u16(m, 0x040E) * 16
}

/// The areas that firmware may put the root pointer in can be read.
pub open spec fn scan_areas_readable(m: Map<int, u8>) -> bool {
    &&& readable(m, 0x040E, 2)
    &&& ebda_base(m) != 0 ==> readable(m, ebda_base(m), 1024)
    &&& readable(m, 0xE_0000, 0x2_0000)
}

/// The root pointer in the first KiB of the extended BIOS data area, or else
/// in the BIOS ROM.
pub open spec fn scanned_rsdp(m: Map<int, u8>) -> Option<u64> {
    let e = ebda_base(m);
    if e != 0 && first_rsdp(m, e, e + 1024) is Some {
        first_rsdp(m, e, e + 1024)
    } else {
        first_rsdp(m, 0xE_0000, 0x10_0000)
    }
}

/// Searches the areas that firmware may put the root pointer in.
pub fn find_rsdp(mem: &PhysMemory) -> (r: Option<u64>)
    requires
        scan_areas_readable(mem@),
    ensures
        r == scanned_rsdp(mem@),
{
    let segment: u16 = mem.read_u16(0x040E);
    let base: u64 = segment as u64 * 16;
    if base != 0 {
        match find_rsdp_in_range(mem, base, 1024) {
            Some(a) => {
                return Some(a);
            },
            None => {},
        }
    }
    find_rsdp_in_range(mem, 0xE_0000, 0x2_0000)
}

/// Checks the root pointer at a known address.
pub fn rsdp_from_address(mem: &PhysMemory, phys_addr: u64) -> (r: Option<u64>)
    requires
        readable(mem@, phys_addr as int, RSDP_SIZE as int),
    ensures
        r == (if checksum_at(mem@, phys_addr as int, RSDP_SIZE as int) == 0 {
            Some(phys_addr)
        } else {
            None
        }),
{
    if verify_checksum(mem, phys_addr, RSDP_SIZE as usize) {
        Some(phys_addr)
    } else {
        None
    }
}

/// Whether the root pointer is of ACPI 2.0 or later.
pub fn rsdp_is_v2(mem: &PhysMemory, rsdp: u64) -> (b: bool)
    requires
        readable(mem@, rsdp as int, RSDP_SIZE as int),
    ensures
        b == (mem@[rsdp + 15] >= 2),
{
    mem.read_u8(rsdp + 15) >= 2
}

/// The root pointer can be read as far as its version goes.
pub open spec fn rsdp_readable(m: Map<int, u8>, a: int) -> bool {
    &&& readable(m, a, RSDP_SIZE as int)
    &&& m[a + 15] >= 2 ==> readable(m, a, RSDP_V2_SIZE as int)
}

/// The address of the XSDT in a root pointer of ACPI 2.0 or later.
pub open spec fn xsdt_address(m: Map<int, u8>, rsdp: int) -> Option<u64> {
    if m[rsdp + 15] >= 2 {
        Some(mem_u64(m, rsdp + 24))
    } else {
        None
    }
}

/// The address of the XSDT in a root pointer of ACPI 2.0 or later.
pub fn rsdp_xsdt_address(mem: &PhysMemory, rsdp: u64) -> (r: Option<u64>)
    requires
        rsdp_readable(mem@, rsdp as int),
    ensures
        r == xsdt_address(mem@, rsdp as int),
{
    if rsdp_is_v2(mem, rsdp) {
        Some(mem.read_u64(rsdp + 24))
    } else {
        None
    }
}

/// The address of the RSDT in the root pointer.
pub fn rsdp_rsdt_address(mem: &PhysMemory, rsdp: u64) -> (r: u32)
    requires
        readable(mem@, rsdp as int, RSDP_SIZE as int),
    ensures
        r == mem_u32(mem@, rsdp + 16),
{
    mem.read_u32(rsdp + 16)
}

/// What a search finds lies at a sixteenth byte of its range and is a valid
/// root pointer, and no earlier one is.
pub proof fn law_first_rsdp(m: Map<int, u8>, start: int, end: int, k: int)
    requires
        0 <= start,
        end <= u64::MAX,
        0 <= k,
    ensures
        match first_rsdp(m, start, end) {
            Some(a) => {
                &&& start <= a && a + RSDP_SIZE <= end
                &&& (a - start) % 16 == 0
                &&& is_rsdp(m, a as int)
                &&& start + 16 * k < a ==> !is_rsdp(m, start + 16 * k)
            },
            None => start + 16 * k + RSDP_SIZE <= end ==> !is_rsdp(m, start + 16 * k),
        },
    decreases end - start,
{
    if start + RSDP_SIZE <= end && !is_rsdp(m, start) {
        law_first_rsdp(m, start + 16, end, if k > 0 {
            k - 1
        } else {
            0
        });
        if k > 0 {
            assert(start + 16 + 16 * (k - 1) == start + 16 * k);
        }
    }
}

/// Each byte adds its value to the sum, and a sum is taken modulo 256.
pub proof fn law_checksum(m: Map<int, u8>, a: int, n: int)
    requires
        0 <= n,
    ensures
        checksum_at(m, a, 0) == 0,
        checksum_at(m, a, n + 1) == (checksum_at(m, a, n) + m[a + n]) % 0x100,
{
    let s = bytes_at(m, a, n + 1);
    assert(s.drop_last() =~= bytes_at(m, a, n));
    assert(s.last() == m[a + n]);
}

/// A root pointer begins with the eight characters `RSD PTR ` and its first 20
/// bytes add up to zero.
pub proof fn law_is_rsdp(m: Map<int, u8>, a: int)
    ensures
        is_rsdp(m, a) <==> {
            &&& m[a] == 'R' as u8 && m[a + 1] == 'S' as u8 && m[a + 2] == 'D' as u8 && m[a + 3]
                == ' ' as u8
            &&& m[a + 4] == 'P' as u8 && m[a + 5] == 'T' as u8 && m[a + 6] == 'R' as u8 && m[a + 7]
                == ' ' as u8
            &&& checksum_at(m, a, 20) == 0
        },
{
    let b = bytes_at(m, a, 8);
    let t = rsdp_signature();
    assert(forall|i: int| 0 <= i < 8 ==> b[i] == m[a + i]);
    assert(t[0] == 'R' as u8 && t[1] == 'S' as u8 && t[2] == 'D' as u8 && t[3] == ' ' as u8);
    assert(t[4] == 'P' as u8 && t[5] == 'T' as u8 && t[6] == 'R' as u8 && t[7] == ' ' as u8);
    if m[a] == t[0] && m[a + 1] == t[1] && m[a + 2] == t[2] && m[a + 3] == t[3] && m[a + 4] == t[4]
        && m[a + 5] == t[5] && m[a + 6] == t[6] && m[a + 7] == t[7] {
        assert(b =~= t);
    }
}

/// The segment number at 0x40E tells where the extended BIOS data area is. What
/// the search finds there, at a sixteenth byte of its first KiB, comes before
/// anything in the 128 KiB below one MiB; without such an area, or without a
/// root pointer in it, the first one there is found.
pub proof fn law_scanned_rsdp(m: Map<int, u8>)
    ensures
        ({
            let e = 16 * (m[0x40E] + 0x100 * m[0x40F]);
            &&& e != 0 && first_rsdp(m, e, e + 1024) is Some ==> scanned_rsdp(m) == first_rsdp(
                m,
                e,
                e + 1024,
            )
            &&& e == 0 || first_rsdp(m, e, e + 1024) is None ==> scanned_rsdp(m) == first_rsdp(
                m,
                0xE_0000,
                0x10_0000,
            )
        }),
{
    let b = bytes_at(m, 0x40E, 2);
    assert(b[0] == m[0x40E] && b[1] == m[0x40F]);
}

/// The XSDT's address stands at byte 24 of a root pointer whose byte 15 says
/// that it is of ACPI 2.0 or later; others have none.
pub proof fn law_xsdt_address(m: Map<int, u8>, rsdp: int, x: u64)
    requires
        bytes_at(m, rsdp + 24, 8) == u64_bytes(x),
    ensures
        m[rsdp + 15] >= 2 ==> xsdt_address(m, rsdp) == Some(x),
        m[rsdp + 15] < 2 ==> xsdt_address(m, rsdp) is None,
{
    lemma_u64_round_trip(x);
}

} // verus!
