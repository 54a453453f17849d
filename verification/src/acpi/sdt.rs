//! Table headers, and the root tables that list the others.

use vstd::prelude::*;
use crate::acpi::layout::{SDT_HEADER_SIZE, readable};
use crate::le::{lemma_u32_round_trip, lemma_u64_round_trip, u32_bytes, u64_bytes};
use crate::memory::phys::{PhysMemory, bytes_at, mem_u32, mem_u64};

verus! {

/// The length that the header at `a` declares.
pub open spec fn table_length(m: Map<int, u8>, a: int) -> int {
    mem_u32(m, a + 4) as int
}

/// The signature of the table at `a`.
pub open spec fn table_signature(m: Map<int, u8>, a: int) -> Seq<u8> {
    bytes_at(m, a, 4)
}

/// The table at `a` can be read as far as it says it goes.
pub open spec fn extent_readable(m: Map<int, u8>, a: int) -> bool {
    &&& readable(m, a, SDT_HEADER_SIZE as int)
    &&& readable(m, a, table_length(m, a))
}

/// The table at `a` can be read in full, and is long enough for its header.
pub open spec fn table_readable(m: Map<int, u8>, a: int) -> bool {
    &&& extent_readable(m, a)
    &&& table_length(m, a) >= SDT_HEADER_SIZE
}

/// The signature of the table at `a`.
pub fn read_signature(mem: &PhysMemory, a: u64) -> (sig: [u8; 4])
    requires
        readable(mem@, a as int, SDT_HEADER_SIZE as int),
    ensures
        sig@ == table_signature(mem@, a as int),
{
    let sig: [u8; 4] = [mem.read_u8(a), mem.read_u8(a + 1), mem.read_u8(a + 2), mem.read_u8(a + 3)];
    assert(sig@ =~= bytes_at(mem@, a as int, 4));
    sig
}

/// Whether two signatures are the same.
pub fn same_signature(a: &[u8; 4], b: &[u8; 4]) -> (same: bool)
    ensures
        same == (a@ == b@),
{
    let same: bool = a[0] == b[0] && a[1] == b[1] && a[2] == b[2] && a[3] == b[3];
    proof {
        if same {
            assert(a@ =~= b@);
        } else if a@ == b@ {
            assert(a@[0] == b@[0] && a@[1] == b@[1] && a@[2] == b@[2] && a@[3] == b@[3]);
        }
    }
    same
}

/// Whether the table at `a` has the signature `sig`.
pub fn sdt_has_signature(mem: &PhysMemory, a: u64, sig: &[u8; 4]) -> (b: bool)
    requires
        readable(mem@, a as int, SDT_HEADER_SIZE as int),
    ensures
        b == (table_signature(mem@, a as int) == sig@),
{
    same_signature(&read_signature(mem, a), sig)
}

/// The length that the table at `a` declares.
pub fn sdt_length(mem: &PhysMemory, a: u64) -> (n: usize)
    requires
        readable(mem@, a as int, SDT_HEADER_SIZE as int),
    ensures
        n == table_length(mem@, a as int),
{
    mem.read_u32(a + 4) as usize
}

/// The tables that the RSDT at `a` lists.
pub open spec fn rsdt_entries(m: Map<int, u8>, a: int) -> Seq<u64> {
    Seq::new(
        ((table_length(m, a) - SDT_HEADER_SIZE) / 4) as nat,
        |i: int| mem_u32(m, a + SDT_HEADER_SIZE + 4 * i) as u64,
    )
}

/// The tables that the XSDT at `a` lists.
pub open spec fn xsdt_entries(m: Map<int, u8>, a: int) -> Seq<u64> {
    Seq::new(
        ((table_length(m, a) - SDT_HEADER_SIZE) / 8) as nat,
        |i: int| mem_u64(m, a + SDT_HEADER_SIZE + 8 * i),
    )
}

/// The tables that the RSDT at `rsdt` lists, in order.
pub fn iter_rsdt(mem: &PhysMemory, rsdt: u64) -> (entries: Vec<u64>)
    requires
        table_readable(mem@, rsdt as int),
    ensures
        entries@ == rsdt_entries(mem@, rsdt as int),
{
    let len: u64 = sdt_length(mem, rsdt) as u64;
    let count: u64 = (len - SDT_HEADER_SIZE) / 4;
    let mut entries: Vec<u64> = Vec::new();
    let mut i: u64 = 0;
    while i < count
        invariant
            i <= count,
            table_readable(mem@, rsdt as int),
            len == table_length(mem@, rsdt as int),
            count == (len - SDT_HEADER_SIZE) / 4,
            entries@ =~= rsdt_entries(mem@, rsdt as int).take(i as int),
        decreases count - i,
    {
        let at: u64 = rsdt + SDT_HEADER_SIZE + 4 * i;
        entries.push(mem.read_u32(at) as u64);
        i += 1;
    }
    assert(entries@ =~= rsdt_entries(mem@, rsdt as int));
    entries
}

/// The tables that the XSDT at `xsdt` lists, in order.
pub fn iter_xsdt(mem: &PhysMemory, xsdt: u64) -> (entries: Vec<u64>)
    requires
        table_readable(mem@, xsdt as int),
    ensures
        entries@ == xsdt_entries(mem@, xsdt as int),
{
    let len: u64 = sdt_length(mem, xsdt) as u64;
    let count: u64 = (len - SDT_HEADER_SIZE) / 8;
    let mut entries: Vec<u64> = Vec::new();
    let mut i: u64 = 0;
    while i < count
        invariant
            i <= count,
            table_readable(mem@, xsdt as int),
            len == table_length(mem@, xsdt as int),
            count == (len - SDT_HEADER_SIZE) / 8,
            entries@ =~= xsdt_entries(mem@, xsdt as int).take(i as int),
        decreases count - i,
    {
        let at: u64 = xsdt + SDT_HEADER_SIZE + 8 * i;
        entries.push(mem.read_u64(at));
        i += 1;
    }
    assert(entries@ =~= xsdt_entries(mem@, xsdt as int));
    entries
}

/// Each of the tables begins with a header that can be read.
pub open spec fn headers_readable(m: Map<int, u8>, entries: Seq<u64>) -> bool {
    forall|i: int|
        0 <= i < entries.len() ==> readable(m, #[trigger] entries[i] as int, SDT_HEADER_SIZE as int)
}

/// The first of the tables from `i` on that has the signature `sig`.
pub open spec fn first_with_signature(
    m: Map<int, u8>,
    entries: Seq<u64>,
    sig: Seq<u8>,
    i: int,
) -> Option<u64>
    decreases entries.len() - i,
{
    if i >= entries.len() {
        None
    } else if table_signature(m, entries[i] as int) == sig {
        Some(entries[i])
    } else {
        first_with_signature(m, entries, sig, i + 1)
    }
}

fn find_table(mem: &PhysMemory, entries: &Vec<u64>, sig: &[u8; 4]) -> (r: Option<u64>)
    requires
        headers_readable(mem@, entries@),
    ensures
        r == first_with_signature(mem@, entries@, sig@, 0),
{
    let mut i: usize = 0;
    while i < entries.len()
        invariant
            i <= entries.len(),
            headers_readable(mem@, entries@),
            first_with_signature(mem@, entries@, sig@, 0) == first_with_signature(
                mem@,
                entries@,
                sig@,
                i as int,
            ),
        decreases entries.len() - i,
    {
        if sdt_has_signature(mem, entries[i], sig) {
            return Some(entries[i]);
        }
        i += 1;
    }
    None
}

/// The first table with the signature `sig` that the RSDT lists.
pub fn find_table_in_rsdt(mem: &PhysMemory, rsdt: u64, sig: &[u8; 4]) -> (r: Option<u64>)
    requires
        table_readable(mem@, rsdt as int),
        headers_readable(mem@, rsdt_entries(mem@, rsdt as int)),
    ensures
        r == first_with_signature(mem@, rsdt_entries(mem@, rsdt as int), sig@, 0),
{
    let entries = iter_rsdt(mem, rsdt);
    find_table(mem, &entries, sig)
}

/// The first table with the signature `sig` that the XSDT lists.
pub fn find_table_in_xsdt(mem: &PhysMemory, xsdt: u64, sig: &[u8; 4]) -> (r: Option<u64>)
    requires
        table_readable(mem@, xsdt as int),
        headers_readable(mem@, xsdt_entries(mem@, xsdt as int)),
    ensures
        r == first_with_signature(mem@, xsdt_entries(mem@, xsdt as int), sig@, 0),
{
    let entries = iter_xsdt(mem, xsdt);
    find_table(mem, &entries, sig)
}

/// The length of a table stands at its byte four.
pub proof fn law_table_length(m: Map<int, u8>, a: int, n: u32)
    requires
        bytes_at(m, a + 4, 4) == u32_bytes(n),
    ensures
        table_length(m, a) == n,
{
    lemma_u32_round_trip(n);
}

/// The addresses in an RSDT begin behind its 36 bytes of header and have four
/// bytes each; as many are listed as the table has room for.
pub proof fn law_rsdt_entries(m: Map<int, u8>, a: int, i: int, x: u32)
    requires
        table_length(m, a) >= 36,
        0 <= i,
        36 + 4 * (i + 1) <= table_length(m, a),
        bytes_at(m, a + 36 + 4 * i, 4) == u32_bytes(x),
    ensures
        i < rsdt_entries(m, a).len(),
        rsdt_entries(m, a)[i] == x,
        36 + 4 * rsdt_entries(m, a).len() <= table_length(m, a),
        table_length(m, a) < 36 + 4 * (rsdt_entries(m, a).len() + 1),
{
    lemma_u32_round_trip(x);
}

/// The addresses in an XSDT begin behind its 36 bytes of header and have eight
/// bytes each; as many are listed as the table has room for.
pub proof fn law_xsdt_entries(m: Map<int, u8>, a: int, i: int, x: u64)
    requires
        table_length(m, a) >= 36,
        0 <= i,
        36 + 8 * (i + 1) <= table_length(m, a),
        bytes_at(m, a + 36 + 8 * i, 8) == u64_bytes(x),
    ensures
        i < xsdt_entries(m, a).len(),
        xsdt_entries(m, a)[i] == x,
        36 + 8 * xsdt_entries(m, a).len() <= table_length(m, a),
        table_length(m, a) < 36 + 8 * (xsdt_entries(m, a).len() + 1),
{
    lemma_u64_round_trip(x);
}

/// The first listed table with the signature is found: it is listed, its first
/// four bytes are the signature, and those of no table before it are. None is
/// found only where no table has it.
pub proof fn law_first_with_signature(m: Map<int, u8>, entries: Seq<u64>, sig: Seq<u8>)
    ensures
        match first_with_signature(m, entries, sig, 0) {
            Some(a) => bytes_at(m, a as int, 4) == sig && exists|k: int|
                0 <= k < entries.len() && #[trigger] entries[k] == a && forall|j: int|
                    0 <= j < k ==> bytes_at(m, #[trigger] entries[j] as int, 4) != sig,
            None => forall|j: int|
                0 <= j < entries.len() ==> bytes_at(m, #[trigger] entries[j] as int, 4) != sig,
        },
{
    lemma_first_with_signature(m, entries, sig, 0);
}

proof fn lemma_first_with_signature(m: Map<int, u8>, entries: Seq<u64>, sig: Seq<u8>, i: int)
    requires
        0 <= i,
    ensures
        match first_with_signature(m, entries, sig, i) {
            Some(a) => bytes_at(m, a as int, 4) == sig && exists|k: int|
                i <= k < entries.len() && #[trigger] entries[k] == a && forall|j: int|
                    i <= j < k ==> bytes_at(m, #[trigger] entries[j] as int, 4) != sig,
            None => forall|j: int|
                i <= j < entries.len() ==> bytes_at(m, #[trigger] entries[j] as int, 4) != sig,
        },
    decreases entries.len() - i,
{
    if i < entries.len() && table_signature(m, entries[i] as int) != sig {
        lemma_first_with_signature(m, entries, sig, i + 1);
        if let Some(a) = first_with_signature(m, entries, sig, i + 1) {
            let k = choose|k: int|
                i + 1 <= k < entries.len() && #[trigger] entries[k] == a && forall|j: int|
                    i + 1 <= j < k ==> bytes_at(m, #[trigger] entries[j] as int, 4) != sig;
            assert(entries[k] == a);
            assert forall|j: int| i <= j < k implies bytes_at(m, #[trigger] entries[j] as int, 4)
                != sig by {}
        }
    }
}

} // verus!
