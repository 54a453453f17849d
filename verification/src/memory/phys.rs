//! Byte-addressed physical memory.

use vstd::prelude::*;
use crate::le::{law_low_byte_first, read_u16, read_u32, read_u64, u16_at, u32_at, u64_at};

verus! {

/// A run of bytes in physical memory.
pub struct PhysRegion {
    pub base: u64,
    pub bytes: Vec<u8>,
}

/// The physical memory that has been captured or written. Where regions
/// overlap, the later one counts.
pub struct PhysMemory {
    pub regions: Vec<PhysRegion>,
}

/// The region holds the byte at address `a`.
pub open spec fn covers(r: PhysRegion, a: int) -> bool {
    r.base <= a < r.base + r.bytes@.len()
}

/// The last of the first `n` regions that holds the byte at address `a`, or
/// -1.
pub open spec fn last_cover(rs: Seq<PhysRegion>, a: int, n: int) -> int
    decreases n,
{
    if n <= 0 {
        -1
    } else if covers(rs[n - 1], a) {
        n - 1
    } else {
        last_cover(rs, a, n - 1)
    }
}

impl View for PhysMemory {
    type V = Map<int, u8>;

    /// The byte at each address.
    open spec fn view(&self) -> Map<int, u8> {
        bytes_in(self.regions@)
    }
}

/// The byte that the regions hold at each address.
pub open spec fn bytes_in(rs: Seq<PhysRegion>) -> Map<int, u8> {
    Map::new(
        |a: int| last_cover(rs, a, rs.len() as int) >= 0,
        |a: int|
            {
                let r = rs[last_cover(rs, a, rs.len() as int)];
                r.bytes@[a - r.base]
            },
    )
}

/// The bytes `a .. a + n` are there.
pub open spec fn mapped(m: Map<int, u8>, a: int, n: int) -> bool {
    forall|x: int| a <= x < a + n ==> #[trigger] m.contains_key(x)
}

/// The bytes `a .. a + n`.
pub open spec fn bytes_at(m: Map<int, u8>, a: int, n: int) -> Seq<u8> {
    Seq::new(n as nat, |i: int| m[a + i])
}

/// The 16-bit value at `a`, low byte first.
pub open spec fn mem_u16(m: Map<int, u8>, a: int) -> u16 {
    u16_at(bytes_at(m, a, 2), 0)
}

/// The 32-bit value at `a`, low byte first.
pub open spec fn mem_u32(m: Map<int, u8>, a: int) -> u32 {
    u32_at(bytes_at(m, a, 4), 0)
}

/// The 64-bit value at `a`, low byte first.
pub open spec fn mem_u64(m: Map<int, u8>, a: int) -> u64 {
    u64_at(bytes_at(m, a, 8), 0)
}

/// The memory after `data` was written at `a`.
pub open spec fn write_bytes(m: Map<int, u8>, a: int, data: Seq<u8>) -> Map<int, u8> {
    Map::new(
        |x: int| m.contains_key(x) || a <= x < a + data.len(),
        |x: int|
            if a <= x < a + data.len() {
                data[x - a]
            } else {
                m[x]
            },
    )
}

proof fn lemma_last_cover(rs: Seq<PhysRegion>, a: int, n: int)
    requires
        n <= rs.len(),
    ensures
        -1 <= last_cover(rs, a, n) < rs.len(),
        last_cover(rs, a, n) >= 0 ==> covers(rs[last_cover(rs, a, n)], a),
    decreases n,
{
    if n > 0 {
        lemma_last_cover(rs, a, n - 1);
    }
}

proof fn lemma_last_cover_pushed(rs: Seq<PhysRegion>, x: PhysRegion, a: int, n: int)
    requires
        n <= rs.len(),
    ensures
        last_cover(rs.push(x), a, n) == last_cover(rs, a, n),
    decreases n,
{
    if n > 0 {
        lemma_last_cover_pushed(rs, x, a, n - 1);
    }
}

/// A region that is added covers what was there before.
proof fn lemma_push_region(rs: Seq<PhysRegion>, x: PhysRegion)
    ensures
        bytes_in(rs.push(x)) == write_bytes(bytes_in(rs), x.base as int, x.bytes@),
{
    let m = bytes_in(rs.push(x));
    let w = write_bytes(bytes_in(rs), x.base as int, x.bytes@);
    assert(rs.push(x)[rs.len() as int] == x);
    assert forall|a: int| #[trigger] m.contains_key(a) == w.contains_key(a) && (m.contains_key(a)
        ==> m[a] == w[a]) by {
        lemma_last_cover_pushed(rs, x, a, rs.len() as int);
        lemma_last_cover(rs, a, rs.len() as int);
    }
    assert(m =~= w);
}

impl PhysMemory {
    /// Memory of which nothing is known.
    pub fn new() -> (m: PhysMemory)
        ensures
            m@ == Map::<int, u8>::empty(),
    {
        let m = PhysMemory { regions: Vec::new() };
        assert(m@ == Map::<int, u8>::empty());
        m
    }

    /// Puts `data` at `address`.
    pub fn write(&mut self, address: u64, data: &[u8])
        ensures
            final(self)@ == write_bytes(old(self)@, address as int, data@),
    {
        let mut bytes: Vec<u8> = Vec::new();
        bytes.extend_from_slice(data);
        assert(bytes@ == data@);
        let ghost rs = self.regions@;
        self.regions.push(PhysRegion { base: address, bytes });
        proof {
            lemma_push_region(rs, PhysRegion { base: address, bytes });
        }
    }

    /// The byte at `address`.
    pub fn read_u8(&self, address: u64) -> (b: u8)
        requires
            self@.contains_key(address as int),
        ensures
            b == self@[address as int],
    {
        let mut n: usize = self.regions.len();
        proof {
            lemma_last_cover(self.regions@, address as int, n as int);
        }
        while n > 0
            invariant
                n <= self.regions.len(),
                last_cover(self.regions@, address as int, self.regions@.len() as int)
                    == last_cover(self.regions@, address as int, n as int),
                self@.contains_key(address as int),
            decreases n,
        {
            let r = &self.regions[n - 1];
            if address >= r.base && address - r.base < r.bytes.len() as u64 {
                assert(covers(self.regions@[n - 1], address as int));
                return r.bytes[(address - r.base) as usize];
            }
            assert(!covers(self.regions@[n - 1], address as int));
            n -= 1;
        }
        0
    }

    /// The bytes `address .. address + n`.
    pub fn read(&self, address: u64, n: usize) -> (data: Vec<u8>)
        requires
            mapped(self@, address as int, n as int),
            n > 0 ==> address + (n - 1) <= u64::MAX,
        ensures
            data@ == bytes_at(self@, address as int, n as int),
    {
        let mut data: Vec<u8> = Vec::new();
        let mut i: usize = 0;
        while i < n
            invariant
                i <= n,
                mapped(self@, address as int, n as int),
                n > 0 ==> address + (n - 1) <= u64::MAX,
                data@ == bytes_at(self@, address as int, i as int),
            decreases n - i,
        {
            assert(self@.contains_key(address + i));
            data.push(self.read_u8(address + i as u64));
            i += 1;
            assert(data@ =~= bytes_at(self@, address as int, i as int));
        }
        data
    }

    /// The 16-bit value at `address`.
    pub fn read_u16(&self, address: u64) -> (x: u16)
        requires
            mapped(self@, address as int, 2),
            address + 1 <= u64::MAX,
        ensures
            x == mem_u16(self@, address as int),
    {
        let b = self.read(address, 2);
        read_u16(&b, 0)
    }

    /// The 32-bit value at `address`.
    pub fn read_u32(&self, address: u64) -> (x: u32)
        requires
            mapped(self@, address as int, 4),
            address + 3 <= u64::MAX,
        ensures
            x == mem_u32(self@, address as int),
    {
        let b = self.read(address, 4);
        read_u32(&b, 0)
    }

    /// The 64-bit value at `address`.
    pub fn read_u64(&self, address: u64) -> (x: u64)
        requires
            mapped(self@, address as int, 8),
            address + 7 <= u64::MAX,
        ensures
            x == mem_u64(self@, address as int),
    {
        let b = self.read(address, 8);
        read_u64(&b, 0)
    }
}

/// What was written is read back, and the rest of memory is as before.
pub proof fn law_write_then_read(m: Map<int, u8>, a: int, data: Seq<u8>, b: int, n: int)
    requires
        n >= 0,
    ensures
        mapped(write_bytes(m, a, data), a, data.len() as int),
        bytes_at(write_bytes(m, a, data), a, data.len() as int) == data,
        mapped(m, b, n) && (b + n <= a || a + data.len() <= b) ==> bytes_at(write_bytes(m, a, data), b, n) == bytes_at(
            m,
            b,
            n,
        ),
{
    assert(bytes_at(write_bytes(m, a, data), a, data.len() as int) =~= data);
    if mapped(m, b, n) && (b + n <= a || a + data.len() <= b) {
        let w = write_bytes(m, a, data);
        assert forall|i: int| 0 <= i < n implies bytes_at(w, b, n)[i] == bytes_at(m, b, n)[i] by {
            assert(m.contains_key(b + i));
            assert(w.contains_key(b + i));
        }
        assert(bytes_at(w, b, n) =~= bytes_at(m, b, n));
    }
}

/// Memory is read byte by byte: the byte at an address is the one that was
/// written there last, and numbers are read from the bytes at their address and
/// behind it, the low byte first.
pub proof fn law_memory_bytes(m: Map<int, u8>, a: int, n: int, i: int)
    requires
        0 <= i < n,
    ensures
        bytes_at(m, a, n).len() == n,
        bytes_at(m, a, n)[i] == m[a + i],
        mem_u16(m, a) == m[a] + 0x100 * m[a + 1],
        mem_u32(m, a) == m[a] + 0x100 * m[a + 1] + 0x1_0000 * m[a + 2] + 0x100_0000 * m[a + 3],
        mem_u64(m, a) == mem_u32(m, a) + 0x1_0000_0000 * mem_u32(m, a + 4),
{
    let b = bytes_at(m, a, 8);
    assert(forall|k: int| 0 <= k < 8 ==> b[k] == m[a + k]);
    let c = bytes_at(m, a, 4);
    assert(forall|k: int| 0 <= k < 4 ==> c[k] == m[a + k]);
    let e = bytes_at(m, a + 4, 4);
    assert(forall|k: int| 0 <= k < 4 ==> e[k] == b[4 + k]);
    law_low_byte_first(b, 0);
    law_low_byte_first(c, 0);
    law_low_byte_first(e, 0);
    law_low_byte_first(bytes_at(m, a, 2), 0);
}

/// Where regions overlap, the one that came last counts.
pub proof fn law_later_region_counts(rs: Seq<PhysRegion>, x: PhysRegion, a: int)
    ensures
        bytes_in(Seq::empty()) == Map::<int, u8>::empty(),
        bytes_in(rs.push(x)).contains_key(a) <==> bytes_in(rs).contains_key(a) || x.base <= a
            < x.base + x.bytes@.len(),
        x.base <= a < x.base + x.bytes@.len() ==> bytes_in(rs.push(x))[a] == x.bytes@[a - x.base],
        !(x.base <= a < x.base + x.bytes@.len()) && bytes_in(rs).contains_key(a) ==> bytes_in(
            rs.push(x),
        )[a] == bytes_in(rs)[a],
{
    lemma_push_region(rs, x);
    assert(bytes_in(Seq::empty()) =~= Map::<int, u8>::empty());
}

} // verus!
