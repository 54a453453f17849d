//! Little-endian integers inside byte sequences.
use vstd::prelude::*;

verus! {

/// The 16-bit value stored at `off`, low byte first.
pub open spec fn u16_at(s: Seq<u8>, off: int) -> u16 {
    (s[off] as int + 0x100 * s[off + 1] as int) as u16
}

/// The 32-bit value stored at `off`, low byte first.
pub open spec fn u32_at(s: Seq<u8>, off: int) -> u32 {
    (u16_at(s, off) as int + 0x1_0000 * u16_at(s, off + 2) as int) as u32
}

/// The 64-bit value stored at `off`, low byte first.
pub open spec fn u64_at(s: Seq<u8>, off: int) -> u64 {
    (u32_at(s, off) as int + 0x1_0000_0000 * u32_at(s, off + 4) as int) as u64
}

/// The bytes of a 16-bit value, low byte first.
pub open spec fn u16_bytes(x: u16) -> Seq<u8> {
    seq![(x as int % 0x100) as u8, (x as int / 0x100) as u8]
}

/// The bytes of a 32-bit value, low byte first.
pub open spec fn u32_bytes(x: u32) -> Seq<u8> {
    u16_bytes((x as int % 0x1_0000) as u16) + u16_bytes((x as int / 0x1_0000) as u16)
}

/// The bytes of a 64-bit value, low byte first.
pub open spec fn u64_bytes(x: u64) -> Seq<u8> {
    u32_bytes((x as int % 0x1_0000_0000) as u32) + u32_bytes((x as int / 0x1_0000_0000) as u32)
}

/// Reads the 16-bit value stored at `off`.
pub fn read_u16(s: &[u8], off: usize) -> (x: u16)
    requires
        off + 2 <= s@.len(),
    ensures
        x == u16_at(s@, off as int),
{
    s[off] as u16 + 0x100 * s[off + 1] as u16
}

/// Reads the 32-bit value stored at `off`.
pub fn read_u32(s: &[u8], off: usize) -> (x: u32)
    requires
        off + 4 <= s@.len(),
    ensures
        x == u32_at(s@, off as int),
{
    assert(s.len() == s@.len());
    read_u16(s, off) as u32 + 0x1_0000 * read_u16(s, off + 2) as u32
}

/// Reads the 64-bit value stored at `off`.
pub fn read_u64(s: &[u8], off: usize) -> (x: u64)
    requires
        off + 8 <= s@.len(),
    ensures
        x == u64_at(s@, off as int),
{
    assert(s.len() == s@.len());
    read_u32(s, off) as u64 + 0x1_0000_0000 * read_u32(s, off + 4) as u64
}

/// `s` with the bytes of `b` laid over it from `off` on.
pub open spec fn splice(s: Seq<u8>, off: int, b: Seq<u8>) -> Seq<u8> {
    s.subrange(0, off) + b + s.subrange(off + b.len(), s.len() as int)
}

/// Lays the bytes of `b` over `s` from `off` on.
pub fn copy_into(s: &mut [u8], off: usize, b: &[u8])
    requires
        off + b@.len() <= old(s)@.len(),
    ensures
        final(s)@ == splice(old(s)@, off as int, b@),
{
    let ghost before = s@;
    let mut i: usize = 0;
    while i < b.len()
        invariant
            i <= b@.len(),
            off + b@.len() <= s@.len(),
            s@ == splice(before, off as int, b@.subrange(0, i as int)),
            s@.len() == before.len(),
        decreases b@.len() - i,
    {
        assert(s.len() == s@.len());
        s[off + i] = b[i];
        i += 1;
    }
    assert(b@.subrange(0, b@.len() as int) == b@);
}

/// Lays the bytes of a 16-bit value over `s` from `off` on.
pub fn write_u16(s: &mut [u8], off: usize, x: u16)
    requires
        off + 2 <= old(s)@.len(),
    ensures
        final(s)@ == splice(old(s)@, off as int, u16_bytes(x)),
{
    assert(s.len() == s@.len());
    s[off] = (x % 0x100) as u8;
    s[off + 1] = (x / 0x100) as u8;
    assert(s@ == splice(old(s)@, off as int, u16_bytes(x)));
}

/// Lays the bytes of a 32-bit value over `s` from `off` on.
pub fn write_u32(s: &mut [u8], off: usize, x: u32)
    requires
        off + 4 <= old(s)@.len(),
    ensures
        final(s)@ == splice(old(s)@, off as int, u32_bytes(x)),
{
    assert(s.len() == s@.len());
    write_u16(s, off, (x % 0x1_0000) as u16);
    write_u16(s, off + 2, (x / 0x1_0000) as u16);
    assert(s@ == splice(old(s)@, off as int, u32_bytes(x)));
}

/// Lays the bytes of a 64-bit value over `s` from `off` on.
pub fn write_u64(s: &mut [u8], off: usize, x: u64)
    requires
        off + 8 <= old(s)@.len(),
    ensures
        final(s)@ == splice(old(s)@, off as int, u64_bytes(x)),
{
    assert(s.len() == s@.len());
    write_u32(s, off, (x % 0x1_0000_0000) as u32);
    write_u32(s, off + 4, (x / 0x1_0000_0000) as u32);
    assert(s@ == splice(old(s)@, off as int, u64_bytes(x)));
}

/// Reading back what was encoded gives the same 16-bit value.
pub proof fn lemma_u16_round_trip(x: u16)
    ensures
        u16_bytes(x).len() == 2,
        u16_at(u16_bytes(x), 0) == x,
{
}

/// Reading back what was encoded gives the same 32-bit value.
pub proof fn lemma_u32_round_trip(x: u32)
    ensures
        u32_bytes(x).len() == 4,
        u32_at(u32_bytes(x), 0) == x,
{
}

/// Reading back what was encoded gives the same 64-bit value.
pub proof fn lemma_u64_round_trip(x: u64)
    ensures
        u64_bytes(x).len() == 8,
        u64_at(u64_bytes(x), 0) == x,
{
}

/// A value is found again at the place where its bytes stand.
pub proof fn lemma_u64_at(s: Seq<u8>, off: int, x: u64)
    requires
        0 <= off,
        off + 8 <= s.len(),
        s.subrange(off, off + 8) == u64_bytes(x),
    ensures
        u64_at(s, off) == x,
{
    lemma_u64_round_trip(x);
    let b = s.subrange(off, off + 8);
    assert(forall|i: int| 0 <= i < 8 ==> b[i] == s[off + i]);
    assert(u64_at(s, off) == u64_at(b, 0));
}

/// A value is found again at the place where its bytes stand.
pub proof fn lemma_u32_at(s: Seq<u8>, off: int, x: u32)
    requires
        0 <= off,
        off + 4 <= s.len(),
        s.subrange(off, off + 4) == u32_bytes(x),
    ensures
        u32_at(s, off) == x,
{
    lemma_u32_round_trip(x);
    let b = s.subrange(off, off + 4);
    assert(forall|i: int| 0 <= i < 4 ==> b[i] == s[off + i]);
    assert(u32_at(s, off) == u32_at(b, 0));
}

/// A value is found again at the place where its bytes stand.
pub proof fn lemma_u16_at(s: Seq<u8>, off: int, x: u16)
    requires
        0 <= off,
        off + 2 <= s.len(),
        s.subrange(off, off + 2) == u16_bytes(x),
    ensures
        u16_at(s, off) == x,
{
    let b = s.subrange(off, off + 2);
    assert(b[0] == s[off] && b[1] == s[off + 1]);
}

/// Numbers are stored with the low byte first: each byte counts 256 times as
/// much as the one before it.
pub proof fn law_low_byte_first(s: Seq<u8>, off: int)
    ensures
        u16_at(s, off) == s[off] + 0x100 * s[off + 1],
        u32_at(s, off) == s[off] + 0x100 * s[off + 1] + 0x1_0000 * s[off + 2] + 0x100_0000 * s[off
            + 3],
        u64_at(s, off) == s[off] + 0x100 * s[off + 1] + 0x1_0000 * s[off + 2] + 0x100_0000 * s[off
            + 3] + 0x1_0000_0000 * (s[off + 4] + 0x100 * s[off + 5] + 0x1_0000 * s[off + 6]
            + 0x100_0000 * s[off + 7]),
{
}

/// Laying bytes over a sequence changes those places and no others.
pub proof fn law_splice(s: Seq<u8>, off: int, b: Seq<u8>, i: int)
    requires
        0 <= off,
        off + b.len() <= s.len(),
        0 <= i < s.len(),
    ensures
        splice(s, off, b).len() == s.len(),
        splice(s, off, b)[i] == (if off <= i < off + b.len() {
            b[i - off]
        } else {
            s[i]
        }),
{
}

} // verus!
