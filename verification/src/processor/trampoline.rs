//! The code that takes a new processor from real mode to the kernel.

use vstd::prelude::*;
use crate::le::{
    lemma_u32_at, lemma_u32_round_trip, lemma_u64_at, lemma_u64_round_trip, u16_at, u32_at,
    u32_bytes, u64_at, u64_bytes, write_u32, write_u64,
};
use crate::memory::phys::{PhysMemory, bytes_at, mem_u32, mem_u64, write_bytes};

verus! {

/// The page that the code is copied to, below 1 MiB.
pub const TRAMPOLINE_PHYS: u64 = 0x8000;

/// The number of that page, as a startup interrupt gives it.
pub const SIPI_VECTOR: u32 = 0x8;

/// Where in the page the address to go to stands.
pub const TRAMP_OFF_RIP: u64 = 0xF00;

/// Where in the page the root page table's address stands.
pub const TRAMP_OFF_CR3: u64 = 0xF08;

/// Where in the page the stack's address stands.
pub const TRAMP_OFF_RSP: u64 = 0xF10;

/// Where in the page the processor says that it runs.
pub const TRAMP_OFF_ONLINE: u64 = 0xF18;

/// Real mode: loads the descriptor table and enters protected mode.
pub open spec fn real_mode_code() -> Seq<u8> {
    seq![
        0xFAu8, 0xFC, 0x31, 0xC0, 0x8E, 0xD8, 0x0F, 0x01, 0x16, 0x00, 0x81, 0x0F, 0x20, 0xC0, 0x66,
        0x83, 0xC8, 0x01, 0x0F, 0x22, 0xC0, 0x66, 0xEA, 0x20, 0x80, 0x00, 0x00, 0x08, 0x00, 0x90,
        0x90, 0x90,
    ]
}

/// Protected mode: loads the root page table and enters long mode.
pub open spec fn protected_mode_code() -> Seq<u8> {
    seq![
        0x66u8, 0xB8, 0x10, 0x00, 0x8E, 0xD8, 0x8E, 0xC0, 0x8E, 0xD0, 0x0F, 0x20, 0xE0, 0x83, 0xC8,
        0x20, 0x0F, 0x22, 0xE0, 0xA1, 0x08, 0x8F, 0x00, 0x00, 0x0F, 0x22, 0xD8, 0xB9, 0x80, 0x00,
        0x00, 0xC0, 0x0F, 0x32, 0x0D, 0x00, 0x01, 0x00, 0x00, 0x0F, 0x30, 0x0F, 0x20, 0xC0, 0x0D,
        0x00, 0x00, 0x00, 0x80, 0x0F, 0x22, 0xC0, 0xEA, 0x80, 0x80, 0x00, 0x00, 0x18, 0x00,
    ]
}

/// Long mode: loads the stack and goes to the kernel.
pub open spec fn long_mode_code() -> Seq<u8> {
    seq![
        0x66u8, 0xB8, 0x10, 0x00, 0x66, 0x8E, 0xD8, 0x66, 0x8E, 0xC0, 0x66, 0x8E, 0xD0, 0x66, 0x31,
        0xC0, 0x66, 0x8E, 0xE0, 0x66, 0x8E, 0xE8, 0x48, 0x8B, 0x24, 0x25, 0x10, 0x8F, 0x00, 0x00,
        0x48, 0x8B, 0x04, 0x25, 0x00, 0x8F, 0x00, 0x00, 0xFF, 0xE0,
    ]
}

/// The pointer to the descriptor table, and the table: nothing, 32-bit code,
/// data, 64-bit code.
pub open spec fn descriptor_tables() -> Seq<u8> {
    seq![
        0x1Fu8, 0x00, 0x10, 0x81, 0x00, 0x00, 0x00, 0x00, 0x00, 0x00, 0x00, 0x00, 0x00, 0x00, 0x00,
        0x00, 0x00, 0x00, 0x00, 0x00, 0x00, 0x00, 0x00, 0x00, 0xFF, 0xFF, 0x00, 0x00, 0x00, 0x9A,
        0xCF, 0x00, 0xFF, 0xFF, 0x00, 0x00, 0x00, 0x92, 0xCF, 0x00, 0xFF, 0xFF, 0x00, 0x00, 0x00,
        0x9A, 0xAF, 0x00,
    ]
}

/// `n` instructions that do nothing.
pub open spec fn padding(n: nat) -> Seq<u8> {
    Seq::new(n, |i: int| 0x90u8)
}

/// The whole code.
pub open spec fn trampoline_code() -> Seq<u8> {
    real_mode_code() + (protected_mode_code() + padding(37)) + (long_mode_code() + padding(88))
        + descriptor_tables()
}

fn push_padding(code: &mut Vec<u8>, n: usize)
    ensures
        final(code)@ == old(code)@ + padding(n as nat),
{
    let ghost before = code@;
    let mut i: usize = 0;
    while i < n
        invariant
            i <= n,
            code@ =~= before + padding(i as nat),
        decreases n - i,
    {
        code.push(0x90);
        i += 1;
    }
}

/// The code that a new processor begins with.
#[verifier::rlimit(40)]
pub fn trampoline() -> (code: Vec<u8>)
    ensures
        code@ == trampoline_code(),
{
    let real_mode: [u8; 32] = [
        0xFA, 0xFC, 0x31, 0xC0, 0x8E, 0xD8, 0x0F, 0x01, 0x16, 0x00, 0x81, 0x0F, 0x20, 0xC0, 0x66,
        0x83, 0xC8, 0x01, 0x0F, 0x22, 0xC0, 0x66, 0xEA, 0x20, 0x80, 0x00, 0x00, 0x08, 0x00, 0x90,
        0x90, 0x90,
    ];
    let protected_mode: [u8; 59] = [
        0x66, 0xB8, 0x10, 0x00, 0x8E, 0xD8, 0x8E, 0xC0, 0x8E, 0xD0, 0x0F, 0x20, 0xE0, 0x83, 0xC8,
        0x20, 0x0F, 0x22, 0xE0, 0xA1, 0x08, 0x8F, 0x00, 0x00, 0x0F, 0x22, 0xD8, 0xB9, 0x80, 0x00,
        0x00, 0xC0, 0x0F, 0x32, 0x0D, 0x00, 0x01, 0x00, 0x00, 0x0F, 0x30, 0x0F, 0x20, 0xC0, 0x0D,
        0x00, 0x00, 0x00, 0x80, 0x0F, 0x22, 0xC0, 0xEA, 0x80, 0x80, 0x00, 0x00, 0x18, 0x00,
    ];
    let long_mode: [u8; 40] = [
        0x66, 0xB8, 0x10, 0x00, 0x66, 0x8E, 0xD8, 0x66, 0x8E, 0xC0, 0x66, 0x8E, 0xD0, 0x66, 0x31,
        0xC0, 0x66, 0x8E, 0xE0, 0x66, 0x8E, 0xE8, 0x48, 0x8B, 0x24, 0x25, 0x10, 0x8F, 0x00, 0x00,
        0x48, 0x8B, 0x04, 0x25, 0x00, 0x8F, 0x00, 0x00, 0xFF, 0xE0,
    ];
    let tables: [u8; 48] = [
        0x1F, 0x00, 0x10, 0x81, 0x00, 0x00, 0x00, 0x00, 0x00, 0x00, 0x00, 0x00, 0x00, 0x00, 0x00,
        0x00, 0x00, 0x00, 0x00, 0x00, 0x00, 0x00, 0x00, 0x00, 0xFF, 0xFF, 0x00, 0x00, 0x00, 0x9A,
        0xCF, 0x00, 0xFF, 0xFF, 0x00, 0x00, 0x00, 0x92, 0xCF, 0x00, 0xFF, 0xFF, 0x00, 0x00, 0x00,
        0x9A, 0xAF, 0x00,
    ];
    assert(real_mode@ =~= real_mode_code());
    assert(protected_mode@ =~= protected_mode_code());
    assert(long_mode@ =~= long_mode_code());
    assert(tables@ =~= descriptor_tables());
    let mut code: Vec<u8> = Vec::new();
    code.extend_from_slice(&real_mode);
    code.extend_from_slice(&protected_mode);
    push_padding(&mut code, 37);
    code.extend_from_slice(&long_mode);
    push_padding(&mut code, 88);
    code.extend_from_slice(&tables);
    assert(code@ =~= trampoline_code());
    code
}

/// Copies the code into its page.
pub fn install_trampoline(phys: &mut PhysMemory)
    ensures
        final(phys)@ == write_bytes(old(phys)@, TRAMPOLINE_PHYS as int, trampoline_code()),
{
    let code = trampoline();
    phys.write(TRAMPOLINE_PHYS, &code);
}

/// The memory after a 32-bit value was written.
pub open spec fn put_u32(m: Map<int, u8>, a: int, x: u32) -> Map<int, u8> {
    write_bytes(m, a, u32_bytes(x))
}

/// The memory after a 64-bit value was written.
pub open spec fn put_u64(m: Map<int, u8>, a: int, x: u64) -> Map<int, u8> {
    write_bytes(m, a, u64_bytes(x))
}

fn store_u32(phys: &mut PhysMemory, a: u64, x: u32)
    ensures
        final(phys)@ == put_u32(old(phys)@, a as int, x),
{
    let mut b: [u8; 4] = [0u8; 4];
    write_u32(&mut b, 0, x);
    assert(b@ =~= u32_bytes(x));
    phys.write(a, &b);
}

fn store_u64(phys: &mut PhysMemory, a: u64, x: u64)
    ensures
        final(phys)@ == put_u64(old(phys)@, a as int, x),
{
    let mut b: [u8; 8] = [0u8; 8];
    write_u64(&mut b, 0, x);
    assert(b@ =~= u64_bytes(x));
    phys.write(a, &b);
}

/// The memory after the flag by which a processor says that it runs was set.
pub open spec fn with_online_flag(m: Map<int, u8>, flag: u32) -> Map<int, u8> {
    put_u32(m, TRAMPOLINE_PHYS + TRAMP_OFF_ONLINE, flag)
}

/// The memory after the values for a new processor were written.
pub open spec fn with_params(m: Map<int, u8>, rip: u64, cr3: u64, stack_top: u64) -> Map<int, u8> {
    put_u64(
        put_u64(
            put_u64(with_online_flag(m, 0), TRAMPOLINE_PHYS + TRAMP_OFF_RIP, rip),
            TRAMPOLINE_PHYS + TRAMP_OFF_CR3,
            cr3,
        ),
        TRAMPOLINE_PHYS + TRAMP_OFF_RSP,
        stack_top,
    )
}

/// Sets the flag by which a processor says that it runs.
pub fn set_online_flag(phys: &mut PhysMemory, flag: u32)
    ensures
        final(phys)@ == with_online_flag(old(phys)@, flag),
{
    store_u32(phys, TRAMPOLINE_PHYS + TRAMP_OFF_ONLINE, flag);
}

/// Writes the values for a new processor: where to go, which page tables, which
/// stack; and clears its flag.
pub fn write_trampoline_params(phys: &mut PhysMemory, rip: u64, cr3: u64, stack_top: u64)
    ensures
        final(phys)@ == with_params(old(phys)@, rip, cr3, stack_top),
{
    set_online_flag(phys, 0);
    store_u64(phys, TRAMPOLINE_PHYS + TRAMP_OFF_RIP, rip);
    store_u64(phys, TRAMPOLINE_PHYS + TRAMP_OFF_CR3, cr3);
    store_u64(phys, TRAMPOLINE_PHYS + TRAMP_OFF_RSP, stack_top);
}

/// The code fits in front of the values in its page, and takes each value from
/// where it is written.
pub proof fn law_trampoline_layout()
    ensures
        trampoline_code().len() == 304,
        trampoline_code().len() <= TRAMP_OFF_RIP,
        u32_at(trampoline_code(), 0x34) == TRAMPOLINE_PHYS + TRAMP_OFF_CR3,
        u32_at(trampoline_code(), 0x9A) == TRAMPOLINE_PHYS + TRAMP_OFF_RSP,
        u32_at(trampoline_code(), 0xA2) == TRAMPOLINE_PHYS + TRAMP_OFF_RIP,
        u32_at(trampoline_code(), 0x102) == TRAMPOLINE_PHYS + 0x110,
{
    let c = trampoline_code();
    let p = protected_mode_code();
    let l = long_mode_code();
    let t = descriptor_tables();
    assert(c[0x34] == p[20] && c[0x35] == p[21] && c[0x36] == p[22] && c[0x37] == p[23]);
    assert(c[0x9A] == l[26] && c[0x9B] == l[27] && c[0x9C] == l[28] && c[0x9D] == l[29]);
    assert(c[0xA2] == l[34] && c[0xA3] == l[35] && c[0xA4] == l[36] && c[0xA5] == l[37]);
    assert(c[0x102] == t[2] && c[0x103] == t[3] && c[0x104] == t[4] && c[0x105] == t[5]);
}

/// A new processor finds the values that were written for it, its flag
/// cleared, and the code in front of them untouched.
pub proof fn law_params(m: Map<int, u8>, rip: u64, cr3: u64, stack_top: u64)
    ensures
        ({
            let m1 = with_params(m, rip, cr3, stack_top);
            &&& mem_u64(m1, TRAMPOLINE_PHYS + TRAMP_OFF_RIP) == rip
            &&& mem_u64(m1, TRAMPOLINE_PHYS + TRAMP_OFF_CR3) == cr3
            &&& mem_u64(m1, TRAMPOLINE_PHYS + TRAMP_OFF_RSP) == stack_top
            &&& mem_u32(m1, TRAMPOLINE_PHYS + TRAMP_OFF_ONLINE) == 0
            &&& forall|a: int|
                m.contains_key(a) && a < TRAMPOLINE_PHYS + TRAMP_OFF_RIP ==> #[trigger] m1[a] == m[a]
        }),
{
    let m1 = with_params(m, rip, cr3, stack_top);
    lemma_u64_round_trip(rip);
    lemma_u64_round_trip(cr3);
    lemma_u64_round_trip(stack_top);
    lemma_u32_round_trip(0);
    let a = bytes_at(m1, TRAMPOLINE_PHYS + TRAMP_OFF_RIP, 8);
    assert(a =~= u64_bytes(rip));
    assert(a.subrange(0, 8) =~= a);
    lemma_u64_at(a, 0, rip);
    let b = bytes_at(m1, TRAMPOLINE_PHYS + TRAMP_OFF_CR3, 8);
    assert(b =~= u64_bytes(cr3));
    assert(b.subrange(0, 8) =~= b);
    lemma_u64_at(b, 0, cr3);
    let c = bytes_at(m1, TRAMPOLINE_PHYS + TRAMP_OFF_RSP, 8);
    assert(c =~= u64_bytes(stack_top));
    assert(c.subrange(0, 8) =~= c);
    lemma_u64_at(c, 0, stack_top);
    let d = bytes_at(m1, TRAMPOLINE_PHYS + TRAMP_OFF_ONLINE, 4);
    assert(d =~= u32_bytes(0));
    assert(d.subrange(0, 4) =~= d);
    lemma_u32_at(d, 0, 0);
}

/// The values for a new processor stand in the last part of the trampoline's
/// page: where to go at 0x8F00, the page tables at 0x8F08, the stack at 0x8F10
/// and the flag at 0x8F18.
pub proof fn law_params_places(m: Map<int, u8>, rip: u64, cr3: u64, stack_top: u64, flag: u32)
    ensures
        ({
            let m1 = with_params(m, rip, cr3, stack_top);
            &&& mem_u64(m1, 0x8F00) == rip
            &&& mem_u64(m1, 0x8F08) == cr3
            &&& mem_u64(m1, 0x8F10) == stack_top
            &&& mem_u32(m1, 0x8F18) == 0
        }),
        mem_u32(with_online_flag(m, flag), 0x8F18) == flag,
        forall|a: int|
            m.contains_key(a) && !(0x8F18 <= a < 0x8F1C) ==> #[trigger] with_online_flag(m, flag)[a]
                == m[a],
{
    law_params(m, rip, cr3, stack_top);
    lemma_u32_round_trip(flag);
    let b = bytes_at(with_online_flag(m, flag), 0x8F18, 4);
    assert(b =~= u32_bytes(flag));
    assert(b.subrange(0, 4) =~= b);
    lemma_u32_at(b, 0, flag);
}

/// Each part of the code goes on to the next where that lies once the code is in
/// its page, with a selector of the right kind: the descriptor table, whose
/// pointer stands at 0x8100, has 32-bit code at eight, data at sixteen and 64-bit
/// code at twenty-four.
pub proof fn law_trampoline_parts()
    ensures
        ({
            let c = trampoline_code();
            &&& c.subrange(0, 32) == real_mode_code()
            &&& c.subrange(0x20, 0x5B) == protected_mode_code()
            &&& c.subrange(0x80, 0xA8) == long_mode_code()
            &&& c.subrange(0x100, 0x130) == descriptor_tables()
            &&& u16_at(c, 9) == 0x8100
            &&& u32_at(c, 0x17) == 0x8020 && u16_at(c, 0x1B) == 8
            &&& u32_at(c, 0x55) == 0x8080 && u16_at(c, 0x59) == 24
            &&& u16_at(c, 0x100) == 31
            &&& u64_at(c, 0x110) == 0
            &&& u64_at(c, 0x118) == 0x00CF_9A00_0000_FFFF
            &&& u64_at(c, 0x120) == 0x00CF_9200_0000_FFFF
            &&& u64_at(c, 0x128) == 0x00AF_9A00_0000_FFFF
        }),
{
    let c = trampoline_code();
    let r = real_mode_code();
    let p = protected_mode_code();
    let l = long_mode_code();
    let t = descriptor_tables();
    assert(c.subrange(0, 32) =~= r);
    assert(c.subrange(0x20, 0x5B) =~= p);
    assert(c.subrange(0x80, 0xA8) =~= l);
    assert(c.subrange(0x100, 0x130) =~= t);
    assert(forall|i: int| 0 <= i < 32 ==> c[i] == r[i]);
    assert(forall|i: int| 0 <= i < 48 ==> c[0x100 + i] == t[i]);
    assert(c[9] == r[9] && c[10] == r[10]);
    assert(c[0x17] == r[0x17] && c[0x18] == r[0x18] && c[0x19] == r[0x19] && c[0x1A] == r[0x1A]
        && c[0x1B] == r[0x1B] && c[0x1C] == r[0x1C]);
    assert(c[0x55] == p[0x35] && c[0x56] == p[0x36] && c[0x57] == p[0x37] && c[0x58] == p[0x38]
        && c[0x59] == p[0x39] && c[0x5A] == p[0x3A]);
    lemma_table_numbers(c);
}

proof fn lemma_table_numbers(c: Seq<u8>)
    requires
        c == trampoline_code(),
        forall|i: int| 0 <= i < 48 ==> c[0x100 + i] == descriptor_tables()[i],
    ensures
        u16_at(c, 0x100) == 31,
        u64_at(c, 0x110) == 0,
        u64_at(c, 0x118) == 0x00CF_9A00_0000_FFFF,
        u64_at(c, 0x120) == 0x00CF_9200_0000_FFFF,
        u64_at(c, 0x128) == 0x00AF_9A00_0000_FFFF,
{
    let t = descriptor_tables();
    assert(c[0x100] == t[0] && c[0x101] == t[1]);
    assert(c[0x110] == t[16] && c[0x111] == t[17] && c[0x112] == t[18] && c[0x113] == t[19]
        && c[0x114] == t[20] && c[0x115] == t[21] && c[0x116] == t[22] && c[0x117] == t[23]);
    assert(c[0x118] == t[24] && c[0x119] == t[25] && c[0x11A] == t[26] && c[0x11B] == t[27]
        && c[0x11C] == t[28] && c[0x11D] == t[29] && c[0x11E] == t[30] && c[0x11F] == t[31]);
    assert(c[0x120] == t[32] && c[0x121] == t[33] && c[0x122] == t[34] && c[0x123] == t[35]
        && c[0x124] == t[36] && c[0x125] == t[37] && c[0x126] == t[38] && c[0x127] == t[39]);
    assert(c[0x128] == t[40] && c[0x129] == t[41] && c[0x12A] == t[42] && c[0x12B] == t[43]
        && c[0x12C] == t[44] && c[0x12D] == t[45] && c[0x12E] == t[46] && c[0x12F] == t[47]);
}

} // verus!
