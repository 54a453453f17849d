//! The MADT: processors and interrupt controllers.

use vstd::prelude::*;
use crate::acpi::layout::{MADT_HEADER_SIZE, SDT_HEADER_SIZE, readable};
use crate::acpi::sdt::{extent_readable, sdt_length, table_length};
use crate::le::{lemma_u32_round_trip, lemma_u64_round_trip, u16_bytes, u32_bytes, u64_bytes};
use crate::memory::phys::{PhysMemory, bytes_at, mem_u32, mem_u64};

verus! {

/// The kind of a MADT entry.
#[derive(Debug, Clone, Copy, PartialEq, Eq, Structural)]
pub enum MadtEntryType {
    LocalApic,
    IoApic,
    InterruptSourceOverride,
    NmiSource,
    LocalApicNmi,
    LocalApicAddressOverride,
    IoSapic,
    LocalSapic,
    PlatformInterruptSource,
    LocalX2Apic,
    LocalX2ApicNmi,
    Gic,
    GicDistributor,
    Unknown(u8),
}

/// The kind that the number `v` stands for.
pub open spec fn entry_type(v: u8) -> MadtEntryType {
    match v {
        0 => MadtEntryType::LocalApic,
        1 => MadtEntryType::IoApic,
        2 => MadtEntryType::InterruptSourceOverride,
        3 => MadtEntryType::NmiSource,
        4 => MadtEntryType::LocalApicNmi,
        5 => MadtEntryType::LocalApicAddressOverride,
        6 => MadtEntryType::IoSapic,
        7 => MadtEntryType::LocalSapic,
        8 => MadtEntryType::PlatformInterruptSource,
        9 => MadtEntryType::LocalX2Apic,
        10 => MadtEntryType::LocalX2ApicNmi,
        11 => MadtEntryType::Gic,
        12 => MadtEntryType::GicDistributor,
        _ => MadtEntryType::Unknown(v),
    }
}

impl From<u8> for MadtEntryType {
    fn from(v: u8) -> (t: MadtEntryType) {
        match v {
            0 => MadtEntryType::LocalApic,
            1 => MadtEntryType::IoApic,
            2 => MadtEntryType::InterruptSourceOverride,
            3 => MadtEntryType::NmiSource,
            4 => MadtEntryType::LocalApicNmi,
            5 => MadtEntryType::LocalApicAddressOverride,
            6 => MadtEntryType::IoSapic,
            7 => MadtEntryType::LocalSapic,
            8 => MadtEntryType::PlatformInterruptSource,
            9 => MadtEntryType::LocalX2Apic,
            10 => MadtEntryType::LocalX2ApicNmi,
            11 => MadtEntryType::Gic,
            12 => MadtEntryType::GicDistributor,
            other => MadtEntryType::Unknown(other),
        }
    }
}

impl vstd::std_specs::convert::FromSpecImpl<u8> for MadtEntryType {
    open spec fn obeys_from_spec() -> bool {
        true
    }

    open spec fn from_spec(v: u8) -> MadtEntryType {
        entry_type(v)
    }
}

/// The most processors that are recorded.
pub const MAX_CPUS: usize = 64;

/// What the kernel takes from the MADT.
#[derive(Debug, Clone, Copy)]
pub struct MadtInfo {
    /// Physical address of the local APIC's registers.
    pub local_apic_address: u64,
    /// Number of enabled processors.
    pub cpu_count: u8,
    /// Their APIC IDs.
    pub apic_ids: [u8; 64],
    /// Physical address of the first I/O APIC.
    pub io_apic_address: u32,
    /// The first global interrupt of that I/O APIC.
    pub io_apic_gsi_base: u32,
}

/// The mathematical value of a [`MadtInfo`].
#[verifier::ext_equal]
pub struct MadtSummary {
    pub local_apic_address: u64,
    pub apic_ids: Seq<u8>,
    pub io_apic_address: u32,
    pub io_apic_gsi_base: u32,
}

impl MadtInfo {
    /// The table of APIC IDs holds those that are counted, then zeros.
    pub open spec fn wf(&self) -> bool {
        &&& self.cpu_count <= MAX_CPUS
        &&& forall|i: int| self.cpu_count <= i < MAX_CPUS ==> #[trigger] self.apic_ids@[i] == 0
    }
}

impl View for MadtInfo {
    type V = MadtSummary;

    open spec fn view(&self) -> MadtSummary {
        MadtSummary {
            local_apic_address: self.local_apic_address,
            apic_ids: self.apic_ids@.take(self.cpu_count as int),
            io_apic_address: self.io_apic_address,
            io_apic_gsi_base: self.io_apic_gsi_base,
        }
    }
}

/// Nothing found.
pub open spec fn empty_summary() -> MadtSummary {
    MadtSummary {
        local_apic_address: 0,
        apic_ids: Seq::empty(),
        io_apic_address: 0,
        io_apic_gsi_base: 0,
    }
}

impl Default for MadtInfo {
    fn default() -> (info: MadtInfo)
        ensures
            info.wf(),
            info@ == empty_summary(),
    {
        let info = MadtInfo {
            local_apic_address: 0,
            cpu_count: 0,
            apic_ids: [0u8; 64],
            io_apic_address: 0,
            io_apic_gsi_base: 0,
        };
        assert(info@ =~= empty_summary());
        info
    }
}

/// The entries from `a` on that end no later than `end`; an entry that is too
/// short or too long ends the list.
pub open spec fn entries_from(m: Map<int, u8>, a: int, end: int) -> Seq<u64>
    decreases end - a,
{
    if a + 2 > end || m[a + 1] < 2 || a + m[a + 1] > end {
        Seq::empty()
    } else {
        seq![a as u64] + entries_from(m, a + m[a + 1], end)
    }
}

/// The entries of the MADT at `a`.
pub open spec fn madt_entries(m: Map<int, u8>, a: int) -> Seq<u64> {
    entries_from(m, a + SDT_HEADER_SIZE + MADT_HEADER_SIZE, a + table_length(m, a))
}

/// The entries of the MADT at `madt`, in order.
pub fn iter_madt_entries(mem: &PhysMemory, madt: u64) -> (entries: Vec<u64>)
    requires
        extent_readable(mem@, madt as int),
    ensures
        entries@ == madt_entries(mem@, madt as int),
{
    let end: u64 = madt + sdt_length(mem, madt) as u64;
    let start: u64 = SDT_HEADER_SIZE + MADT_HEADER_SIZE;
    let mut entries: Vec<u64> = Vec::new();
    if end - madt < start {
        return entries;
    }
    let mut cur: u64 = madt + start;
    let ghost all = madt_entries(mem@, madt as int);
    assert(entries@ + entries_from(mem@, cur as int, end as int) =~= all);
    while end - cur >= 2
        invariant
            extent_readable(mem@, madt as int),
            madt + SDT_HEADER_SIZE + MADT_HEADER_SIZE <= cur <= end,
            end == madt + table_length(mem@, madt as int),
            entries@ + entries_from(mem@, cur as int, end as int) == all,
            all == madt_entries(mem@, madt as int),
        ensures
            entries@ == all,
        decreases end - cur,
    {
        let len: u64 = mem.read_u8(cur + 1) as u64;
        if len < 2 || len > end - cur {
            assert(entries_from(mem@, cur as int, end as int) == Seq::<u64>::empty());
            assert(entries@ =~= all);
            break;
        }
        let ghost before = entries@;
        entries.push(cur);
        cur += len;
        assert(entries@ + entries_from(mem@, cur as int, end as int) =~= all);
        assert(end - cur < 2 ==> entries@ =~= all);
    }
    entries
}

/// The entry at `e` can be read as far as its kind needs.
pub open spec fn entry_readable(m: Map<int, u8>, e: int) -> bool {
    &&& readable(m, e, 2)
    &&& m[e] == 0 ==> readable(m, e, 8)
    &&& m[e] == 1 ==> readable(m, e, 12)
    &&& m[e] == 5 ==> readable(m, e, 12)
}

/// What the entry at `e` adds.
pub open spec fn with_madt_entry(s: MadtSummary, m: Map<int, u8>, e: int) -> MadtSummary {
    match entry_type(m[e]) {
        MadtEntryType::LocalApic => if mem_u32(m, e + 4) % 2 == 1 && s.apic_ids.len() < MAX_CPUS {
            MadtSummary { apic_ids: s.apic_ids.push(m[e + 3]), ..s }
        } else {
            s
        },
        MadtEntryType::IoApic => if s.io_apic_address == 0 {
            MadtSummary {
                io_apic_address: mem_u32(m, e + 4),
                io_apic_gsi_base: mem_u32(m, e + 8),
                ..s
            }
        } else {
            s
        },
        MadtEntryType::LocalApicAddressOverride => MadtSummary {
            local_apic_address: mem_u64(m, e + 4),
            ..s
        },
        _ => s,
    }
}

/// What the first `n` of the entries add to `s`.
pub open spec fn with_madt_entries(
    s: MadtSummary,
    m: Map<int, u8>,
    entries: Seq<u64>,
    n: int,
) -> MadtSummary
    decreases n,
{
    if n <= 0 {
        s
    } else {
        with_madt_entry(with_madt_entries(s, m, entries, n - 1), m, entries[n - 1] as int)
    }
}

/// What the MADT at `a` says.
pub open spec fn madt_summary(m: Map<int, u8>, a: int) -> MadtSummary {
    with_madt_entries(
        MadtSummary {
            local_apic_address: mem_u32(m, a + SDT_HEADER_SIZE) as u64,
            ..empty_summary()
        },
        m,
        madt_entries(m, a),
        madt_entries(m, a).len() as int,
    )
}

/// The MADT at `a` and its entries can be read.
pub open spec fn madt_readable(m: Map<int, u8>, a: int) -> bool {
    &&& extent_readable(m, a)
    &&& readable(m, a, SDT_HEADER_SIZE + MADT_HEADER_SIZE)
    &&& forall|i: int|
        0 <= i < madt_entries(m, a).len() ==> entry_readable(
            m,
            #[trigger] madt_entries(m, a)[i] as int,
        )
}

fn add_madt_entry(info: &mut MadtInfo, mem: &PhysMemory, e: u64)
    requires
        old(info).wf(),
        entry_readable(mem@, e as int),
    ensures
        final(info).wf(),
        final(info)@ == with_madt_entry(old(info)@, mem@, e as int),
{
    let kind: MadtEntryType = MadtEntryType::from(mem.read_u8(e));
    match kind {
        MadtEntryType::LocalApic => {
            let flags: u32 = mem.read_u32(e + 4);
            assert((flags & 0x1 != 0) == (flags % 2 == 1)) by (bit_vector);
            if flags & 0x1 != 0 {
                let idx: usize = info.cpu_count as usize;
                if idx < MAX_CPUS {
                    info.apic_ids[idx] = mem.read_u8(e + 3);
                    info.cpu_count = info.cpu_count + 1;
                }
            }
        },
        MadtEntryType::IoApic => {
            if info.io_apic_address == 0 {
                info.io_apic_address = mem.read_u32(e + 4);
                info.io_apic_gsi_base = mem.read_u32(e + 8);
            }
        },
        MadtEntryType::LocalApicAddressOverride => {
            info.local_apic_address = mem.read_u64(e + 4);
        },
        _ => {},
    }
    assert(info@ =~= with_madt_entry(old(info)@, mem@, e as int));
}

/// Reads the MADT at `madt`.
pub fn parse_madt(mem: &PhysMemory, madt: u64) -> (info: MadtInfo)
    requires
        madt_readable(mem@, madt as int),
    ensures
        info.wf(),
        info@ == madt_summary(mem@, madt as int),
{
    let mut info = MadtInfo {
        local_apic_address: mem.read_u32(madt + SDT_HEADER_SIZE) as u64,
        ..MadtInfo::default()
    };
    let ghost first = info@;
    assert(first =~= MadtSummary {
        local_apic_address: mem_u32(mem@, madt + SDT_HEADER_SIZE) as u64,
        ..empty_summary()
    });
    let entries = iter_madt_entries(mem, madt);
    let mut i: usize = 0;
    while i < entries.len()
        invariant
            i <= entries.len(),
            entries@ == madt_entries(mem@, madt as int),
            madt_readable(mem@, madt as int),
            info.wf(),
            info@ == with_madt_entries(first, mem@, entries@, i as int),
        decreases entries.len() - i,
    {
        assert(entry_readable(mem@, madt_entries(mem@, madt as int)[i as int] as int));
        add_madt_entry(&mut info, mem, entries[i]);
        i += 1;
    }
    info
}

/// Every entry of a MADT lies inside the table, behind the one before it.
pub proof fn law_madt_entries(m: Map<int, u8>, a: int, i: int)
    requires
        extent_readable(m, a),
        0 <= i < madt_entries(m, a).len(),
    ensures
        ({
            let es = madt_entries(m, a);
            let e = es[i] as int;
            &&& a + SDT_HEADER_SIZE + MADT_HEADER_SIZE <= e
            &&& m[e + 1] >= 2
            &&& e + m[e + 1] <= a + table_length(m, a)
            &&& i + 1 < es.len() ==> es[i + 1] == e + m[e + 1]
        }),
{
    lemma_entries_from(m, a + SDT_HEADER_SIZE + MADT_HEADER_SIZE, a + table_length(m, a), i);
}

proof fn lemma_entries_from(m: Map<int, u8>, a: int, end: int, i: int)
    requires
        0 <= a,
        end <= u64::MAX,
        0 <= i < entries_from(m, a, end).len(),
    ensures
        ({
            let es = entries_from(m, a, end);
            let e = es[i] as int;
            &&& a <= e
            &&& m[e + 1] >= 2
            &&& e + m[e + 1] <= end
            &&& i + 1 < es.len() ==> es[i + 1] == e + m[e + 1]
        }),
    decreases end - a,
{
    let es = entries_from(m, a, end);
    let rest = entries_from(m, a + m[a + 1], end);
    assert(es == seq![a as u64] + rest);
    if i > 0 {
        lemma_entries_from(m, a + m[a + 1], end, i - 1);
        assert(es[i] == rest[i - 1]);
        if i + 1 < es.len() {
            assert(es[i + 1] == rest[i]);
        }
    } else if es.len() > 1 {
        assert(es[1] == rest[0]);
        assert(rest[0] == a + m[a + 1]);
    }
}

/// The entries of a MADT begin 44 bytes behind the table's start and follow one
/// another without a gap: where no entry is listed, or behind the last one,
/// there is no room for two more bytes, or the length that stands there is below
/// two or goes past the end of the table.
pub proof fn law_madt_entries_without_gap(m: Map<int, u8>, a: int)
    requires
        extent_readable(m, a),
    ensures
        ({
            let es = madt_entries(m, a);
            let end = a + table_length(m, a);
            let next = if es.len() == 0 {
                a + 44
            } else {
                es.last() + m[es.last() + 1]
            };
            &&& es.len() > 0 ==> es[0] == a + 44
            &&& next + 2 > end || m[next + 1] < 2 || next + m[next + 1] > end
        }),
{
    lemma_entries_end(m, a + 44, a + table_length(m, a));
}

proof fn lemma_entries_end(m: Map<int, u8>, a: int, end: int)
    requires
        0 <= a,
        end <= u64::MAX,
    ensures
        ({
            let es = entries_from(m, a, end);
            let next = if es.len() == 0 {
                a
            } else {
                es.last() + m[es.last() + 1]
            };
            &&& es.len() > 0 ==> es[0] == a
            &&& next + 2 > end || m[next + 1] < 2 || next + m[next + 1] > end
        }),
    decreases end - a,
{
    let es = entries_from(m, a, end);
    if !(a + 2 > end || m[a + 1] < 2 || a + m[a + 1] > end) {
        let rest = entries_from(m, a + m[a + 1], end);
        lemma_entries_end(m, a + m[a + 1], end);
        assert(es == seq![a as u64] + rest);
        if rest.len() > 0 {
            assert(es.last() == rest.last());
        }
    }
}

/// The entry of an enabled processor, written as its type, its length, the
/// processor's UID, its APIC ID and its flags, adds the APIC ID behind those
/// that were found before it, up to 64 of them. One whose flag for enabled is
/// not set adds nothing.
pub proof fn law_processor_entry(
    s: MadtSummary,
    m: Map<int, u8>,
    e: int,
    uid: u8,
    apic_id: u8,
    flags: u32,
)
    requires
        bytes_at(m, e, 4) == seq![0u8, 8u8, uid, apic_id],
        bytes_at(m, e + 4, 4) == u32_bytes(flags),
    ensures
        with_madt_entry(s, m, e) == (MadtSummary {
            apic_ids: if flags % 2 == 1 && s.apic_ids.len() < 64 {
                s.apic_ids.push(apic_id)
            } else {
                s.apic_ids
            },
            ..s
        }),
{
    let b = bytes_at(m, e, 4);
    assert(b[0] == m[e] && b[3] == m[e + 3]);
    lemma_u32_round_trip(flags);
}

/// The entry of an I/O APIC, written as its type, its length, its ID, a byte
/// that is not used, its address and its first interrupt, gives the address and
/// the interrupt, unless an address was found before.
pub proof fn law_io_apic_entry(
    s: MadtSummary,
    m: Map<int, u8>,
    e: int,
    id: u8,
    unused: u8,
    address: u32,
    first: u32,
)
    requires
        bytes_at(m, e, 4) == seq![1u8, 12u8, id, unused],
        bytes_at(m, e + 4, 4) == u32_bytes(address),
        bytes_at(m, e + 8, 4) == u32_bytes(first),
    ensures
        s.io_apic_address == 0 ==> with_madt_entry(s, m, e) == (MadtSummary {
            io_apic_address: address,
            io_apic_gsi_base: first,
            ..s
        }),
        s.io_apic_address != 0 ==> with_madt_entry(s, m, e) == s,
{
    let b = bytes_at(m, e, 4);
    assert(b[0] == m[e]);
    lemma_u32_round_trip(address);
    lemma_u32_round_trip(first);
}

/// The entry that moves the local APIC, written as its type, its length, two
/// bytes that are not used and an address, gives the address.
pub proof fn law_address_override_entry(
    s: MadtSummary,
    m: Map<int, u8>,
    e: int,
    unused: u16,
    address: u64,
)
    requires
        bytes_at(m, e, 4) == seq![5u8, 12u8] + u16_bytes(unused),
        bytes_at(m, e + 4, 8) == u64_bytes(address),
    ensures
        with_madt_entry(s, m, e) == (MadtSummary { local_apic_address: address, ..s }),
{
    let b = bytes_at(m, e, 4);
    assert(b[0] == m[e]);
    assert(b[0] == 5);
    lemma_u64_round_trip(address);
}

/// Entries of every other type are passed over.
pub proof fn law_other_entries(s: MadtSummary, m: Map<int, u8>, e: int)
    requires
        m[e] != 0 && m[e] != 1 && m[e] != 5,
    ensures
        with_madt_entry(s, m, e) == s,
{
}

/// Entry `i` is that of a processor that is enabled.
pub open spec fn enabled_processor(m: Map<int, u8>, es: Seq<u64>, i: int) -> bool {
    0 <= i < es.len() && m[es[i] as int] == 0 && m[es[i] + 4] % 2 == 1
}

/// `on` lists the entries of enabled processors among the first `n`, in order.
pub open spec fn lists_enabled(m: Map<int, u8>, es: Seq<u64>, n: int, on: Seq<int>) -> bool {
    &&& forall|k: int|
        0 <= k < on.len() ==> 0 <= #[trigger] on[k] < n && enabled_processor(m, es, on[k])
    &&& forall|k: int, l: int| 0 <= k < l < on.len() ==> #[trigger] on[k] < #[trigger] on[l]
    &&& forall|i: int|
        0 <= i < n && #[trigger] enabled_processor(m, es, i) ==> on.contains(i)
}

proof fn lemma_processors(s: MadtSummary, m: Map<int, u8>, es: Seq<u64>, n: int) -> (on: Seq<int>)
    requires
        s.apic_ids == Seq::<u8>::empty(),
        0 <= n <= es.len(),
    ensures
        lists_enabled(m, es, n, on),
        with_madt_entries(s, m, es, n).apic_ids == Seq::new(
            if on.len() < 64 {
                on.len()
            } else {
                64
            },
            |k: int| m[es[on[k]] + 3],
        ),
    decreases n,
{
    if n == 0 {
        let on = Seq::<int>::empty();
        assert(with_madt_entries(s, m, es, n).apic_ids =~= Seq::new(
            0,
            |k: int| m[es[on[k]] + 3],
        ));
        on
    } else {
        let before = lemma_processors(s, m, es, n - 1);
        let s0 = with_madt_entries(s, m, es, n - 1);
        let e = es[n - 1] as int;
        let flags = mem_u32(m, e + 4);
        assert(bytes_at(m, e + 4, 4)[0] == m[e + 4]);
        assert(flags % 2 == m[e + 4] % 2);
        if enabled_processor(m, es, n - 1) {
            let on = before.push(n - 1);
            assert forall|i: int|
                0 <= i < n && #[trigger] enabled_processor(m, es, i) implies on.contains(i) by {
                if i < n - 1 {
                    let k = choose|k: int| 0 <= k < before.len() && before[k] == i;
                    assert(on[k] == i);
                } else {
                    assert(on[before.len() as int] == i);
                }
            }
            assert(with_madt_entries(s, m, es, n).apic_ids =~= Seq::new(
                if on.len() < 64 {
                    on.len()
                } else {
                    64
                },
                |k: int| m[es[on[k]] + 3],
            ));
            on
        } else {
            assert(with_madt_entries(s, m, es, n).apic_ids == s0.apic_ids);
            before
        }
    }
}

/// The APIC IDs that a MADT gives are those of exactly its enabled processors,
/// in the order of the table, of the first 64 where there are more: for each
/// entry of type zero with the lowest flag set, the fourth of its bytes.
pub proof fn law_processors(m: Map<int, u8>, a: int) -> (on: Seq<int>)
    ensures
        lists_enabled(m, madt_entries(m, a), madt_entries(m, a).len() as int, on),
        madt_summary(m, a).apic_ids == Seq::new(
            if on.len() < 64 {
                on.len()
            } else {
                64
            },
            |k: int| m[madt_entries(m, a)[on[k]] + 3],
        ),
{
    let es = madt_entries(m, a);
    lemma_processors(
        MadtSummary {
            local_apic_address: mem_u32(m, a + SDT_HEADER_SIZE) as u64,
            ..empty_summary()
        },
        m,
        es,
        es.len() as int,
    )
}

proof fn lemma_controllers(s: MadtSummary, m: Map<int, u8>, es: Seq<u64>, n: int)
    requires
        s.io_apic_address == 0,
        0 <= n <= es.len(),
    ensures
        ({
            let r = with_madt_entries(s, m, es, n);
            &&& r.local_apic_address == s.local_apic_address && (forall|j: int|
                0 <= j < n ==> m[#[trigger] es[j] as int] != 5) || exists|i: int|
                0 <= i < n && m[#[trigger] es[i] as int] == 5 && r.local_apic_address == mem_u64(
                    m,
                    es[i] + 4,
                ) && forall|j: int| i < j < n ==> m[#[trigger] es[j] as int] != 5
            &&& r.io_apic_address == 0 && (forall|j: int|
                0 <= j < n && m[#[trigger] es[j] as int] == 1 ==> mem_u32(m, es[j] + 4) == 0)
                || exists|i: int|
                0 <= i < n && m[#[trigger] es[i] as int] == 1 && r.io_apic_address == mem_u32(
                    m,
                    es[i] + 4,
                ) && r.io_apic_address != 0 && r.io_apic_gsi_base == mem_u32(m, es[i] + 8)
                    && forall|j: int|
                    0 <= j < i && m[#[trigger] es[j] as int] == 1 ==> mem_u32(m, es[j] + 4) == 0
        }),
    decreases n,
{
    if n > 0 {
        lemma_controllers(s, m, es, n - 1);
        let r0 = with_madt_entries(s, m, es, n - 1);
        let r = with_madt_entries(s, m, es, n);
        let e = es[n - 1] as int;
        if m[e] == 5 {
            assert(r.local_apic_address == mem_u64(m, e + 4));
        } else {
            assert(r.local_apic_address == r0.local_apic_address);
        }
        if m[e] == 1 && r0.io_apic_address == 0 {
            assert(r.io_apic_address == mem_u32(m, e + 4));
        } else {
            assert(r.io_apic_address == r0.io_apic_address);
            assert(r.io_apic_gsi_base == r0.io_apic_gsi_base);
        }
    }
}

/// The local APIC is where the last entry that moves it says, or else where the
/// table's header says. The I/O APIC is the first that has an address, with its
/// first interrupt; without one the address is zero.
pub proof fn law_controllers(m: Map<int, u8>, a: int)
    ensures
        ({
            let es = madt_entries(m, a);
            let r = madt_summary(m, a);
            &&& r.local_apic_address == mem_u32(m, a + 36) && (forall|j: int|
                0 <= j < es.len() ==> m[#[trigger] es[j] as int] != 5) || exists|i: int|
                0 <= i < es.len() && m[#[trigger] es[i] as int] == 5 && r.local_apic_address
                    == mem_u64(m, es[i] + 4) && forall|j: int|
                    i < j < es.len() ==> m[#[trigger] es[j] as int] != 5
            &&& r.io_apic_address == 0 && (forall|j: int|
                0 <= j < es.len() && m[#[trigger] es[j] as int] == 1 ==> mem_u32(m, es[j] + 4) == 0)
                || exists|i: int|
                0 <= i < es.len() && m[#[trigger] es[i] as int] == 1 && r.io_apic_address
                    == mem_u32(m, es[i] + 4) && r.io_apic_address != 0 && r.io_apic_gsi_base
                    == mem_u32(m, es[i] + 8) && forall|j: int|
                    0 <= j < i && m[#[trigger] es[j] as int] == 1 ==> mem_u32(m, es[j] + 4) == 0
        }),
{
    let es = madt_entries(m, a);
    lemma_controllers(
        MadtSummary {
            local_apic_address: mem_u32(m, a + SDT_HEADER_SIZE) as u64,
            ..empty_summary()
        },
        m,
        es,
        es.len() as int,
    );
}

/// The numbers of the entry types count from zero to twelve in the order in
/// which ACPI defines them; every other number is kept as it is.
pub proof fn law_entry_types(v: u8)
    ensures
        entry_type(v) == MadtEntryType::LocalApic <==> v == 0,
        entry_type(v) == MadtEntryType::IoApic <==> v == 1,
        entry_type(v) == MadtEntryType::InterruptSourceOverride <==> v == 2,
        entry_type(v) == MadtEntryType::NmiSource <==> v == 3,
        entry_type(v) == MadtEntryType::LocalApicNmi <==> v == 4,
        entry_type(v) == MadtEntryType::LocalApicAddressOverride <==> v == 5,
        entry_type(v) == MadtEntryType::IoSapic <==> v == 6,
        entry_type(v) == MadtEntryType::LocalSapic <==> v == 7,
        entry_type(v) == MadtEntryType::PlatformInterruptSource <==> v == 8,
        entry_type(v) == MadtEntryType::LocalX2Apic <==> v == 9,
        entry_type(v) == MadtEntryType::LocalX2ApicNmi <==> v == 10,
        entry_type(v) == MadtEntryType::Gic <==> v == 11,
        entry_type(v) == MadtEntryType::GicDistributor <==> v == 12,
        v > 12 ==> entry_type(v) == MadtEntryType::Unknown(v),
{
}

} // verus!
