//! The tables that the kernel uses, found from the root pointer.

use vstd::prelude::*;
use crate::acpi::fixed::{fadt_dsdt_address, hpet_base_address};
use crate::acpi::layout::{FADT_SIZE, Fadt, HPET_SIZE, Hpet, generic_address_at, readable};
use crate::acpi::madt::{MadtInfo, madt_readable, madt_summary, parse_madt};
use crate::acpi::rsdp::{rsdp_readable, rsdp_rsdt_address, rsdp_xsdt_address, xsdt_address};
use crate::acpi::sdt::{
    headers_readable, iter_rsdt, iter_xsdt, read_signature, rsdt_entries, same_signature,
    table_readable, table_signature, xsdt_entries,
};
use crate::le::{lemma_u32_round_trip, lemma_u64_round_trip, u32_bytes, u64_bytes};
use crate::memory::phys::{PhysMemory, bytes_at, mem_u32, mem_u64};

verus! {

/// Where the tables lie.
#[derive(Debug, Clone, Copy, PartialEq, Eq, Structural)]
pub struct AcpiTables {
    pub rsdp: u64,
    pub rsdt: Option<u64>,
    pub xsdt: Option<u64>,
    pub madt: Option<u64>,
    pub fadt: Option<u64>,
    pub hpet: Option<u64>,
    pub mcfg: Option<u64>,
}

/// The text `APIC`.
pub open spec fn apic_signature() -> Seq<u8> {
    seq![0x41u8, 0x50u8, 0x49u8, 0x43u8]
}

/// The text `FACP`.
pub open spec fn facp_signature() -> Seq<u8> {
    seq![0x46u8, 0x41u8, 0x43u8, 0x50u8]
}

/// The text `HPET`.
pub open spec fn hpet_signature() -> Seq<u8> {
    seq![0x48u8, 0x50u8, 0x45u8, 0x54u8]
}

/// The text `MCFG`.
pub open spec fn mcfg_signature() -> Seq<u8> {
    seq![0x4Du8, 0x43u8, 0x46u8, 0x47u8]
}

/// `t` with the table at `a` recorded, if it is one that the kernel uses.
pub open spec fn with_table(t: AcpiTables, m: Map<int, u8>, a: u64) -> AcpiTables {
    let sig = table_signature(m, a as int);
    if sig == apic_signature() {
        AcpiTables { madt: Some(a), ..t }
    } else if sig == facp_signature() {
        AcpiTables { fadt: Some(a), ..t }
    } else if sig == hpet_signature() {
        AcpiTables { hpet: Some(a), ..t }
    } else if sig == mcfg_signature() {
        AcpiTables { mcfg: Some(a), ..t }
    } else {
        t
    }
}

/// `t` with the first `n` of the tables recorded, in order.
pub open spec fn with_tables(t: AcpiTables, m: Map<int, u8>, entries: Seq<u64>, n: int) -> AcpiTables
    decreases n,
{
    if n <= 0 {
        t
    } else {
        with_table(with_tables(t, m, entries, n - 1), m, entries[n - 1])
    }
}

/// No table found yet.
pub open spec fn no_tables(rsdp: u64) -> AcpiTables {
    AcpiTables { rsdp, rsdt: None, xsdt: None, madt: None, fadt: None, hpet: None, mcfg: None }
}

/// The XSDT, where the root pointer has one.
pub open spec fn root_xsdt(m: Map<int, u8>, rsdp: int) -> Option<u64> {
    match xsdt_address(m, rsdp) {
        Some(x) => if x != 0 {
            Some(x)
        } else {
            None
        },
        None => None,
    }
}

/// The tables that the root pointer at `rsdp` leads to: by way of the XSDT
/// where there is one, else of the RSDT.
pub open spec fn tables_from(m: Map<int, u8>, rsdp: u64) -> AcpiTables {
    match root_xsdt(m, rsdp as int) {
        Some(x) => {
            let entries = xsdt_entries(m, x as int);
            with_tables(
                AcpiTables { xsdt: Some(x), ..no_tables(rsdp) },
                m,
                entries,
                entries.len() as int,
            )
        },
        None => {
            let r = mem_u32(m, rsdp + 16) as u64;
            if r != 0 {
                let entries = rsdt_entries(m, r as int);
                with_tables(
                    AcpiTables { rsdt: Some(r), ..no_tables(rsdp) },
                    m,
                    entries,
                    entries.len() as int,
                )
            } else {
                no_tables(rsdp)
            }
        },
    }
}

/// The root pointer, the root table it leads to, and the headers of the tables
/// listed there can be read.
pub open spec fn roots_readable(m: Map<int, u8>, rsdp: int) -> bool {
    &&& rsdp_readable(m, rsdp)
    &&& match root_xsdt(m, rsdp) {
        Some(x) => table_readable(m, x as int) && headers_readable(m, xsdt_entries(m, x as int)),
        None => {
            let r = mem_u32(m, rsdp + 16) as int;
            r != 0 ==> table_readable(m, r) && headers_readable(m, rsdt_entries(m, r))
        },
    }
}

/// The tables in `t` can be read.
pub open spec fn tables_readable(t: AcpiTables, m: Map<int, u8>) -> bool {
    &&& t.madt matches Some(a) ==> madt_readable(m, a as int)
    &&& t.fadt matches Some(a) ==> readable(m, a as int, FADT_SIZE as int)
    &&& t.hpet matches Some(a) ==> readable(m, a as int, HPET_SIZE as int)
}

/// The address of the DSDT in the FADT at `a`.
pub open spec fn dsdt_at(m: Map<int, u8>, a: int) -> u64 {
    if mem_u64(m, a + 140) != 0 {
        mem_u64(m, a + 140)
    } else {
        mem_u32(m, a + 40) as u64
    }
}

impl AcpiTables {
    fn record(&mut self, mem: &PhysMemory, entries: &Vec<u64>)
        requires
            headers_readable(mem@, entries@),
        ensures
            *final(self) == with_tables(*old(self), mem@, entries@, entries@.len() as int),
    {
        let apic: [u8; 4] = [0x41, 0x50, 0x49, 0x43];
        let facp: [u8; 4] = [0x46, 0x41, 0x43, 0x50];
        let hpet: [u8; 4] = [0x48, 0x50, 0x45, 0x54];
        let mcfg: [u8; 4] = [0x4D, 0x43, 0x46, 0x47];
        assert(apic@ =~= apic_signature());
        assert(facp@ =~= facp_signature());
        assert(hpet@ =~= hpet_signature());
        assert(mcfg@ =~= mcfg_signature());
        let mut i: usize = 0;
        while i < entries.len()
            invariant
                i <= entries.len(),
                headers_readable(mem@, entries@),
                apic@ == apic_signature(),
                facp@ == facp_signature(),
                hpet@ == hpet_signature(),
                mcfg@ == mcfg_signature(),
                *self == with_tables(*old(self), mem@, entries@, i as int),
            decreases entries.len() - i,
        {
            let a: u64 = entries[i];
            let sig: [u8; 4] = read_signature(mem, a);
            if same_signature(&sig, &apic) {
                self.madt = Some(a);
            } else if same_signature(&sig, &facp) {
                self.fadt = Some(a);
            } else if same_signature(&sig, &hpet) {
                self.hpet = Some(a);
            } else if same_signature(&sig, &mcfg) {
                self.mcfg = Some(a);
            }
            i += 1;
        }
    }

    /// Finds the tables that the root pointer at `rsdp` leads to.
    pub fn from_rsdp(mem: &PhysMemory, rsdp: u64) -> (t: AcpiTables)
        requires
            roots_readable(mem@, rsdp as int),
        ensures
            t == tables_from(mem@, rsdp),
    {
        let mut tables = AcpiTables {
            rsdp,
            rsdt: None,
            xsdt: None,
            madt: None,
            fadt: None,
            hpet: None,
            mcfg: None,
        };
        match rsdp_xsdt_address(mem, rsdp) {
            Some(xsdt) => {
                if xsdt != 0 {
                    tables.xsdt = Some(xsdt);
                    let entries = iter_xsdt(mem, xsdt);
                    tables.record(mem, &entries);
                    return tables;
                }
            },
            None => {},
        }
        let rsdt: u64 = rsdp_rsdt_address(mem, rsdp) as u64;
        if rsdt != 0 {
            tables.rsdt = Some(rsdt);
            let entries = iter_rsdt(mem, rsdt);
            tables.record(mem, &entries);
        }
        tables
    }

    /// What the MADT says, if there is one.
    pub fn madt_info(&self, mem: &PhysMemory) -> (r: Option<MadtInfo>)
        requires
            self.madt matches Some(a) ==> madt_readable(mem@, a as int),
        ensures
            match (self.madt, r) {
                (Some(a), Some(info)) => info.wf() && info@ == madt_summary(mem@, a as int),
                (None, None) => true,
                _ => false,
            },
    {
        match self.madt {
            Some(madt) => Some(parse_madt(mem, madt)),
            None => None,
        }
    }

    /// The base address of the HPET's registers, if there is one.
    pub fn hpet_address(&self, mem: &PhysMemory) -> (r: Option<u64>)
        requires
            self.hpet matches Some(a) ==> readable(mem@, a as int, HPET_SIZE as int),
        ensures
            r == (match self.hpet {
                Some(a) => Some(mem_u64(mem@, a + 44)),
                None => None,
            }),
    {
        match self.hpet {
            Some(a) => {
                let hpet = Hpet::read(mem, a);
                assert(hpet.base_address == generic_address_at(mem@, a + 40));
                Some(hpet_base_address(&hpet))
            },
            None => None,
        }
    }

    /// The address of the DSDT, if there is a FADT.
    pub fn dsdt_address(&self, mem: &PhysMemory) -> (r: Option<u64>)
        requires
            self.fadt matches Some(a) ==> readable(mem@, a as int, FADT_SIZE as int),
        ensures
            r == (match self.fadt {
                Some(a) => Some(dsdt_at(mem@, a as int)),
                None => None,
            }),
    {
        match self.fadt {
            Some(a) => {
                let fadt = Fadt::read(mem, a);
                Some(fadt_dsdt_address(&fadt))
            },
            None => None,
        }
    }
}

/// Every table that is recorded is one that the root table lists, and has the
/// signature it is recorded for; and each kind of table that is listed is
/// recorded.
pub proof fn law_tables_found(t: AcpiTables, m: Map<int, u8>, entries: Seq<u64>, n: int)
    requires
        0 <= n <= entries.len(),
        t.madt is None && t.fadt is None && t.hpet is None && t.mcfg is None,
    ensures
        ({
            let r = with_tables(t, m, entries, n);
            &&& r.rsdp == t.rsdp && r.rsdt == t.rsdt && r.xsdt == t.xsdt
            &&& r.madt matches Some(a) ==> entries.contains(a) && table_signature(m, a as int)
                == apic_signature()
            &&& r.fadt matches Some(a) ==> entries.contains(a) && table_signature(m, a as int)
                == facp_signature()
            &&& r.hpet matches Some(a) ==> entries.contains(a) && table_signature(m, a as int)
                == hpet_signature()
            &&& r.mcfg matches Some(a) ==> entries.contains(a) && table_signature(m, a as int)
                == mcfg_signature()
            &&& forall|k: int|
                0 <= k < n ==> {
                    let s = table_signature(m, #[trigger] entries[k] as int);
                    &&& s == apic_signature() ==> r.madt is Some
                    &&& s == facp_signature() ==> r.fadt is Some
                    &&& s == hpet_signature() ==> r.hpet is Some
                    &&& s == mcfg_signature() ==> r.mcfg is Some
                }
        }),
    decreases n,
{
    if n > 0 {
        law_tables_found(t, m, entries, n - 1);
        assert(entries.contains(entries[n - 1]));
    }
}

/// The table at `a` begins with these four characters.
pub open spec fn begins_with(m: Map<int, u8>, a: int, c0: char, c1: char, c2: char, c3: char) -> bool {
    m[a] == c0 as u8 && m[a + 1] == c1 as u8 && m[a + 2] == c2 as u8 && m[a + 3] == c3 as u8
}

proof fn lemma_signature(m: Map<int, u8>, a: int, s: Seq<u8>)
    requires
        s.len() == 4,
    ensures
        table_signature(m, a) == s <==> m[a] == s[0] && m[a + 1] == s[1] && m[a + 2] == s[2] && m[a
            + 3] == s[3],
{
    let b = table_signature(m, a);
    assert(forall|i: int| 0 <= i < 4 ==> b[i] == m[a + i]);
    if m[a] == s[0] && m[a + 1] == s[1] && m[a + 2] == s[2] && m[a + 3] == s[3] {
        assert(b =~= s);
    }
}

/// A table that is listed behind others takes the place of one of its kind that
/// was recorded before: `APIC` is the MADT, `FACP` the FADT, `HPET` and `MCFG`
/// themselves. Tables with other signatures are passed over.
pub proof fn law_table_recorded(t: AcpiTables, m: Map<int, u8>, entries: Seq<u64>, n: int)
    requires
        0 < n <= entries.len(),
    ensures
        ({
            let a = entries[n - 1];
            let before = with_tables(t, m, entries, n - 1);
            let after = with_tables(t, m, entries, n);
            let madt = begins_with(m, a as int, 'A', 'P', 'I', 'C');
            let fadt = begins_with(m, a as int, 'F', 'A', 'C', 'P');
            let hpet = begins_with(m, a as int, 'H', 'P', 'E', 'T');
            let mcfg = begins_with(m, a as int, 'M', 'C', 'F', 'G');
            &&& madt ==> after == (AcpiTables { madt: Some(a), ..before })
            &&& fadt ==> after == (AcpiTables { fadt: Some(a), ..before })
            &&& hpet ==> after == (AcpiTables { hpet: Some(a), ..before })
            &&& mcfg ==> after == (AcpiTables { mcfg: Some(a), ..before })
            &&& !madt && !fadt && !hpet && !mcfg ==> after == before
        }),
        with_tables(t, m, entries, 0) == t,
{
    let a = entries[n - 1] as int;
    lemma_signature(m, a, apic_signature());
    lemma_signature(m, a, facp_signature());
    lemma_signature(m, a, hpet_signature());
    lemma_signature(m, a, mcfg_signature());
    assert(apic_signature()[0] == 'A' as u8 && apic_signature()[1] == 'P' as u8
        && apic_signature()[2] == 'I' as u8 && apic_signature()[3] == 'C' as u8);
    assert(facp_signature()[0] == 'F' as u8 && facp_signature()[1] == 'A' as u8
        && facp_signature()[2] == 'C' as u8 && facp_signature()[3] == 'P' as u8);
    assert(hpet_signature()[0] == 'H' as u8 && hpet_signature()[1] == 'P' as u8
        && hpet_signature()[2] == 'E' as u8 && hpet_signature()[3] == 'T' as u8);
    assert(mcfg_signature()[0] == 'M' as u8 && mcfg_signature()[1] == 'C' as u8
        && mcfg_signature()[2] == 'F' as u8 && mcfg_signature()[3] == 'G' as u8);
}

/// The tables are those that the XSDT lists where the root pointer is of ACPI
/// 2.0 or later and has one; else those that the RSDT lists; without either there
/// are none. The root table that was used is kept, and the root pointer.
pub proof fn law_root_table(m: Map<int, u8>, rsdp: u64)
    ensures
        ({
            let none = AcpiTables {
                rsdp,
                rsdt: None,
                xsdt: None,
                madt: None,
                fadt: None,
                hpet: None,
                mcfg: None,
            };
            let x = mem_u64(m, rsdp + 24);
            let r = mem_u32(m, rsdp + 16) as u64;
            let xs = xsdt_entries(m, x as int);
            let rs = rsdt_entries(m, r as int);
            &&& m[rsdp + 15] >= 2 && x != 0 ==> tables_from(m, rsdp) == with_tables(
                AcpiTables { xsdt: Some(x), ..none },
                m,
                xs,
                xs.len() as int,
            )
            &&& (m[rsdp + 15] < 2 || x == 0) && r != 0 ==> tables_from(m, rsdp) == with_tables(
                AcpiTables { rsdt: Some(r), ..none },
                m,
                rs,
                rs.len() as int,
            )
            &&& (m[rsdp + 15] < 2 || x == 0) && r == 0 ==> tables_from(m, rsdp) == none
        }),
{
}

/// The DSDT's address is the eight bytes at byte 140 of the FADT, or, where they
/// are zero, the four at byte 40.
pub proof fn law_dsdt_at(m: Map<int, u8>, a: int, wide: u64, narrow: u32)
    requires
        bytes_at(m, a + 140, 8) == u64_bytes(wide),
        bytes_at(m, a + 40, 4) == u32_bytes(narrow),
    ensures
        dsdt_at(m, a) == (if wide != 0 {
            wide
        } else {
            narrow as u64
        }),
{
    lemma_u64_round_trip(wide);
    lemma_u32_round_trip(narrow);
}

} // verus!
