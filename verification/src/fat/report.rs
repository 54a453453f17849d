//! The listing of a volume's directory.

use vstd::prelude::*;
use crate::fat::disk::{Disk, DiskError, DiskResult, DiskState};
use crate::fat::layout::{DirEntryView, ROOT_DIR_ENTRIES, boot_sector_from};
use crate::fat::model::{
    active_entries, list_outcome, load_boot_sector, search, slot_entry, slot_lba, slots_readable,
};
use crate::fat::{read_boot_sector, read_dir_entry};
use crate::fs::model::stored_name;
use crate::fs::name_of;
use crate::le::u64_at;
use crate::text::{decimal, digits, push_decimal, show, shown_text};

verus! {

/// `n` spaces.
pub open spec fn spaces(n: nat) -> Seq<char> {
    Seq::new(n, |i: int| ' ')
}

/// `s` at the left of a column that is `width` characters wide.
pub open spec fn padded(s: Seq<char>, width: nat) -> Seq<char> {
    if s.len() >= width {
        s
    } else {
        s + spaces((width - s.len()) as nat)
    }
}

/// The line for a file.
pub open spec fn row(name: Seq<char>, size: u32, first_cluster: u16) -> Seq<char> {
    padded(name, 22) + " "@ + padded(decimal(size as int), 12) + " "@ + padded(
        decimal(first_cluster as int),
        10,
    ) + "\n"@
}

/// The lines for the files with these entries.
pub open spec fn rows(es: Seq<DirEntryView>) -> Seq<char>
    decreases es.len(),
{
    if es.len() == 0 {
        Seq::empty()
    } else {
        rows(es.drop_last()) + row(
            shown_text(stored_name(es.last().name)),
            es.last().size,
            es.last().first_cluster,
        )
    }
}

/// The two lines at the top.
pub open spec fn heading() -> Seq<char> {
    "Filename               Size (bytes) First Cluster\n------------------------------------------------\n"@
}

/// The last lines, which count the files.
pub open spec fn total_line(n: int) -> Seq<char> {
    "\nTotal files: "@ + decimal(n) + "\n"@
}

/// Listing the directory: what is printed, and how it ended. Where a slot
/// cannot be read, the files before it are printed all the same.
pub open spec fn listing(d: DiskState) -> (Seq<char>, DiskResult<()>) {
    match list_outcome(d) {
        Ok(es) => (heading() + rows(es) + total_line(es.len() as int), Ok(())),
        Err(e) => if load_boot_sector(d) is Err {
            (Seq::empty(), Err(e))
        } else {
            (heading() + rows(active_entries(d, slots_readable(d, 0))), Err(e))
        },
    }
}

/// Appends `s`, padded with spaces to `width` characters.
fn push_padded(out: &mut String, s: &str, width: usize)
    ensures
        final(out)@ == old(out)@ + padded(s@, width as nat),
{
    out.append(s);
    let mut n: usize = s.unicode_len();
    let ghost head = out@;
    assert(spaces(0) =~= Seq::<char>::empty());
    while n < width
        invariant
            s@.len() <= n,
            n <= width || n == s@.len(),
            out@ == head + spaces((n - s@.len()) as nat),
        decreases width - n,
    {
        out.append(" ");
        proof {
            reveal_strlit(" ");
        }
        assert(spaces((n + 1 - s@.len()) as nat) =~= spaces((n - s@.len()) as nat) + " "@);
        n += 1;
    }
    assert(out@ =~= old(out)@ + padded(s@, width as nat));
}

/// The line for a file.
pub fn file_row(name: &str, size: u32, first_cluster: u16) -> (s: String)
    ensures
        s@ == row(name@, size, first_cluster),
{
    let mut s = String::new();
    push_padded(&mut s, name, 22);
    assert(s@ =~= padded(name@, 22));
    s.append(" ");
    let mut number = String::new();
    push_decimal(&mut number, size as u64);
    assert(number@ =~= decimal(size as int));
    push_padded(&mut s, number.as_str(), 12);
    s.append(" ");
    let mut cluster = String::new();
    push_decimal(&mut cluster, first_cluster as u64);
    assert(cluster@ =~= decimal(first_cluster as int));
    push_padded(&mut s, cluster.as_str(), 10);
    s.append("\n");
    s
}

/// Lists the directory of a formatted volume: the text, and how it ended.
pub fn list_files(disk: &Disk) -> (r: (String, DiskResult<()>))
    ensures
        (r.0@, r.1) == listing(disk@),
{
    match read_boot_sector(disk) {
        Err(e) => {
            return (String::new(), Err(e));
        },
        Ok(_) => {},
    }
    let mut out = String::from_str(
        "Filename               Size (bytes) First Cluster\n------------------------------------------------\n",
    );
    let ghost none = |e: DirEntryView| false;
    let mut count: usize = 0;
    let mut i: usize = 0;
    assert(out@ =~= heading() + rows(active_entries(disk@, 0)));
    while i < ROOT_DIR_ENTRIES
        invariant
            i <= ROOT_DIR_ENTRIES,
            count <= i,
            load_boot_sector(disk@) is Ok,
            none == (|e: DirEntryView| false),
            search(disk@, |e: DirEntryView| false, 0) == search(disk@, none, i as int),
            slots_readable(disk@, 0) == slots_readable(disk@, i as int),
            count == active_entries(disk@, i as int).len(),
            out@ == heading() + rows(active_entries(disk@, i as int)),
        decreases ROOT_DIR_ENTRIES - i,
    {
        match read_dir_entry(disk, i) {
            Err(e) => {
                return (out, Err(e));
            },
            Ok(entry) => {
                if entry.in_use == 1 {
                    let ghost before = active_entries(disk@, i as int);
                    let name = show(name_of(&entry.name));
                    let line = file_row(name.as_str(), entry.size, entry.first_cluster);
                    out.append(line.as_str());
                    count += 1;
                    proof {
                        let after = active_entries(disk@, i + 1);
                        assert(after == before.push(entry@));
                        assert(after.drop_last() =~= before);
                        assert(out@ =~= heading() + rows(after));
                    }
                }
            },
        }
        i += 1;
    }
    let ghost listed = out@;
    out.append("\nTotal files: ");
    push_decimal(&mut out, count as u64);
    out.append("\n");
    assert(out@ =~= listed + total_line(count as int));
    (out, Ok(()))
}

/// No files have no lines, and one file more has one line more: its name, its
/// size and its first cluster, behind the lines of the others.
pub proof fn law_rows(es: Seq<DirEntryView>, e: DirEntryView)
    ensures
        rows(Seq::empty()) == Seq::<char>::empty(),
        rows(es.push(e)) == rows(es) + row(
            shown_text(stored_name(e.name)),
            e.size,
            e.first_cluster,
        ),
{
    assert(es.push(e).drop_last() =~= es);
}

/// `s` is `text` with nothing but spaces behind it.
pub open spec fn left_aligned(s: Seq<char>, text: Seq<char>) -> bool {
    &&& text.len() <= s.len()
    &&& s.take(text.len() as int) == text
    &&& forall|i: int| text.len() <= i < s.len() ==> #[trigger] s[i] == ' '
}

/// The line of a file has three columns with a space between them and ends with
/// a line break. The name takes the 22 characters at the left, as no stored name
/// is longer, the size the next twelve and the first cluster the last ten.
pub proof fn law_row_columns(name: Seq<char>, size: u32, first_cluster: u16)
    requires
        name.len() <= 22,
    ensures
        ({
            let r = row(name, size, first_cluster);
            &&& r.len() == 47
            &&& left_aligned(r.subrange(0, 22), name)
            &&& r[22] == ' '
            &&& left_aligned(r.subrange(23, 35), decimal(size as int))
            &&& r[35] == ' '
            &&& left_aligned(r.subrange(36, 46), decimal(first_cluster as int))
            &&& r[46] == '\n'
        }),
{
    reveal_strlit(" ");
    reveal_strlit("\n");
    reveal_with_fuel(digits, 11);
    let a = padded(name, 22);
    let s = decimal(size as int);
    let c = decimal(first_cluster as int);
    assert(s.len() <= 12);
    assert(c.len() <= 10);
    let b = padded(s, 12);
    let e = padded(c, 10);
    let r = row(name, size, first_cluster);
    assert(a.len() == 22 && b.len() == 12 && e.len() == 10);
    assert(r.subrange(0, 22) =~= a);
    assert(r.subrange(23, 35) =~= b);
    assert(r.subrange(36, 46) =~= e);
    assert(a.take(name.len() as int) =~= name);
    assert(b.take(s.len() as int) =~= s);
    assert(e.take(c.len() as int) =~= c);
}

/// `used` lists the slots in use among the first `n`, in order.
pub open spec fn lists_used(d: DiskState, n: int, used: Seq<int>) -> bool {
    &&& forall|k: int|
        0 <= k < used.len() ==> 0 <= #[trigger] used[k] < n && slot_entry(d, used[k]).in_use == 1
    &&& forall|k: int, l: int| 0 <= k < l < used.len() ==> #[trigger] used[k] < #[trigger] used[l]
    &&& forall|i: int|
        0 <= i < n && (#[trigger] slot_entry(d, i)).in_use == 1 ==> used.contains(i)
}

proof fn lemma_used_slots(d: DiskState, n: int) -> (used: Seq<int>)
    requires
        0 <= n,
    ensures
        lists_used(d, n, used),
        active_entries(d, n) == used.map_values(|i: int| slot_entry(d, i)),
    decreases n,
{
    let entry = |i: int| slot_entry(d, i);
    if n == 0 {
        let used = Seq::<int>::empty();
        assert(active_entries(d, n) =~= used.map_values(entry));
        used
    } else {
        let before = lemma_used_slots(d, n - 1);
        if slot_entry(d, n - 1).in_use == 1 {
            let used = before.push(n - 1);
            assert(active_entries(d, n) =~= used.map_values(entry));
            assert forall|i: int|
                0 <= i < n && (#[trigger] slot_entry(d, i)).in_use == 1 implies used.contains(
                i,
            ) by {
                if i < n - 1 {
                    let k = choose|k: int| 0 <= k < before.len() && before[k] == i;
                    assert(used[k] == i);
                } else {
                    assert(used[before.len() as int] == i);
                }
            }
            used
        } else {
            before
        }
    }
}

proof fn lemma_all_slots_readable(d: DiskState, i: int)
    requires
        0 <= i <= 256,
        d.bytes.len() >= 81 * 512,
    ensures
        search(d, |e: DirEntryView| false, i) == Ok::<Option<usize>, DiskError>(None),
    decreases 256 - i,
{
    if i < 256 {
        assert(d.readable(slot_lba(i)));
        lemma_all_slots_readable(d, i + 1);
    }
}

/// The listing of a formatted volume with a whole directory is the heading,
/// then for each of its 256 slots that is in use one line, in slot order, and
/// no other lines, then the number of those slots.
pub proof fn law_listing(d: DiskState) -> (used: Seq<int>)
    requires
        load_boot_sector(d) is Ok,
        d.bytes.len() >= 81 * 512,
    ensures
        lists_used(d, 256, used),
        listing(d) == (
            "Filename               Size (bytes) First Cluster\n------------------------------------------------\n"@
                + rows(used.map_values(|i: int| slot_entry(d, i))) + ("\nTotal files: "@ + decimal(
                used.len() as int,
            ) + "\n"@),
            Ok::<(), DiskError>(()),
        ),
{
    lemma_all_slots_readable(d, 0);
    let used = lemma_used_slots(d, 256);
    used
}

/// A volume that is not formatted has no listing, not even a heading.
pub proof fn law_no_listing(d: DiskState)
    ensures
        d.bytes.len() < 512 ==> listing(d) == (
            Seq::<char>::empty(),
            Err::<(), DiskError>(DiskError::UnexpectedEnd),
        ),
        d.bytes.len() >= 512 && u64_at(d.bytes, 0) != 0x4B41_4746_4154_3136 ==> listing(d) == (
            Seq::<char>::empty(),
            Err::<(), DiskError>(DiskError::NotFormatted),
        ),
        d.bytes.len() >= 512 && u64_at(d.bytes, 0) == 0x4B41_4746_4154_3136 ==> load_boot_sector(
            d,
        ) is Ok,
{
    reveal(boot_sector_from);
    if d.bytes.len() >= 512 {
        assert(d.readable(0));
        let b = d.sector(0);
        assert forall|i: int| 0 <= i < 8 implies b[i] == #[trigger] d.bytes[i] by {}
        assert(u64_at(b, 0) == u64_at(d.bytes, 0));
    }
}

proof fn lemma_slots_until_end(d: DiskState, n: int, i: int)
    requires
        0 <= i <= n < 256,
        forall|k: int| 0 <= k < n ==> d.readable(#[trigger] slot_lba(k)),
        !d.readable(slot_lba(n)),
    ensures
        slots_readable(d, i) == n,
        search(d, |e: DirEntryView| false, i) == Err::<Option<usize>, DiskError>(
            DiskError::UnexpectedEnd,
        ),
    decreases n - i,
{
    if i < n {
        assert(d.readable(slot_lba(i)));
        lemma_slots_until_end(d, n, i + 1);
    }
}

/// Where the image of a formatted volume ends inside the directory, the files
/// in the sectors that are there are listed, without a total, and the listing
/// ends with an error.
pub proof fn law_partial_listing(d: DiskState) -> (used: Seq<int>)
    requires
        load_boot_sector(d) is Ok,
        d.bytes.len() < 81 * 512,
    ensures
        ({
            let sectors = d.bytes.len() / 512;
            let n = if sectors > 65 {
                16 * (sectors - 65)
            } else {
                0
            };
            &&& lists_used(d, n, used)
            &&& listing(d) == (
                "Filename               Size (bytes) First Cluster\n------------------------------------------------\n"@
                    + rows(used.map_values(|i: int| slot_entry(d, i))),
                Err::<(), DiskError>(DiskError::UnexpectedEnd),
            )
        }),
{
    let sectors = (d.bytes.len() / 512) as int;
    let n = if sectors > 65 {
        16 * (sectors - 65)
    } else {
        0
    };
    assert forall|k: int| 0 <= k < n implies d.readable(#[trigger] slot_lba(k)) by {
        assert(slot_lba(k) + 1 <= sectors);
    }
    assert(slot_lba(n) >= sectors);
    lemma_slots_until_end(d, n, 0);
    lemma_used_slots(d, n)
}

} // verus!
