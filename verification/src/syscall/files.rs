//! The system calls that work on files.

use vstd::prelude::*;
use vstd::utf8::{decode_utf8_encode_utf8, encode_utf8, valid_utf8};
use crate::acpi::layout::readable;
use crate::device::{BLOCK_SIZE, BlockDevice, DeviceState};
use crate::fs::error::{FsError, FsResult, error_code};
use crate::fs::laws::{consistent, law_create_then_read, no_zero};
use crate::fs::layout::{EntryView, PublicFileEntry};
use crate::fs::model::{
    create_fits, create_outcome, format_outcome, list_outcome, read_fits, read_outcome,
    remove_fits, remove_outcome, stored_name,
};
use crate::fs::{create_file, delete_file, list_files, listed_as, read_file};
use crate::le::{
    copy_into, lemma_u16_at, lemma_u16_round_trip, lemma_u64_at, lemma_u64_round_trip, u16_at,
    u16_bytes, u64_at, u64_bytes, write_u16, write_u64,
};
use crate::memory::phys::{PhysMemory, bytes_at, law_write_then_read, mapped, write_bytes};
use crate::text::{shown_text, text_from_utf8};

verus! {

/// A file as a listing hands it to user mode.
#[derive(Debug, Clone, Copy)]
pub struct SyscallFileEntry {
    pub name: [u8; 47],
    pub name_len: u8,
    pub size: u64,
    /// The low bits of the number of the file's first sector.
    pub first_cluster: u16,
}

/// Bytes from one listed file to the next.
pub const RECORD_STRIDE: u64 = 64;

/// The number that stands for `c` in a result register: negative numbers wrap
/// around.
pub open spec fn signed_result(c: int) -> int {
    if c >= 0 {
        c
    } else {
        usize::MAX + 1 + c
    }
}

/// What a call that succeeds with zero returns.
pub open spec fn unit_result(r: FsResult<()>) -> int {
    match r {
        Ok(_) => 0,
        Err(e) => signed_result(error_code(e)),
    }
}

/// The result register for the error `e`.
pub fn error_result(e: FsError) -> (n: usize)
    ensures
        n == signed_result(error_code(e)),
{
    let c: i32 = e.code();
    usize::MAX - (-(c + 1)) as usize
}

fn result_of(r: FsResult<()>) -> (n: usize)
    ensures
        n == unit_result(r),
{
    match r {
        Ok(_) => 0,
        Err(e) => error_result(e),
    }
}

/// Formats the volume.
pub fn sys_fsformat(dev: &mut BlockDevice) -> (n: usize)
    ensures
        n == unit_result(format_outcome(old(dev)@).0),
        final(dev)@ == format_outcome(old(dev)@).1,
{
    result_of(crate::fs::format(dev))
}

// ---------------------------------------------------------------------------
// Listing
// ---------------------------------------------------------------------------

/// The bytes of a name, as far as they fit.
pub open spec fn name_bytes(name: Seq<char>) -> Seq<u8> {
    let b = encode_utf8(name);
    if b.len() <= 47 {
        b
    } else {
        b.take(47)
    }
}

/// The bytes of the name as a listing shows it, as far as they fit.
pub open spec fn record_name(e: EntryView) -> Seq<u8> {
    name_bytes(shown_text(stored_name(e.name)))
}

/// The bytes of a listed file.
pub open spec fn record_bytes(e: EntryView) -> Seq<u8> {
    let n = record_name(e);
    n + Seq::new((47 - n.len()) as nat, |i: int| 0u8) + seq![n.len() as u8] + u64_bytes(e.size)
        + u16_bytes((e.start as int % 0x1_0000) as u16)
}

/// The memory after the first `n` files were written to `buffer`.
pub open spec fn with_records(m: Map<int, u8>, buffer: int, es: Seq<EntryView>, n: int) -> Map<
    int,
    u8,
>
    decreases n,
{
    if n <= 0 {
        m
    } else {
        write_bytes(
            with_records(m, buffer, es, n - 1),
            buffer + RECORD_STRIDE * (n - 1),
            record_bytes(es[n - 1]),
        )
    }
}

/// Files that are written to a buffer for `max` of them.
pub open spec fn records_written(es: Seq<EntryView>, buffer: int, max: int) -> int {
    if buffer == 0 || max == 0 {
        0
    } else if es.len() <= max {
        es.len() as int
    } else {
        max
    }
}

/// Listing the files into `buffer`: the result register and the memory.
pub open spec fn fsls_outcome(d: DeviceState, m: Map<int, u8>, buffer: usize, max: usize) -> (
    int,
    Map<int, u8>,
) {
    match list_outcome(d) {
        Ok(es) => (
            es.len() as int,
            with_records(m, buffer as int, es, records_written(es, buffer as int, max as int)),
        ),
        Err(e) => (signed_result(error_code(e)), m),
    }
}

/// The record for a listed file.
pub fn make_record(p: &PublicFileEntry) -> (r: SyscallFileEntry)
    ensures
        ({
            let n = name_bytes(p.name@);
            &&& r.name@ == n + Seq::new((47 - n.len()) as nat, |i: int| 0u8)
            &&& r.name_len == n.len()
        }),
        r.size == p.size,
        r.first_cluster == p.start_block as int % 0x1_0000,
{
    let bytes = p.name.as_str().as_bytes();
    let len: usize = if bytes.len() <= 47 {
        bytes.len()
    } else {
        47
    };
    let mut name: [u8; 47] = [0u8; 47];
    copy_into(&mut name, 0, vstd::slice::slice_subrange(bytes, 0, len));
    let ghost shown = bytes@.subrange(0, len as int);
    assert(name@ =~= shown + Seq::new((47 - shown.len()) as nat, |i: int| 0u8));
    assert(shown =~= name_bytes(p.name@));
    SyscallFileEntry {
        name,
        name_len: len as u8,
        size: p.size,
        first_cluster: (p.start_block % 0x1_0000) as u16,
    }
}

fn store_record(user: &mut PhysMemory, at: u64, r: &SyscallFileEntry)
    ensures
        final(user)@ == write_bytes(
            old(user)@,
            at as int,
            r.name@ + seq![r.name_len] + u64_bytes(r.size) + u16_bytes(r.first_cluster),
        ),
{
    let mut b: [u8; 58] = [0u8; 58];
    copy_into(&mut b, 0, &r.name);
    b[47] = r.name_len;
    write_u64(&mut b, 48, r.size);
    write_u16(&mut b, 56, r.first_cluster);
    assert(b@ =~= r.name@ + seq![r.name_len] + u64_bytes(r.size) + u16_bytes(r.first_cluster));
    user.write(at, &b);
}

/// Lists the files into the buffer at `buffer_ptr`, as far as `max_entries` of
/// them fit, and returns how many there are.
pub fn sys_fsls(dev: &BlockDevice, user: &mut PhysMemory, buffer_ptr: usize, max_entries: usize) -> (n:
    usize)
    requires
        buffer_ptr != 0 ==> buffer_ptr + RECORD_STRIDE * max_entries <= u64::MAX,
    ensures
        (n as int, final(user)@) == fsls_outcome(dev@, old(user)@, buffer_ptr, max_entries),
{
    match list_files(dev) {
        Err(e) => error_result(e),
        Ok(files) => {
            let ghost es = list_outcome(dev@)->Ok_0;
            let ghost m = user@;
            if buffer_ptr != 0 && max_entries > 0 {
                let count: usize = if files.len() <= max_entries {
                    files.len()
                } else {
                    max_entries
                };
                let mut i: usize = 0;
                while i < count
                    invariant
                        i <= count <= files@.len(),
                        count <= max_entries,
                        buffer_ptr + RECORD_STRIDE * max_entries <= u64::MAX,
                        files@.len() == es.len(),
                        forall|j: int| 0 <= j < es.len() ==> listed_as(#[trigger] files@[j], es[j]),
                        user@ == with_records(m, buffer_ptr as int, es, i as int),
                    decreases count - i,
                {
                    let r = make_record(&files[i]);
                    proof {
                        let e = es[i as int];
                        assert(listed_as(files@[i as int], e));
                        assert(r.name@ + seq![r.name_len] + u64_bytes(r.size) + u16_bytes(
                            r.first_cluster,
                        ) =~= record_bytes(e));
                    }
                    store_record(user, buffer_ptr as u64 + RECORD_STRIDE * i as u64, &r);
                    i += 1;
                }
            }
            files.len()
        },
    }
}

// ---------------------------------------------------------------------------
// Writing, reading, removing
// ---------------------------------------------------------------------------

/// Creating the file whose name is `name` with the contents `data`.
pub open spec fn fswrite_outcome(d: DeviceState, name: Seq<u8>, data: Seq<u8>) -> (int, DeviceState) {
    if !valid_utf8(name) {
        (signed_result(error_code(FsError::InvalidArgument)), d)
    } else {
        let (r, d1) = create_outcome(d, name, data);
        (unit_result(r), d1)
    }
}

/// Creates the file whose name and contents stand in user memory.
pub fn sys_fswrite(
    dev: &mut BlockDevice,
    user: &PhysMemory,
    filename_ptr: usize,
    filename_len: usize,
    content_ptr: usize,
    content_len: usize,
) -> (n: usize)
    requires
        readable(user@, filename_ptr as int, filename_len as int),
        readable(user@, content_ptr as int, content_len as int),
        content_len + BLOCK_SIZE <= usize::MAX,
        valid_utf8(bytes_at(user@, filename_ptr as int, filename_len as int)) ==> create_fits(
            old(dev)@,
            bytes_at(user@, filename_ptr as int, filename_len as int),
            bytes_at(user@, content_ptr as int, content_len as int),
        ),
    ensures
        (n as int, final(dev)@) == fswrite_outcome(
            old(dev)@,
            bytes_at(user@, filename_ptr as int, filename_len as int),
            bytes_at(user@, content_ptr as int, content_len as int),
        ),
{
    let name = user.read(filename_ptr as u64, filename_len);
    match text_from_utf8(&name) {
        None => error_result(FsError::InvalidArgument),
        Some(filename) => {
            let content = user.read(content_ptr as u64, content_len);
            proof {
                decode_utf8_encode_utf8(name@);
            }
            result_of(create_file(dev, filename, &content))
        },
    }
}

/// Reading the file whose name is `name` into a buffer: the result register
/// and the memory.
pub open spec fn fsread_outcome(
    d: DeviceState,
    m: Map<int, u8>,
    name: Seq<u8>,
    buffer: usize,
    len: usize,
) -> (int, Map<int, u8>) {
    if !valid_utf8(name) {
        (signed_result(error_code(FsError::InvalidArgument)), m)
    } else {
        match read_outcome(d, name) {
            Err(e) => (signed_result(error_code(e)), m),
            Ok(data) => if buffer == 0 || len == 0 {
                (data.len() as int, m)
            } else {
                let n = if data.len() <= len {
                    data.len() as int
                } else {
                    len as int
                };
                (n, write_bytes(m, buffer as int, data.take(n)))
            },
        }
    }
}

/// Reads a file into the buffer at `buffer_ptr`, as far as it fits, and returns
/// how many bytes were put there; without a buffer, how many there are.
pub fn sys_fsread(
    dev: &BlockDevice,
    user: &mut PhysMemory,
    filename_ptr: usize,
    filename_len: usize,
    buffer_ptr: usize,
    buffer_len: usize,
) -> (n: usize)
    requires
        readable(old(user)@, filename_ptr as int, filename_len as int),
        valid_utf8(bytes_at(old(user)@, filename_ptr as int, filename_len as int)) ==> read_fits(
            dev@,
            bytes_at(old(user)@, filename_ptr as int, filename_len as int),
        ),
    ensures
        (n as int, final(user)@) == fsread_outcome(
            dev@,
            old(user)@,
            bytes_at(old(user)@, filename_ptr as int, filename_len as int),
            buffer_ptr,
            buffer_len,
        ),
{
    let name = user.read(filename_ptr as u64, filename_len);
    match text_from_utf8(&name) {
        None => error_result(FsError::InvalidArgument),
        Some(filename) => {
            proof {
                decode_utf8_encode_utf8(name@);
            }
            match read_file(dev, filename) {
                Err(e) => error_result(e),
                Ok(data) => {
                    if buffer_ptr == 0 || buffer_len == 0 {
                        return data.len();
                    }
                    let copy_len: usize = if data.len() <= buffer_len {
                        data.len()
                    } else {
                        buffer_len
                    };
                    let part = vstd::slice::slice_subrange(data.as_slice(), 0, copy_len);
                    assert(part@ =~= data@.take(copy_len as int));
                    user.write(buffer_ptr as u64, part);
                    copy_len
                },
            }
        },
    }
}

/// Deleting the file whose name is `name`.
pub open spec fn fsrm_outcome(d: DeviceState, name: Seq<u8>) -> (int, DeviceState) {
    if !valid_utf8(name) {
        (signed_result(error_code(FsError::InvalidArgument)), d)
    } else {
        let (r, d1) = remove_outcome(d, name);
        (unit_result(r), d1)
    }
}

/// Deletes the file whose name stands in user memory.
pub fn sys_fsrm(dev: &mut BlockDevice, user: &PhysMemory, filename_ptr: usize, filename_len: usize) -> (n:
    usize)
    requires
        readable(user@, filename_ptr as int, filename_len as int),
        valid_utf8(bytes_at(user@, filename_ptr as int, filename_len as int)) ==> remove_fits(
            old(dev)@,
            bytes_at(user@, filename_ptr as int, filename_len as int),
        ),
    ensures
        (n as int, final(dev)@) == fsrm_outcome(
            old(dev)@,
            bytes_at(user@, filename_ptr as int, filename_len as int),
        ),
{
    let name = user.read(filename_ptr as u64, filename_len);
    match text_from_utf8(&name) {
        None => error_result(FsError::InvalidArgument),
        Some(filename) => {
            proof {
                decode_utf8_encode_utf8(name@);
            }
            result_of(delete_file(dev, filename))
        },
    }
}

/// A file that the call for writing accepted is handed back whole by the call
/// for reading, to a buffer that is large enough, and memory outside the buffer
/// stays as it was.
pub proof fn law_written_file_is_read(
    d: DeviceState,
    m: Map<int, u8>,
    name: Seq<u8>,
    data: Seq<u8>,
    buffer: usize,
    len: usize,
    other: int,
    other_len: int,
)
    requires
        consistent(d),
        no_zero(name),
        fswrite_outcome(d, name, data).0 == 0,
        buffer != 0,
        0 < len,
        data.len() <= len,
        0 <= other_len,
        mapped(m, other, other_len),
        other + other_len <= buffer || buffer + data.len() <= other,
    ensures
        ({
            let (n, m1) = fsread_outcome(fswrite_outcome(d, name, data).1, m, name, buffer, len);
            &&& n == data.len()
            &&& bytes_at(m1, buffer as int, n) == data
            &&& bytes_at(m1, other, other_len) == bytes_at(m, other, other_len)
        }),
{
    law_create_then_read(d, name, data, name);
    law_write_then_read(m, buffer as int, data, other, other_len);
    assert(data.take(data.len() as int) =~= data);
}

/// A result register that holds an error cannot be taken for a count or for
/// success, and tells which error it was.
pub proof fn law_error_results(e: FsError, f: FsError, n: int)
    requires
        0 <= n <= isize::MAX,
    ensures
        signed_result(error_code(e)) != n,
        signed_result(error_code(e)) == signed_result(error_code(f)) ==> e == f,
{
}

/// Errors come back as the largest values of the result register: not ready as
/// the largest, then an invalid argument, a fault of the device, a volume that
/// is not formatted, want of space, and a file that is not there.
pub proof fn law_error_registers()
    ensures
        signed_result(error_code(FsError::NotReady)) == usize::MAX,
        signed_result(error_code(FsError::InvalidArgument)) == usize::MAX - 1,
        signed_result(error_code(FsError::DeviceError)) == usize::MAX - 2,
        signed_result(error_code(FsError::NotFormatted)) == usize::MAX - 3,
        signed_result(error_code(FsError::NoSpace)) == usize::MAX - 4,
        signed_result(error_code(FsError::FileNotFound)) == usize::MAX - 5,
{
}

/// The record of a listed file is 58 bytes: 47 with as much of its name as fits
/// and then zero bytes, one with the length of the name, eight with the size and
/// two with the low bits of the first sector's number, low bytes first.
pub proof fn law_record(e: EntryView)
    ensures
        ({
            let text = encode_utf8(shown_text(stored_name(e.name)));
            let n = if text.len() <= 47 {
                text.len() as int
            } else {
                47
            };
            let r = record_bytes(e);
            &&& r.len() == 58
            &&& forall|i: int| 0 <= i < n ==> #[trigger] r[i] == text[i]
            &&& forall|i: int| n <= i < 47 ==> #[trigger] r[i] == 0
            &&& r[47] == n
            &&& u64_at(r, 48) == e.size
            &&& u16_at(r, 56) == e.start as int % 0x1_0000
        }),
{
    let r = record_bytes(e);
    let low = (e.start as int % 0x1_0000) as u16;
    lemma_u64_round_trip(e.size);
    lemma_u16_round_trip(low);
    assert(r.subrange(48, 56) =~= u64_bytes(e.size));
    assert(r.subrange(56, 58) =~= u16_bytes(low));
    lemma_u64_at(r, 48, e.size);
    lemma_u16_at(r, 56, low);
}

proof fn lemma_records(m: Map<int, u8>, buffer: int, es: Seq<EntryView>, n: int, k: int, a: int)
    requires
        0 <= n,
    ensures
        0 <= k < n ==> bytes_at(with_records(m, buffer, es, n), buffer + 64 * k, 58)
            == record_bytes(es[k]),
        a < buffer || a >= buffer + 64 * n ==> with_records(m, buffer, es, n).contains_key(a)
            == m.contains_key(a) && (m.contains_key(a) ==> with_records(m, buffer, es, n)[a]
            == m[a]),
    decreases n,
{
    if n > 0 {
        let before = with_records(m, buffer, es, n - 1);
        let at = buffer + 64 * (n - 1);
        let r = record_bytes(es[n - 1]);
        let after = with_records(m, buffer, es, n);
        law_record(es[n - 1]);
        lemma_records(m, buffer, es, n - 1, k, a);
        if 0 <= k < n - 1 {
            law_record(es[k]);
            let x = bytes_at(after, buffer + 64 * k, 58);
            let y = bytes_at(before, buffer + 64 * k, 58);
            assert forall|i: int| 0 <= i < 58 implies x[i] == y[i] by {
                lemma_record_there(m, buffer, es, n - 1, k, i);
                assert(before.contains_key(buffer + 64 * k + i));
                assert(after.contains_key(buffer + 64 * k + i));
            }
            assert(x =~= y);
        } else if k == n - 1 {
            law_write_then_read(before, at, r, 0, 0);
        }
    }
}

proof fn lemma_record_there(
    m: Map<int, u8>,
    buffer: int,
    es: Seq<EntryView>,
    n: int,
    k: int,
    i: int,
)
    requires
        0 <= k < n,
        0 <= i < 58,
    ensures
        with_records(m, buffer, es, n).contains_key(buffer + 64 * k + i),
    decreases n,
{
    law_record(es[n - 1]);
    if k < n - 1 {
        lemma_record_there(m, buffer, es, n - 1, k, i);
    }
}

/// The call for listing returns how many files there are, also where not all of
/// their records fit. The records of the first files, as many as the buffer is
/// said to take, stand 64 bytes apart from its start on; memory before it and
/// behind them stays, and without a buffer all of it.
pub proof fn law_listed_records(
    d: DeviceState,
    m: Map<int, u8>,
    buffer: usize,
    max: usize,
    k: int,
    a: int,
)
    requires
        list_outcome(d) is Ok,
    ensures
        ({
            let es = list_outcome(d)->Ok_0;
            let (n, m1) = fsls_outcome(d, m, buffer, max);
            &&& n == es.len()
            &&& buffer == 0 || max == 0 ==> m1 == m
            &&& buffer != 0 && 0 <= k < es.len() && k < max ==> bytes_at(m1, buffer + 64 * k, 58)
                == record_bytes(es[k])
            &&& a < buffer || a >= buffer + 64 * max || a >= buffer + 64 * es.len()
                ==> m1.contains_key(a) == m.contains_key(a) && (m.contains_key(a) ==> m1[a] == m[a])
        }),
{
    let es = list_outcome(d)->Ok_0;
    let n = if es.len() <= max {
        es.len() as int
    } else {
        max as int
    };
    lemma_records(m, buffer as int, es, n, k, a);
}

/// A listing that fails returns its error and writes nothing.
pub proof fn law_list_call_fails(d: DeviceState, m: Map<int, u8>, buffer: usize, max: usize)
    ensures
        list_outcome(d) matches Err(e) ==> fsls_outcome(d, m, buffer, max) == (
            signed_result(error_code(e)),
            m,
        ),
{
}

/// The call for reading puts as much of the file into the buffer as the buffer
/// takes and returns how many bytes that is; without a buffer it returns how many
/// there are and writes nothing. Memory outside the bytes that were put there
/// stays. An error is returned and writes nothing, a name that is no text being
/// an invalid argument.
pub proof fn law_read_call(
    d: DeviceState,
    m: Map<int, u8>,
    name: Seq<u8>,
    buffer: usize,
    len: usize,
    a: int,
)
    ensures
        ({
            let (n, m1) = fsread_outcome(d, m, name, buffer, len);
            &&& !valid_utf8(name) ==> n == usize::MAX - 1 && m1 == m
            &&& valid_utf8(name) ==> match read_outcome(d, name) {
                Err(e) => n == signed_result(error_code(e)) && m1 == m,
                Ok(data) => {
                    &&& buffer == 0 || len == 0 ==> n == data.len() && m1 == m
                    &&& buffer != 0 && len != 0 ==> {
                        &&& n == data.len() && n <= len || n == len && n < data.len()
                        &&& bytes_at(m1, buffer as int, n) == data.take(n)
                        &&& !(buffer <= a < buffer + n) ==> m1.contains_key(a) == m.contains_key(a)
                            && (m.contains_key(a) ==> m1[a] == m[a])
                    }
                },
            }
        }),
{
    if valid_utf8(name) && buffer != 0 && len != 0 {
        if let Ok(data) = read_outcome(d, name) {
            let n = if data.len() <= len {
                data.len() as int
            } else {
                len as int
            };
            law_write_then_read(m, buffer as int, data.take(n), 0, 0);
        }
    }
}

/// The calls for writing and deleting do to the volume what creating and
/// deleting the file does, and return zero where that worked and its error where
/// it did not. A name that is no text is an invalid argument and changes nothing.
pub proof fn law_write_and_delete_calls(d: DeviceState, name: Seq<u8>, data: Seq<u8>)
    ensures
        !valid_utf8(name) ==> fswrite_outcome(d, name, data) == (usize::MAX - 1, d)
            && fsrm_outcome(d, name) == (usize::MAX - 1, d),
        valid_utf8(name) ==> {
            &&& fswrite_outcome(d, name, data).1 == create_outcome(d, name, data).1
            &&& fswrite_outcome(d, name, data).0 == 0 <==> create_outcome(d, name, data).0 is Ok
            &&& create_outcome(d, name, data).0 matches Err(e) ==> fswrite_outcome(d, name, data).0
                == signed_result(error_code(e))
            &&& fsrm_outcome(d, name).1 == remove_outcome(d, name).1
            &&& fsrm_outcome(d, name).0 == 0 <==> remove_outcome(d, name).0 is Ok
            &&& remove_outcome(d, name).0 matches Err(e) ==> fsrm_outcome(d, name).0
                == signed_result(error_code(e))
        },
{
}

} // verus!
