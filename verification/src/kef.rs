//! The loader of KEF executables.

use vstd::prelude::*;
use crate::le::{read_u32, u32_at};
use crate::memory::frames::FrameAllocator;
use crate::memory::laws::{
    fresh, last_hit, law_map_all, law_map_all_fits, lemma_last_hit, lemma_map_all_grows, lemma_page_entry, leveled,
    mapping, page_aligned, sound, translated, usable_frames,
};
use crate::memory::paging::{
    PagingState, TableMemory, map_all, map_all_fits, map_identity, page_count, page_entry, page_run,
    paging_state,
};
use crate::memory::phys::{PhysMemory, bytes_at, law_write_then_read, write_bytes};
use crate::memory::PAGE_SIZE;

verus! {

/// Size of the header at the beginning of the file.
pub const KEF_HEADER_SIZE: usize = 16;

/// Pages of the stack that a program is given.
pub const STACK_PAGES: u64 = 4;

/// Present, writable, open to user mode.
pub const USER_PAGE: u64 = 0x7;

/// The header of an executable.
#[derive(Clone, Copy, Debug)]
pub struct KefHeader {
    /// `b"KEF\0"`.
    pub magic: [u8; 4],
    /// Where the program begins, from the start of the loaded code on.
    pub entry_offset: u32,
    /// Where the code begins in the file.
    pub code_offset: u32,
    /// Bytes of code.
    pub code_size: u32,
}

/// The four bytes that every executable begins with.
pub open spec fn kef_magic() -> Seq<u8> {
    seq![0x4Bu8, 0x45u8, 0x46u8, 0u8]
}

/// The header that the file begins with.
pub open spec fn header_spells(file: Seq<u8>, h: KefHeader) -> bool {
    &&& h.magic@ == file.subrange(0, 4)
    &&& h.entry_offset == u32_at(file, 4)
    &&& h.code_offset == u32_at(file, 8)
    &&& h.code_size == u32_at(file, 12)
}

fn read_header(file: &[u8]) -> (h: KefHeader)
    requires
        file@.len() >= KEF_HEADER_SIZE,
    ensures
        header_spells(file@, h),
{
    let magic: [u8; 4] = [file[0], file[1], file[2], file[3]];
    assert(magic@ == file@.subrange(0, 4));
    KefHeader {
        magic,
        entry_offset: read_u32(file, 4),
        code_offset: read_u32(file, 8),
        code_size: read_u32(file, 12),
    }
}

// ---------------------------------------------------------------------------
// Runs of frames
// ---------------------------------------------------------------------------

/// The next `n` frames, as far as there are that many, follow one another.
pub open spec fn contiguous(frames: Seq<u64>, n: int) -> bool {
    forall|i: int|
        0 <= i < n && i < frames.len() ==> #[trigger] frames[i] == frames[0] + i * PAGE_SIZE
}

/// Taking `n` frames in a row: the first of them, or nothing where they run
/// out.
pub open spec fn take_run(frames: Seq<u64>, n: int) -> (Option<u64>, Seq<u64>) {
    if frames.len() < n {
        (None, Seq::empty())
    } else {
        (Some(frames[0]), frames.skip(n))
    }
}

/// Takes `n` frames, which follow one another, from the allocator.
pub fn allocate_run(allocator: &mut FrameAllocator, n: u64) -> (start: Option<u64>)
    requires
        old(allocator).wf(),
        n > 0,
        contiguous(old(allocator).remaining(), n as int),
    ensures
        final(allocator).wf(),
        final(allocator).regions() == old(allocator).regions(),
        final(allocator).layout() == old(allocator).layout(),
        (start, final(allocator).remaining()) == take_run(old(allocator).remaining(), n as int),
{
    let ghost all = allocator.remaining();
    let start: u64 = match allocator.allocate_frame() {
        Some(frame) => frame,
        None => {
            assert(allocator.remaining() == Seq::<u64>::empty());
            return None;
        },
    };
    let mut i: u64 = 1;
    assert(allocator.remaining() == all.skip(1));
    while i < n
        invariant
            allocator.wf(),
            allocator.regions() == old(allocator).regions(),
            allocator.layout() == old(allocator).layout(),
            all == old(allocator).remaining(),
            1 <= i <= n,
            i <= all.len(),
            start == all[0],
            allocator.remaining() == all.skip(i as int),
        decreases n - i,
    {
        match allocator.allocate_frame() {
            Some(_) => {},
            None => {
                assert(allocator.remaining() == Seq::<u64>::empty());
                return None;
            },
        }
        i += 1;
        assert(allocator.remaining() == all.skip(i as int));
    }
    Some(start)
}

// ---------------------------------------------------------------------------
// Loading
// ---------------------------------------------------------------------------

/// The result of loading, with error texts by their characters.
pub type LoadResult = Result<(u64, u64), Seq<char>>;

/// The same result by its characters.
pub open spec fn load_result(r: Result<(u64, u64), &'static str>) -> LoadResult {
    match r {
        Ok(x) => Ok(x),
        Err(e) => Err(e@),
    }
}

/// Setting up the stack and the entry point of a program whose code is at
/// `code`.
pub open spec fn stack_outcome(
    entry_offset: u32,
    pml4: u64,
    code: u64,
    s: PagingState,
) -> (LoadResult, PagingState) {
    match take_run(s.frames, STACK_PAGES as int) {
        (None, frames) => (
            Err("OOM allocating stack frame"@),
            PagingState { frames, ..s },
        ),
        (Some(stack), frames) => (
            Ok(((code + entry_offset) as u64, (stack + STACK_PAGES * PAGE_SIZE) as u64)),
            map_all(
                PagingState { frames, ..s },
                pml4,
                page_run(stack as int, STACK_PAGES as int),
                USER_PAGE,
            ),
        ),
    }
}

/// The code bytes of the file.
pub open spec fn code_bytes(file: Seq<u8>) -> Seq<u8> {
    file.subrange(u32_at(file, 8) as int, u32_at(file, 8) + u32_at(file, 12))
}

/// Pages that the code of the file takes.
pub open spec fn code_pages(file: Seq<u8>) -> int {
    page_count(u32_at(file, 12) as int)
}

/// The state once the code pages at `code` are mapped.
pub open spec fn with_code(file: Seq<u8>, pml4: u64, code: u64, s: PagingState) -> PagingState {
    map_all(s, pml4, page_run(code as int, code_pages(file)), USER_PAGE)
}

/// Loading the executable `file` under the root table at `pml4`: the result,
/// the page tables and frames, and the memory.
pub open spec fn load_outcome(file: Seq<u8>, pml4: u64, s: PagingState, m: Map<int, u8>) -> (
    LoadResult,
    PagingState,
    Map<int, u8>,
) {
    if file.len() < KEF_HEADER_SIZE {
        (Err("File too small to contain KEF header"@), s, m)
    } else if file.subrange(0, 4) != kef_magic() {
        (Err("Invalid KEF magic number"@), s, m)
    } else if u32_at(file, 12) == 0 {
        (Err("KEF code size is 0"@), s, m)
    } else {
        match take_run(s.frames, code_pages(file)) {
            (None, frames) => (
                Err("OOM allocating code frame"@),
                PagingState { frames, ..s },
                m,
            ),
            (Some(code), frames) => {
                let s1 = with_code(file, pml4, code, PagingState { frames, ..s });
                if u32_at(file, 8) + u32_at(file, 12) > file.len() {
                    (Err("KEF code segment extends past end of file"@), s1, m)
                } else {
                    let (r, s2) = stack_outcome(u32_at(file, 4), pml4, code, s1);
                    (r, s2, write_bytes(m, code as int, code_bytes(file)))
                }
            },
        }
    }
}

/// The stack frames follow one another, their pages can be mapped, and the
/// addresses returned are in range.
pub open spec fn stack_fits(entry_offset: u32, pml4: u64, code: u64, s: PagingState) -> bool {
    &&& contiguous(s.frames, STACK_PAGES as int)
    &&& match take_run(s.frames, STACK_PAGES as int) {
        (None, _) => true,
        (Some(stack), frames) => {
            &&& map_all_fits(
                PagingState { frames, ..s },
                pml4,
                page_run(stack as int, STACK_PAGES as int),
                USER_PAGE,
            )
            &&& code + entry_offset <= u64::MAX
            &&& stack + STACK_PAGES * PAGE_SIZE <= u64::MAX
        },
    }
}

/// Frames that are taken for the file follow one another, there are tables for
/// its pages, and the addresses returned are in range.
pub open spec fn load_fits(file: Seq<u8>, pml4: u64, s: PagingState) -> bool {
    file.len() >= KEF_HEADER_SIZE && file.subrange(0, 4) == kef_magic() && u32_at(file, 12) != 0
        ==> {
        &&& contiguous(s.frames, code_pages(file))
        &&& match take_run(s.frames, code_pages(file)) {
            (None, _) => true,
            (Some(code), frames) => {
                let s0 = PagingState { frames, ..s };
                &&& map_all_fits(
                    s0,
                    pml4,
                    page_run(code as int, code_pages(file)),
                    USER_PAGE,
                )
                &&& u32_at(file, 8) + u32_at(file, 12) <= file.len() ==> stack_fits(
                    u32_at(file, 4),
                    pml4,
                    code,
                    with_code(file, pml4, code, s0),
                )
            },
        }
    }
}

fn is_magic(m: &[u8; 4]) -> (b: bool)
    ensures
        b == (m@ == kef_magic()),
{
    let b: bool = m[0] == 0x4B && m[1] == 0x45 && m[2] == 0x46 && m[3] == 0;
    proof {
        if b {
            assert(m@ =~= kef_magic());
        } else if m@ == kef_magic() {
            assert(m@[0] == 0x4B && m@[1] == 0x45 && m@[2] == 0x46 && m@[3] == 0);
        }
    }
    b
}

/// Gives a program whose code is at `code` its stack, and returns where it
/// begins and where its stack ends.
fn load_stack(
    entry_offset: u32,
    code: u64,
    allocator: &mut FrameAllocator,
    pml4: u64,
    mem: &mut TableMemory,
) -> (r: Result<(u64, u64), &'static str>)
    requires
        old(allocator).wf(),
        stack_fits(entry_offset, pml4, code, paging_state(old(mem), old(allocator))),
    ensures
        final(allocator).wf(),
        final(allocator).regions() == old(allocator).regions(),
        final(allocator).layout() == old(allocator).layout(),
        (load_result(r), paging_state(final(mem), final(allocator))) == stack_outcome(
            entry_offset,
            pml4,
            code,
            paging_state(old(mem), old(allocator)),
        ),
{
    let ghost s = paging_state(mem, allocator);
    match allocate_run(allocator, STACK_PAGES) {
        None => Err("OOM allocating stack frame"),
        Some(stack) => {
            assert(paging_state(mem, allocator) == PagingState {
                frames: allocator.remaining(),
                ..s
            });
            map_identity(mem, pml4, stack, STACK_PAGES, USER_PAGE, allocator);
            Ok((code + entry_offset as u64, stack + STACK_PAGES * PAGE_SIZE))
        },
    }
}

/// Loads the executable `file_data`: gives it frames for its code and its
/// stack, maps them for user mode, copies the code, and returns where the
/// program begins and where its stack ends.
pub fn load_kef(
    file_data: &[u8],
    allocator: &mut FrameAllocator,
    pml4: u64,
    mem: &mut TableMemory,
    phys: &mut PhysMemory,
) -> (r: Result<(u64, u64), &'static str>)
    requires
        old(allocator).wf(),
        load_fits(file_data@, pml4, paging_state(old(mem), old(allocator))),
    ensures
        final(allocator).wf(),
        final(allocator).regions() == old(allocator).regions(),
        final(allocator).layout() == old(allocator).layout(),
        (load_result(r), paging_state(final(mem), final(allocator)), final(phys)@) == load_outcome(
            file_data@,
            pml4,
            paging_state(old(mem), old(allocator)),
            old(phys)@,
        ),
{
    let ghost s = paging_state(mem, allocator);
    if file_data.len() < KEF_HEADER_SIZE {
        return Err("File too small to contain KEF header");
    }
    let header = read_header(file_data);
    if !is_magic(&header.magic) {
        return Err("Invalid KEF magic number");
    }
    let code_size: u64 = header.code_size as u64;
    let pages: u64 = (code_size + 4095) / 4096;
    if pages == 0 {
        return Err("KEF code size is 0");
    }
    assert(pages == code_pages(file_data@));
    let code: u64 = match allocate_run(allocator, pages) {
        None => {
            return Err("OOM allocating code frame");
        },
        Some(code) => code,
    };
    proof {
        assert(paging_state(mem, allocator) == PagingState {
            frames: allocator.remaining(),
            ..s
        });
        assert(s.frames[pages - 1] == code + (pages - 1) * PAGE_SIZE);
    }
    map_identity(mem, pml4, code, pages, USER_PAGE, allocator);
    let file_code_start: u64 = header.code_offset as u64;
    let file_code_end: u64 = file_code_start + code_size;
    if file_code_end > file_data.len() as u64 {
        return Err("KEF code segment extends past end of file");
    }
    phys.write(
        code,
        vstd::slice::slice_subrange(file_data, file_code_start as usize, file_code_end as usize),
    );
    load_stack(header.entry_offset, code, allocator, pml4, mem)
}

/// Taking frames away leaves a sound state.
pub proof fn lemma_take_run_sound(s: PagingState, pml4: u64, n: int)
    requires
        sound(s, pml4),
        0 <= n <= s.frames.len(),
    ensures
        sound(PagingState { frames: s.frames.skip(n), ..s }, pml4),
{
    let lv = choose|lv: Map<u64, int>| #[trigger]
        leveled(s.tables, pml4, lv) && fresh(s.frames, lv);
    let rest = s.frames.skip(n);
    assert forall|k: int| 0 <= k < rest.len() implies #[trigger] rest[k] == s.frames[k + n] by {}
    assert(fresh(rest, lv));
    assert(leveled(PagingState { frames: rest, ..s }.tables, pml4, lv));
}

/// A program that was loaded has its code in memory from the first code page
/// on, each of its code and stack pages mapped to itself for user mode, and
/// every other page mapped as before.
pub proof fn law_load(file: Seq<u8>, pml4: u64, s: PagingState, m: Map<int, u8>, v: u64)
    requires
        sound(s, pml4),
        load_fits(file, pml4, s),
        load_outcome(file, pml4, s, m).0 is Ok,
    ensures
        ({
            let (r, s1, m1) = load_outcome(file, pml4, s, m);
            let code = s.frames[0];
            let stack = (r->Ok_0.1 - STACK_PAGES * PAGE_SIZE) as u64;
            let pages = page_run(code as int, code_pages(file)) + page_run(
                stack as int,
                STACK_PAGES as int,
            );
            &&& r->Ok_0.0 == code + u32_at(file, 4)
            &&& bytes_at(m1, code as int, code_bytes(file).len() as int) == code_bytes(file)
            &&& sound(s1, pml4)
            &&& mapping(s1.tables, pml4, v) == (match last_hit(pages, v) {
                Some(p) => Some(page_entry(p, USER_PAGE)),
                None => mapping(s.tables, pml4, v),
            })
        }),
{
    let (r, end, m1) = load_outcome(file, pml4, s, m);
    let n = code_pages(file);
    let code = s.frames[0];
    let a = page_run(code as int, n);
    let s0 = PagingState { frames: s.frames.skip(n), ..s };
    lemma_take_run_sound(s, pml4, n);
    law_map_all(s0, pml4, a, USER_PAGE, v);
    let s1 = with_code(file, pml4, code, s0);
    let stack = s1.frames[0];
    let b = page_run(stack as int, STACK_PAGES as int);
    let s2 = PagingState { frames: s1.frames.skip(STACK_PAGES as int), ..s1 };
    lemma_take_run_sound(s1, pml4, STACK_PAGES as int);
    law_map_all(s2, pml4, b, USER_PAGE, v);
    assert(end == map_all(s2, pml4, b, USER_PAGE));
    assert(r->Ok_0.1 == stack + STACK_PAGES * PAGE_SIZE);
    lemma_last_hit_append(a, b, v);
    law_write_then_read(m, code as int, code_bytes(file), 0, 0);
}

/// The last page that is hit in two runs is the last of the second that is
/// hit, or else the last of the first.
proof fn lemma_last_hit_append(a: Seq<u64>, b: Seq<u64>, v: u64)
    ensures
        last_hit(a + b, v) == (match last_hit(b, v) {
            Some(p) => Some(p),
            None => last_hit(a, v),
        }),
    decreases b.len(),
{
    if b.len() == 0 {
        assert(a + b == a);
    } else {
        lemma_last_hit_append(a, b.drop_last(), v);
        assert((a + b).drop_last() == a + b.drop_last());
    }
}

/// The run of pages that begins with frame `i` consists of that frame and those
/// behind it, all where a table can reach them.
proof fn lemma_run_pages(frames: Seq<u64>, i: int, n: int)
    requires
        0 <= i,
        0 < n,
        i + n <= frames.len(),
        contiguous(frames.skip(i), n),
        usable_frames(frames),
        forall|j: int| 0 <= j < frames.len() ==> translated(#[trigger] frames[j] as int),
    ensures
        page_run(frames[i] as int, n) == frames.subrange(i, i + n),
        forall|j: int| i <= j < i + n ==> #[trigger] frames[j] == frames[i] + (j - i) * 4096,
{
    let run = page_run(frames[i] as int, n);
    let rest = frames.skip(i);
    assert forall|j: int| i <= j < i + n implies #[trigger] frames[j] == frames[i] + (j - i)
        * 4096 by {
        assert(rest[j - i] == rest[0] + (j - i) * PAGE_SIZE);
    }
    assert forall|k: int| 0 <= k < n implies run[k] == frames.subrange(i, i + n)[k] by {
        assert(run[k] == (frames[i] + k * PAGE_SIZE) as u64);
        assert(frames[i + k] == frames[i] + (i + k - i) * 4096);
    }
    assert(run =~= frames.subrange(i, i + n));
}

/// After a load, every page that holds a byte of code, and every page of the
/// sixteen KiB below the stack's end, is mapped to itself: present, writable
/// and open to user mode. Each byte of code is in its place. The code has the
/// first frames, as many as it reaches into. The stack has four of the frames
/// behind them, and the new page tables have others.
pub proof fn law_loaded_program(
    file: Seq<u8>,
    pml4: u64,
    s: PagingState,
    m: Map<int, u8>,
) -> (plan: (int, int, int))
    requires
        sound(s, pml4),
        load_fits(file, pml4, s),
        load_outcome(file, pml4, s, m).0 is Ok,
        forall|j: int| 0 <= j < s.frames.len() ==> translated(#[trigger] s.frames[j] as int),
    ensures
        ({
            let (n, i, t) = plan;
            let size = u32_at(file, 12);
            let (r, s1, m1) = load_outcome(file, pml4, s, m);
            let code = s.frames[0];
            let top = r->Ok_0.1;
            &&& (n - 1) * 4096 < size <= n * 4096
            &&& n <= i && i + 4 <= t <= s.frames.len()
            &&& s1.frames == s.frames.skip(t)
            &&& r->Ok_0.0 == code + u32_at(file, 4)
            &&& top == s.frames[i] + 0x4000
            &&& forall|j: int| 0 <= j < n ==> #[trigger] s.frames[j] == code + j * 4096
            &&& forall|j: int| i <= j < i + 4 ==> #[trigger] s.frames[j] == top - (i + 4 - j) * 4096
            &&& forall|k: int|
                0 <= k < size ==> {
                    let v = #[trigger] (code + k);
                    &&& mapping(s1.tables, pml4, v as u64) == Some((v - v % 4096 + 0x7) as u64)
                    &&& m1.contains_key(v)
                    &&& m1[v] == file[u32_at(file, 8) + k]
                }
            &&& forall|k: int|
                1 <= k <= 0x4000 ==> {
                    let v = #[trigger] (top - k);
                    mapping(s1.tables, pml4, v as u64) == Some((v - v % 4096 + 0x7) as u64)
                }
            &&& forall|a: u64|
                s1.tables.contains_key(a) && !#[trigger] s.tables.contains_key(a)
                    ==> s.frames.subrange(n, i).contains(a) || s.frames.subrange(i + 4, t).contains(
                    a,
                )
        }),
{
    let (r, end, m1) = load_outcome(file, pml4, s, m);
    let size = u32_at(file, 12);
    let n = code_pages(file);
    assert((n - 1) * 4096 < size <= n * 4096);
    let code = s.frames[0];
    let a = page_run(code as int, n);
    let s0 = PagingState { frames: s.frames.skip(n), ..s };
    let s1 = with_code(file, pml4, code, s0);
    let t1 = lemma_map_all_grows(s0, pml4, a, USER_PAGE);
    let i = n + t1;
    assert(s1.frames =~= s.frames.skip(i));
    let stack = s1.frames[0];
    assert(stack == s.frames[i]);
    let b = page_run(stack as int, 4);
    let s2 = PagingState { frames: s1.frames.skip(4), ..s1 };
    let t2 = lemma_map_all_grows(s2, pml4, b, USER_PAGE);
    let t = i + 4 + t2;
    assert(end == map_all(s2, pml4, b, USER_PAGE));
    assert(end.frames =~= s.frames.skip(t));
    let top = r->Ok_0.1;
    lemma_take_run_sound(s, pml4, n);
    let lv = choose|lv: Map<u64, int>| #[trigger]
        leveled(s.tables, pml4, lv) && fresh(s.frames, lv);
    assert(usable_frames(s.frames));
    assert(s.frames.skip(0) =~= s.frames);
    lemma_run_pages(s.frames, 0, n);
    lemma_run_pages(s.frames, i, 4);
    let pages = a + b;
    assert forall|j: int| 0 <= j < pages.len() implies page_aligned(#[trigger] pages[j])
        && translated(pages[j] as int) by {
        if j < n {
            assert(pages[j] == s.frames[j]);
        } else {
            assert(pages[j] == b[j - n]);
            assert(pages[j] == s.frames[i + (j - n)]);
        }
    }
    assert forall|k: int| 0 <= k < size implies {
        let v = #[trigger] (code + k);
        &&& mapping(end.tables, pml4, v as u64) == Some((v - v % 4096 + 0x7) as u64)
        &&& m1.contains_key(v)
        &&& m1[v] == file[u32_at(file, 8) + k]
    } by {
        let v = code + k;
        let j = k / 4096;
        assert(pages[j] == s.frames[j]);
        assert(s.frames[j] == code + j * 4096);
        lemma_user_page(file, pml4, s, m, pages, v as u64, j);
        assert(m1[v] == code_bytes(file)[k]);
    }
    assert forall|k: int| 1 <= k <= 0x4000 implies {
        let v = #[trigger] (top - k);
        mapping(end.tables, pml4, v as u64) == Some((v - v % 4096 + 0x7) as u64)
    } by {
        let v = top - k;
        let j = (0x4000 - k) / 4096;
        assert(pages[n + j] == b[j]);
        assert(s.frames[i + j] == stack + j * 4096);
        assert(b[j] == s.frames[i + j]);
        lemma_user_page(file, pml4, s, m, pages, v as u64, n + j);
    }
    assert forall|x: u64|
        end.tables.contains_key(x) && !#[trigger] s.tables.contains_key(x) implies s.frames.subrange(
        n,
        i,
    ).contains(x) || s.frames.subrange(i + 4, t).contains(x) by {
        if s1.tables.contains_key(x) {
            let j = choose|j: int| 0 <= j < t1 && s0.frames.take(t1)[j] == x;
            assert(s.frames.subrange(n, i)[j] == x);
        } else {
            let j = choose|j: int| 0 <= j < t2 && s2.frames.take(t2)[j] == x;
            assert(s.frames.subrange(i + 4, t)[j] == x);
        }
    }
    (n, i, t)
}

/// An address in one of the program's pages is mapped to itself for user mode.
proof fn lemma_user_page(
    file: Seq<u8>,
    pml4: u64,
    s: PagingState,
    m: Map<int, u8>,
    pages: Seq<u64>,
    v: u64,
    j: int,
)
    requires
        sound(s, pml4),
        load_fits(file, pml4, s),
        load_outcome(file, pml4, s, m).0 is Ok,
        pages == page_run(s.frames[0] as int, code_pages(file)) + page_run(
            load_outcome(file, pml4, s, m).0->Ok_0.1 - STACK_PAGES * PAGE_SIZE,
            STACK_PAGES as int,
        ),
        forall|k: int|
            0 <= k < pages.len() ==> page_aligned(#[trigger] pages[k]) && translated(
                pages[k] as int,
            ),
        0 <= j < pages.len(),
        pages[j] <= v < pages[j] + 4096,
    ensures
        mapping(load_outcome(file, pml4, s, m).1.tables, pml4, v) == Some(
            (v - v % 4096 + 0x7) as u64,
        ),
{
    let p = pages[j];
    assert(p == v - v % 4096);
    law_load(file, pml4, s, m, v);
    lemma_last_hit(pages, v);
    lemma_page_entry(p, USER_PAGE);
}

/// A file is refused where it is shorter than its sixteen header bytes, does
/// not begin with `KEF` and a zero byte, or has no code; these leave everything
/// as it was. It is refused for want of memory exactly where fewer frames are
/// left than its code reaches into, and where its code lies outside the file.
/// No refusal but the one for want of a stack has put code into memory.
pub proof fn law_load_refused(file: Seq<u8>, pml4: u64, s: PagingState, m: Map<int, u8>)
    ensures
        ({
            let (r, s1, m1) = load_outcome(file, pml4, s, m);
            let spelled = file[0] == 0x4B && file[1] == 0x45 && file[2] == 0x46 && file[3] == 0;
            let size = u32_at(file, 12);
            let start = u32_at(file, 8);
            &&& file.len() < 16 ==> r == LoadResult::Err(
                "File too small to contain KEF header"@,
            ) && s1 == s && m1 == m
            &&& file.len() >= 16 && !spelled ==> r == LoadResult::Err(
                "Invalid KEF magic number"@,
            ) && s1 == s && m1 == m
            &&& file.len() >= 16 && spelled && size == 0 ==> r == LoadResult::Err(
                "KEF code size is 0"@,
            ) && s1 == s && m1 == m
            &&& file.len() >= 16 && spelled && size > 0 ==> {
                &&& s.frames.len() * 4096 < size ==> r == LoadResult::Err(
                    "OOM allocating code frame"@,
                ) && s1.tables == s.tables && m1 == m
                &&& s.frames.len() * 4096 >= size && start + size > file.len() ==> r
                    == LoadResult::Err("KEF code segment extends past end of file"@) && m1 == m
                &&& s.frames.len() * 4096 >= size && start + size <= file.len() ==> r is Ok || r
                    == LoadResult::Err("OOM allocating stack frame"@)
            }
        }),
{
    let magic = file.subrange(0, 4);
    if file.len() >= 16 {
        if file[0] == 0x4B && file[1] == 0x45 && file[2] == 0x46 && file[3] == 0 {
            assert(magic =~= kef_magic());
        } else if magic == kef_magic() {
            assert(magic[0] == file[0] && magic[1] == file[1] && magic[2] == file[2] && magic[3]
                == file[3]);
        }
    }
}

/// A file of the right form, with its code inside it, is loaded wherever enough
/// frames are left: four for each page of code, for the code and its tables, and
/// four for the stack.
pub proof fn law_load_succeeds(file: Seq<u8>, pml4: u64, s: PagingState, m: Map<int, u8>)
    requires
        sound(s, pml4),
        load_fits(file, pml4, s),
        file.len() >= 16,
        file[0] == 0x4B && file[1] == 0x45 && file[2] == 0x46 && file[3] == 0,
        u32_at(file, 12) > 0,
        u32_at(file, 8) + u32_at(file, 12) <= file.len(),
        s.frames.len() >= 4 * ((u32_at(file, 12) + 4095) / 4096) + 4,
    ensures
        load_outcome(file, pml4, s, m).0 is Ok,
{
    let magic = file.subrange(0, 4);
    assert(magic =~= kef_magic());
    let n = code_pages(file);
    let code = s.frames[0];
    let s0 = PagingState { frames: s.frames.skip(n), ..s };
    lemma_take_run_sound(s, pml4, n);
    law_map_all(s0, pml4, page_run(code as int, n), USER_PAGE, 0);
}

/// A file of any form can be loaded where the frames that are left follow one
/// another, lie below the end of the address space and are enough.
pub proof fn law_load_fits(file: Seq<u8>, pml4: u64, s: PagingState)
    requires
        sound(s, pml4),
        s.frames.len() >= 4 * ((u32_at(file, 12) + 4095) / 4096) + 16,
        forall|j: int| 0 <= j < s.frames.len() ==> #[trigger] s.frames[j] == s.frames[0] + j * 4096,
        forall|j: int|
            0 <= j < s.frames.len() ==> #[trigger] s.frames[j] + 0x1_0000_0000 <= u64::MAX,
    ensures
        load_fits(file, pml4, s),
{
    if u32_at(file, 12) != 0 {
        let n = code_pages(file);
        let code = s.frames[0];
        let a = page_run(code as int, n);
        let s0 = PagingState { frames: s.frames.skip(n), ..s };
        lemma_take_run_sound(s, pml4, n);
        law_map_all_fits(s0, pml4, a, USER_PAGE);
        law_map_all(s0, pml4, a, USER_PAGE, 0);
        let s1 = with_code(file, pml4, code, s0);
        let t = lemma_map_all_grows(s0, pml4, a, USER_PAGE);
        assert(s1.frames =~= s.frames.skip(n + t));
        assert forall|i: int| 0 <= i < 4 && i < s1.frames.len() implies #[trigger] s1.frames[i]
            == s1.frames[0] + i * PAGE_SIZE by {
            assert(s.frames[n + t + i] == s.frames[0] + (n + t + i) * 4096);
            assert(s.frames[n + t] == s.frames[0] + (n + t) * 4096);
        }
        let s2 = PagingState { frames: s1.frames.skip(4), ..s1 };
        lemma_take_run_sound(s1, pml4, 4);
        law_map_all_fits(s2, pml4, page_run(s1.frames[0] as int, 4), USER_PAGE);
        assert(s1.frames[0] == s.frames[n + t]);
    }
}

} // verus!
