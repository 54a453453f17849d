use kaguyaos::device::{BlockDevice, Sector};
use kaguyaos::fs::error::FsError;
use kaguyaos::fs::layout::PublicFileEntry;
use kaguyaos::memory::phys::PhysMemory;
use kaguyaos::processor::msr::MsrWrite;
use kaguyaos::syscall::dispatch::{
    Dispatch, Request, SyscallArgs, can_call, invalid_text, key_result, reply, sys_alloc, sys_print,
    sys_realloc, syscall_dispatcher_impl,
};
use kaguyaos::syscall::files::{error_result, make_record};
use kaguyaos::syscall::setup::{init, init_cpu};

fn device(sectors: usize) -> BlockDevice {
    let mut v = Vec::new();
    for _ in 0..sectors {
        v.push(Sector { data: [0u8; 512], defective: false });
    }
    BlockDevice { nsid: Some(1), sectors: v, log: Vec::new() }
}

fn call(
    dev: &mut BlockDevice,
    user: &mut PhysMemory,
    id: usize,
    args: [usize; 4],
) -> Dispatch {
    let c = SyscallArgs { id, arg1: args[0], arg2: args[1], arg3: args[2], arg4: args[3] };
    syscall_dispatcher_impl(&c, dev, user)
}

fn done(d: Dispatch) -> usize {
    match d {
        Dispatch::Done(n) => n,
        _ => panic!("not done"),
    }
}

fn request(id: usize, args: [usize; 4]) -> Request {
    match call(&mut device(1), &mut PhysMemory::new(), id, args) {
        Dispatch::Perform(r) => r,
        _ => panic!("nothing to perform"),
    }
}

const NAME: usize = 0x1000;
const DATA: usize = 0x2000;
const BUFFER: usize = 0x3000;

#[test]
fn file_calls_round_trip() {
    let mut dev = device(60);
    let mut user = PhysMemory::new();
    user.write(NAME as u64, b"a.txt");
    user.write(DATA as u64, &[9u8; 700]);
    assert_eq!(done(call(&mut dev, &mut user, 14, [0; 4])), 0);
    assert_eq!(done(call(&mut dev, &mut user, 16, [NAME, 5, DATA, 700])), 0);
    assert_eq!(done(call(&mut dev, &mut user, 17, [NAME, 5, 0, 0])), 700);
    assert_eq!(done(call(&mut dev, &mut user, 17, [NAME, 5, BUFFER, 1024])), 700);
    assert_eq!(user.read(BUFFER as u64, 700), vec![9u8; 700]);
    assert_eq!(done(call(&mut dev, &mut user, 17, [NAME, 5, 0x8000, 10])), 10);
    assert_eq!(user.read(0x8000, 10), vec![9u8; 10]);
    assert_eq!(done(call(&mut dev, &mut user, 15, [0, 0, 0, 0])), 1);
    assert_eq!(done(call(&mut dev, &mut user, 15, [0x9000, 4, 0, 0])), 1);
    assert_eq!(user.read(0x9000, 5), b"a.txt".to_vec());
    assert_eq!(user.read_u8(0x9000 + 47), 5);
    assert_eq!(user.read_u64(0x9000 + 48), 700);
    assert_eq!(user.read_u16(0x9000 + 56), 17);
    assert_eq!(done(call(&mut dev, &mut user, 18, [NAME, 5, 0, 0])), 0);
    assert_eq!(done(call(&mut dev, &mut user, 17, [NAME, 5, 0, 0])), (-6isize) as usize);
}

#[test]
fn calls_that_a_damaged_volume_refuses() {
    let mut dev = device(60);
    let mut user = PhysMemory::new();
    user.write(NAME as u64, b"a.txt");
    user.write(DATA as u64, &[9u8; 700]);
    let args = |id: usize| SyscallArgs { id, arg1: NAME, arg2: 5, arg3: DATA, arg4: 700 };
    call(&mut dev, &mut user, 14, [0; 4]);
    call(&mut dev, &mut user, 16, [NAME, 5, DATA, 700]);
    assert!((14..=21).all(|id| can_call(&args(id), &dev, &user)));
    // The size of the only file.
    dev.sectors[1].data[55..63].copy_from_slice(&u64::MAX.to_le_bytes());
    assert!((16..=18).all(|id| !can_call(&args(id), &dev, &user)));
    assert!(can_call(&args(15), &dev, &user));
    user.write(NAME as u64, b"b.txt");
    assert!((16..=18).all(|id| can_call(&args(id), &dev, &user)));
    user.write(NAME as u64, &[0xFF; 5]);
    assert!((16..=18).all(|id| can_call(&args(id), &dev, &user)));
}

#[test]
fn listing_without_a_buffer_counts() {
    let mut dev = device(60);
    let mut user = PhysMemory::new();
    user.write(NAME as u64, b"a.txt");
    call(&mut dev, &mut user, 14, [0; 4]);
    call(&mut dev, &mut user, 16, [NAME, 5, NAME, 5]);
    let before = user.regions.len();
    assert_eq!(done(call(&mut dev, &mut user, 15, [0, usize::MAX, 0, 0])), 1);
    assert_eq!(user.regions.len(), before);
}

#[test]
fn listing_is_cut_to_the_buffer() {
    let mut dev = device(60);
    let mut user = PhysMemory::new();
    call(&mut dev, &mut user, 14, [0; 4]);
    user.write(NAME as u64, b"abc");
    user.write(DATA as u64, b"x");
    for n in 1..4 {
        assert_eq!(done(call(&mut dev, &mut user, 16, [NAME, n, DATA, 1])), 0);
    }
    user.write(0x9000, &[0xEEu8; 192]);
    assert_eq!(done(call(&mut dev, &mut user, 15, [0x9000, 2, 0, 0])), 3);
    assert_eq!(user.read(0x9000, 2), vec![b'a', 0]);
    assert_eq!(user.read(0x9040, 3), vec![b'a', b'b', 0]);
    assert_eq!(user.read(0x9080, 2), vec![0xEE, 0xEE]);
}

#[test]
fn file_calls_report_errors() {
    let mut dev = device(60);
    let mut user = PhysMemory::new();
    user.write(NAME as u64, &[0xFF, 0xFE]);
    for id in [16, 17, 18] {
        assert_eq!(done(call(&mut dev, &mut user, id, [NAME, 2, NAME, 0])), (-2isize) as usize);
    }
    user.write(NAME as u64, b"ab");
    assert_eq!(done(call(&mut dev, &mut user, 15, [0, 0, 0, 0])), (-4isize) as usize);
    dev.nsid = None;
    assert_eq!(done(call(&mut dev, &mut user, 14, [0; 4])), usize::MAX);
    assert_eq!(error_result(FsError::NoSpace), (-5isize) as usize);
    assert_eq!(error_result(FsError::DeviceError), (-3isize) as usize);
}

#[test]
fn records_cut_long_names() {
    let p = PublicFileEntry { name: "\u{FFFD}".repeat(20), size: 1, start_block: 0x1_0002 };
    let r = make_record(&p);
    assert_eq!(r.name_len, 47);
    assert_eq!(&r.name[..3], "\u{FFFD}".as_bytes());
    assert_eq!(r.first_cluster, 2);
    let short = PublicFileEntry { name: String::from("x"), size: 1, start_block: 3 };
    assert_eq!(make_record(&short).name[..2], [b'x', 0]);
}

#[test]
fn printing_text() {
    let mut user = PhysMemory::new();
    user.write(0x100, "grüß\n".as_bytes());
    assert_eq!(sys_print(&user, 0x100, 7), "grüß\n");
    assert_eq!(sys_print(&user, 0x100, 0), "");
    match call(&mut device(1), &mut user, 1, [0x100, 2, 0, 0]) {
        Dispatch::Print(s, n) => {
            assert_eq!(s, "gr");
            assert_eq!(n, 0);
        }
        _ => panic!("not printed"),
    }
}

#[test]
fn printing_bytes_that_are_no_text() {
    let mut user = PhysMemory::new();
    user.write(0x100, &[b'a', 0xFF, 0]);
    let e = std::str::from_utf8(&[b'a', 0xFF, 0]).unwrap_err();
    assert_eq!(
        sys_print(&user, 0x100, 3),
        format!("(sys_print: invalid utf8, ptr=0x100, len=3, byte=0x61, err={})", e)
    );
    assert_eq!(
        invalid_text(16, 2, 3, "why"),
        "(sys_print: invalid utf8, ptr=0x10, len=2, byte=0x3, err=why)"
    );
}

#[test]
fn memory_requests() {
    match sys_alloc(100, 0) {
        Dispatch::Perform(Request::Alloc { size, align }) => assert_eq!((size, align), (100, 8)),
        _ => panic!("refused"),
    }
    assert_eq!(done(sys_alloc(100, 3)), 0);
    assert_eq!(done(sys_alloc(isize::MAX as usize, 16)), 0);
    match sys_realloc(0x5000, 10, 16) {
        Dispatch::Perform(Request::Realloc { ptr, size, align }) => {
            assert_eq!((ptr, size, align), (0x5000, 10, 16));
        }
        _ => panic!("refused"),
    }
    assert_eq!(done(sys_realloc(0x5000, 10, 6)), 0);
}

#[test]
fn other_requests() {
    assert!(matches!(request(3, [7, 0, 0, 0]), Request::Free { ptr: 7 }));
    assert!(matches!(
        request(4, [1, 2, 0, 0]),
        Request::AddTask { entry: 1, user_rsp: 2, stack_size: 16384 }
    ));
    assert!(matches!(request(5, [0; 4]), Request::SwitchTask));
    assert!(matches!(request(6, [9, 0, 0, 0]), Request::TerminateTask { exit_code: 9 }));
    assert!(matches!(request(9, [0; 4]), Request::PollKeyboard));
    assert!(matches!(request(10, [0; 4]), Request::Shutdown));
    assert!(matches!(request(11, [0; 4]), Request::ReadKey));
    assert!(matches!(request(12, [0; 4]), Request::Clear));
    assert!(matches!(request(19, [3, 0, 0, 0]), Request::TaskStatus { task_id: 3 }));
    assert!(matches!(request(20, [3, 0, 0, 0]), Request::TaskExitCode { task_id: 3 }));
    assert!(matches!(request(21, [0; 4]), Request::RunApScheduler));
    assert_eq!(reply(&Request::Shutdown, 5), 0);
    assert_eq!(reply(&Request::TaskStatus { task_id: 1 }, 5), 5);
    assert_eq!(key_result(Some(b'q')), 113);
    assert_eq!(key_result(None), 0);
}

#[test]
fn unknown_calls() {
    for id in [0usize, 7, 8, 22] {
        match call(&mut device(1), &mut PhysMemory::new(), id, [0; 4]) {
            Dispatch::Print(s, n) => {
                assert_eq!(s, format!("Unknown syscall: {}\n", id));
                assert_eq!(n, usize::MAX);
            }
            _ => panic!("not unknown"),
        }
    }
}

#[test]
fn processor_setup() {
    let w = init_cpu(0x500, 0xABCD);
    assert_eq!(w[0], MsrWrite { msr: 0xC000_0080, value: 0x501 });
    assert_eq!(w[1], MsrWrite { msr: 0xC000_0081, value: 0x0010_0008_0000_0000 });
    assert_eq!(w[2], MsrWrite { msr: 0xC000_0082, value: 0xABCD });
    assert_eq!(w[3], MsrWrite { msr: 0xC000_0084, value: 0x200 });
    let s = init(0x10_0000, 3, 0x9000);
    assert_eq!(s.percpu.kernel_stack_top, 0x10_4000);
    assert_eq!((s.percpu.apic_id, s.percpu.cpu_index), (3, 0));
    assert_eq!(s.gs_base, MsrWrite { msr: 0xC000_0101, value: 0x9000 });
    assert_eq!(s.kernel_gs_base, MsrWrite { msr: 0xC000_0102, value: 0x9000 });
    assert_eq!(s.tss_stack, 0x10_4000);
}
