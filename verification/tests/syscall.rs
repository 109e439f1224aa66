use kernel_ipc::ipc::{init, register, Errno, IpcState};
use kernel_ipc::syscall::{
    convert_ret_code_to_syscall_result, convert_syscall_result_to_ret_code, ptr_to_string, sys_lookup, sys_receive, sys_register,
    sys_send,
};

fn ready() -> Option<IpcState> {
    let mut ipc = None;
    init(&mut ipc);
    ipc
}

#[test]
fn null_name_is_enotdir() {
    assert_eq!(ptr_to_string(None), Err(Errno::ENOTDIR));
}

#[test]
fn invalid_utf8_is_ebadstr() {
    let bytes: [u8; 3] = [0x61, 0xff, 0x62];
    assert_eq!(ptr_to_string(Some(&bytes)), Err(Errno::EBADSTR));
}

#[test]
fn valid_utf8_is_decoded() {
    let bytes = "grüße".as_bytes();
    assert_eq!(ptr_to_string(Some(bytes)), Ok(String::from("grüße")));
    assert_eq!(ptr_to_string(Some(&[])), Ok(String::new()));
}

#[test]
fn error_codes_are_negative_and_distinct() {
    let all = [Errno::EUNKN, Errno::ENOTDIR, Errno::EBADSTR, Errno::ERBEMPTY, Errno::ERRCV];
    for (i, e) in all.iter().enumerate() {
        assert!(e.code() < 0);
        for f in all.iter().skip(i + 1) {
            assert_ne!(e.code(), f.code());
        }
    }
    assert_eq!(Errno::EUNKN.code(), -1);
}

#[test]
fn ret_code_passes_values_and_errors() {
    assert_eq!(convert_syscall_result_to_ret_code(Ok(5)), 5);
    assert_eq!(convert_syscall_result_to_ret_code(Ok(0)), 0);
    assert_eq!(convert_syscall_result_to_ret_code(Err(Errno::ERRCV)), Errno::ERRCV.code());
}

#[test]
fn sys_register_and_lookup() {
    let mut ipc = ready();
    assert_eq!(sys_register(&mut ipc, Some(b"calculatorservice")), 0);
    assert_eq!(sys_register(&mut ipc, Some(b"calc_client")), 1);
    assert_eq!(sys_lookup(&ipc, Some(b"calc_client")), 1);
    assert_eq!(sys_lookup(&ipc, Some(b"nobody")), Errno::EUNKN.code());
}

#[test]
fn sys_calls_before_init() {
    let mut ipc: Option<IpcState> = None;
    assert_eq!(sys_register(&mut ipc, Some(b"x")), Errno::EUNKN.code());
    assert_eq!(sys_lookup(&ipc, Some(b"x")), Errno::EUNKN.code());
    assert_eq!(sys_send(&mut ipc, 0, &[1]), Errno::EUNKN.code());
    let mut buf = vec![0u8; 2];
    assert_eq!(sys_receive(&mut ipc, 0, &mut buf, 2), Errno::EUNKN.code());
}

#[test]
fn sys_send_and_receive() {
    let mut ipc = ready();
    let h = register(&mut ipc, "server").unwrap();
    assert_eq!(sys_send(&mut ipc, h, b"hello"), 0);
    let mut buf = vec![0u8; 3];
    assert_eq!(sys_receive(&mut ipc, h, &mut buf, 3), Errno::ERRCV.code());
    let mut buf = vec![0u8; 8];
    assert_eq!(sys_receive(&mut ipc, h, &mut buf, 8), 5);
    assert_eq!(&buf[..5], b"hello");
    assert_eq!(sys_receive(&mut ipc, h, &mut buf, 8), Errno::ERBEMPTY.code());
}

#[test]
fn ret_code_round_trip() {
    let all = [Errno::EUNKN, Errno::ENOTDIR, Errno::EBADSTR, Errno::ERBEMPTY, Errno::ERRCV];
    for e in all {
        let r: Result<usize, Errno> = Err(e);
        assert_eq!(convert_ret_code_to_syscall_result(convert_syscall_result_to_ret_code(r)), r);
    }
    for v in [0usize, 1, 42, isize::MAX as usize] {
        assert_eq!(convert_ret_code_to_syscall_result(convert_syscall_result_to_ret_code(Ok(v))), Ok(v));
    }
    assert_eq!(convert_ret_code_to_syscall_result(-7), Err(Errno::EUNKN));
}
