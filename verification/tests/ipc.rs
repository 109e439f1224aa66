use kernel_ipc::ipc::{init, lookup, receive_msg, register, send_msg, unregister};
use kernel_ipc::ipc::{Endpoint, Errno, IpcState, RB_CAPACITY};

fn ready() -> Option<IpcState> {
    let mut ipc = None;
    init(&mut ipc);
    ipc
}

#[test]
fn calls_before_init_fail() {
    let mut ipc: Option<IpcState> = None;
    assert_eq!(register(&mut ipc, "svc"), Err(Errno::EUNKN));
    assert_eq!(lookup(&ipc, "svc"), Err(Errno::EUNKN));
    assert_eq!(send_msg(&mut ipc, 0, &[1]), Err(Errno::EUNKN));
    let mut buf = vec![0u8; 4];
    assert_eq!(receive_msg(&mut ipc, 0, &mut buf, 4), Err(Errno::EUNKN));
    assert_eq!(unregister(&mut ipc, "svc"), Err(Errno::EUNKN));
    assert!(ipc.is_none());
}

#[test]
fn init_twice_keeps_state() {
    let mut ipc = ready();
    assert_eq!(register(&mut ipc, "a"), Ok(0));
    init(&mut ipc);
    assert_eq!(lookup(&ipc, "a"), Ok(0));
}

#[test]
fn handles_are_given_in_order() {
    let mut ipc = ready();
    assert_eq!(register(&mut ipc, "calculatorservice"), Ok(0));
    assert_eq!(register(&mut ipc, "calc_client"), Ok(1));
    assert_eq!(register(&mut ipc, "third"), Ok(2));
}

#[test]
fn register_existing_name_returns_same_handle() {
    let mut ipc = ready();
    assert_eq!(register(&mut ipc, "a"), Ok(0));
    assert_eq!(register(&mut ipc, "b"), Ok(1));
    assert_eq!(register(&mut ipc, "a"), Ok(0));
    assert_eq!(register(&mut ipc, "c"), Ok(2));
}

#[test]
fn lookup_finds_registered_names() {
    let mut ipc = ready();
    assert_eq!(register(&mut ipc, "a"), Ok(0));
    assert_eq!(register(&mut ipc, "b"), Ok(1));
    assert_eq!(lookup(&ipc, "a"), Ok(0));
    assert_eq!(lookup(&ipc, "b"), Ok(1));
    assert_eq!(lookup(&ipc, "missing"), Err(Errno::EUNKN));
}

#[test]
fn unregister_removes_name() {
    let mut ipc = ready();
    assert_eq!(register(&mut ipc, "a"), Ok(0));
    assert_eq!(unregister(&mut ipc, "a"), Ok(()));
    assert_eq!(lookup(&ipc, "a"), Err(Errno::EUNKN));
    assert_eq!(unregister(&mut ipc, "a"), Err(Errno::EUNKN));
    assert_eq!(send_msg(&mut ipc, 0, &[1, 2]), Err(Errno::EUNKN));
}

#[test]
fn freed_handles_are_reused_last_freed_first() {
    let mut ipc = ready();
    assert_eq!(register(&mut ipc, "a"), Ok(0));
    assert_eq!(register(&mut ipc, "b"), Ok(1));
    assert_eq!(register(&mut ipc, "c"), Ok(2));
    assert_eq!(unregister(&mut ipc, "a"), Ok(()));
    assert_eq!(unregister(&mut ipc, "c"), Ok(()));
    assert_eq!(register(&mut ipc, "d"), Ok(2));
    assert_eq!(register(&mut ipc, "e"), Ok(0));
    assert_eq!(register(&mut ipc, "f"), Ok(3));
    assert_eq!(lookup(&ipc, "b"), Ok(1));
}

#[test]
fn send_then_receive_delivers_message() {
    let mut ipc = ready();
    let h = register(&mut ipc, "server").unwrap();
    assert_eq!(send_msg(&mut ipc, h, &[1, 2, 3]), Ok(0));
    let mut buf = vec![9u8; 5];
    assert_eq!(receive_msg(&mut ipc, h, &mut buf, 5), Ok(3));
    assert_eq!(buf, vec![1, 2, 3, 9, 9]);
    assert_eq!(receive_msg(&mut ipc, h, &mut buf, 5), Err(Errno::ERBEMPTY));
}

#[test]
fn messages_arrive_in_send_order() {
    let mut ipc = ready();
    let h = register(&mut ipc, "server").unwrap();
    assert_eq!(send_msg(&mut ipc, h, &[1]), Ok(0));
    assert_eq!(send_msg(&mut ipc, h, &[2, 2]), Ok(0));
    let mut buf = vec![0u8; 8];
    assert_eq!(receive_msg(&mut ipc, h, &mut buf, 8), Ok(1));
    assert_eq!(buf[0], 1);
    assert_eq!(send_msg(&mut ipc, h, &[3, 3, 3]), Ok(0));
    assert_eq!(receive_msg(&mut ipc, h, &mut buf, 8), Ok(2));
    assert_eq!(&buf[..2], &[2, 2]);
    assert_eq!(receive_msg(&mut ipc, h, &mut buf, 8), Ok(3));
    assert_eq!(&buf[..3], &[3, 3, 3]);
}

#[test]
fn short_buffer_keeps_message() {
    let mut ipc = ready();
    let h = register(&mut ipc, "server").unwrap();
    assert_eq!(send_msg(&mut ipc, h, &[4, 5, 6, 7]), Ok(0));
    let mut buf = vec![0u8; 8];
    assert_eq!(receive_msg(&mut ipc, h, &mut buf, 3), Err(Errno::ERRCV));
    assert_eq!(buf, vec![0u8; 8]);
    assert_eq!(receive_msg(&mut ipc, h, &mut buf, 4), Ok(4));
    assert_eq!(&buf[..4], &[4, 5, 6, 7]);
}

#[test]
fn full_endpoint_refuses_messages() {
    let mut ipc = ready();
    let h = register(&mut ipc, "server").unwrap();
    for i in 0..RB_CAPACITY {
        assert_eq!(send_msg(&mut ipc, h, &[i as u8]), Ok(0));
    }
    assert_eq!(send_msg(&mut ipc, h, &[99]), Err(Errno::EUNKN));
    let mut buf = vec![0u8; 1];
    assert_eq!(receive_msg(&mut ipc, h, &mut buf, 1), Ok(1));
    assert_eq!(buf[0], 0);
    assert_eq!(send_msg(&mut ipc, h, &[100]), Ok(0));
}

#[test]
fn endpoints_are_isolated() {
    let mut ipc = ready();
    let a = register(&mut ipc, "a").unwrap();
    let b = register(&mut ipc, "b").unwrap();
    assert_eq!(send_msg(&mut ipc, a, &[1]), Ok(0));
    let mut buf = vec![0u8; 4];
    assert_eq!(receive_msg(&mut ipc, b, &mut buf, 4), Err(Errno::ERBEMPTY));
    assert_eq!(receive_msg(&mut ipc, a, &mut buf, 4), Ok(1));
}

#[test]
fn unknown_handles_are_refused() {
    let mut ipc = ready();
    let mut buf = vec![0u8; 4];
    assert_eq!(send_msg(&mut ipc, 0, &[1]), Err(Errno::EUNKN));
    assert_eq!(receive_msg(&mut ipc, 7, &mut buf, 4), Err(Errno::EUNKN));
}

#[test]
fn unregister_drops_queued_messages() {
    let mut ipc = ready();
    let h = register(&mut ipc, "a").unwrap();
    assert_eq!(send_msg(&mut ipc, h, &[1]), Ok(0));
    assert_eq!(unregister(&mut ipc, "a"), Ok(()));
    assert_eq!(register(&mut ipc, "b"), Ok(h));
    let mut buf = vec![0u8; 4];
    assert_eq!(receive_msg(&mut ipc, h, &mut buf, 4), Err(Errno::ERBEMPTY));
}

#[test]
fn empty_message_round_trip() {
    let mut ipc = ready();
    let h = register(&mut ipc, "a").unwrap();
    assert_eq!(send_msg(&mut ipc, h, &[]), Ok(0));
    let mut buf: Vec<u8> = Vec::new();
    assert_eq!(receive_msg(&mut ipc, h, &mut buf, 0), Ok(0));
}

#[test]
fn endpoint_add_and_get() {
    let mut ep = Endpoint::new(String::from("ep"));
    assert_eq!(ep.debug_name, "ep");
    let mut buf = vec![0u8; 2];
    assert_eq!(ep.get_msg(&mut buf, 2), Err(Errno::ERBEMPTY));
    assert_eq!(ep.add_msg(vec![5, 6]), Ok(0));
    assert_eq!(ep.get_msg(&mut buf, 1), Err(Errno::ERRCV));
    assert_eq!(ep.queue.len(), 1);
    assert_eq!(ep.get_msg(&mut buf, 2), Ok(2));
    assert_eq!(buf, vec![5, 6]);
    assert!(ep.queue.is_empty());
}

#[test]
fn state_methods_match_free_functions() {
    let mut s = IpcState::new();
    assert_eq!(s.register("x"), 0);
    assert_eq!(s.lookup("x"), Ok(0));
    assert_eq!(s.send_msg(0, &[8]), Ok(0));
    let mut buf = vec![0u8; 1];
    assert_eq!(s.receive_msg(0, &mut buf, 1), Ok(1));
    assert_eq!(buf, vec![8]);
    assert_eq!(s.unregister("x"), Ok(()));
    assert_eq!(s.lookup("x"), Err(Errno::EUNKN));
}

#[test]
fn registered_names_have_distinct_live_handles() {
    let mut ipc = ready();
    let names = ["a", "b", "c", "d"];
    for n in names {
        register(&mut ipc, n).unwrap();
    }
    assert_eq!(unregister(&mut ipc, "b"), Ok(()));
    assert_eq!(unregister(&mut ipc, "d"), Ok(()));
    register(&mut ipc, "e").unwrap();
    register(&mut ipc, "b").unwrap();
    let live = ["a", "b", "c", "e"];
    let mut handles = Vec::new();
    for n in live {
        let h = lookup(&ipc, n).unwrap();
        assert!(!handles.contains(&h));
        handles.push(h);
        assert_eq!(send_msg(&mut ipc, h, &[1]), Ok(0));
    }
    assert_eq!(lookup(&ipc, "d"), Err(Errno::EUNKN));
}
