use futures_mio::event_loop::{Registry, CHANNEL_TOKEN};
use futures_mio::readiness::{
    accept_next, await_outcome, channel_registration, passive_registration, plan_message, read_next,
    send_error, wait_registration, write_next, Attempt, AwaitFailure, Interest, Message, Next, Plan, Registration,
    SendFailure, Trigger,
};

#[test]
fn read_done_appends_what_was_read() {
    match read_next::<String>(vec![1, 2, 3], &[7, 8, 9, 0, 0], Attempt::Done(3)) {
        Next::Finished(v) => assert_eq!(v, vec![1, 2, 3, 7, 8, 9]),
        other => panic!("unexpected {:?}", other),
    }
}

#[test]
fn read_end_of_stream_keeps_buffer() {
    match read_next::<String>(vec![1, 2, 3], &[0, 0], Attempt::Done(0)) {
        Next::Finished(v) => assert_eq!(v, vec![1, 2, 3]),
        other => panic!("unexpected {:?}", other),
    }
}

#[test]
fn read_would_block_parks_readable() {
    match read_next::<String>(vec![5], &[0; 4], Attempt::WouldBlock) {
        Next::Park(Interest::Readable, v) => assert_eq!(v, vec![5]),
        other => panic!("unexpected {:?}", other),
    }
}

#[test]
fn read_error_fails() {
    match read_next(Vec::new(), &[0; 8], Attempt::Failed("reset".to_string())) {
        Next::Failed(e) => assert_eq!(e, "reset"),
        other => panic!("unexpected {:?}", other),
    }
}

#[test]
fn write_done_moves_offset() {
    match write_next::<String>(2, vec![1, 2, 3, 4, 5], Attempt::Done(2)) {
        Next::Finished((o, d)) => {
            assert_eq!(o, 4);
            assert_eq!(d, vec![1, 2, 3, 4, 5]);
        }
        other => panic!("unexpected {:?}", other),
    }
}

#[test]
fn write_would_block_parks_writable() {
    match write_next::<String>(1, vec![9, 9], Attempt::WouldBlock) {
        Next::Park(Interest::Writable, (o, d)) => {
            assert_eq!(o, 1);
            assert_eq!(d, vec![9, 9]);
        }
        other => panic!("unexpected {:?}", other),
    }
}

#[test]
fn write_error_fails() {
    assert!(matches!(write_next(0, vec![1], Attempt::Failed(7u8)), Next::Failed(7)));
}

#[test]
fn accept_outcomes() {
    match accept_next::<u8, &str, (), u8>(Attempt::Done((3, "peer"))) {
        Next::Finished((Message::Register(s), a)) => {
            assert_eq!(s, 3);
            assert_eq!(a, "peer");
        }
        other => panic!("accepted connection not registered first: {:?}", matches!(other, Next::Failed(_))),
    }
    assert!(matches!(accept_next::<u8, &str, (), u8>(Attempt::WouldBlock), Next::Park(Interest::Readable, ())));
    assert!(matches!(accept_next::<u8, &str, (), u8>(Attempt::Failed(9)), Next::Failed(9)));
}

#[test]
fn send_error_passes_io_error() {
    assert_eq!(send_error(SendFailure::Io(5u8)), 5);
}

#[test]
fn await_outcome_maps_value_and_error() {
    assert_eq!(await_outcome::<u8, u8, ()>(Ok(1)), Ok(1));
    assert_eq!(await_outcome::<u8, u8, ()>(Err(AwaitFailure::Other(2))), Err(2));
}

#[test]
fn fixed_registrations() {
    assert_eq!(
        channel_registration(),
        Registration { token: CHANNEL_TOKEN, interest: Interest::Readable, trigger: Trigger::Edge }
    );
    assert_eq!(
        passive_registration(),
        Registration { token: CHANNEL_TOKEN, interest: Interest::Nothing, trigger: Trigger::Silent }
    );
}

#[test]
fn wait_registration_takes_fresh_token() {
    let mut r: Registry<u8> = Registry::new();
    let a = wait_registration(&mut r, Interest::Writable);
    let b = wait_registration(&mut r, Interest::Readable);
    assert_eq!(a, Registration { token: 1, interest: Interest::Writable, trigger: Trigger::EdgeOneshot });
    assert_eq!(b, Registration { token: 2, interest: Interest::Readable, trigger: Trigger::EdgeOneshot });
    assert_eq!(r.next_token(), 3);
}

#[test]
fn plan_wait_message() {
    let mut r: Registry<&str> = Registry::new();
    match plan_message(&mut r, Message::Wait("w", Interest::Readable, "src")) {
        Plan::Reregister(c, s, reg) => {
            assert_eq!(c, "w");
            assert_eq!(s, "src");
            assert_eq!(reg, Registration { token: 1, interest: Interest::Readable, trigger: Trigger::EdgeOneshot });
            assert!(r.settle::<String>(reg.token, c, Ok(())).is_none());
            assert!(r.is_waiting(1));
        }
        Plan::Register(..) => panic!("wait planned as a registration"),
    }
}

#[test]
fn plan_register_message() {
    let mut r: Registry<&str> = Registry::new();
    match plan_message(&mut r, Message::Register("src")) {
        Plan::Register(s, reg) => {
            assert_eq!(s, "src");
            assert_eq!(reg, passive_registration());
        }
        Plan::Reregister(..) => panic!("registration planned as a wait"),
    }
    assert_eq!(r.next_token(), 1);
}
