use std::sync::mpsc;
use std::sync::Arc;

use glosco::model::{Closed, Connection, Endpoint, IpAddr, Message, Protocol, State, Timestamp};
use glosco::transport::{frame, hello_frame, read_frame, Action, Backoff, Client, Event, Session};

#[test]
fn frame_prefixes_the_length() {
    assert_eq!(frame(&[7, 8, 9]), vec![0, 3, 7, 8, 9]);
    assert_eq!(frame(&[]), vec![0, 0]);
    let big = vec![1u8; 0x0123];
    let f = frame(&big);
    assert_eq!(&f[..2], &[0x01, 0x23]);
    assert_eq!(f.len(), 0x0125);
}

#[test]
fn frames_read_back_in_sequence() {
    let mut stream = frame(&[1, 2]);
    stream.extend(frame(&[3]));
    let (first, at) = read_frame(&stream, 0).unwrap();
    assert_eq!(first, vec![1, 2]);
    let (second, end) = read_frame(&stream, at).unwrap();
    assert_eq!(second, vec![3]);
    assert_eq!(end, stream.len());
    assert_eq!(read_frame(&stream, end), None);
    assert_eq!(read_frame(&[0, 5, 1], 0), None);
}

#[test]
fn hello_is_a_framed_string() {
    assert_eq!(hello_frame(&"ab".to_string()), Some(vec![0, 4, 0, 2, b'a', b'b']));
    assert_eq!(hello_frame(&"x".repeat(0xFFFE)), None);
}

#[test]
fn broadcast_reaches_every_worker() {
    let (s1, r1) = mpsc::channel::<Arc<Vec<u8>>>();
    let (s2, r2) = mpsc::channel::<Arc<Vec<u8>>>();
    let client = Client::new(vec![s1, s2]);
    assert_eq!(client.len(), 2);
    let m = Message::Ended(
        State {
            as_of: Timestamp { secs: 1, nanos: 0 },
            connection: Connection {
                interface: 0,
                src: Endpoint { addr: IpAddr::v4(1, 2, 3, 4), port: 1 },
                dst: Endpoint { addr: IpAddr::v4(1, 2, 3, 5), port: 2 },
                protocol: Protocol::Tcp,
            },
        },
        Closed::Reset,
    );
    assert!(client.send(&m));
    let a = r1.recv().unwrap();
    let b = r2.recv().unwrap();
    assert!(Arc::ptr_eq(&a, &b));
    let (payload, _) = read_frame(&a, 0).unwrap();
    assert_eq!(Message::decode(&payload), Some(m));
}

#[test]
fn a_gone_worker_does_not_stop_the_others() {
    let (s1, r1) = mpsc::channel::<Arc<Vec<u8>>>();
    let (s2, r2) = mpsc::channel::<Arc<Vec<u8>>>();
    drop(r1);
    let client = Client::new(vec![s1, s2]);
    client.send_frame(&vec![4, 2]);
    assert_eq!(*r2.recv().unwrap(), vec![0, 2, 4, 2]);
}

#[test]
fn sixth_attempt_waits_out_the_window() {
    let mut remote = Backoff::new(1_000);
    let mut other = Backoff::new(1_000);
    for (i, now) in [1_000u64, 1_200, 1_400, 1_600, 1_800].iter().enumerate() {
        assert_eq!(remote.before_attempt(*now), 0, "attempt {}", i + 1);
        remote.record_failure();
    }
    let delay = remote.before_attempt(2_000);
    assert_eq!(delay, 9_000);
    assert!(2_000 + delay >= 1_000 + 10_000);
    remote.record_failure();
    assert_eq!(remote.before_attempt(11_500), 9_500);
    assert_eq!(other.before_attempt(2_000), 0);
    other.record_failure();
    assert_eq!(other.failures, 1);
}

#[test]
fn attempt_after_window_is_not_delayed() {
    let mut remote = Backoff::with_policy(0, 2, 500);
    remote.record_failure();
    remote.record_failure();
    assert_eq!(remote.before_attempt(600), 0);
    assert_eq!(remote.since, 600);
}

#[test]
fn session_greets_then_streams_and_resends_after_failure() {
    let mut s = Session::new(Backoff::new(0));
    assert_eq!(s.step(Event::Start, 0), Action::Connect(0));
    assert_eq!(s.step(Event::Connected, 1), Action::SendHello);
    assert_eq!(s.step(Event::Wrote, 2), Action::Receive);
    let f = Arc::new(vec![0u8, 1, 9]);
    assert_eq!(s.step(Event::Received(f.clone()), 3), Action::SendPending);
    assert_eq!(**s.pending_frame().unwrap(), vec![0u8, 1, 9]);
    assert_eq!(s.step(Event::WriteFailed, 4), Action::Connect(0));
    assert_eq!(s.step(Event::Connected, 5), Action::SendHello);
    assert_eq!(s.step(Event::Wrote, 6), Action::SendPending);
    assert_eq!(**s.pending_frame().unwrap(), vec![0u8, 1, 9]);
    assert_eq!(s.step(Event::Wrote, 7), Action::Receive);
    assert!(s.pending_frame().is_none());
    assert_eq!(s.step(Event::Closed, 8), Action::Stop);
}

#[test]
fn session_backs_off_on_the_sixth_connect() {
    let mut s = Session::new(Backoff::new(1_000));
    assert_eq!(s.step(Event::Start, 1_000), Action::Connect(0));
    for now in [1_100u64, 1_200, 1_300, 1_400] {
        assert_eq!(s.step(Event::ConnectFailed, now), Action::Connect(0));
    }
    assert_eq!(s.step(Event::ConnectFailed, 1_500), Action::Connect(9_500));
    let mut other = Session::new(Backoff::new(1_000));
    assert_eq!(other.step(Event::Start, 1_500), Action::Connect(0));
    assert_eq!(other.step(Event::Wrote, 1_600), Action::Stop);
}
