use glosco::model::{Closed, Connection, Endpoint, IpAddr, Message, Name, Problem, Protocol, Resolution, State, Timestamp};

fn state() -> State {
    State {
        as_of: Timestamp { secs: 0x0102_0304_0506_0708, nanos: 999_999_999 },
        connection: Connection {
            interface: 7,
            src: Endpoint { addr: IpAddr::v4(10, 0, 0, 1), port: 4000 },
            dst: Endpoint { addr: IpAddr::V6(0x2001_0db8_0000_0000_0000_0000_0000_0001), port: 80 },
            protocol: Protocol::Tcp,
        },
    }
}

fn round_trip(m: &Message) {
    let mut bytes = Vec::new();
    assert!(m.encode(&mut bytes));
    assert_eq!(Message::decode(&bytes).as_ref(), Some(m));
    let (back, used) = glosco::codec::read_message(&bytes, 0).unwrap();
    assert_eq!(&back, m);
    assert_eq!(used, bytes.len());
}

#[test]
fn every_message_round_trips() {
    round_trip(&Message::Active(state()));
    for c in [Closed::Normally, Closed::Reset, Closed::TimedOut, Closed::Connectionless] {
        round_trip(&Message::Ended(state(), c));
    }
    round_trip(&Message::Failed(state(), Problem { kind: 3, code: 13 }));
    let names = vec![
        Name { name: "example.com".to_string(), address: None },
        Name { name: "a.example".to_string(), address: Some(Resolution::Address(IpAddr::V6(5))) },
        Name { name: "b.example".to_string(), address: Some(Resolution::Alias("héllo".to_string())) },
        Name { name: "_sip._tcp".to_string(), address: Some(Resolution::Service("srv".to_string(), Some(5060))) },
        Name { name: "mx".to_string(), address: Some(Resolution::Service("mail".to_string(), None)) },
        Name { name: "txt".to_string(), address: Some(Resolution::Text(vec![vec![1, 2], vec![], vec![255; 255]])) },
    ];
    round_trip(&Message::Name(state(), names));
    round_trip(&Message::Name(state(), Vec::new()));
}

#[test]
fn active_layout_is_exact() {
    let st = State {
        as_of: Timestamp { secs: 1, nanos: 2 },
        connection: Connection {
            interface: 0x0102,
            src: Endpoint { addr: IpAddr::v4(10, 0, 0, 1), port: 4000 },
            dst: Endpoint { addr: IpAddr::v4(10, 0, 0, 2), port: 80 },
            protocol: Protocol::Udp,
        },
    };
    let mut bytes = Vec::new();
    assert!(Message::Active(st).encode(&mut bytes));
    let expected: Vec<u8> = vec![
        1, 0, 0, 0, 0, 0, 0, 0, 1, 0, 0, 0, 2, 1, 2, 1, 10, 0, 0, 1, 0x0f, 0xa0, 1, 10, 0, 0, 2, 0, 80, 2,
    ];
    assert_eq!(bytes, expected);
}

#[test]
fn tags_are_fixed() {
    assert_eq!(Protocol::Tcp.number(), 1);
    assert_eq!(Protocol::Udp.number(), 2);
    assert_eq!(Closed::Normally.number(), 1);
    assert_eq!(Closed::Reset.number(), 2);
    assert_eq!(Closed::Connectionless.number(), 3);
    assert_eq!(Closed::TimedOut.number(), 4);
    assert_eq!(Resolution::Address(IpAddr::V4(0)).number(), 1);
    assert_eq!(Resolution::Alias(String::new()).number(), 2);
    assert_eq!(Resolution::Service(String::new(), None).number(), 3);
    assert_eq!(Resolution::Text(Vec::new()).number(), 4);
    let tags: Vec<u8> = [
        Message::Active(state()),
        Message::Ended(state(), Closed::Reset),
        Message::Failed(state(), Problem { kind: 0, code: 0 }),
        Message::Name(state(), Vec::new()),
    ]
    .iter()
    .map(|m| {
        let mut b = Vec::new();
        assert!(m.encode(&mut b));
        b[0]
    })
    .collect();
    assert_eq!(tags, vec![1, 2, 3, 4]);
}

#[test]
fn unknown_tags_fail() {
    let mut bytes = Vec::new();
    assert!(Message::Ended(state(), Closed::Reset).encode(&mut bytes));
    for bad in [0u8, 5, 255] {
        let mut b = bytes.clone();
        b[0] = bad;
        assert_eq!(Message::decode(&b), None);
    }
    let mut b = bytes.clone();
    let last = b.len() - 1;
    b[last] = 9;
    assert_eq!(Message::decode(&b), None);
    let mut b = bytes.clone();
    b[13 + 2] = 3;
    assert_eq!(Message::decode(&b), None);
}

#[test]
fn truncated_input_fails() {
    let mut bytes = Vec::new();
    let m = Message::Name(state(), vec![Name { name: "x".to_string(), address: None }]);
    assert!(m.encode(&mut bytes));
    for n in 0..bytes.len() {
        assert_eq!(Message::decode(&bytes[..n]), None);
    }
    assert_eq!(Message::decode(&[]), None);
}

#[test]
fn invalid_utf8_fails() {
    let mut bytes = Vec::new();
    let m = Message::Name(state(), vec![Name { name: "ab".to_string(), address: None }]);
    assert!(m.encode(&mut bytes));
    let len = bytes.len();
    bytes[len - 3] = 0xff;
    assert_eq!(Message::decode(&bytes), None);
}

#[test]
fn nanoseconds_carry_into_seconds() {
    let mut bytes = vec![1u8];
    bytes.extend_from_slice(&5u64.to_be_bytes());
    bytes.extend_from_slice(&2_500_000_000u32.to_be_bytes());
    let mut rest = Vec::new();
    glosco::codec::write_connection(&mut rest, &state().connection);
    bytes.extend_from_slice(&rest);
    match Message::decode(&bytes) {
        Some(Message::Active(st)) => assert_eq!(st.as_of, Timestamp { secs: 7, nanos: 500_000_000 }),
        other => panic!("unexpected {:?}", other),
    }
    let mut overflow = vec![1u8];
    overflow.extend_from_slice(&u64::MAX.to_be_bytes());
    overflow.extend_from_slice(&1_000_000_000u32.to_be_bytes());
    overflow.extend_from_slice(&rest);
    assert_eq!(Message::decode(&overflow), None);
}

#[test]
fn unwritable_messages_are_refused() {
    let mut s = state();
    s.connection.interface = 0x10000;
    let mut out = vec![9u8];
    assert!(!Message::Active(s).encode(&mut out));
    assert_eq!(out, vec![9u8]);
    let mut t = state();
    t.as_of.nanos = 1_000_000_000;
    assert!(!Message::Active(t).encode(&mut out));
    let many: Vec<Name> = (0..256).map(|_| Name { name: String::new(), address: None }).collect();
    assert!(!Message::Name(state(), many).encode(&mut out));
    let long = Name { name: "x".repeat(0x10000), address: None };
    assert!(!Message::Name(state(), vec![long]).encode(&mut out));
    let texts = Name { name: String::new(), address: Some(Resolution::Text(vec![vec![0; 256]])) };
    assert!(!Message::Name(state(), vec![texts]).encode(&mut out));
    assert_eq!(out, vec![9u8]);
}

#[test]
fn unknown_option_flag_fails() {
    let mut bytes = Vec::new();
    let m = Message::Name(state(), vec![Name { name: "n".to_string(), address: None }]);
    assert!(m.encode(&mut bytes));
    let last = bytes.len() - 1;
    assert_eq!(bytes[last], 0);
    assert_eq!(Message::decode(&bytes), Some(m));
    for bad in [2u8, 7, 255] {
        bytes[last] = bad;
        assert_eq!(Message::decode(&bytes), None);
    }
    let mut svc = Vec::new();
    let s = Message::Name(
        state(),
        vec![Name { name: "n".to_string(), address: Some(Resolution::Service("t".to_string(), None)) }],
    );
    assert!(s.encode(&mut svc));
    let last = svc.len() - 1;
    assert_eq!(svc[last], 0);
    svc[last] = 2;
    assert_eq!(Message::decode(&svc), None);
}
