use glosco::model::{Closed, Connection, Endpoint, HostPair, IpAddr, Message, Name, Problem, Protocol, Resolution, State, Timestamp};
use glosco::packet::{parse_dns, resolution_of, IcmpKind, RecordData};
use glosco::tracker::{Connections, LinkType};

fn at(secs: u64) -> Timestamp {
    Timestamp { secs, nanos: 0 }
}

fn ipv4_frame(proto: u8, src: [u8; 4], dst: [u8; 4], transport: &[u8]) -> Vec<u8> {
    let mut f = vec![0u8; 12];
    f.extend_from_slice(&[0x08, 0x00]);
    f.extend_from_slice(&[0x45, 0, 0, 0, 0, 0, 0, 0, 64, proto, 0, 0]);
    f.extend_from_slice(&src);
    f.extend_from_slice(&dst);
    f.extend_from_slice(transport);
    f
}

fn tcp_segment(sport: u16, dport: u16, flags: u8) -> Vec<u8> {
    let mut t = Vec::new();
    t.extend_from_slice(&sport.to_be_bytes());
    t.extend_from_slice(&dport.to_be_bytes());
    t.extend_from_slice(&[0, 0, 0, 1, 0, 0, 0, 0, 0x50, flags, 0xff, 0xff, 0, 0, 0, 0]);
    t
}

fn udp_datagram(sport: u16, dport: u16, payload: &[u8]) -> Vec<u8> {
    let mut u = Vec::new();
    u.extend_from_slice(&sport.to_be_bytes());
    u.extend_from_slice(&dport.to_be_bytes());
    u.extend_from_slice(&((payload.len() + 8) as u16).to_be_bytes());
    u.extend_from_slice(&[0, 0]);
    u.extend_from_slice(payload);
    u
}

const SYN: u8 = 0x02;
const RST: u8 = 0x04;
const FIN: u8 = 0x01;

fn a() -> [u8; 4] {
    [10, 0, 0, 1]
}

fn b() -> [u8; 4] {
    [10, 0, 0, 2]
}

fn ab_connection(protocol: Protocol, aport: u16, bport: u16) -> Connection {
    Connection {
        interface: 0,
        src: Endpoint { addr: IpAddr::v4(10, 0, 0, 1), port: aport },
        dst: Endpoint { addr: IpAddr::v4(10, 0, 0, 2), port: bport },
        protocol,
    }
}

#[test]
fn syn_then_reverse_reset_share_one_connection() {
    let mut c = Connections::new();
    let syn = ipv4_frame(6, a(), b(), &tcp_segment(4000, 80, SYN));
    let out = c.classify(0, LinkType::Ethernet, &syn, at(100));
    let conn = ab_connection(Protocol::Tcp, 4000, 80);
    assert_eq!(out, vec![Message::Active(State { as_of: at(100), connection: conn })]);

    let rst = ipv4_frame(6, b(), a(), &tcp_segment(80, 4000, RST));
    let out = c.classify(0, LinkType::Ethernet, &rst, at(101));
    let state = State { as_of: at(101), connection: conn };
    assert_eq!(out, vec![Message::Ended(state, Closed::Reset)]);

    let mut bytes = Vec::new();
    assert!(out[0].encode(&mut bytes));
    let mut state_bytes = Vec::new();
    glosco::codec::write_state(&mut state_bytes, &state);
    assert_eq!(bytes[0], 2);
    assert_eq!(&bytes[1..bytes.len() - 1], &state_bytes[..]);
    assert_eq!(bytes[bytes.len() - 1], 2);
}

#[test]
fn heartbeat_suppresses_within_window() {
    let mut c = Connections::new();
    let syn = ipv4_frame(6, a(), b(), &tcp_segment(4000, 80, SYN));
    assert_eq!(c.classify(0, LinkType::Ethernet, &syn, at(1000)).len(), 1);
    assert_eq!(c.classify(0, LinkType::Ethernet, &syn, at(1010)).len(), 0);
    assert_eq!(c.classify(0, LinkType::Ethernet, &syn, at(1029)).len(), 0);
    let later = c.classify(0, LinkType::Ethernet, &syn, at(1031));
    let conn = ab_connection(Protocol::Tcp, 4000, 80);
    assert_eq!(later, vec![Message::Active(State { as_of: at(1031), connection: conn })]);
}

#[test]
fn heartbeat_window_is_strict() {
    let mut c = Connections::new();
    let syn = ipv4_frame(6, a(), b(), &tcp_segment(4000, 80, SYN));
    assert_eq!(c.classify(0, LinkType::Ethernet, &syn, at(0)).len(), 1);
    assert_eq!(c.classify(0, LinkType::Ethernet, &syn, at(30)).len(), 0);
    let just_after = Timestamp { secs: 30, nanos: 1 };
    assert_eq!(c.classify(0, LinkType::Ethernet, &syn, just_after).len(), 1);
}

#[test]
fn heartbeat_after_ended_is_fresh() {
    let mut c = Connections::new();
    let fin = ipv4_frame(6, a(), b(), &tcp_segment(4000, 80, FIN));
    let syn = ipv4_frame(6, a(), b(), &tcp_segment(4000, 80, SYN));
    let out = c.classify(0, LinkType::Ethernet, &fin, at(5));
    let conn = ab_connection(Protocol::Tcp, 4000, 80);
    assert_eq!(out, vec![Message::Ended(State { as_of: at(5), connection: conn }, Closed::Normally)]);
    assert_eq!(c.classify(0, LinkType::Ethernet, &syn, at(6)).len(), 1);
}

#[test]
fn resets_are_never_suppressed() {
    let mut c = Connections::new();
    let rst = ipv4_frame(6, a(), b(), &tcp_segment(4000, 80, RST | FIN));
    for i in 0..7u64 {
        let out = c.classify(0, LinkType::Ethernet, &rst, at(i));
        assert_eq!(out.len(), 1);
        assert!(matches!(out[0], Message::Ended(_, Closed::Reset)));
    }
}

#[test]
fn interfaces_are_distinct_flows() {
    let mut c = Connections::new();
    let syn = ipv4_frame(6, a(), b(), &tcp_segment(4000, 80, SYN));
    assert_eq!(c.classify(0, LinkType::Ethernet, &syn, at(0)).len(), 1);
    assert_eq!(c.classify(1, LinkType::Ethernet, &syn, at(0)).len(), 1);
    let other = ab_connection(Protocol::Tcp, 4000, 80);
    let mut on_one = other;
    on_one.interface = 1;
    assert!(c.last_message(&other).is_some());
    assert!(c.last_message(&on_one).is_some());
}

#[test]
fn udp_is_connectionless_every_time() {
    let mut c = Connections::new();
    let frame = ipv4_frame(17, b(), a(), &udp_datagram(5000, 6000, &[1, 2, 3]));
    let conn = ab_connection(Protocol::Udp, 6000, 5000);
    for i in 0..3u64 {
        let out = c.classify(2, LinkType::Ethernet, &frame, at(i));
        let mut expected = conn;
        expected.interface = 2;
        assert_eq!(out, vec![Message::Ended(State { as_of: at(i), connection: expected }, Closed::Connectionless)]);
    }
}

fn dns_response() -> Vec<u8> {
    let mut d = vec![0x12, 0x34, 0x81, 0x80, 0, 1, 0, 1, 0, 0, 0, 0];
    d.extend_from_slice(&[7, b'e', b'x', b'a', b'm', b'p', b'l', b'e', 3, b'c', b'o', b'm', 0]);
    d.extend_from_slice(&[0, 1, 0, 1]);
    d.extend_from_slice(&[0xc0, 0x0c, 0, 1, 0, 1, 0, 0, 0x0e, 0x10, 0, 4, 93, 184, 216, 34]);
    d
}

#[test]
fn dns_emits_ended_and_names() {
    let mut c = Connections::new();
    let frame = ipv4_frame(17, [10, 0, 0, 53], a(), &udp_datagram(53, 40000, &dns_response()));
    let out = c.classify(0, LinkType::Ethernet, &frame, at(7));
    assert_eq!(out.len(), 2);
    let conn = Connection {
        interface: 0,
        src: Endpoint { addr: IpAddr::v4(10, 0, 0, 1), port: 40000 },
        dst: Endpoint { addr: IpAddr::v4(10, 0, 0, 53), port: 53 },
        protocol: Protocol::Udp,
    };
    let state = State { as_of: at(7), connection: conn };
    assert_eq!(out[0], Message::Ended(state, Closed::Connectionless));
    let names = vec![
        Name { name: "example.com".to_string(), address: None },
        Name { name: "example.com".to_string(), address: Some(Resolution::Address(IpAddr::v4(93, 184, 216, 34))) },
    ];
    assert_eq!(out[1], Message::Name(state, names));
}

#[test]
fn dns_that_does_not_parse_emits_nothing() {
    let mut c = Connections::new();
    let frame = ipv4_frame(17, a(), b(), &udp_datagram(1234, 53, &[1, 2, 3]));
    assert!(c.classify(0, LinkType::Ethernet, &frame, at(0)).is_empty());
}

#[test]
fn icmp_port_unreachable_reports_the_quoted_flow() {
    let mut c = Connections::new();
    let mut icmp = vec![3, 3, 0, 0, 0, 0, 0, 0];
    icmp.extend_from_slice(&[0x45, 0, 0, 0, 0, 0, 0, 0, 64, 17, 0, 0, 10, 0, 0, 1, 10, 0, 0, 2]);
    icmp.extend_from_slice(&[0; 8]);
    icmp.extend_from_slice(&udp_datagram(7000, 9000, &[]));
    let frame = ipv4_frame(1, b(), a(), &icmp);
    let out = c.classify(0, LinkType::Ethernet, &frame, at(3));
    let conn = ab_connection(Protocol::Udp, 9000, 7000);
    assert_eq!(out, vec![Message::Failed(State { as_of: at(3), connection: conn }, Problem { kind: 3, code: 3 })]);
}

#[test]
fn icmp_without_flow_emits_nothing() {
    let mut c = Connections::new();
    let frame = ipv4_frame(1, b(), a(), &[8, 0, 0, 0, 1]);
    assert!(c.classify(0, LinkType::Ethernet, &frame, at(3)).is_empty());
}

#[test]
fn icmp_lookup_table() {
    assert_eq!(Problem::from_icmp(IcmpKind::EchoReply, 0, 9), Problem { kind: 0, code: 0 });
    assert_eq!(Problem::from_icmp(IcmpKind::Reserved, 2, 9), Problem { kind: 2, code: 9 });
    assert_eq!(Problem::from_icmp(IcmpKind::Unreachable(13), 3, 13), Problem { kind: 3, code: 13 });
    assert_eq!(Problem::from_icmp(IcmpKind::SourceQuench, 4, 0), Problem { kind: 4, code: 0 });
    assert_eq!(Problem::from_icmp(IcmpKind::Redirect(1), 5, 1), Problem { kind: 5, code: 1 });
    assert_eq!(Problem::from_icmp(IcmpKind::EchoRequest, 8, 4), Problem { kind: 8, code: 0 });
    assert_eq!(Problem::from_icmp(IcmpKind::TimeExceeded(1), 11, 1), Problem { kind: 11, code: 1 });
    assert_eq!(Problem::from_icmp(IcmpKind::ParameterProblem(2), 12, 2), Problem { kind: 12, code: 2 });
    assert_eq!(Problem::from_icmp(IcmpKind::Timestamp, 13, 0), Problem { kind: 13, code: 0 });
    assert_eq!(Problem::from_icmp(IcmpKind::TimestampReply, 14, 0), Problem { kind: 14, code: 0 });
    assert_eq!(Problem::from_icmp(IcmpKind::ExtendedEchoReply(4), 43, 4), Problem { kind: 43, code: 4 });
    assert_eq!(Problem::from_icmp(IcmpKind::Unknown(0xc807), 200, 7), Problem { kind: 200, code: 7 });
}

fn icmp_frame(kind: u8, code: u8) -> Vec<u8> {
    let mut icmp = vec![kind, code, 0, 0];
    icmp.extend_from_slice(&udp_datagram(7000, 9000, &[]));
    ipv4_frame(1, b(), a(), &icmp)
}

#[test]
fn icmp_reserved_and_unknown_types_keep_their_pair() {
    let mut c = Connections::new();
    let conn = ab_connection(Protocol::Udp, 9000, 7000);
    for (kind, code) in [(7u8, 5u8), (2, 1), (77, 3), (3, 200)] {
        let frame = icmp_frame(kind, code);
        let out = c.classify(0, LinkType::Ethernet, &frame, at(1));
        assert_eq!(out, vec![Message::Failed(State { as_of: at(1), connection: conn }, Problem { kind, code })]);
    }
    let out = c.classify(0, LinkType::Ethernet, &icmp_frame(13, 0), at(2));
    assert_eq!(out, vec![Message::Failed(State { as_of: at(2), connection: conn }, Problem { kind: 13, code: 0 })]);
}

#[test]
fn record_data_resolutions() {
    assert_eq!(resolution_of(RecordData::A(0x0a000001)), Some(Resolution::Address(IpAddr::v4(10, 0, 0, 1))));
    assert_eq!(resolution_of(RecordData::Aaaa(7)), Some(Resolution::Address(IpAddr::V6(7))));
    assert_eq!(resolution_of(RecordData::Cname("c".to_string())), Some(Resolution::Alias("c".to_string())));
    assert_eq!(resolution_of(RecordData::Mx("m".to_string())), Some(Resolution::Service("m".to_string(), None)));
    assert_eq!(
        resolution_of(RecordData::Srv("s".to_string(), 5060)),
        Some(Resolution::Service("s".to_string(), Some(5060)))
    );
    assert_eq!(resolution_of(RecordData::Txt(vec![vec![1]])), Some(Resolution::Text(vec![vec![1]])));
    assert_eq!(resolution_of(RecordData::Other), None);
}

#[test]
fn dns_mx_answer_is_a_service_without_port() {
    let mut d = vec![0x12, 0x34, 0x81, 0x80, 0, 1, 0, 1, 0, 0, 0, 0];
    d.extend_from_slice(&[1, b'x', 0, 0, 15, 0, 1]);
    d.extend_from_slice(&[0xc0, 0x0c, 0, 15, 0, 1, 0, 0, 0, 60, 0, 6, 0, 10, 1, b'm', 0xc0, 0x0c]);
    let (questions, answers) = parse_dns(&d).unwrap();
    assert_eq!(questions, vec![Name { name: "x".to_string(), address: None }]);
    assert_eq!(
        answers,
        vec![Name { name: "x".to_string(), address: Some(Resolution::Service("m.x".to_string(), None)) }]
    );
}

#[test]
fn ipv6_tcp_is_tracked() {
    let mut f = vec![0u8; 12];
    f.extend_from_slice(&[0x86, 0xdd]);
    f.extend_from_slice(&[0x60, 0, 0, 0, 0, 20, 6, 64]);
    let src: [u8; 16] = [0x20, 1, 0x0d, 0xb8, 0, 0, 0, 0, 0, 0, 0, 0, 0, 0, 0, 2];
    let dst: [u8; 16] = [0x20, 1, 0x0d, 0xb8, 0, 0, 0, 0, 0, 0, 0, 0, 0, 0, 0, 1];
    f.extend_from_slice(&src);
    f.extend_from_slice(&dst);
    f.extend_from_slice(&tcp_segment(443, 5555, SYN));
    let mut c = Connections::new();
    let out = c.classify(4, LinkType::Ethernet, &f, at(1));
    let conn = Connection {
        interface: 4,
        src: Endpoint { addr: IpAddr::V6(u128::from_be_bytes(dst)), port: 5555 },
        dst: Endpoint { addr: IpAddr::V6(u128::from_be_bytes(src)), port: 443 },
        protocol: Protocol::Tcp,
    };
    assert_eq!(out, vec![Message::Active(State { as_of: at(1), connection: conn })]);
}

#[test]
fn other_links_and_short_frames_emit_nothing() {
    let mut c = Connections::new();
    let syn = ipv4_frame(6, a(), b(), &tcp_segment(4000, 80, SYN));
    assert!(c.classify(0, LinkType::Other, &syn, at(0)).is_empty());
    assert!(c.classify(0, LinkType::Ethernet, &syn[..20], at(0)).is_empty());
    assert!(c.classify(0, LinkType::Ethernet, &[], at(0)).is_empty());
    let mut arp = syn.clone();
    arp[12] = 0x08;
    arp[13] = 0x06;
    assert!(c.classify(0, LinkType::Ethernet, &arp, at(0)).is_empty());
}

#[test]
fn canonical_is_symmetric() {
    let x = Endpoint { addr: IpAddr::v4(192, 168, 1, 1), port: 9 };
    let y = Endpoint { addr: IpAddr::V6(1), port: 1 };
    let fwd = Connection { interface: 3, src: y, dst: x, protocol: Protocol::Udp };
    let rev = Connection { interface: 3, src: x, dst: y, protocol: Protocol::Udp };
    assert_eq!(fwd.canonical(), rev.canonical());
    assert_eq!(fwd.canonical(), rev);
}

#[test]
fn keepalive_is_configurable() {
    let mut c = Connections::with_keepalive(5);
    let syn = ipv4_frame(6, a(), b(), &tcp_segment(4000, 80, SYN));
    assert_eq!(c.classify(0, LinkType::Ethernet, &syn, at(0)).len(), 1);
    assert_eq!(c.classify(0, LinkType::Ethernet, &syn, at(5)).len(), 0);
    assert_eq!(c.classify(0, LinkType::Ethernet, &syn, at(6)).len(), 1);
    let _ = HostPair { src: IpAddr::V4(1), dst: IpAddr::V4(2) };
}
