//! The connection tracker: classifies link-layer frames down to their flows and
//! keeps, for each flow, the last message it emitted, from which it decides what
//! to emit next.
use vstd::prelude::*;

use crate::codec::message_state;
use crate::model::{
    Closed, Connection, Endpoint, HostPair, Message, MessageV, Name, NameV, Problem, Protocol,
    State, Timestamp, canonical_of, names_view,
};
use crate::packet::{
    EtherKind, IcmpKind, NextProto, dns_names_of, ethernet_spec, icmp_spec, ipv4_spec, ipv6_spec, parse_dns,
    parse_ethernet, parse_icmp, parse_ipv4, parse_ipv6, parse_tcp, parse_udp, tcp_spec, udp_spec,
};

verus! {

/// The default heartbeat window: an open flow is reported at most once per window.
pub const KEEPALIVE_SECS: u64 = 30;

/// The port on which DNS traffic is recognised.
pub const DNS_PORT: u16 = 53;

/// The link layer a frame was captured on.
#[derive(Clone, Copy, Debug, PartialEq, Eq, Structural)]
pub enum LinkType {
    Ethernet,
    Other,
}

/// A tracker table: for each flow, the last message emitted for it.
pub type Table = Map<Connection, MessageV>;

/// What one step of the tracker emits, and the table it leaves.
pub type Step = (Seq<MessageV>, Table);

/// Nanoseconds since the epoch.
pub open spec fn nanos_of(t: Timestamp) -> int {
    t.secs as int * 1_000_000_000 + t.nanos as int
}

/// The values of a list of messages.
pub open spec fn messages_view(ms: Seq<Message>) -> Seq<MessageV> {
    ms.map_values(|m: Message| m@)
}

/// The flow between two endpoints of a host pair, under its canonical key.
pub open spec fn flow(interface: usize, hosts: HostPair, sport: u16, dport: u16, p: Protocol) -> Connection {
    canonical_of(
        Connection {
            interface,
            src: Endpoint { addr: hosts.src, port: sport },
            dst: Endpoint { addr: hosts.dst, port: dport },
            protocol: p,
        },
    )
}

/// Whether the table already holds an `Active` for `c` that is at most
/// `keepalive` seconds older than `now`.
pub open spec fn fresh_active(t: Table, c: Connection, now: Timestamp, keepalive: u64) -> bool {
    &&& t.contains_key(c)
    &&& t[c] is Active
    &&& nanos_of(now) - nanos_of(message_state(t[c]).as_of) <= keepalive as int * 1_000_000_000
}

/// A packet of an open flow: a fresh `Active` unless a recent one stands.
pub open spec fn open_step(t: Table, c: Connection, now: Timestamp, keepalive: u64) -> Step {
    let m = MessageV::Active(State { as_of: now, connection: c });
    if fresh_active(t, c, now, keepalive) {
        (Seq::empty(), t)
    } else {
        (seq![m], t.insert(c, m))
    }
}

/// A packet that ends a flow: always emitted.
pub open spec fn closed_step(t: Table, c: Connection, how: Closed, now: Timestamp) -> Step {
    let m = MessageV::Ended(State { as_of: now, connection: c }, how);
    (seq![m], t.insert(c, m))
}

/// A report that a flow failed: always emitted.
pub open spec fn unavail_step(t: Table, c: Connection, p: Problem, now: Timestamp) -> Step {
    let m = MessageV::Failed(State { as_of: now, connection: c }, p);
    (seq![m], t.insert(c, m))
}

/// DNS traffic: the flow ends as connectionless, and the names follow.
pub open spec fn names_step(t: Table, c: Connection, names: Seq<NameV>, now: Timestamp) -> Step {
    let (ms, t2) = closed_step(t, c, Closed::Connectionless, now);
    (ms.push(MessageV::Name(State { as_of: now, connection: c }, names)), t2)
}

pub open spec fn dns_step(t: Table, c: Connection, payload: Seq<u8>, now: Timestamp) -> Step {
    match dns_names_of(payload) {
        Some((qs, ans)) => if qs.len() == 0 {
            (Seq::empty(), t)
        } else {
            names_step(t, c, qs + ans, now)
        },
        None => (Seq::empty(), t),
    }
}

pub open spec fn tcp_step(
    t: Table,
    interface: usize,
    segment: Seq<u8>,
    hosts: HostPair,
    now: Timestamp,
    keepalive: u64,
) -> Step {
    match tcp_spec(segment) {
        Some((sp, dp, rst, fin)) => {
            let c = flow(interface, hosts, sp, dp, Protocol::Tcp);
            if rst {
                closed_step(t, c, Closed::Reset, now)
            } else if fin {
                closed_step(t, c, Closed::Normally, now)
            } else {
                open_step(t, c, now, keepalive)
            }
        },
        None => (Seq::empty(), t),
    }
}

pub open spec fn udp_step(t: Table, interface: usize, datagram: Seq<u8>, hosts: HostPair, now: Timestamp) -> Step {
    match udp_spec(datagram) {
        Some((sp, dp, rest)) => {
            let c = flow(interface, hosts, sp, dp, Protocol::Udp);
            if sp == DNS_PORT || dp == DNS_PORT {
                dns_step(t, c, rest, now)
            } else {
                closed_step(t, c, Closed::Connectionless, now)
            }
        },
        None => (Seq::empty(), t),
    }
}

/// The problem an ICMP message reports: for each kind of the parser's
/// classification its ICMP type and code. The reserved types carry no code in
/// that classification, so they keep the raw pair of the header (`raw_kind`,
/// `raw_code`), as unknown pairs do.
pub open spec fn problem_of(k: IcmpKind, raw_kind: u8, raw_code: u8) -> Problem {
    match k {
        IcmpKind::EchoReply => Problem { kind: 0, code: 0 },
        IcmpKind::Reserved => Problem { kind: raw_kind, code: raw_code },
        IcmpKind::Unreachable(c) => Problem { kind: 3, code: c },
        IcmpKind::SourceQuench => Problem { kind: 4, code: 0 },
        IcmpKind::Redirect(c) => Problem { kind: 5, code: c },
        IcmpKind::EchoRequest => Problem { kind: 8, code: 0 },
        IcmpKind::RouterAdvertisement => Problem { kind: 9, code: 0 },
        IcmpKind::RouterSolicitation => Problem { kind: 10, code: 0 },
        IcmpKind::TimeExceeded(c) => Problem { kind: 11, code: c },
        IcmpKind::ParameterProblem(c) => Problem { kind: 12, code: c },
        IcmpKind::Timestamp => Problem { kind: 13, code: 0 },
        IcmpKind::TimestampReply => Problem { kind: 14, code: 0 },
        IcmpKind::ExtendedEchoRequest => Problem { kind: 42, code: 0 },
        IcmpKind::ExtendedEchoReply(c) => Problem { kind: 43, code: c },
        IcmpKind::Unknown(raw) => Problem { kind: (raw >> 8u16) as u8, code: raw as u8 },
    }
}

pub open spec fn icmp_step(t: Table, interface: usize, packet: Seq<u8>, hosts: HostPair, now: Timestamp) -> Step {
    match icmp_spec(packet) {
        Some((k, rest)) => {
            let p = problem_of(k, packet[0], packet[1]);
            match udp_spec(rest) {
                Some((sp, dp, _)) => unavail_step(t, flow(interface, hosts, sp, dp, Protocol::Udp), p, now),
                None => match tcp_spec(rest) {
                    Some((sp, dp, _, _)) => unavail_step(
                        t,
                        flow(interface, hosts, sp, dp, Protocol::Tcp),
                        p,
                        now,
                    ),
                    None => (Seq::empty(), t),
                },
            }
        },
        None => (Seq::empty(), t),
    }
}

/// A network-layer header, once parsed; `icmp` is the protocol number under
/// which ICMP is followed (ICMP for IPv4, ICMPv6 for IPv6).
pub open spec fn ip_step(
    t: Table,
    interface: usize,
    header: Option<(HostPair, NextProto, Seq<u8>)>,
    icmp: NextProto,
    now: Timestamp,
    keepalive: u64,
) -> Step {
    match header {
        Some((hosts, next, rest)) => if next == NextProto::Tcp {
            tcp_step(t, interface, rest, hosts, now, keepalive)
        } else if next == NextProto::Udp {
            udp_step(t, interface, rest, hosts, now)
        } else if next == icmp {
            icmp_step(t, interface, rest, hosts, now)
        } else {
            (Seq::empty(), t)
        },
        None => (Seq::empty(), t),
    }
}

pub open spec fn ether_step(t: Table, interface: usize, frame: Seq<u8>, now: Timestamp, keepalive: u64) -> Step {
    match ethernet_spec(frame) {
        Some((EtherKind::Ipv4, rest)) => ip_step(t, interface, ipv4_spec(rest), NextProto::Icmp, now, keepalive),
        Some((EtherKind::Ipv6, rest)) => ip_step(t, interface, ipv6_spec(rest), NextProto::Icmp6, now, keepalive),
        _ => (Seq::empty(), t),
    }
}

/// What classifying one captured frame emits, and the table it leaves.
pub open spec fn classify_step(
    t: Table,
    interface: usize,
    link: LinkType,
    frame: Seq<u8>,
    now: Timestamp,
    keepalive: u64,
) -> Step {
    if link == LinkType::Ethernet {
        ether_step(t, interface, frame, now, keepalive)
    } else {
        (Seq::empty(), t)
    }
}

impl Problem {
    /// The problem an ICMP message of kind `k` reports; `raw_kind` and
    /// `raw_code` are the type and code bytes of its header.
    pub fn from_icmp(k: IcmpKind, raw_kind: u8, raw_code: u8) -> (r: Problem)
        ensures
            r == problem_of(k, raw_kind, raw_code),
    {
        match k {
            IcmpKind::EchoReply => Problem { kind: 0, code: 0 },
            IcmpKind::Reserved => Problem { kind: raw_kind, code: raw_code },
            IcmpKind::Unreachable(c) => Problem { kind: 3, code: c },
            IcmpKind::SourceQuench => Problem { kind: 4, code: 0 },
            IcmpKind::Redirect(c) => Problem { kind: 5, code: c },
            IcmpKind::EchoRequest => Problem { kind: 8, code: 0 },
            IcmpKind::RouterAdvertisement => Problem { kind: 9, code: 0 },
            IcmpKind::RouterSolicitation => Problem { kind: 10, code: 0 },
            IcmpKind::TimeExceeded(c) => Problem { kind: 11, code: c },
            IcmpKind::ParameterProblem(c) => Problem { kind: 12, code: c },
            IcmpKind::Timestamp => Problem { kind: 13, code: 0 },
            IcmpKind::TimestampReply => Problem { kind: 14, code: 0 },
            IcmpKind::ExtendedEchoRequest => Problem { kind: 42, code: 0 },
            IcmpKind::ExtendedEchoReply(c) => Problem { kind: 43, code: c },
            IcmpKind::Unknown(raw) => Problem { kind: (raw >> 8u16) as u8, code: raw as u8 },
        }
    }
}

/// Nanoseconds since the epoch, exactly.
fn nanos_since_epoch(t: &Timestamp) -> (r: u128)
    ensures
        r as int == nanos_of(*t),
{
    assert(t.secs as int * 1_000_000_000 <= 0xFFFF_FFFF_FFFF_FFFF * 1_000_000_000) by (nonlinear_arith)
        requires t.secs <= 0xFFFF_FFFF_FFFF_FFFF;
    t.secs as u128 * 1_000_000_000 + t.nanos as u128
}

/// The per-flow state of the tracker.
pub struct Connections {
    entries: Vec<(Connection, Message)>,
    keepalive: u64,
    table: Ghost<Table>,
}

impl Connections {
    /// The last message emitted for each flow.
    pub closed spec fn table(&self) -> Table {
        self.table@
    }

    /// The heartbeat window, in seconds.
    pub closed spec fn keepalive(&self) -> u64 {
        self.keepalive
    }

    /// The entries hold each flow at most once, and hold exactly the table.
    pub closed spec fn wf(&self) -> bool {
        &&& forall|i: int, j: int|
            0 <= i < j < self.entries@.len() ==> #[trigger] self.entries@[i].0
                != #[trigger] self.entries@[j].0
        &&& forall|c: Connection| #[trigger]
            self.table@.contains_key(c) <==> exists|i: int|
                0 <= i < self.entries@.len() && #[trigger] self.entries@[i].0 == c
        &&& forall|i: int|
            0 <= i < self.entries@.len() ==> self.table@[#[trigger] self.entries@[i].0]
                == self.entries@[i].1@
    }

    /// An empty tracker with the default heartbeat window.
    pub fn new() -> (r: Connections)
        ensures
            r.wf(),
            r.table() == Map::<Connection, MessageV>::empty(),
            r.keepalive() == KEEPALIVE_SECS,
    {
        Connections::with_keepalive(KEEPALIVE_SECS)
    }

    /// An empty tracker with a heartbeat window of `secs` seconds.
    pub fn with_keepalive(secs: u64) -> (r: Connections)
        ensures
            r.wf(),
            r.table() == Map::<Connection, MessageV>::empty(),
            r.keepalive() == secs,
    {
        Connections { entries: Vec::new(), keepalive: secs, table: Ghost(Map::empty()) }
    }

    /// The last message emitted for `c`, if any.
    pub fn last_message(&self, c: &Connection) -> (r: Option<&Message>)
        requires
            self.wf(),
        ensures
            match r {
                Some(m) => self.table().contains_key(*c) && self.table()[*c] == m@,
                None => !self.table().contains_key(*c),
            },
    {
        match self.position(c) {
            Some(i) => Some(&self.entries[i].1),
            None => None,
        }
    }

    fn position(&self, c: &Connection) -> (r: Option<usize>)
        requires
            self.wf(),
        ensures
            match r {
                Some(i) => i < self.entries@.len() && self.entries@[i as int].0 == *c,
                None => !self.table@.contains_key(*c),
            },
    {
        let mut i: usize = 0;
        while i < self.entries.len()
            invariant
                i <= self.entries@.len(),
                forall|j: int| 0 <= j < i ==> self.entries@[j].0 != *c,
            decreases self.entries@.len() - i,
        {
            if self.entries[i].0 == *c {
                return Some(i);
            }
            i += 1;
        }
        None
    }

    fn store(&mut self, c: Connection, m: Message)
        requires
            old(self).wf(),
        ensures
            final(self).wf(),
            final(self).table() == old(self).table().insert(c, m@),
            final(self).keepalive() == old(self).keepalive(),
    {
        let ghost mv = m@;
        let ghost before = self.entries@;
        match self.position(&c) {
            Some(i) => {
                self.entries.set(i, (c, m));
                self.table = Ghost(self.table@.insert(c, mv));
                assert forall|d: Connection| #[trigger]
                    self.table@.contains_key(d) <==> exists|k: int|
                        0 <= k < self.entries@.len() && #[trigger] self.entries@[k].0 == d by {
                    if self.table@.contains_key(d) && d != c {
                        let k = choose|k: int| 0 <= k < before.len() && #[trigger] before[k].0 == d;
                        assert(self.entries@[k].0 == d);
                    }
                    if d == c {
                        assert(self.entries@[i as int].0 == d);
                    }
                }
            },
            None => {
                self.entries.push((c, m));
                self.table = Ghost(self.table@.insert(c, mv));
                assert forall|d: Connection| #[trigger]
                    self.table@.contains_key(d) <==> exists|k: int|
                        0 <= k < self.entries@.len() && #[trigger] self.entries@[k].0 == d by {
                    if self.table@.contains_key(d) && d != c {
                        let k = choose|k: int| 0 <= k < before.len() && #[trigger] before[k].0 == d;
                        assert(self.entries@[k].0 == d);
                    }
                    if d == c {
                        assert(self.entries@[before.len() as int].0 == d);
                    }
                }
            },
        }
    }

    /// A packet of the open flow `conn`: emits a fresh `Active` unless one
    /// emitted within the heartbeat window stands.
    pub fn connection_open(&mut self, conn: Connection, now: Timestamp) -> (r: Vec<Message>)
        requires
            old(self).wf(),
        ensures
            final(self).wf(),
            final(self).keepalive() == old(self).keepalive(),
            (messages_view(r@), final(self).table()) == open_step(
                old(self).table(),
                conn,
                now,
                old(self).keepalive(),
            ),
    {
        let ghost t = self.table@;
        let recent = match self.position(&conn) {
            Some(i) => match &self.entries[i].1 {
                Message::Active(st) => {
                    let a = nanos_since_epoch(&now);
                    let b = nanos_since_epoch(&st.as_of);
                    let window = self.keepalive as u128 * 1_000_000_000;
                    assert(t[conn] == self.entries@[i as int].1@);
                    a <= b + window
                },
                _ => {
                    assert(t[conn] == self.entries@[i as int].1@);
                    false
                },
            },
            None => false,
        };
        if recent {
            let r: Vec<Message> = Vec::new();
            assert(messages_view(r@) =~= Seq::empty());
            r
        } else {
            let st = State { as_of: now, connection: conn };
            self.store(conn, Message::Active(st));
            let r = vec![Message::Active(st)];
            assert(messages_view(r@) =~= seq![MessageV::Active(st)]);
            r
        }
    }

    /// A packet that ends the flow `conn`: always emits `Ended`.
    pub fn connection_closed(&mut self, conn: Connection, how: Closed, now: Timestamp) -> (r: Vec<
        Message,
    >)
        requires
            old(self).wf(),
        ensures
            final(self).wf(),
            final(self).keepalive() == old(self).keepalive(),
            (messages_view(r@), final(self).table()) == closed_step(old(self).table(), conn, how, now),
    {
        let st = State { as_of: now, connection: conn };
        self.store(conn, Message::Ended(st, how));
        let r = vec![Message::Ended(st, how)];
        assert(messages_view(r@) =~= seq![MessageV::Ended(st, how)]);
        r
    }

    /// A report that the flow `conn` failed: always emits `Failed`.
    pub fn connection_unavail(&mut self, conn: Connection, problem: Problem, now: Timestamp) -> (r:
        Vec<Message>)
        requires
            old(self).wf(),
        ensures
            final(self).wf(),
            final(self).keepalive() == old(self).keepalive(),
            (messages_view(r@), final(self).table()) == unavail_step(
                old(self).table(),
                conn,
                problem,
                now,
            ),
    {
        let st = State { as_of: now, connection: conn };
        self.store(conn, Message::Failed(st, problem));
        let r = vec![Message::Failed(st, problem)];
        assert(messages_view(r@) =~= seq![MessageV::Failed(st, problem)]);
        r
    }

    /// DNS traffic on `conn`: the flow ends as connectionless and the names follow.
    pub fn send_names(&mut self, conn: Connection, names: Vec<Name>, now: Timestamp) -> (r: Vec<
        Message,
    >)
        requires
            old(self).wf(),
        ensures
            final(self).wf(),
            final(self).keepalive() == old(self).keepalive(),
            (messages_view(r@), final(self).table()) == names_step(
                old(self).table(),
                conn,
                names_view(names@),
                now,
            ),
    {
        let ghost nv = names_view(names@);
        let mut r = self.connection_closed(conn, Closed::Connectionless, now);
        let ghost first = r@;
        r.push(Message::Name(State { as_of: now, connection: conn }, names));
        assert(messages_view(r@) =~= messages_view(first).push(
            MessageV::Name(State { as_of: now, connection: conn }, nv),
        ));
        r
    }

    /// The DNS payload of a UDP packet on `conn`.
    pub fn handle_dns(&mut self, payload: &[u8], conn: Connection, now: Timestamp) -> (r: Vec<
        Message,
    >)
        requires
            old(self).wf(),
        ensures
            final(self).wf(),
            final(self).keepalive() == old(self).keepalive(),
            (messages_view(r@), final(self).table()) == dns_step(
                old(self).table(),
                conn,
                payload@,
                now,
            ),
    {
        match parse_dns(payload) {
            Some((questions, answers)) => {
                if questions.len() == 0 {
                    let r: Vec<Message> = Vec::new();
                    assert(messages_view(r@) =~= Seq::empty());
                    return r;
                }
                let ghost qv = questions@;
                let ghost av = answers@;
                let mut names = questions;
                let mut rest = answers;
                names.append(&mut rest);
                assert(names_view(names@) =~= names_view(qv) + names_view(av));
                self.send_names(conn, names, now)
            },
            None => {
                let r: Vec<Message> = Vec::new();
                assert(messages_view(r@) =~= Seq::empty());
                r
            },
        }
    }

    /// The TCP segment of a packet between `hosts`.
    pub fn handle_tcp(&mut self, interface: usize, segment: &[u8], hosts: HostPair, now: Timestamp) -> (r:
        Vec<Message>)
        requires
            old(self).wf(),
        ensures
            final(self).wf(),
            final(self).keepalive() == old(self).keepalive(),
            (messages_view(r@), final(self).table()) == tcp_step(
                old(self).table(),
                interface,
                segment@,
                hosts,
                now,
                old(self).keepalive(),
            ),
    {
        match parse_tcp(segment) {
            Some((sport, dport, rst, fin)) => {
                let conn = Connection {
                    interface,
                    src: Endpoint { addr: hosts.src, port: sport },
                    dst: Endpoint { addr: hosts.dst, port: dport },
                    protocol: Protocol::Tcp,
                }.canonical();
                if rst {
                    self.connection_closed(conn, Closed::Reset, now)
                } else if fin {
                    self.connection_closed(conn, Closed::Normally, now)
                } else {
                    self.connection_open(conn, now)
                }
            },
            None => {
                let r: Vec<Message> = Vec::new();
                assert(messages_view(r@) =~= Seq::empty());
                r
            },
        }
    }

    /// The UDP datagram of a packet between `hosts`.
    pub fn handle_udp(&mut self, interface: usize, datagram: &[u8], hosts: HostPair, now: Timestamp) -> (r:
        Vec<Message>)
        requires
            old(self).wf(),
        ensures
            final(self).wf(),
            final(self).keepalive() == old(self).keepalive(),
            (messages_view(r@), final(self).table()) == udp_step(
                old(self).table(),
                interface,
                datagram@,
                hosts,
                now,
            ),
    {
        match parse_udp(datagram) {
            Some((sport, dport, rest)) => {
                let conn = Connection {
                    interface,
                    src: Endpoint { addr: hosts.src, port: sport },
                    dst: Endpoint { addr: hosts.dst, port: dport },
                    protocol: Protocol::Udp,
                }.canonical();
                if sport == DNS_PORT || dport == DNS_PORT {
                    self.handle_dns(rest, conn, now)
                } else {
                    self.connection_closed(conn, Closed::Connectionless, now)
                }
            },
            None => {
                let r: Vec<Message> = Vec::new();
                assert(messages_view(r@) =~= Seq::empty());
                r
            },
        }
    }

    /// The ICMP message of a packet between `hosts`: the flow it reports on is
    /// read from what follows its header, first as UDP, then as TCP.
    pub fn handle_icmp(&mut self, interface: usize, packet: &[u8], hosts: HostPair, now: Timestamp) -> (r:
        Vec<Message>)
        requires
            old(self).wf(),
        ensures
            final(self).wf(),
            final(self).keepalive() == old(self).keepalive(),
            (messages_view(r@), final(self).table()) == icmp_step(
                old(self).table(),
                interface,
                packet@,
                hosts,
                now,
            ),
    {
        match parse_icmp(packet) {
            Some((k, rest)) => {
                let problem = Problem::from_icmp(k, packet[0], packet[1]);
                let embedded = match parse_udp(rest) {
                    Some((sport, dport, _)) => Some((sport, dport, Protocol::Udp)),
                    None => match parse_tcp(rest) {
                        Some((sport, dport, _, _)) => Some((sport, dport, Protocol::Tcp)),
                        None => None,
                    },
                };
                match embedded {
                    Some((sport, dport, protocol)) => {
                        let conn = Connection {
                            interface,
                            src: Endpoint { addr: hosts.src, port: sport },
                            dst: Endpoint { addr: hosts.dst, port: dport },
                            protocol,
                        }.canonical();
                        self.connection_unavail(conn, problem, now)
                    },
                    None => {
                        let r: Vec<Message> = Vec::new();
                        assert(messages_view(r@) =~= Seq::empty());
                        r
                    },
                }
            },
            None => {
                let r: Vec<Message> = Vec::new();
                assert(messages_view(r@) =~= Seq::empty());
                r
            },
        }
    }

    fn handle_ip(
        &mut self,
        interface: usize,
        header: Option<(HostPair, NextProto, &[u8])>,
        icmp: NextProto,
        now: Timestamp,
    ) -> (r: Vec<Message>)
        requires
            old(self).wf(),
        ensures
            final(self).wf(),
            final(self).keepalive() == old(self).keepalive(),
            (messages_view(r@), final(self).table()) == ip_step(
                old(self).table(),
                interface,
                match header {
                    Some((h, n, rest)) => Some((h, n, rest@)),
                    None => None,
                },
                icmp,
                now,
                old(self).keepalive(),
            ),
    {
        match header {
            Some((hosts, next, rest)) => {
                if next == NextProto::Tcp {
                    self.handle_tcp(interface, rest, hosts, now)
                } else if next == NextProto::Udp {
                    self.handle_udp(interface, rest, hosts, now)
                } else if next == icmp {
                    self.handle_icmp(interface, rest, hosts, now)
                } else {
                    let r: Vec<Message> = Vec::new();
                    assert(messages_view(r@) =~= Seq::empty());
                    r
                }
            },
            None => {
                let r: Vec<Message> = Vec::new();
                assert(messages_view(r@) =~= Seq::empty());
                r
            },
        }
    }

    /// An IPv4 packet.
    pub fn handle_ipv4(&mut self, interface: usize, packet: &[u8], now: Timestamp) -> (r: Vec<Message>)
        requires
            old(self).wf(),
        ensures
            final(self).wf(),
            final(self).keepalive() == old(self).keepalive(),
            (messages_view(r@), final(self).table()) == ip_step(
                old(self).table(),
                interface,
                ipv4_spec(packet@),
                NextProto::Icmp,
                now,
                old(self).keepalive(),
            ),
    {
        self.handle_ip(interface, parse_ipv4(packet), NextProto::Icmp, now)
    }

    /// An IPv6 packet.
    pub fn handle_ipv6(&mut self, interface: usize, packet: &[u8], now: Timestamp) -> (r: Vec<Message>)
        requires
            old(self).wf(),
        ensures
            final(self).wf(),
            final(self).keepalive() == old(self).keepalive(),
            (messages_view(r@), final(self).table()) == ip_step(
                old(self).table(),
                interface,
                ipv6_spec(packet@),
                NextProto::Icmp6,
                now,
                old(self).keepalive(),
            ),
    {
        self.handle_ip(interface, parse_ipv6(packet), NextProto::Icmp6, now)
    }

    /// An Ethernet frame.
    pub fn handle_ether(&mut self, interface: usize, frame: &[u8], now: Timestamp) -> (r: Vec<Message>)
        requires
            old(self).wf(),
        ensures
            final(self).wf(),
            final(self).keepalive() == old(self).keepalive(),
            (messages_view(r@), final(self).table()) == ether_step(
                old(self).table(),
                interface,
                frame@,
                now,
                old(self).keepalive(),
            ),
    {
        match parse_ethernet(frame) {
            Some((EtherKind::Ipv4, rest)) => self.handle_ipv4(interface, rest, now),
            Some((EtherKind::Ipv6, rest)) => self.handle_ipv6(interface, rest, now),
            _ => {
                let r: Vec<Message> = Vec::new();
                assert(messages_view(r@) =~= Seq::empty());
                r
            },
        }
    }

    /// Classifies one frame captured on `interface` at time `now`: what it
    /// emits, possibly nothing, and how it updates the table.
    pub fn classify(&mut self, interface: usize, link: LinkType, frame: &[u8], now: Timestamp) -> (r:
        Vec<Message>)
        requires
            old(self).wf(),
        ensures
            final(self).wf(),
            final(self).keepalive() == old(self).keepalive(),
            (messages_view(r@), final(self).table()) == classify_step(
                old(self).table(),
                interface,
                link,
                frame@,
                now,
                old(self).keepalive(),
            ),
    {
        if link == LinkType::Ethernet {
            self.handle_ether(interface, frame, now)
        } else {
            let r: Vec<Message> = Vec::new();
            assert(messages_view(r@) =~= Seq::empty());
            r
        }
    }
}

/// Two packets of an open flow, the first finding no recent `Active`: the first
/// emits an `Active`; the second emits nothing when it comes within the
/// heartbeat window of the first, and a fresh `Active` when it comes later.
pub proof fn lemma_heartbeat(t: Table, c: Connection, first: Timestamp, second: Timestamp, keepalive: u64)
    requires
        !fresh_active(t, c, first, keepalive),
    ensures
        open_step(t, c, first, keepalive).0 == seq![
            MessageV::Active(State { as_of: first, connection: c }),
        ],
        nanos_of(second) - nanos_of(first) <= keepalive as int * 1_000_000_000 ==> open_step(
            open_step(t, c, first, keepalive).1,
            c,
            second,
            keepalive,
        ).0.len() == 0,
        nanos_of(second) - nanos_of(first) > keepalive as int * 1_000_000_000 ==> open_step(
            open_step(t, c, first, keepalive).1,
            c,
            second,
            keepalive,
        ).0 == seq![MessageV::Active(State { as_of: second, connection: c })],
{
    let t1 = open_step(t, c, first, keepalive).1;
    assert(t1[c] == MessageV::Active(State { as_of: first, connection: c }));
}

/// The TCP segments of a run of packets between the same hosts, classified one
/// after another.
pub open spec fn tcp_run(
    t: Table,
    interface: usize,
    segments: Seq<Seq<u8>>,
    hosts: HostPair,
    now: Timestamp,
    keepalive: u64,
) -> Step
    decreases segments.len(),
{
    if segments.len() == 0 {
        (Seq::empty(), t)
    } else {
        let (ms, t1) = tcp_run(t, interface, segments.drop_last(), hosts, now, keepalive);
        let (ms2, t2) = tcp_step(t1, interface, segments.last(), hosts, now, keepalive);
        (ms + ms2, t2)
    }
}

/// A TCP segment that parses and carries the RST flag.
pub open spec fn carries_reset(segment: Seq<u8>) -> bool {
    match tcp_spec(segment) {
        Some((_, _, rst, _)) => rst,
        None => false,
    }
}

/// Resets are never suppressed: a run of segments that all carry RST emits one
/// `Ended(Reset)` for each.
pub proof fn lemma_resets_not_suppressed(
    t: Table,
    interface: usize,
    segments: Seq<Seq<u8>>,
    hosts: HostPair,
    now: Timestamp,
    keepalive: u64,
)
    requires
        forall|i: int| 0 <= i < segments.len() ==> carries_reset(#[trigger] segments[i]),
    ensures
        tcp_run(t, interface, segments, hosts, now, keepalive).0.len() == segments.len(),
        forall|i: int| 0 <= i < segments.len() ==> #[trigger] tcp_run(t, interface, segments, hosts, now, keepalive).0[i] matches MessageV::Ended(_, Closed::Reset),
    decreases segments.len(),
{
    if segments.len() > 0 {
        let init = segments.drop_last();
        assert forall|i: int| 0 <= i < init.len() implies carries_reset(#[trigger] init[i]) by {
            assert(init[i] == segments[i]);
        }
        lemma_resets_not_suppressed(t, interface, init, hosts, now, keepalive);
        assert(carries_reset(segments[segments.len() - 1]));
    }
}

/// The number of questions in a UDP datagram to or from the DNS port whose
/// payload parses; zero for any other datagram.
pub open spec fn dns_questions(datagram: Seq<u8>) -> int {
    match udp_spec(datagram) {
        Some((sp, dp, payload)) => if sp == DNS_PORT || dp == DNS_PORT {
            match dns_names_of(payload) {
                Some((qs, _)) => qs.len() as int,
                None => 0,
            }
        } else {
            0
        },
        None => 0,
    }
}

/// A UDP packet to or from the DNS port whose payload parses with at least one
/// question emits two messages on the same flow at the same time: the flow
/// ending as connectionless, then every question's and answer's name.
pub proof fn lemma_dns_dual_emission(t: Table, interface: usize, datagram: Seq<u8>, hosts: HostPair, now: Timestamp)
    requires
        dns_questions(datagram) > 0,
    ensures
        ({
            let (sp, dp, payload) = udp_spec(datagram)->0;
            let (qs, ans) = dns_names_of(payload)->0;
            let c = flow(interface, hosts, sp, dp, Protocol::Udp);
            let st = State { as_of: now, connection: c };
            udp_step(t, interface, datagram, hosts, now).0 == seq![
                MessageV::Ended(st, Closed::Connectionless),
                MessageV::Name(st, qs + ans),
            ] && (qs + ans).len() == qs.len() + ans.len()
        }),
{
    let (sp, dp, payload) = udp_spec(datagram)->0;
    let (qs, ans) = dns_names_of(payload)->0;
    let c = flow(interface, hosts, sp, dp, Protocol::Udp);
    let st = State { as_of: now, connection: c };
    assert(udp_step(t, interface, datagram, hosts, now).0 =~= seq![
        MessageV::Ended(st, Closed::Connectionless),
        MessageV::Name(st, qs + ans),
    ]);
}

} // verus!
