//! The data model: endpoints, connections, flow states and the messages that
//! carry them.
use vstd::prelude::*;

verus! {

/// An IP address, held as its big-endian integer value.
#[derive(Clone, Copy, Debug, PartialEq, Eq, Structural, Hash, PartialOrd, Ord)]
pub enum IpAddr {
    V4(u32),
    V6(u128),
}

/// One side of a flow.
#[derive(Clone, Copy, Debug, PartialEq, Eq, Structural, Hash, PartialOrd, Ord)]
pub struct Endpoint {
    pub addr: IpAddr,
    pub port: u16,
}

/// The addresses of a packet's network-layer header.
#[derive(Clone, Copy, Debug, PartialEq, Eq, Structural, Hash)]
pub struct HostPair {
    pub src: IpAddr,
    pub dst: IpAddr,
}

#[derive(Clone, Copy, Debug, PartialEq, Eq, Structural, Hash, PartialOrd, Ord)]
pub enum Protocol {
    Tcp,
    Udp,
}

/// A flow observed on one capture interface.
#[derive(Clone, Copy, Debug, PartialEq, Eq, Structural, Hash, PartialOrd, Ord)]
pub struct Connection {
    pub interface: usize,
    pub src: Endpoint,
    pub dst: Endpoint,
    pub protocol: Protocol,
}

/// Wall-clock time since the Unix epoch.
#[derive(Clone, Copy, Debug, PartialEq, Eq, Structural, Hash, PartialOrd, Ord)]
pub struct Timestamp {
    pub secs: u64,
    pub nanos: u32,
}

/// A timestamped reference to a flow.
#[derive(Clone, Copy, Debug, PartialEq, Eq, Structural, Hash, PartialOrd, Ord)]
pub struct State {
    pub as_of: Timestamp,
    pub connection: Connection,
}

/// An ICMP error classification, kept as its raw byte pair.
#[derive(Clone, Copy, Debug, PartialEq, Eq, Structural, Hash, PartialOrd, Ord)]
pub struct Problem {
    pub kind: u8,
    pub code: u8,
}

/// How a flow ended.
#[derive(Clone, Copy, Debug, PartialEq, Eq, Structural, Hash, PartialOrd, Ord)]
pub enum Closed {
    Normally,
    Reset,
    TimedOut,
    Connectionless,
}

/// What a resolved name resolves to.
#[derive(Clone, Debug, PartialEq, Eq, Hash, PartialOrd, Ord)]
pub enum Resolution {
    Address(IpAddr),
    Alias(String),
    Service(String, Option<u16>),
    Text(Vec<Vec<u8>>),
}

/// A name seen in DNS traffic, with what it resolved to, if anything.
#[derive(Clone, Debug, PartialEq, Eq, Hash, PartialOrd, Ord)]
pub struct Name {
    pub name: String,
    pub address: Option<Resolution>,
}

/// The unit of transmission and persistence.
#[derive(Clone, Debug, PartialEq, Eq, Hash, PartialOrd, Ord)]
pub enum Message {
    Active(State),
    Ended(State, Closed),
    Failed(State, Problem),
    Name(State, Vec<Name>),
}

/// Why an observer could not start.
#[derive(Clone, Copy, Debug, PartialEq, Eq, Structural, Hash, PartialOrd, Ord)]
pub enum StartError {
    NoDevices,
}

/// The mathematical value of a `Resolution`.
pub enum ResolutionV {
    Address(IpAddr),
    Alias(Seq<char>),
    Service(Seq<char>, Option<u16>),
    Text(Seq<Seq<u8>>),
}

/// The mathematical value of a `Name`.
pub struct NameV {
    pub name: Seq<char>,
    pub address: Option<ResolutionV>,
}

/// The mathematical value of a `Message`.
pub enum MessageV {
    Active(State),
    Ended(State, Closed),
    Failed(State, Problem),
    Name(State, Seq<NameV>),
}

/// The values of a list of byte strings.
pub open spec fn bytes_list_view(ts: Seq<Vec<u8>>) -> Seq<Seq<u8>> {
    ts.map_values(|b: Vec<u8>| b@)
}

impl View for Resolution {
    type V = ResolutionV;

    open spec fn view(&self) -> ResolutionV {
        match self {
            Resolution::Address(a) => ResolutionV::Address(*a),
            Resolution::Alias(s) => ResolutionV::Alias(s@),
            Resolution::Service(s, p) => ResolutionV::Service(s@, *p),
            Resolution::Text(t) => ResolutionV::Text(bytes_list_view(t@)),
        }
    }
}

impl View for Name {
    type V = NameV;

    open spec fn view(&self) -> NameV {
        NameV {
            name: self.name@,
            address: match self.address {
                Some(r) => Some(r@),
                None => None,
            },
        }
    }
}

/// The values of a list of names.
pub open spec fn names_view(names: Seq<Name>) -> Seq<NameV> {
    names.map_values(|n: Name| n@)
}

impl View for Message {
    type V = MessageV;

    open spec fn view(&self) -> MessageV {
        match self {
            Message::Active(s) => MessageV::Active(*s),
            Message::Ended(s, c) => MessageV::Ended(*s, *c),
            Message::Failed(s, p) => MessageV::Failed(*s, *p),
            Message::Name(s, n) => MessageV::Name(*s, names_view(n@)),
        }
    }
}

/// The order of addresses: every IPv4 address before every IPv6 one, then by value.
pub open spec fn addr_lt(a: IpAddr, b: IpAddr) -> bool {
    match (a, b) {
        (IpAddr::V4(x), IpAddr::V4(y)) => x < y,
        (IpAddr::V4(_), IpAddr::V6(_)) => true,
        (IpAddr::V6(_), IpAddr::V4(_)) => false,
        (IpAddr::V6(x), IpAddr::V6(y)) => x < y,
    }
}

/// The order of endpoints: by address, then by port.
pub open spec fn endpoint_lt(a: Endpoint, b: Endpoint) -> bool {
    addr_lt(a.addr, b.addr) || (a.addr == b.addr && a.port < b.port)
}

/// The same flow seen from the other direction.
pub open spec fn reversed(c: Connection) -> Connection {
    Connection { src: c.dst, dst: c.src, ..c }
}

/// The key under which a flow is tracked: of the flow as observed and the flow
/// reversed, whichever sorts first.
pub open spec fn canonical_of(c: Connection) -> Connection {
    if endpoint_lt(c.dst, c.src) {
        reversed(c)
    } else {
        c
    }
}

impl IpAddr {
    /// Whether this address sorts strictly before `other`.
    pub fn precedes(&self, other: &IpAddr) -> (r: bool)
        ensures
            r == addr_lt(*self, *other),
    {
        match (self, other) {
            (IpAddr::V4(x), IpAddr::V4(y)) => *x < *y,
            (IpAddr::V4(_), IpAddr::V6(_)) => true,
            (IpAddr::V6(_), IpAddr::V4(_)) => false,
            (IpAddr::V6(x), IpAddr::V6(y)) => *x < *y,
        }
    }

    /// The IPv4 address `a.b.c.d`.
    pub fn v4(a: u8, b: u8, c: u8, d: u8) -> (r: IpAddr)
        ensures
            r == IpAddr::V4((a * 0x1000000 + b * 0x10000 + c * 0x100 + d) as u32),
    {
        IpAddr::V4(a as u32 * 0x1000000 + b as u32 * 0x10000 + c as u32 * 0x100 + d as u32)
    }
}

impl Endpoint {
    /// Whether this endpoint sorts strictly before `other`.
    pub fn precedes(&self, other: &Endpoint) -> (r: bool)
        ensures
            r == endpoint_lt(*self, *other),
    {
        self.addr.precedes(&other.addr) || (self.addr == other.addr && self.port < other.port)
    }
}

impl Connection {
    /// The key under which this flow is tracked, the same from either direction.
    pub fn canonical(self) -> (r: Connection)
        ensures
            r == canonical_of(self),
    {
        if self.dst.precedes(&self.src) {
            Connection { src: self.dst, dst: self.src, ..self }
        } else {
            self
        }
    }
}

/// Both directions of a flow are tracked under one key.
pub proof fn lemma_canonical_symmetric(c: Connection)
    ensures
        canonical_of(c) == canonical_of(reversed(c)),
{
    let r = reversed(c);
    if endpoint_lt(c.dst, c.src) {
        assert(!endpoint_lt(r.dst, r.src));
    } else if endpoint_lt(c.src, c.dst) {
        assert(endpoint_lt(r.dst, r.src));
    } else {
        assert(c.src == c.dst);
    }
}

} // verus!
