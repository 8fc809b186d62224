//! The wire codec: a bit-exact, self-describing binary form for every value of
//! the data model. Integers are big-endian, built from their halves; tagged
//! unions lead with a tag byte; sequences lead with a length prefix.
//!
//! Each encodable type has a spec function for its encoding (`enc_*`), a spec
//! function for what reading at a position of a byte sequence yields
//! (`parse_*`: the value and the position after it), an exec writer and an
//! exec reader proved against them, and a lemma that reading an encoding gives
//! the value back.
use vstd::prelude::*;
use vstd::utf8::{decode_utf8, encode_utf8, valid_utf8};
use vstd::slice::{slice_subrange, slice_to_vec};

use crate::model::{
    Closed, Connection, Endpoint, IpAddr, Message, MessageV, Name, NameV, Problem, Protocol,
    Resolution, ResolutionV, State, Timestamp, names_view,
};

verus! {

pub const V4_MARK: u8 = 1;
pub const V6_MARK: u8 = 2;
pub const TCP_MARK: u8 = 1;
pub const UDP_MARK: u8 = 2;
pub const NORMAL_MARK: u8 = 1;
pub const RESET_MARK: u8 = 2;
pub const CLESS_MARK: u8 = 3;
pub const TMOUT_MARK: u8 = 4;
pub const ACTIVE_MARK: u8 = 1;
pub const ENDED_MARK: u8 = 2;
pub const FAILED_MARK: u8 = 3;
pub const NAME_MARK: u8 = 4;
pub const ADDR_MARK: u8 = 1;
pub const ALIAS_MARK: u8 = 2;
pub const SVC_MARK: u8 = 3;
pub const TEXT_MARK: u8 = 4;

/// Nanoseconds in one second: the bound on a timestamp's sub-second part.
pub const NANOS_PER_SEC: u32 = 1_000_000_000;

// ---------------------------------------------------------------------------
// Sequence helpers

/// Reading a value whose encoding sits at `p` in `s`.
pub open spec fn holds_at(s: Seq<u8>, p: int, e: Seq<u8>) -> bool {
    &&& 0 <= p
    &&& p + e.len() <= s.len()
    &&& s.subrange(p, p + e.len()) == e
}

proof fn lemma_split(s: Seq<u8>, p: int, a: Seq<u8>, b: Seq<u8>)
    requires
        holds_at(s, p, a + b),
    ensures
        holds_at(s, p, a),
        holds_at(s, p + a.len(), b),
{
    assert forall|i: int| 0 <= i < a.len() implies s.subrange(p, p + a.len())[i] == a[i] by {
        assert(s.subrange(p, p + (a + b).len())[i] == (a + b)[i]);
    }
    assert(s.subrange(p, p + a.len()) =~= a);
    assert forall|i: int| 0 <= i < b.len() implies s.subrange(p + a.len(), p + a.len() + b.len())[i]
        == b[i] by {
        assert(s.subrange(p, p + (a + b).len())[a.len() + i] == (a + b)[a.len() + i]);
    }
    assert(s.subrange(p + a.len(), p + a.len() + b.len()) =~= b);
}

proof fn lemma_byte_at(s: Seq<u8>, p: int, e: Seq<u8>, i: int)
    requires
        holds_at(s, p, e),
        0 <= i < e.len(),
    ensures
        s[p + i] == e[i],
{
    assert(s.subrange(p, p + e.len())[i] == e[i]);
}

/// Appends `bytes` to `out`.
fn append_bytes(out: &mut Vec<u8>, bytes: &[u8])
    ensures
        final(out)@ == old(out)@ + bytes@,
{
    let mut i: usize = 0;
    while i < bytes.len()
        invariant
            i <= bytes@.len(),
            out@ == old(out)@ + bytes@.subrange(0, i as int),
        decreases bytes@.len() - i,
    {
        out.push(bytes[i]);
        i += 1;
        assert(bytes@.subrange(0, i as int) =~= bytes@.subrange(0, i - 1) + seq![bytes@[i - 1]]);
    }
    assert(bytes@.subrange(0, i as int) =~= bytes@);
}

// ---------------------------------------------------------------------------
// Fixed-width integers

pub open spec fn join16(hi: u8, lo: u8) -> u16 {
    ((hi as u16) << 8u16) | (lo as u16)
}

pub open spec fn join32(hi: u16, lo: u16) -> u32 {
    ((hi as u32) << 16u32) | (lo as u32)
}

pub open spec fn join64(hi: u32, lo: u32) -> u64 {
    ((hi as u64) << 32u64) | (lo as u64)
}

pub open spec fn join128(hi: u64, lo: u64) -> u128 {
    ((hi as u128) << 64u128) | (lo as u128)
}

pub open spec fn enc_u8(v: u8) -> Seq<u8> {
    seq![v]
}

pub open spec fn enc_u16(v: u16) -> Seq<u8> {
    seq![(v >> 8u16) as u8, v as u8]
}

pub open spec fn enc_u32(v: u32) -> Seq<u8> {
    enc_u16((v >> 16u32) as u16) + enc_u16(v as u16)
}

pub open spec fn enc_u64(v: u64) -> Seq<u8> {
    enc_u32((v >> 32u64) as u32) + enc_u32(v as u32)
}

pub open spec fn enc_u128(v: u128) -> Seq<u8> {
    enc_u64((v >> 64u128) as u64) + enc_u64(v as u64)
}

pub open spec fn parse_u8(s: Seq<u8>, p: int) -> Option<(u8, int)> {
    if 0 <= p < s.len() {
        Some((s[p], p + 1))
    } else {
        None
    }
}

pub open spec fn parse_u16(s: Seq<u8>, p: int) -> Option<(u16, int)> {
    if 0 <= p && p + 2 <= s.len() {
        Some((join16(s[p], s[p + 1]), p + 2))
    } else {
        None
    }
}

pub open spec fn parse_u32(s: Seq<u8>, p: int) -> Option<(u32, int)> {
    match parse_u16(s, p) {
        Some((hi, q)) => match parse_u16(s, q) {
            Some((lo, r)) => Some((join32(hi, lo), r)),
            None => None,
        },
        None => None,
    }
}

pub open spec fn parse_u64(s: Seq<u8>, p: int) -> Option<(u64, int)> {
    match parse_u32(s, p) {
        Some((hi, q)) => match parse_u32(s, q) {
            Some((lo, r)) => Some((join64(hi, lo), r)),
            None => None,
        },
        None => None,
    }
}

pub open spec fn parse_u128(s: Seq<u8>, p: int) -> Option<(u128, int)> {
    match parse_u64(s, p) {
        Some((hi, q)) => match parse_u64(s, q) {
            Some((lo, r)) => Some((join128(hi, lo), r)),
            None => None,
        },
        None => None,
    }
}

proof fn lemma_join16(v: u16)
    ensures
        join16((v >> 8u16) as u8, v as u8) == v,
{
    assert((((((v >> 8u16) as u8) as u16) << 8u16) | ((v as u8) as u16)) == v) by (bit_vector);
}

proof fn lemma_join32(v: u32)
    ensures
        join32((v >> 16u32) as u16, v as u16) == v,
{
    assert((((((v >> 16u32) as u16) as u32) << 16u32) | ((v as u16) as u32)) == v) by (bit_vector);
}

proof fn lemma_join64(v: u64)
    ensures
        join64((v >> 32u64) as u32, v as u32) == v,
{
    assert((((((v >> 32u64) as u32) as u64) << 32u64) | ((v as u32) as u64)) == v) by (bit_vector);
}

proof fn lemma_join128(v: u128)
    ensures
        join128((v >> 64u128) as u64, v as u64) == v,
{
    assert((((((v >> 64u128) as u64) as u128) << 64u128) | ((v as u64) as u128)) == v)
        by (bit_vector);
}

proof fn lemma_u8(v: u8, s: Seq<u8>, p: int)
    requires
        holds_at(s, p, enc_u8(v)),
    ensures
        parse_u8(s, p) == Some((v, p + 1)),
{
    lemma_byte_at(s, p, enc_u8(v), 0);
}

proof fn lemma_u16(v: u16, s: Seq<u8>, p: int)
    requires
        holds_at(s, p, enc_u16(v)),
    ensures
        parse_u16(s, p) == Some((v, p + 2)),
{
    lemma_byte_at(s, p, enc_u16(v), 0);
    lemma_byte_at(s, p, enc_u16(v), 1);
    lemma_join16(v);
}

proof fn lemma_u32(v: u32, s: Seq<u8>, p: int)
    requires
        holds_at(s, p, enc_u32(v)),
    ensures
        parse_u32(s, p) == Some((v, p + 4)),
{
    lemma_split(s, p, enc_u16((v >> 16u32) as u16), enc_u16(v as u16));
    lemma_u16((v >> 16u32) as u16, s, p);
    lemma_u16(v as u16, s, p + 2);
    lemma_join32(v);
}

proof fn lemma_u64(v: u64, s: Seq<u8>, p: int)
    requires
        holds_at(s, p, enc_u64(v)),
    ensures
        parse_u64(s, p) == Some((v, p + 8)),
{
    lemma_split(s, p, enc_u32((v >> 32u64) as u32), enc_u32(v as u32));
    lemma_u32((v >> 32u64) as u32, s, p);
    lemma_u32(v as u32, s, p + 4);
    lemma_join64(v);
}

proof fn lemma_u128(v: u128, s: Seq<u8>, p: int)
    requires
        holds_at(s, p, enc_u128(v)),
    ensures
        parse_u128(s, p) == Some((v, p + 16)),
{
    lemma_split(s, p, enc_u64((v >> 64u128) as u64), enc_u64(v as u64));
    lemma_u64((v >> 64u128) as u64, s, p);
    lemma_u64(v as u64, s, p + 8);
    lemma_join128(v);
}

pub fn write_u8(out: &mut Vec<u8>, v: u8)
    ensures
        final(out)@ == old(out)@ + enc_u8(v),
{
    out.push(v);
    assert(final(out)@ =~= old(out)@ + enc_u8(v));
}

pub fn write_u16(out: &mut Vec<u8>, v: u16)
    ensures
        final(out)@ == old(out)@ + enc_u16(v),
{
    out.push((v >> 8u16) as u8);
    out.push(v as u8);
    assert(final(out)@ =~= old(out)@ + enc_u16(v));
}

pub fn write_u32(out: &mut Vec<u8>, v: u32)
    ensures
        final(out)@ == old(out)@ + enc_u32(v),
{
    write_u16(out, (v >> 16u32) as u16);
    write_u16(out, v as u16);
    assert(final(out)@ =~= old(out)@ + enc_u32(v));
}

pub fn write_u64(out: &mut Vec<u8>, v: u64)
    ensures
        final(out)@ == old(out)@ + enc_u64(v),
{
    write_u32(out, (v >> 32u64) as u32);
    write_u32(out, v as u32);
    assert(final(out)@ =~= old(out)@ + enc_u64(v));
}

pub fn write_u128(out: &mut Vec<u8>, v: u128)
    ensures
        final(out)@ == old(out)@ + enc_u128(v),
{
    write_u64(out, (v >> 64u128) as u64);
    write_u64(out, v as u64);
    assert(final(out)@ =~= old(out)@ + enc_u128(v));
}

pub fn read_u8(input: &[u8], pos: usize) -> (r: Option<(u8, usize)>)
    ensures
        match r {
            Some((v, q)) => parse_u8(input@, pos as int) == Some((v, q as int)),
            None => parse_u8(input@, pos as int) is None,
        },
{
    if pos < input.len() {
        Some((input[pos], pos + 1))
    } else {
        None
    }
}

pub fn read_u16(input: &[u8], pos: usize) -> (r: Option<(u16, usize)>)
    ensures
        match r {
            Some((v, q)) => parse_u16(input@, pos as int) == Some((v, q as int)),
            None => parse_u16(input@, pos as int) is None,
        },
{
    if pos <= input.len() && input.len() - pos >= 2 {
        let hi = input[pos];
        let lo = input[pos + 1];
        Some((((hi as u16) << 8u16) | (lo as u16), pos + 2))
    } else {
        None
    }
}

pub fn read_u32(input: &[u8], pos: usize) -> (r: Option<(u32, usize)>)
    ensures
        match r {
            Some((v, q)) => parse_u32(input@, pos as int) == Some((v, q as int)),
            None => parse_u32(input@, pos as int) is None,
        },
{
    let (hi, q) = read_u16(input, pos)?;
    let (lo, r) = read_u16(input, q)?;
    Some((((hi as u32) << 16u32) | (lo as u32), r))
}

pub fn read_u64(input: &[u8], pos: usize) -> (r: Option<(u64, usize)>)
    ensures
        match r {
            Some((v, q)) => parse_u64(input@, pos as int) == Some((v, q as int)),
            None => parse_u64(input@, pos as int) is None,
        },
{
    let (hi, q) = read_u32(input, pos)?;
    let (lo, r) = read_u32(input, q)?;
    Some((((hi as u64) << 32u64) | (lo as u64), r))
}

pub fn read_u128(input: &[u8], pos: usize) -> (r: Option<(u128, usize)>)
    ensures
        match r {
            Some((v, q)) => parse_u128(input@, pos as int) == Some((v, q as int)),
            None => parse_u128(input@, pos as int) is None,
        },
{
    let (hi, q) = read_u64(input, pos)?;
    let (lo, r) = read_u64(input, q)?;
    Some((((hi as u128) << 64u128) | (lo as u128), r))
}

// ---------------------------------------------------------------------------
// Addresses, endpoints and small enumerations

pub open spec fn enc_ip(a: IpAddr) -> Seq<u8> {
    match a {
        IpAddr::V4(x) => enc_u8(V4_MARK) + enc_u32(x),
        IpAddr::V6(x) => enc_u8(V6_MARK) + enc_u128(x),
    }
}

pub open spec fn parse_ip(s: Seq<u8>, p: int) -> Option<(IpAddr, int)> {
    match parse_u8(s, p) {
        Some((tag, q)) => if tag == V4_MARK {
            match parse_u32(s, q) {
                Some((x, r)) => Some((IpAddr::V4(x), r)),
                None => None,
            }
        } else if tag == V6_MARK {
            match parse_u128(s, q) {
                Some((x, r)) => Some((IpAddr::V6(x), r)),
                None => None,
            }
        } else {
            None
        },
        None => None,
    }
}

pub open spec fn enc_endpoint(e: Endpoint) -> Seq<u8> {
    enc_ip(e.addr) + enc_u16(e.port)
}

pub open spec fn parse_endpoint(s: Seq<u8>, p: int) -> Option<(Endpoint, int)> {
    match parse_ip(s, p) {
        Some((addr, q)) => match parse_u16(s, q) {
            Some((port, r)) => Some((Endpoint { addr, port }, r)),
            None => None,
        },
        None => None,
    }
}

/// The tag byte of a protocol.
pub open spec fn protocol_tag(v: Protocol) -> u8 {
    match v {
        Protocol::Tcp => TCP_MARK,
        Protocol::Udp => UDP_MARK,
    }
}

pub open spec fn parse_protocol(s: Seq<u8>, p: int) -> Option<(Protocol, int)> {
    match parse_u8(s, p) {
        Some((tag, q)) => if tag == TCP_MARK {
            Some((Protocol::Tcp, q))
        } else if tag == UDP_MARK {
            Some((Protocol::Udp, q))
        } else {
            None
        },
        None => None,
    }
}

/// The tag byte of a way of ending.
pub open spec fn closed_tag(v: Closed) -> u8 {
    match v {
        Closed::Normally => NORMAL_MARK,
        Closed::Reset => RESET_MARK,
        Closed::Connectionless => CLESS_MARK,
        Closed::TimedOut => TMOUT_MARK,
    }
}

pub open spec fn parse_closed(s: Seq<u8>, p: int) -> Option<(Closed, int)> {
    match parse_u8(s, p) {
        Some((tag, q)) => if tag == NORMAL_MARK {
            Some((Closed::Normally, q))
        } else if tag == RESET_MARK {
            Some((Closed::Reset, q))
        } else if tag == CLESS_MARK {
            Some((Closed::Connectionless, q))
        } else if tag == TMOUT_MARK {
            Some((Closed::TimedOut, q))
        } else {
            None
        },
        None => None,
    }
}

pub open spec fn enc_problem(v: Problem) -> Seq<u8> {
    enc_u8(v.kind) + enc_u8(v.code)
}

pub open spec fn parse_problem(s: Seq<u8>, p: int) -> Option<(Problem, int)> {
    match parse_u8(s, p) {
        Some((kind, q)) => match parse_u8(s, q) {
            Some((code, r)) => Some((Problem { kind, code }, r)),
            None => None,
        },
        None => None,
    }
}

/// A timestamp is seconds since the epoch followed by the sub-second nanoseconds.
pub open spec fn enc_timestamp(t: Timestamp) -> Seq<u8> {
    enc_u64(t.secs) + enc_u32(t.nanos)
}

/// Reading a timestamp carries whole seconds out of the nanosecond field, and
/// fails where the seconds would then overflow.
pub open spec fn parse_timestamp(s: Seq<u8>, p: int) -> Option<(Timestamp, int)> {
    match parse_u64(s, p) {
        Some((secs, q)) => match parse_u32(s, q) {
            Some((nanos, r)) => if secs + nanos / NANOS_PER_SEC <= u64::MAX {
                Some((
                    Timestamp {
                        secs: (secs + nanos / NANOS_PER_SEC) as u64,
                        nanos: (nanos % NANOS_PER_SEC) as u32,
                    },
                    r,
                ))
            } else {
                None
            },
            None => None,
        },
        None => None,
    }
}

/// The interface index travels as 16 bits.
pub open spec fn enc_connection(c: Connection) -> Seq<u8> {
    enc_u16(c.interface as u16) + enc_endpoint(c.src) + enc_endpoint(c.dst) + enc_u8(
        protocol_tag(c.protocol),
    )
}

pub open spec fn parse_connection(s: Seq<u8>, p: int) -> Option<(Connection, int)> {
    match parse_u16(s, p) {
        Some((interface, after_if)) => match parse_endpoint(s, after_if) {
            Some((src, after_src)) => match parse_endpoint(s, after_src) {
                Some((dst, after_dst)) => match parse_protocol(s, after_dst) {
                    Some((protocol, end)) => Some(
                        (Connection { interface: interface as usize, src, dst, protocol }, end),
                    ),
                    None => None,
                },
                None => None,
            },
            None => None,
        },
        None => None,
    }
}

pub open spec fn enc_state(v: State) -> Seq<u8> {
    enc_timestamp(v.as_of) + enc_connection(v.connection)
}

pub open spec fn parse_state(s: Seq<u8>, p: int) -> Option<(State, int)> {
    match parse_timestamp(s, p) {
        Some((as_of, q)) => match parse_connection(s, q) {
            Some((connection, r)) => Some((State { as_of, connection }, r)),
            None => None,
        },
        None => None,
    }
}

/// A state can be written and read back: its interface index fits in 16 bits
/// and its sub-second part is under a second.
pub open spec fn state_ok(v: State) -> bool {
    v.connection.interface <= 0xFFFF && v.as_of.nanos < NANOS_PER_SEC
}

proof fn lemma_ip(v: IpAddr, s: Seq<u8>, p: int)
    requires
        holds_at(s, p, enc_ip(v)),
    ensures
        parse_ip(s, p) == Some((v, p + enc_ip(v).len())),
{
    match v {
        IpAddr::V4(x) => {
            lemma_split(s, p, enc_u8(V4_MARK), enc_u32(x));
            lemma_u8(V4_MARK, s, p);
            lemma_u32(x, s, p + 1);
        },
        IpAddr::V6(x) => {
            lemma_split(s, p, enc_u8(V6_MARK), enc_u128(x));
            lemma_u8(V6_MARK, s, p);
            lemma_u128(x, s, p + 1);
        },
    }
}

proof fn lemma_endpoint(v: Endpoint, s: Seq<u8>, p: int)
    requires
        holds_at(s, p, enc_endpoint(v)),
    ensures
        parse_endpoint(s, p) == Some((v, p + enc_endpoint(v).len())),
{
    lemma_split(s, p, enc_ip(v.addr), enc_u16(v.port));
    lemma_ip(v.addr, s, p);
    lemma_u16(v.port, s, p + enc_ip(v.addr).len());
}

proof fn lemma_connection(v: Connection, s: Seq<u8>, p: int)
    requires
        holds_at(s, p, enc_connection(v)),
        v.interface <= 0xFFFF,
    ensures
        parse_connection(s, p) == Some((v, p + enc_connection(v).len())),
{
    let a = enc_u16(v.interface as u16);
    let b = enc_endpoint(v.src);
    let c = enc_endpoint(v.dst);
    let d = enc_u8(protocol_tag(v.protocol));
    lemma_split(s, p, a + b + c, d);
    lemma_split(s, p, a + b, c);
    lemma_split(s, p, a, b);
    lemma_u16(v.interface as u16, s, p);
    lemma_endpoint(v.src, s, p + a.len());
    lemma_endpoint(v.dst, s, p + a.len() + b.len());
    lemma_u8(protocol_tag(v.protocol), s, p + a.len() + b.len() + c.len());
}

proof fn lemma_timestamp(v: Timestamp, s: Seq<u8>, p: int)
    requires
        holds_at(s, p, enc_timestamp(v)),
        v.nanos < NANOS_PER_SEC,
    ensures
        parse_timestamp(s, p) == Some((v, p + 12)),
{
    lemma_split(s, p, enc_u64(v.secs), enc_u32(v.nanos));
    lemma_u64(v.secs, s, p);
    lemma_u32(v.nanos, s, p + 8);
}

proof fn lemma_state(v: State, s: Seq<u8>, p: int)
    requires
        holds_at(s, p, enc_state(v)),
        state_ok(v),
    ensures
        parse_state(s, p) == Some((v, p + enc_state(v).len())),
{
    lemma_split(s, p, enc_timestamp(v.as_of), enc_connection(v.connection));
    lemma_timestamp(v.as_of, s, p);
    lemma_connection(v.connection, s, p + 12);
}

impl Protocol {
    /// The tag byte of this protocol.
    pub fn number(&self) -> (r: u8)
        ensures
            r == protocol_tag(*self),
    {
        match self {
            Protocol::Tcp => TCP_MARK,
            Protocol::Udp => UDP_MARK,
        }
    }
}

impl Closed {
    /// The tag byte of this way of ending.
    pub fn number(&self) -> (r: u8)
        ensures
            r == closed_tag(*self),
    {
        match self {
            Closed::Normally => NORMAL_MARK,
            Closed::Reset => RESET_MARK,
            Closed::TimedOut => TMOUT_MARK,
            Closed::Connectionless => CLESS_MARK,
        }
    }
}

pub fn write_ip(out: &mut Vec<u8>, v: &IpAddr)
    ensures
        final(out)@ == old(out)@ + enc_ip(*v),
{
    match v {
        IpAddr::V4(x) => {
            write_u8(out, V4_MARK);
            write_u32(out, *x);
        },
        IpAddr::V6(x) => {
            write_u8(out, V6_MARK);
            write_u128(out, *x);
        },
    }
    assert(final(out)@ =~= old(out)@ + enc_ip(*v));
}

pub fn write_endpoint(out: &mut Vec<u8>, v: &Endpoint)
    ensures
        final(out)@ == old(out)@ + enc_endpoint(*v),
{
    write_ip(out, &v.addr);
    write_u16(out, v.port);
    assert(final(out)@ =~= old(out)@ + enc_endpoint(*v));
}

pub fn write_connection(out: &mut Vec<u8>, v: &Connection)
    requires
        v.interface <= 0xFFFF,
    ensures
        final(out)@ == old(out)@ + enc_connection(*v),
{
    write_u16(out, v.interface as u16);
    write_endpoint(out, &v.src);
    write_endpoint(out, &v.dst);
    write_u8(out, v.protocol.number());
    assert(final(out)@ =~= old(out)@ + enc_connection(*v));
}

pub fn write_state(out: &mut Vec<u8>, v: &State)
    requires
        state_ok(*v),
    ensures
        final(out)@ == old(out)@ + enc_state(*v),
{
    write_u64(out, v.as_of.secs);
    write_u32(out, v.as_of.nanos);
    write_connection(out, &v.connection);
    assert(final(out)@ =~= old(out)@ + enc_state(*v));
}

pub fn read_ip(input: &[u8], pos: usize) -> (r: Option<(IpAddr, usize)>)
    ensures
        match r {
            Some((v, q)) => parse_ip(input@, pos as int) == Some((v, q as int)),
            None => parse_ip(input@, pos as int) is None,
        },
{
    let (tag, q) = read_u8(input, pos)?;
    if tag == V4_MARK {
        let (x, r) = read_u32(input, q)?;
        Some((IpAddr::V4(x), r))
    } else if tag == V6_MARK {
        let (x, r) = read_u128(input, q)?;
        Some((IpAddr::V6(x), r))
    } else {
        None
    }
}

pub fn read_endpoint(input: &[u8], pos: usize) -> (r: Option<(Endpoint, usize)>)
    ensures
        match r {
            Some((v, q)) => parse_endpoint(input@, pos as int) == Some((v, q as int)),
            None => parse_endpoint(input@, pos as int) is None,
        },
{
    let (addr, q) = read_ip(input, pos)?;
    let (port, r) = read_u16(input, q)?;
    Some((Endpoint { addr, port }, r))
}

pub fn read_protocol(input: &[u8], pos: usize) -> (r: Option<(Protocol, usize)>)
    ensures
        match r {
            Some((v, q)) => parse_protocol(input@, pos as int) == Some((v, q as int)),
            None => parse_protocol(input@, pos as int) is None,
        },
{
    let (tag, q) = read_u8(input, pos)?;
    if tag == TCP_MARK {
        Some((Protocol::Tcp, q))
    } else if tag == UDP_MARK {
        Some((Protocol::Udp, q))
    } else {
        None
    }
}

pub fn read_closed(input: &[u8], pos: usize) -> (r: Option<(Closed, usize)>)
    ensures
        match r {
            Some((v, q)) => parse_closed(input@, pos as int) == Some((v, q as int)),
            None => parse_closed(input@, pos as int) is None,
        },
{
    let (tag, q) = read_u8(input, pos)?;
    if tag == NORMAL_MARK {
        Some((Closed::Normally, q))
    } else if tag == RESET_MARK {
        Some((Closed::Reset, q))
    } else if tag == CLESS_MARK {
        Some((Closed::Connectionless, q))
    } else if tag == TMOUT_MARK {
        Some((Closed::TimedOut, q))
    } else {
        None
    }
}

pub fn read_problem(input: &[u8], pos: usize) -> (r: Option<(Problem, usize)>)
    ensures
        match r {
            Some((v, q)) => parse_problem(input@, pos as int) == Some((v, q as int)),
            None => parse_problem(input@, pos as int) is None,
        },
{
    let (kind, q) = read_u8(input, pos)?;
    let (code, r) = read_u8(input, q)?;
    Some((Problem { kind, code }, r))
}

pub fn read_timestamp(input: &[u8], pos: usize) -> (r: Option<(Timestamp, usize)>)
    ensures
        match r {
            Some((v, q)) => parse_timestamp(input@, pos as int) == Some((v, q as int)),
            None => parse_timestamp(input@, pos as int) is None,
        },
{
    let (secs, q) = read_u64(input, pos)?;
    let (nanos, r) = read_u32(input, q)?;
    let carry = (nanos / NANOS_PER_SEC) as u64;
    if secs <= u64::MAX - carry {
        Some((Timestamp { secs: secs + carry, nanos: nanos % NANOS_PER_SEC }, r))
    } else {
        None
    }
}

pub fn read_connection(input: &[u8], pos: usize) -> (r: Option<(Connection, usize)>)
    ensures
        match r {
            Some((v, q)) => parse_connection(input@, pos as int) == Some((v, q as int)),
            None => parse_connection(input@, pos as int) is None,
        },
{
    let (interface, after_if) = read_u16(input, pos)?;
    let (src, after_src) = read_endpoint(input, after_if)?;
    let (dst, after_dst) = read_endpoint(input, after_src)?;
    let (protocol, end) = read_protocol(input, after_dst)?;
    Some((Connection { interface: interface as usize, src, dst, protocol }, end))
}

pub fn read_state(input: &[u8], pos: usize) -> (r: Option<(State, usize)>)
    ensures
        match r {
            Some((v, q)) => parse_state(input@, pos as int) == Some((v, q as int)),
            None => parse_state(input@, pos as int) is None,
        },
{
    let (as_of, q) = read_timestamp(input, pos)?;
    let (connection, r) = read_connection(input, q)?;
    Some((State { as_of, connection }, r))
}

// ---------------------------------------------------------------------------
// Length-prefixed sequences

/// A string is its UTF-8 bytes behind a 16-bit length.
pub open spec fn enc_str(t: Seq<char>) -> Seq<u8> {
    enc_u16(encode_utf8(t).len() as u16) + encode_utf8(t)
}

pub open spec fn str_ok(t: Seq<char>) -> bool {
    encode_utf8(t).len() <= 0xFFFF
}

/// Reading a string fails where its bytes are not valid UTF-8.
pub open spec fn parse_str(s: Seq<u8>, p: int) -> Option<(Seq<char>, int)> {
    match parse_u16(s, p) {
        Some((n, q)) => if q + n <= s.len() && valid_utf8(s.subrange(q, q + n)) {
            Some((decode_utf8(s.subrange(q, q + n)), q + n))
        } else {
            None
        },
        None => None,
    }
}

/// A byte blob is its bytes behind an 8-bit length.
pub open spec fn enc_blob(b: Seq<u8>) -> Seq<u8> {
    enc_u8(b.len() as u8) + b
}

pub open spec fn parse_blob(s: Seq<u8>, p: int) -> Option<(Seq<u8>, int)> {
    match parse_u8(s, p) {
        Some((n, q)) => if q + n <= s.len() {
            Some((s.subrange(q, q + n), q + n))
        } else {
            None
        },
        None => None,
    }
}

/// The encodings of the blobs, one after another.
pub open spec fn enc_blobs(ts: Seq<Seq<u8>>) -> Seq<u8>
    decreases ts.len(),
{
    if ts.len() == 0 {
        Seq::empty()
    } else {
        enc_blobs(ts.drop_last()) + enc_blob(ts.last())
    }
}

/// Reading `n` blobs one after another from `p`.
pub open spec fn parse_blobs(s: Seq<u8>, p: int, n: nat) -> Option<(Seq<Seq<u8>>, int)>
    decreases n,
{
    if n == 0 {
        Some((Seq::empty(), p))
    } else {
        match parse_blobs(s, p, (n - 1) as nat) {
            Some((xs, q)) => match parse_blob(s, q) {
                Some((x, r)) => Some((xs.push(x), r)),
                None => None,
            },
            None => None,
        }
    }
}

pub open spec fn enc_texts(ts: Seq<Seq<u8>>) -> Seq<u8> {
    enc_u8(ts.len() as u8) + enc_blobs(ts)
}

pub open spec fn parse_texts(s: Seq<u8>, p: int) -> Option<(Seq<Seq<u8>>, int)> {
    match parse_u8(s, p) {
        Some((n, q)) => parse_blobs(s, q, n as nat),
        None => None,
    }
}

pub open spec fn texts_ok(ts: Seq<Seq<u8>>) -> bool {
    ts.len() <= 0xFF && forall|i: int| 0 <= i < ts.len() ==> #[trigger] ts[i].len() <= 0xFF
}

/// An optional port is a presence flag, then the port where present.
pub open spec fn enc_opt_port(o: Option<u16>) -> Seq<u8> {
    match o {
        Some(v) => enc_u8(1) + enc_u16(v),
        None => enc_u8(0),
    }
}

/// A flag of one reads as present and zero as absent; any other flag fails.
pub open spec fn parse_opt_port(s: Seq<u8>, p: int) -> Option<(Option<u16>, int)> {
    match parse_u8(s, p) {
        Some((flag, q)) => if flag == 1 {
            match parse_u16(s, q) {
                Some((v, r)) => Some((Some(v), r)),
                None => None,
            }
        } else if flag == 0 {
            Some((None, q))
        } else {
            None
        },
        None => None,
    }
}

/// The tag byte of a resolution.
pub open spec fn resolution_tag(r: ResolutionV) -> u8 {
    match r {
        ResolutionV::Address(_) => ADDR_MARK,
        ResolutionV::Alias(_) => ALIAS_MARK,
        ResolutionV::Service(_, _) => SVC_MARK,
        ResolutionV::Text(_) => TEXT_MARK,
    }
}

pub open spec fn enc_resolution(r: ResolutionV) -> Seq<u8> {
    enc_u8(resolution_tag(r)) + match r {
        ResolutionV::Address(a) => enc_ip(a),
        ResolutionV::Alias(t) => enc_str(t),
        ResolutionV::Service(t, port) => enc_str(t) + enc_opt_port(port),
        ResolutionV::Text(ts) => enc_texts(ts),
    }
}

pub open spec fn resolution_ok(r: ResolutionV) -> bool {
    match r {
        ResolutionV::Address(_) => true,
        ResolutionV::Alias(t) => str_ok(t),
        ResolutionV::Service(t, _) => str_ok(t),
        ResolutionV::Text(ts) => texts_ok(ts),
    }
}

pub open spec fn parse_resolution(s: Seq<u8>, p: int) -> Option<(ResolutionV, int)> {
    match parse_u8(s, p) {
        Some((tag, q)) => if tag == ADDR_MARK {
            match parse_ip(s, q) {
                Some((a, r)) => Some((ResolutionV::Address(a), r)),
                None => None,
            }
        } else if tag == ALIAS_MARK {
            match parse_str(s, q) {
                Some((t, r)) => Some((ResolutionV::Alias(t), r)),
                None => None,
            }
        } else if tag == SVC_MARK {
            match parse_str(s, q) {
                Some((t, r)) => match parse_opt_port(s, r) {
                    Some((port, r2)) => Some((ResolutionV::Service(t, port), r2)),
                    None => None,
                },
                None => None,
            }
        } else if tag == TEXT_MARK {
            match parse_texts(s, q) {
                Some((ts, r)) => Some((ResolutionV::Text(ts), r)),
                None => None,
            }
        } else {
            None
        },
        None => None,
    }
}

pub open spec fn enc_name(n: NameV) -> Seq<u8> {
    enc_str(n.name) + match n.address {
        Some(r) => enc_u8(1) + enc_resolution(r),
        None => enc_u8(0),
    }
}

pub open spec fn name_ok(n: NameV) -> bool {
    str_ok(n.name) && match n.address {
        Some(r) => resolution_ok(r),
        None => true,
    }
}

/// As with a port, a flag of one reads as present and zero as absent; any
/// other flag fails.
pub open spec fn parse_name(s: Seq<u8>, p: int) -> Option<(NameV, int)> {
    match parse_str(s, p) {
        Some((name, q)) => match parse_u8(s, q) {
            Some((flag, r)) => if flag == 1 {
                match parse_resolution(s, r) {
                    Some((res, r2)) => Some((NameV { name, address: Some(res) }, r2)),
                    None => None,
                }
            } else if flag == 0 {
                Some((NameV { name, address: None }, r))
            } else {
                None
            },
            None => None,
        },
        None => None,
    }
}

/// The encodings of the names, one after another.
pub open spec fn enc_name_list(ns: Seq<NameV>) -> Seq<u8>
    decreases ns.len(),
{
    if ns.len() == 0 {
        Seq::empty()
    } else {
        enc_name_list(ns.drop_last()) + enc_name(ns.last())
    }
}

/// Reading `n` names one after another from `p`.
pub open spec fn parse_name_list(s: Seq<u8>, p: int, n: nat) -> Option<(Seq<NameV>, int)>
    decreases n,
{
    if n == 0 {
        Some((Seq::empty(), p))
    } else {
        match parse_name_list(s, p, (n - 1) as nat) {
            Some((xs, q)) => match parse_name(s, q) {
                Some((x, r)) => Some((xs.push(x), r)),
                None => None,
            },
            None => None,
        }
    }
}

pub open spec fn enc_names(ns: Seq<NameV>) -> Seq<u8> {
    enc_u8(ns.len() as u8) + enc_name_list(ns)
}

pub open spec fn parse_names(s: Seq<u8>, p: int) -> Option<(Seq<NameV>, int)> {
    match parse_u8(s, p) {
        Some((n, q)) => parse_name_list(s, q, n as nat),
        None => None,
    }
}

pub open spec fn names_ok(ns: Seq<NameV>) -> bool {
    ns.len() <= 0xFF && forall|i: int| 0 <= i < ns.len() ==> name_ok(#[trigger] ns[i])
}

/// The tag byte of a message.
pub open spec fn message_tag(m: MessageV) -> u8 {
    match m {
        MessageV::Active(_) => ACTIVE_MARK,
        MessageV::Ended(_, _) => ENDED_MARK,
        MessageV::Failed(_, _) => FAILED_MARK,
        MessageV::Name(_, _) => NAME_MARK,
    }
}

/// The state a message carries.
pub open spec fn message_state(m: MessageV) -> State {
    match m {
        MessageV::Active(st) => st,
        MessageV::Ended(st, _) => st,
        MessageV::Failed(st, _) => st,
        MessageV::Name(st, _) => st,
    }
}

pub open spec fn enc_message(m: MessageV) -> Seq<u8> {
    enc_u8(message_tag(m)) + enc_state(message_state(m)) + match m {
        MessageV::Active(_) => Seq::empty(),
        MessageV::Ended(_, c) => enc_u8(closed_tag(c)),
        MessageV::Failed(_, pr) => enc_problem(pr),
        MessageV::Name(_, ns) => enc_names(ns),
    }
}

/// A message can be written: every length fits its prefix, the interface index
/// fits in 16 bits and the sub-second part is under a second.
pub open spec fn message_ok(m: MessageV) -> bool {
    state_ok(message_state(m)) && match m {
        MessageV::Name(_, ns) => names_ok(ns),
        _ => true,
    }
}

pub open spec fn parse_message(s: Seq<u8>, p: int) -> Option<(MessageV, int)> {
    match parse_u8(s, p) {
        Some((tag, q)) => if tag == ACTIVE_MARK || tag == ENDED_MARK || tag == FAILED_MARK || tag
            == NAME_MARK {
            match parse_state(s, q) {
                Some((st, r)) => if tag == ACTIVE_MARK {
                    Some((MessageV::Active(st), r))
                } else if tag == ENDED_MARK {
                    match parse_closed(s, r) {
                        Some((c, r2)) => Some((MessageV::Ended(st, c), r2)),
                        None => None,
                    }
                } else if tag == FAILED_MARK {
                    match parse_problem(s, r) {
                        Some((pr, r2)) => Some((MessageV::Failed(st, pr), r2)),
                        None => None,
                    }
                } else {
                    match parse_names(s, r) {
                        Some((ns, r2)) => Some((MessageV::Name(st, ns), r2)),
                        None => None,
                    }
                },
                None => None,
            }
        } else {
            None
        },
        None => None,
    }
}

proof fn lemma_blobs_fail(s: Seq<u8>, p: int, i: nat, n: nat)
    requires
        i <= n,
        parse_blobs(s, p, i) is None,
    ensures
        parse_blobs(s, p, n) is None,
    decreases n - i,
{
    if i < n {
        lemma_blobs_fail(s, p, i, (n - 1) as nat);
    }
}

proof fn lemma_names_fail(s: Seq<u8>, p: int, i: nat, n: nat)
    requires
        i <= n,
        parse_name_list(s, p, i) is None,
    ensures
        parse_name_list(s, p, n) is None,
    decreases n - i,
{
    if i < n {
        lemma_names_fail(s, p, i, (n - 1) as nat);
    }
}

proof fn lemma_str(t: Seq<char>, s: Seq<u8>, p: int)
    requires
        holds_at(s, p, enc_str(t)),
        str_ok(t),
    ensures
        parse_str(s, p) == Some((t, p + enc_str(t).len())),
{
    let e = encode_utf8(t);
    lemma_split(s, p, enc_u16(e.len() as u16), e);
    lemma_u16(e.len() as u16, s, p);
    vstd::utf8::encode_utf8_valid_utf8(t);
    vstd::utf8::encode_utf8_decode_utf8(t);
}

proof fn lemma_blob(b: Seq<u8>, s: Seq<u8>, p: int)
    requires
        holds_at(s, p, enc_blob(b)),
        b.len() <= 0xFF,
    ensures
        parse_blob(s, p) == Some((b, p + enc_blob(b).len())),
{
    lemma_split(s, p, enc_u8(b.len() as u8), b);
    lemma_u8(b.len() as u8, s, p);
}

proof fn lemma_blobs(ts: Seq<Seq<u8>>, s: Seq<u8>, p: int)
    requires
        holds_at(s, p, enc_blobs(ts)),
        forall|i: int| 0 <= i < ts.len() ==> #[trigger] ts[i].len() <= 0xFF,
    ensures
        parse_blobs(s, p, ts.len()) == Some((ts, p + enc_blobs(ts).len())),
    decreases ts.len(),
{
    if ts.len() > 0 {
        let init = ts.drop_last();
        lemma_split(s, p, enc_blobs(init), enc_blob(ts.last()));
        assert forall|i: int| 0 <= i < init.len() implies #[trigger] init[i].len() <= 0xFF by {
            assert(init[i] == ts[i]);
        }
        lemma_blobs(init, s, p);
        assert(ts[ts.len() - 1].len() <= 0xFF);
        lemma_blob(ts.last(), s, p + enc_blobs(init).len());
        assert(init.push(ts.last()) =~= ts);
    }
}

proof fn lemma_texts(ts: Seq<Seq<u8>>, s: Seq<u8>, p: int)
    requires
        holds_at(s, p, enc_texts(ts)),
        texts_ok(ts),
    ensures
        parse_texts(s, p) == Some((ts, p + enc_texts(ts).len())),
{
    lemma_split(s, p, enc_u8(ts.len() as u8), enc_blobs(ts));
    lemma_u8(ts.len() as u8, s, p);
    lemma_blobs(ts, s, p + 1);
}

proof fn lemma_opt_port(o: Option<u16>, s: Seq<u8>, p: int)
    requires
        holds_at(s, p, enc_opt_port(o)),
    ensures
        parse_opt_port(s, p) == Some((o, p + enc_opt_port(o).len())),
{
    match o {
        Some(v) => {
            lemma_split(s, p, enc_u8(1), enc_u16(v));
            lemma_u8(1, s, p);
            lemma_u16(v, s, p + 1);
        },
        None => {
            lemma_u8(0, s, p);
        },
    }
}

#[verifier::spinoff_prover]
#[verifier::rlimit(50)]
proof fn lemma_resolution(r: ResolutionV, s: Seq<u8>, p: int)
    requires
        holds_at(s, p, enc_resolution(r)),
        resolution_ok(r),
    ensures
        parse_resolution(s, p) == Some((r, p + enc_resolution(r).len())),
{
    let tag = enc_u8(resolution_tag(r));
    match r {
        ResolutionV::Address(a) => {
            lemma_split(s, p, tag, enc_ip(a));
            lemma_u8(ADDR_MARK, s, p);
            lemma_ip(a, s, p + 1);
        },
        ResolutionV::Alias(t) => {
            lemma_split(s, p, tag, enc_str(t));
            lemma_u8(ALIAS_MARK, s, p);
            lemma_str(t, s, p + 1);
        },
        ResolutionV::Service(t, port) => {
            lemma_split(s, p, tag, enc_str(t) + enc_opt_port(port));
            lemma_split(s, p + 1, enc_str(t), enc_opt_port(port));
            lemma_u8(SVC_MARK, s, p);
            lemma_str(t, s, p + 1);
            lemma_opt_port(port, s, p + 1 + enc_str(t).len());
        },
        ResolutionV::Text(ts) => {
            lemma_split(s, p, tag, enc_texts(ts));
            lemma_u8(TEXT_MARK, s, p);
            lemma_texts(ts, s, p + 1);
        },
    }
}

#[verifier::spinoff_prover]
#[verifier::rlimit(50)]
proof fn lemma_name(n: NameV, s: Seq<u8>, p: int)
    requires
        holds_at(s, p, enc_name(n)),
        name_ok(n),
    ensures
        parse_name(s, p) == Some((n, p + enc_name(n).len())),
{
    let q = p + enc_str(n.name).len();
    match n.address {
        Some(r) => {
            lemma_split(s, p, enc_str(n.name), enc_u8(1) + enc_resolution(r));
            lemma_split(s, q, enc_u8(1), enc_resolution(r));
            lemma_str(n.name, s, p);
            lemma_u8(1, s, q);
            lemma_resolution(r, s, q + 1);
        },
        None => {
            lemma_split(s, p, enc_str(n.name), enc_u8(0));
            lemma_str(n.name, s, p);
            lemma_u8(0, s, q);
        },
    }
}

proof fn lemma_name_list(ns: Seq<NameV>, s: Seq<u8>, p: int)
    requires
        holds_at(s, p, enc_name_list(ns)),
        forall|i: int| 0 <= i < ns.len() ==> name_ok(#[trigger] ns[i]),
    ensures
        parse_name_list(s, p, ns.len()) == Some((ns, p + enc_name_list(ns).len())),
    decreases ns.len(),
{
    if ns.len() > 0 {
        let init = ns.drop_last();
        lemma_split(s, p, enc_name_list(init), enc_name(ns.last()));
        assert forall|i: int| 0 <= i < init.len() implies name_ok(#[trigger] init[i]) by {
            assert(init[i] == ns[i]);
        }
        lemma_name_list(init, s, p);
        assert(name_ok(ns[ns.len() - 1]));
        lemma_name(ns.last(), s, p + enc_name_list(init).len());
        assert(init.push(ns.last()) =~= ns);
    }
}

proof fn lemma_names(ns: Seq<NameV>, s: Seq<u8>, p: int)
    requires
        holds_at(s, p, enc_names(ns)),
        names_ok(ns),
    ensures
        parse_names(s, p) == Some((ns, p + enc_names(ns).len())),
{
    lemma_split(s, p, enc_u8(ns.len() as u8), enc_name_list(ns));
    lemma_u8(ns.len() as u8, s, p);
    lemma_name_list(ns, s, p + 1);
}

#[verifier::spinoff_prover]
#[verifier::rlimit(50)]
proof fn lemma_message(m: MessageV, s: Seq<u8>, p: int)
    requires
        holds_at(s, p, enc_message(m)),
        message_ok(m),
    ensures
        parse_message(s, p) == Some((m, p + enc_message(m).len())),
{
    let st = message_state(m);
    let head = enc_u8(message_tag(m));
    let body = match m {
        MessageV::Active(_) => Seq::empty(),
        MessageV::Ended(_, c) => enc_u8(closed_tag(c)),
        MessageV::Failed(_, pr) => enc_problem(pr),
        MessageV::Name(_, ns) => enc_names(ns),
    };
    let q = p + 1 + enc_state(st).len();
    lemma_split(s, p, head + enc_state(st), body);
    lemma_split(s, p, head, enc_state(st));
    lemma_u8(message_tag(m), s, p);
    lemma_state(st, s, p + 1);
    match m {
        MessageV::Active(_) => {},
        MessageV::Ended(_, c) => {
            lemma_u8(closed_tag(c), s, q);
        },
        MessageV::Failed(_, pr) => {
            lemma_split(s, q, enc_u8(pr.kind), enc_u8(pr.code));
            lemma_u8(pr.kind, s, q);
            lemma_u8(pr.code, s, q + 1);
        },
        MessageV::Name(_, ns) => {
            lemma_names(ns, s, q);
        },
    }
}

/// Reading back the encoding of any writable message gives that message, and
/// stops exactly at the end of its encoding, whatever follows it.
#[verifier::spinoff_prover]
pub proof fn lemma_message_round_trip(m: MessageV, rest: Seq<u8>)
    requires
        message_ok(m),
    ensures
        parse_message(enc_message(m) + rest, 0) == Some((m, enc_message(m).len() as int)),
{
    let e = enc_message(m);
    let s = e + rest;
    assert(s.subrange(0, e.len() as int) =~= e);
    assert(holds_at(s, 0, e));
    lemma_message(m, s, 0);
}

// ---------------------------------------------------------------------------
// Writers and readers of the variable-length values

/// The values of a list of byte blobs.
pub open spec fn blobs_view(ts: Seq<Vec<u8>>) -> Seq<Seq<u8>> {
    ts.map_values(|b: Vec<u8>| b@)
}

/// Relies on String::from_utf8: it accepts exactly the valid UTF-8 byte
/// sequences, and the string it returns has those bytes.
#[verifier::external_body]
fn string_from_utf8(bytes: Vec<u8>) -> (r: Option<String>)
    ensures
        r is Some <==> valid_utf8(bytes@),
        r matches Some(t) ==> t@ == decode_utf8(bytes@),
{
    String::from_utf8(bytes).ok()
}

/// Whether a string's UTF-8 form fits a 16-bit length.
pub fn str_fits(t: &String) -> (r: bool)
    ensures
        r == str_ok(t@),
{
    let bytes = t.as_str().as_bytes();
    bytes.len() <= 0xFFFF
}

pub fn write_str(out: &mut Vec<u8>, t: &String)
    requires
        str_ok(t@),
    ensures
        final(out)@ == old(out)@ + enc_str(t@),
{
    let bytes = t.as_str().as_bytes();
    write_u16(out, bytes.len() as u16);
    append_bytes(out, bytes);
    assert(final(out)@ =~= old(out)@ + enc_str(t@));
}

pub fn read_str(input: &[u8], pos: usize) -> (r: Option<(String, usize)>)
    ensures
        match r {
            Some((v, q)) => parse_str(input@, pos as int) == Some((v@, q as int)),
            None => parse_str(input@, pos as int) is None,
        },
{
    let (n, q) = read_u16(input, pos)?;
    if (n as usize) <= input.len() - q {
        let bytes = slice_to_vec(slice_subrange(input, q, q + n as usize));
        let t = string_from_utf8(bytes)?;
        Some((t, q + n as usize))
    } else {
        None
    }
}

pub fn write_blob(out: &mut Vec<u8>, b: &Vec<u8>)
    requires
        b@.len() <= 0xFF,
    ensures
        final(out)@ == old(out)@ + enc_blob(b@),
{
    write_u8(out, b.len() as u8);
    append_bytes(out, b.as_slice());
    assert(final(out)@ =~= old(out)@ + enc_blob(b@));
}

pub fn read_blob(input: &[u8], pos: usize) -> (r: Option<(Vec<u8>, usize)>)
    ensures
        match r {
            Some((v, q)) => parse_blob(input@, pos as int) == Some((v@, q as int)),
            None => parse_blob(input@, pos as int) is None,
        },
{
    let (n, q) = read_u8(input, pos)?;
    if (n as usize) <= input.len() - q {
        let bytes = slice_to_vec(slice_subrange(input, q, q + n as usize));
        Some((bytes, q + n as usize))
    } else {
        None
    }
}

/// Whether a list of texts fits its 8-bit lengths.
pub fn texts_fit(ts: &Vec<Vec<u8>>) -> (r: bool)
    ensures
        r == texts_ok(blobs_view(ts@)),
{
    if ts.len() > 0xFF {
        return false;
    }
    let mut i: usize = 0;
    while i < ts.len()
        invariant
            i <= ts@.len(),
            forall|j: int| 0 <= j < i ==> #[trigger] blobs_view(ts@)[j].len() <= 0xFF,
        decreases ts@.len() - i,
    {
        if ts[i].len() > 0xFF {
            assert(blobs_view(ts@)[i as int].len() > 0xFF);
            return false;
        }
        i += 1;
    }
    true
}

pub fn write_texts(out: &mut Vec<u8>, ts: &Vec<Vec<u8>>)
    requires
        texts_ok(blobs_view(ts@)),
    ensures
        final(out)@ == old(out)@ + enc_texts(blobs_view(ts@)),
{
    let ghost all = blobs_view(ts@);
    write_u8(out, ts.len() as u8);
    let ghost start = out@;
    let mut i: usize = 0;
    while i < ts.len()
        invariant
            i <= ts@.len(),
            all == blobs_view(ts@),
            texts_ok(all),
            out@ == start + enc_blobs(all.subrange(0, i as int)),
        decreases ts@.len() - i,
    {
        assert(all[i as int].len() <= 0xFF);
        write_blob(out, &ts[i]);
        assert(all.subrange(0, i + 1).drop_last() =~= all.subrange(0, i as int));
        i += 1;
    }
    assert(all.subrange(0, i as int) =~= all);
    assert(final(out)@ =~= old(out)@ + enc_texts(all));
}

pub fn read_texts(input: &[u8], pos: usize) -> (r: Option<(Vec<Vec<u8>>, usize)>)
    ensures
        match r {
            Some((v, q)) => parse_texts(input@, pos as int) == Some((blobs_view(v@), q as int)),
            None => parse_texts(input@, pos as int) is None,
        },
{
    let (n, q) = read_u8(input, pos)?;
    let mut items: Vec<Vec<u8>> = Vec::new();
    let mut at = q;
    let mut i: u8 = 0;
    while i < n
        invariant
            i <= n,
            parse_u8(input@, pos as int) == Some((n, q as int)),
            parse_blobs(input@, q as int, i as nat) == Some((blobs_view(items@), at as int)),
        decreases n - i,
    {
        match read_blob(input, at) {
            Some((b, next)) => {
                let ghost before = items@;
                items.push(b);
                assert(blobs_view(items@) =~= blobs_view(before).push(b@));
                at = next;
                i += 1;
            },
            None => {
                proof {
                    lemma_blobs_fail(input@, q as int, (i + 1) as nat, n as nat);
                }
                return None;
            },
        }
    }
    Some((items, at))
}

pub fn write_resolution(out: &mut Vec<u8>, r: &Resolution)
    requires
        resolution_ok(r@),
    ensures
        final(out)@ == old(out)@ + enc_resolution(r@),
{
    write_u8(out, r.number());
    match r {
        Resolution::Address(a) => write_ip(out, a),
        Resolution::Alias(t) => write_str(out, t),
        Resolution::Service(t, port) => {
            write_str(out, t);
            match port {
                Some(v) => {
                    write_u8(out, 1);
                    write_u16(out, *v);
                },
                None => write_u8(out, 0),
            }
        },
        Resolution::Text(ts) => write_texts(out, ts),
    }
    assert(final(out)@ =~= old(out)@ + enc_resolution(r@));
}

pub fn read_resolution(input: &[u8], pos: usize) -> (r: Option<(Resolution, usize)>)
    ensures
        match r {
            Some((v, q)) => parse_resolution(input@, pos as int) == Some((v@, q as int)),
            None => parse_resolution(input@, pos as int) is None,
        },
{
    let (tag, q) = read_u8(input, pos)?;
    if tag == ADDR_MARK {
        let (a, r) = read_ip(input, q)?;
        Some((Resolution::Address(a), r))
    } else if tag == ALIAS_MARK {
        let (t, r) = read_str(input, q)?;
        Some((Resolution::Alias(t), r))
    } else if tag == SVC_MARK {
        let (t, r) = read_str(input, q)?;
        let (flag, r1) = read_u8(input, r)?;
        if flag == 1 {
            let (v, r2) = read_u16(input, r1)?;
            Some((Resolution::Service(t, Some(v)), r2))
        } else if flag == 0 {
            Some((Resolution::Service(t, None), r1))
        } else {
            None
        }
    } else if tag == TEXT_MARK {
        let (ts, r) = read_texts(input, q)?;
        Some((Resolution::Text(ts), r))
    } else {
        None
    }
}

impl Resolution {
    /// The tag byte of this resolution.
    pub fn number(&self) -> (r: u8)
        ensures
            r == resolution_tag(self@),
    {
        match self {
            Resolution::Address(_) => ADDR_MARK,
            Resolution::Alias(_) => ALIAS_MARK,
            Resolution::Service(_, _) => SVC_MARK,
            Resolution::Text(_) => TEXT_MARK,
        }
    }

    /// Whether every length in this resolution fits its prefix.
    pub fn fits(&self) -> (r: bool)
        ensures
            r == resolution_ok(self@),
    {
        match self {
            Resolution::Address(_) => true,
            Resolution::Alias(t) => str_fits(t),
            Resolution::Service(t, _) => str_fits(t),
            Resolution::Text(ts) => texts_fit(ts),
        }
    }
}

impl Name {
    /// Whether every length in this name fits its prefix.
    pub fn fits(&self) -> (r: bool)
        ensures
            r == name_ok(self@),
    {
        str_fits(&self.name) && match &self.address {
            Some(res) => res.fits(),
            None => true,
        }
    }
}

pub fn write_name(out: &mut Vec<u8>, n: &Name)
    requires
        name_ok(n@),
    ensures
        final(out)@ == old(out)@ + enc_name(n@),
{
    write_str(out, &n.name);
    match &n.address {
        Some(res) => {
            write_u8(out, 1);
            write_resolution(out, res);
        },
        None => write_u8(out, 0),
    }
    assert(final(out)@ =~= old(out)@ + enc_name(n@));
}

pub fn read_name(input: &[u8], pos: usize) -> (r: Option<(Name, usize)>)
    ensures
        match r {
            Some((v, q)) => parse_name(input@, pos as int) == Some((v@, q as int)),
            None => parse_name(input@, pos as int) is None,
        },
{
    let (name, q) = read_str(input, pos)?;
    let (flag, r) = read_u8(input, q)?;
    if flag == 1 {
        let (res, r2) = read_resolution(input, r)?;
        Some((Name { name, address: Some(res) }, r2))
    } else if flag == 0 {
        Some((Name { name, address: None }, r))
    } else {
        None
    }
}

/// Whether a list of names fits its 8-bit length, and each name its prefixes.
pub fn names_fit(ns: &Vec<Name>) -> (r: bool)
    ensures
        r == names_ok(names_view(ns@)),
{
    if ns.len() > 0xFF {
        return false;
    }
    let mut i: usize = 0;
    while i < ns.len()
        invariant
            i <= ns@.len(),
            forall|j: int| 0 <= j < i ==> name_ok(#[trigger] names_view(ns@)[j]),
        decreases ns@.len() - i,
    {
        if !ns[i].fits() {
            assert(!name_ok(names_view(ns@)[i as int]));
            return false;
        }
        i += 1;
    }
    true
}

pub fn write_names(out: &mut Vec<u8>, ns: &Vec<Name>)
    requires
        names_ok(names_view(ns@)),
    ensures
        final(out)@ == old(out)@ + enc_names(names_view(ns@)),
{
    let ghost all = names_view(ns@);
    write_u8(out, ns.len() as u8);
    let ghost start = out@;
    let mut i: usize = 0;
    while i < ns.len()
        invariant
            i <= ns@.len(),
            all == names_view(ns@),
            names_ok(all),
            out@ == start + enc_name_list(all.subrange(0, i as int)),
        decreases ns@.len() - i,
    {
        assert(name_ok(all[i as int]));
        write_name(out, &ns[i]);
        assert(all.subrange(0, i + 1).drop_last() =~= all.subrange(0, i as int));
        i += 1;
    }
    assert(all.subrange(0, i as int) =~= all);
    assert(final(out)@ =~= old(out)@ + enc_names(all));
}

pub fn read_names(input: &[u8], pos: usize) -> (r: Option<(Vec<Name>, usize)>)
    ensures
        match r {
            Some((v, q)) => parse_names(input@, pos as int) == Some((names_view(v@), q as int)),
            None => parse_names(input@, pos as int) is None,
        },
{
    let (n, q) = read_u8(input, pos)?;
    let mut items: Vec<Name> = Vec::new();
    let mut at = q;
    let mut i: u8 = 0;
    while i < n
        invariant
            i <= n,
            parse_u8(input@, pos as int) == Some((n, q as int)),
            parse_name_list(input@, q as int, i as nat) == Some((names_view(items@), at as int)),
        decreases n - i,
    {
        match read_name(input, at) {
            Some((b, next)) => {
                let ghost before = items@;
                let ghost bv = b@;
                items.push(b);
                assert(names_view(items@) =~= names_view(before).push(bv));
                at = next;
                i += 1;
            },
            None => {
                proof {
                    lemma_names_fail(input@, q as int, (i + 1) as nat, n as nat);
                }
                return None;
            },
        }
    }
    Some((items, at))
}

// ---------------------------------------------------------------------------
// Messages

impl Message {
    /// Whether this message can be written: see `message_ok`.
    pub fn fits(&self) -> (r: bool)
        ensures
            r == message_ok(self@),
    {
        let st = match self {
            Message::Active(st) => st,
            Message::Ended(st, _) => st,
            Message::Failed(st, _) => st,
            Message::Name(st, _) => st,
        };
        if st.connection.interface > 0xFFFF || st.as_of.nanos >= NANOS_PER_SEC {
            return false;
        }
        match self {
            Message::Name(_, ns) => names_fit(ns),
            _ => true,
        }
    }

    /// Appends the encoding of this message to `out`, where it can be written;
    /// otherwise leaves `out` as it was and returns false.
    #[verifier::spinoff_prover]
    #[verifier::rlimit(40)]
    pub fn encode(&self, out: &mut Vec<u8>) -> (r: bool)
        ensures
            r == message_ok(self@),
            r ==> final(out)@ == old(out)@ + enc_message(self@),
            !r ==> final(out)@ == old(out)@,
    {
        if !self.fits() {
            return false;
        }
        match self {
            Message::Active(st) => {
                write_u8(out, ACTIVE_MARK);
                write_state(out, st);
            },
            Message::Ended(st, c) => {
                write_u8(out, ENDED_MARK);
                write_state(out, st);
                write_u8(out, c.number());
            },
            Message::Failed(st, pr) => {
                write_u8(out, FAILED_MARK);
                write_state(out, st);
                write_u8(out, pr.kind);
                write_u8(out, pr.code);
            },
            Message::Name(st, ns) => {
                write_u8(out, NAME_MARK);
                write_state(out, st);
                write_names(out, ns);
            },
        }
        assert(final(out)@ =~= old(out)@ + enc_message(self@));
        true
    }

    /// Reads a message from the start of `input`; bytes after it are ignored.
    pub fn decode(input: &[u8]) -> (r: Option<Message>)
        ensures
            match r {
                Some(m) => parse_message(input@, 0) matches Some((v, _)) && v == m@,
                None => parse_message(input@, 0) is None,
            },
    {
        match read_message(input, 0) {
            Some((m, _)) => Some(m),
            None => None,
        }
    }
}

pub fn read_message(input: &[u8], pos: usize) -> (r: Option<(Message, usize)>)
    ensures
        match r {
            Some((v, q)) => parse_message(input@, pos as int) == Some((v@, q as int)),
            None => parse_message(input@, pos as int) is None,
        },
{
    let (tag, q) = read_u8(input, pos)?;
    if tag != ACTIVE_MARK && tag != ENDED_MARK && tag != FAILED_MARK && tag != NAME_MARK {
        return None;
    }
    let (st, r) = read_state(input, q)?;
    if tag == ACTIVE_MARK {
        Some((Message::Active(st), r))
    } else if tag == ENDED_MARK {
        let (c, r2) = read_closed(input, r)?;
        Some((Message::Ended(st, c), r2))
    } else if tag == FAILED_MARK {
        let (pr, r2) = read_problem(input, r)?;
        Some((Message::Failed(st, pr), r2))
    } else {
        let (ns, r2) = read_names(input, r)?;
        Some((Message::Name(st, ns), r2))
    }
}

/// Every tagged value is written with its fixed tag byte first.
pub proof fn lemma_tags_lead(m: MessageV, r: ResolutionV, a: IpAddr)
    ensures
        enc_message(m)[0] == message_tag(m),
        enc_resolution(r)[0] == resolution_tag(r),
        enc_ip(a)[0] == match a {
            IpAddr::V4(_) => V4_MARK,
            IpAddr::V6(_) => V6_MARK,
        },
        message_tag(MessageV::Active(message_state(m))) == 1,
        message_tag(MessageV::Ended(message_state(m), Closed::Normally)) == 2,
        message_tag(MessageV::Failed(message_state(m), Problem { kind: 0, code: 0 })) == 3,
        message_tag(MessageV::Name(message_state(m), Seq::empty())) == 4,
        closed_tag(Closed::Normally) == 1 && closed_tag(Closed::Reset) == 2,
        closed_tag(Closed::Connectionless) == 3 && closed_tag(Closed::TimedOut) == 4,
        protocol_tag(Protocol::Tcp) == 1 && protocol_tag(Protocol::Udp) == 2,
{
}

/// Reading a tagged value whose tag byte is not one of its variants' fails.
pub proof fn lemma_unknown_tags_fail(s: Seq<u8>, p: int)
    requires
        0 <= p < s.len(),
    ensures
        !(1 <= s[p] <= 4) ==> parse_message(s, p) is None,
        !(1 <= s[p] <= 4) ==> parse_resolution(s, p) is None,
        !(1 <= s[p] <= 4) ==> parse_closed(s, p) is None,
        !(1 <= s[p] <= 2) ==> parse_protocol(s, p) is None,
        !(1 <= s[p] <= 2) ==> parse_ip(s, p) is None,
{
}

} // verus!
