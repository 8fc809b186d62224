//! Packet headers, as far as the tracker reads them. The headers themselves are
//! parsed by `pktparse` and DNS payloads by `dns_parser`; each wrapper here
//! states what the parser yields on given bytes.
use vstd::prelude::*;

use dns_parser::RData;
use pktparse::ethernet::EtherType;
use pktparse::icmp::IcmpCode;
use pktparse::ip::IPProtocol;

use crate::codec::{join16, join32, join64, join128};
use crate::model::{HostPair, IpAddr, Name, NameV, Resolution, ResolutionV, bytes_list_view, names_view};
use crate::packet::IcmpKind::{
    EchoReply, EchoRequest, ExtendedEchoReply, ExtendedEchoRequest, ParameterProblem, Redirect,
    Reserved, RouterAdvertisement, RouterSolicitation, SourceQuench, TimeExceeded, Timestamp,
    TimestampReply, Unknown, Unreachable,
};
use crate::packet::RecordData::{A, Aaaa, Cname, Mx, Other, Srv, Txt};

verus! {

/// The network-layer protocols that the tracker follows.
#[derive(Clone, Copy, Debug, PartialEq, Eq, Structural)]
pub enum EtherKind {
    Ipv4,
    Ipv6,
    Other,
}

/// The transport-layer protocols that the tracker follows.
#[derive(Clone, Copy, Debug, PartialEq, Eq, Structural)]
pub enum NextProto {
    Tcp,
    Udp,
    Icmp,
    Icmp6,
    Other,
}

/// The big-endian 16-bit value at `i`.
pub open spec fn be16_at(s: Seq<u8>, i: int) -> u16 {
    join16(s[i], s[i + 1])
}

/// The big-endian 32-bit value at `i`.
pub open spec fn be32_at(s: Seq<u8>, i: int) -> u32 {
    join32(be16_at(s, i), be16_at(s, i + 2))
}

/// The big-endian 128-bit value at `i`.
pub open spec fn be128_at(s: Seq<u8>, i: int) -> u128 {
    join128(
        join64(be32_at(s, i), be32_at(s, i + 4)),
        join64(be32_at(s, i + 8), be32_at(s, i + 12)),
    )
}

/// The bytes of `s` from `i` on.
pub open spec fn suffix_from(s: Seq<u8>, i: int) -> Seq<u8> {
    s.subrange(i, s.len() as int)
}

pub open spec fn ether_kind(t: u16) -> EtherKind {
    if t == 0x0800 {
        EtherKind::Ipv4
    } else if t == 0x86DD {
        EtherKind::Ipv6
    } else {
        EtherKind::Other
    }
}

pub open spec fn next_proto(b: u8) -> NextProto {
    if b == 6 {
        NextProto::Tcp
    } else if b == 17 {
        NextProto::Udp
    } else if b == 1 {
        NextProto::Icmp
    } else if b == 58 {
        NextProto::Icmp6
    } else {
        NextProto::Other
    }
}

/// An Ethernet header: two addresses of six bytes, then the type of what follows.
pub open spec fn ethernet_spec(f: Seq<u8>) -> Option<(EtherKind, Seq<u8>)> {
    if f.len() >= 14 {
        Some((ether_kind(be16_at(f, 12)), suffix_from(f, 14)))
    } else {
        None
    }
}

/// An IPv4 header of twenty bytes; the payload is taken to follow it directly.
pub open spec fn ipv4_spec(p: Seq<u8>) -> Option<(HostPair, NextProto, Seq<u8>)> {
    if p.len() >= 20 {
        Some((
            HostPair { src: IpAddr::V4(be32_at(p, 12)), dst: IpAddr::V4(be32_at(p, 16)) },
            next_proto(p[9]),
            suffix_from(p, 20),
        ))
    } else {
        None
    }
}

/// An IPv6 header of forty bytes.
pub open spec fn ipv6_spec(p: Seq<u8>) -> Option<(HostPair, NextProto, Seq<u8>)> {
    if p.len() >= 40 {
        Some((
            HostPair { src: IpAddr::V6(be128_at(p, 8)), dst: IpAddr::V6(be128_at(p, 24)) },
            next_proto(p[6]),
            suffix_from(p, 40),
        ))
    } else {
        None
    }
}

/// The TCP header's data offset, in 32-bit words.
pub open spec fn tcp_data_offset(p: Seq<u8>) -> int {
    (p[12] as int) / 16
}

/// A TCP header: ports, then flags; options past the twenty fixed bytes must be present.
pub open spec fn tcp_spec(p: Seq<u8>) -> Option<(u16, u16, bool, bool)> {
    if p.len() >= 20 && (tcp_data_offset(p) <= 5 || (tcp_data_offset(p) - 5) * 4 <= p.len() - 20) {
        Some((be16_at(p, 0), be16_at(p, 2), p[13] & 4 == 4, p[13] & 1 == 1))
    } else {
        None
    }
}

/// A UDP header: ports, length and checksum, eight bytes.
pub open spec fn udp_spec(p: Seq<u8>) -> Option<(u16, u16, Seq<u8>)> {
    if p.len() >= 8 {
        Some((be16_at(p, 0), be16_at(p, 2), suffix_from(p, 8)))
    } else {
        None
    }
}

/// The ICMP messages after whose header the parser also reads the quoted IPv4
/// header and the first eight bytes of its payload.
pub open spec fn icmp_quotes(kind: u8, code: u8) -> bool {
    (kind == 3 && code <= 15) || (kind == 5 && code <= 3) || (kind == 11 && code <= 1)
}

/// An ICMP type and code as the parser classifies them. The sub-codes of the
/// kinds that carry one are the ICMP code itself; `Unknown` holds the type and
/// code as one big-endian value.
#[derive(Clone, Copy, Debug, PartialEq, Eq, Structural)]
pub enum IcmpKind {
    EchoReply,
    Reserved,
    Unreachable(u8),
    SourceQuench,
    Redirect(u8),
    EchoRequest,
    RouterAdvertisement,
    RouterSolicitation,
    TimeExceeded(u8),
    ParameterProblem(u8),
    Timestamp,
    TimestampReply,
    ExtendedEchoRequest,
    ExtendedEchoReply(u8),
    Unknown(u16),
}

/// The classification of an ICMP type and code: known types, with their known
/// sub-codes; types 1, 2 and 7 are reserved; anything else is unknown.
pub open spec fn icmp_kind_spec(t: u8, c: u8) -> IcmpKind {
    let raw = join16(t, c);
    if t == 0 {
        IcmpKind::EchoReply
    } else if t == 1 || t == 2 || t == 7 {
        IcmpKind::Reserved
    } else if t == 3 && c <= 15 {
        IcmpKind::Unreachable(c)
    } else if t == 4 && c == 0 {
        IcmpKind::SourceQuench
    } else if t == 5 && c <= 3 {
        IcmpKind::Redirect(c)
    } else if t == 8 {
        IcmpKind::EchoRequest
    } else if t == 9 {
        IcmpKind::RouterAdvertisement
    } else if t == 10 {
        IcmpKind::RouterSolicitation
    } else if t == 11 && c <= 1 {
        IcmpKind::TimeExceeded(c)
    } else if t == 12 && c <= 2 {
        IcmpKind::ParameterProblem(c)
    } else if t == 13 {
        IcmpKind::Timestamp
    } else if t == 14 {
        IcmpKind::TimestampReply
    } else if t == 42 {
        IcmpKind::ExtendedEchoRequest
    } else if t == 43 && c <= 4 {
        IcmpKind::ExtendedEchoReply(c)
    } else {
        IcmpKind::Unknown(raw)
    }
}

/// An ICMP header: its classified type and code, and what follows it (after
/// four bytes of type, code and checksum, and for the messages that quote a
/// packet, thirty-two more).
pub open spec fn icmp_spec(p: Seq<u8>) -> Option<(IcmpKind, Seq<u8>)> {
    if p.len() >= 4 && !icmp_quotes(p[0], p[1]) {
        Some((icmp_kind_spec(p[0], p[1]), suffix_from(p, 4)))
    } else if p.len() >= 36 && icmp_quotes(p[0], p[1]) {
        Some((icmp_kind_spec(p[0], p[1]), suffix_from(p, 36)))
    } else {
        None
    }
}

/// Relies on pktparse::ethernet::parse_ethernet_frame: it reads two MAC
/// addresses and a big-endian EtherType (0x0800 IPv4, 0x86DD IPv6), and
/// fails on fewer than fourteen bytes.
#[verifier::external_body]
pub(crate) fn parse_ethernet(frame: &[u8]) -> (r: Option<(EtherKind, &[u8])>)
    ensures
        match r {
            Some((k, rest)) => ethernet_spec(frame@) == Some((k, rest@)),
            None => ethernet_spec(frame@) is None,
        },
{
    match pktparse::ethernet::parse_ethernet_frame(frame) {
        Ok((rest, h)) => Some((match h.ethertype {
            EtherType::IPv4 => EtherKind::Ipv4,
            EtherType::IPv6 => EtherKind::Ipv6,
            _ => EtherKind::Other,
        }, rest)),
        Err(_) => None,
    }
}

/// Relies on pktparse::ipv4::parse_ipv4_header: twenty fixed bytes, the
/// protocol at byte 9 (6 TCP, 17 UDP, 1 ICMP, 58 ICMPv6), the addresses at
/// bytes 12 and 16 (options are not skipped); and on `u32::from(Ipv4Addr)`, which is big-endian.
#[verifier::external_body]
pub(crate) fn parse_ipv4(packet: &[u8]) -> (r: Option<(HostPair, NextProto, &[u8])>)
    ensures
        match r {
            Some((h, n, rest)) => ipv4_spec(packet@) == Some((h, n, rest@)),
            None => ipv4_spec(packet@) is None,
        },
{
    match pktparse::ipv4::parse_ipv4_header(packet) {
        Ok((rest, h)) => Some((
            HostPair { src: IpAddr::V4(h.source_addr.into()), dst: IpAddr::V4(h.dest_addr.into()) },
            match h.protocol {
                IPProtocol::TCP => NextProto::Tcp,
                IPProtocol::UDP => NextProto::Udp,
                IPProtocol::ICMP => NextProto::Icmp,
                IPProtocol::ICMP6 => NextProto::Icmp6,
                _ => NextProto::Other,
            },
            rest,
        )),
        Err(_) => None,
    }
}

/// Relies on pktparse::ipv6::parse_ipv6_header: forty fixed bytes, the next
/// header at byte 6 (numbered as for IPv4), the addresses at bytes 8 and 24; and on
/// `u128::from(Ipv6Addr)`, which is big-endian.
#[verifier::external_body]
pub(crate) fn parse_ipv6(packet: &[u8]) -> (r: Option<(HostPair, NextProto, &[u8])>)
    ensures
        match r {
            Some((h, n, rest)) => ipv6_spec(packet@) == Some((h, n, rest@)),
            None => ipv6_spec(packet@) is None,
        },
{
    match pktparse::ipv6::parse_ipv6_header(packet) {
        Ok((rest, h)) => Some((
            HostPair { src: IpAddr::V6(h.source_addr.into()), dst: IpAddr::V6(h.dest_addr.into()) },
            match h.next_header {
                IPProtocol::TCP => NextProto::Tcp,
                IPProtocol::UDP => NextProto::Udp,
                IPProtocol::ICMP => NextProto::Icmp,
                IPProtocol::ICMP6 => NextProto::Icmp6,
                _ => NextProto::Other,
            },
            rest,
        )),
        Err(_) => None,
    }
}

/// Relies on pktparse::tcp::parse_tcp_header: twenty fixed bytes with the
/// ports first and the flags in the low six bits of byte 13 (RST 4, FIN 1);
/// where the data offset exceeds five words, the options must be present.
#[verifier::external_body]
pub(crate) fn parse_tcp(segment: &[u8]) -> (r: Option<(u16, u16, bool, bool)>)
    ensures
        r == tcp_spec(segment@),
{
    match pktparse::tcp::parse_tcp_header(segment) {
        Ok((_, h)) => Some((h.source_port, h.dest_port, h.flag_rst, h.flag_fin)),
        Err(_) => None,
    }
}

/// Relies on pktparse::udp::parse_udp_header: eight bytes, the ports first.
#[verifier::external_body]
pub(crate) fn parse_udp(datagram: &[u8]) -> (r: Option<(u16, u16, &[u8])>)
    ensures
        match r {
            Some((s, d, rest)) => udp_spec(datagram@) == Some((s, d, rest@)),
            None => udp_spec(datagram@) is None,
        },
{
    match pktparse::udp::parse_udp_header(datagram) {
        Ok((rest, h)) => Some((h.source_port, h.dest_port, rest)),
        Err(_) => None,
    }
}

/// Relies on pktparse::icmp::parse_icmp_header: type and code, read as one
/// big-endian value and classified by `IcmpCode::from(u16)`, then the
/// checksum; for destination unreachable (codes 0 to 15), redirect (0 to 3)
/// and time exceeded (0 and 1) it goes on to read four more bytes, a quoted
/// IPv4 header and eight bytes of its payload. What remains is returned. The
/// sub-code enums are declared in the order of their codes, from 0.
#[verifier::external_body]
pub(crate) fn parse_icmp(packet: &[u8]) -> (r: Option<(IcmpKind, &[u8])>)
    ensures
        match r {
            Some((k, rest)) => icmp_spec(packet@) == Some((k, rest@)),
            None => icmp_spec(packet@) is None,
        },
{
    let (rest, h) = pktparse::icmp::parse_icmp_header(packet).ok()?;
    Some((match h.code {
        IcmpCode::EchoReply => EchoReply, IcmpCode::Reserved => Reserved,
        IcmpCode::DestinationUnreachable(u) => Unreachable(u as u8),
        IcmpCode::SourceQuench => SourceQuench, IcmpCode::Redirect(d) => Redirect(d as u8),
        IcmpCode::EchoRequest => EchoRequest, IcmpCode::RouterAdvertisment => RouterAdvertisement,
        IcmpCode::RouterSolicication => RouterSolicitation, IcmpCode::TimeExceeded(t) => TimeExceeded(t as u8),
        IcmpCode::ParameterProblem(p) => ParameterProblem(p as u8), IcmpCode::Timestamp => Timestamp,
        IcmpCode::TimestampReply => TimestampReply, IcmpCode::ExtendedEchoRequest => ExtendedEchoRequest,
        IcmpCode::ExtendedEchoReply(e) => ExtendedEchoReply(e as u8), IcmpCode::Other(raw) => Unknown(raw),
    }, rest))
}

/// The data of a DNS answer record, as far as names resolve through it.
#[derive(Clone, Debug, PartialEq, Eq)]
pub enum RecordData {
    /// An IPv4 address.
    A(u32),
    /// An IPv6 address.
    Aaaa(u128),
    /// The canonical name of an alias.
    Cname(String),
    /// A mail exchange.
    Mx(String),
    /// A service target and its port.
    Srv(String, u16),
    /// Text strings.
    Txt(Vec<Vec<u8>>),
    /// Any other record type.
    Other,
}

/// The mathematical value of a `RecordData`.
pub enum RecordDataV {
    A(u32),
    Aaaa(u128),
    Cname(Seq<char>),
    Mx(Seq<char>),
    Srv(Seq<char>, u16),
    Txt(Seq<Seq<u8>>),
    Other,
}

impl View for RecordData {
    type V = RecordDataV;

    open spec fn view(&self) -> RecordDataV {
        match self {
            RecordData::A(x) => RecordDataV::A(*x),
            RecordData::Aaaa(x) => RecordDataV::Aaaa(*x),
            RecordData::Cname(t) => RecordDataV::Cname(t@),
            RecordData::Mx(t) => RecordDataV::Mx(t@),
            RecordData::Srv(t, port) => RecordDataV::Srv(t@, *port),
            RecordData::Txt(ts) => RecordDataV::Txt(bytes_list_view(ts@)),
            RecordData::Other => RecordDataV::Other,
        }
    }
}

/// The values of a list of record data.
pub open spec fn records_view(ds: Seq<RecordData>) -> Seq<RecordDataV> {
    ds.map_values(|d: RecordData| d@)
}

/// The values of a list of strings.
pub open spec fn strings_view(ts: Seq<String>) -> Seq<Seq<char>> {
    ts.map_values(|t: String| t@)
}

/// What a name resolves to through an answer record: an address for A and
/// AAAA, an alias for CNAME, a service target without a port for MX and with
/// its port for SRV, the strings for TXT, and nothing for any other type.
pub open spec fn resolution_spec(d: RecordDataV) -> Option<ResolutionV> {
    match d {
        RecordDataV::A(x) => Some(ResolutionV::Address(IpAddr::V4(x))),
        RecordDataV::Aaaa(x) => Some(ResolutionV::Address(IpAddr::V6(x))),
        RecordDataV::Cname(t) => Some(ResolutionV::Alias(t)),
        RecordDataV::Mx(t) => Some(ResolutionV::Service(t, None)),
        RecordDataV::Srv(t, port) => Some(ResolutionV::Service(t, Some(port))),
        RecordDataV::Txt(ts) => Some(ResolutionV::Text(ts)),
        RecordDataV::Other => None,
    }
}

/// The value of an optional resolution.
pub open spec fn opt_resolution_view(r: Option<Resolution>) -> Option<ResolutionV> {
    match r {
        Some(x) => Some(x@),
        None => None,
    }
}

/// What a name resolves to through an answer record's data.
pub fn resolution_of(d: RecordData) -> (r: Option<Resolution>)
    ensures
        opt_resolution_view(r) == resolution_spec(d@),
{
    match d {
        RecordData::A(x) => Some(Resolution::Address(IpAddr::V4(x))),
        RecordData::Aaaa(x) => Some(Resolution::Address(IpAddr::V6(x))),
        RecordData::Cname(t) => Some(Resolution::Alias(t)),
        RecordData::Mx(t) => Some(Resolution::Service(t, None)),
        RecordData::Srv(t, port) => Some(Resolution::Service(t, Some(port))),
        RecordData::Txt(ts) => Some(Resolution::Text(ts)),
        RecordData::Other => None,
    }
}

/// What a DNS payload holds, in the order of the packet: the names of its
/// questions, the names of its answers, and the data of its answers; `None`
/// where the payload does not parse.
pub uninterp spec fn dns_records(payload: Seq<u8>) -> Option<(Seq<Seq<char>>, Seq<Seq<char>>, Seq<RecordDataV>)>;

/// A question names something without resolving it.
pub open spec fn question_names(qn: Seq<Seq<char>>) -> Seq<NameV> {
    Seq::new(qn.len(), |i: int| NameV { name: qn[i], address: None })
}

/// An answer names something and resolves it through its data.
pub open spec fn answer_names(an: Seq<Seq<char>>, ad: Seq<RecordDataV>) -> Seq<NameV> {
    Seq::new(an.len(), |i: int| NameV { name: an[i], address: resolution_spec(ad[i]) })
}

/// The names of a DNS payload: its questions', then its answers'.
pub open spec fn dns_names_of(payload: Seq<u8>) -> Option<(Seq<NameV>, Seq<NameV>)> {
    match dns_records(payload) {
        Some((qn, an, ad)) => Some((question_names(qn), answer_names(an, ad))),
        None => None,
    }
}

/// Relies on dns_parser::Packet::parse, and on the name of each question and
/// of each answer, in the order of the packet.
#[verifier::external_body]
fn dns_names(payload: &[u8]) -> (r: Option<(Vec<String>, Vec<String>)>)
    ensures
        match r {
            Some((q, a)) => dns_records(payload@) matches Some((qn, an, _)) && strings_view(q@) == qn
                && strings_view(a@) == an,
            None => dns_records(payload@) is None,
        },
{
    let p = dns_parser::Packet::parse(payload).ok()?;
    let questions = p.questions.iter().map(|q| q.qname.to_string()).collect();
    Some((questions, p.answers.iter().map(|a| a.name.to_string()).collect()))
}

/// Relies on dns_parser::Packet::parse, and on the data of each answer (its
/// RData): the address of A and AAAA, the name of CNAME, the exchange of MX,
/// the target and port of SRV, the strings of TXT; the other types are `Other`.
#[verifier::external_body]
fn dns_record_data(payload: &[u8]) -> (r: Option<Vec<RecordData>>)
    ensures
        match r {
            Some(d) => dns_records(payload@) matches Some((_, an, ad)) && records_view(d@) == ad
                && d@.len() == an.len(),
            None => dns_records(payload@) is None,
        },
{
    Some(dns_parser::Packet::parse(payload).ok()?.answers.iter().map(|a| match &a.data {
        RData::A(x) => A(x.0.into()),
        RData::AAAA(x) => Aaaa(x.0.into()),
        RData::CNAME(x) => Cname(x.0.to_string()),
        RData::MX(x) => Mx(x.exchange.to_string()),
        RData::SRV(x) => Srv(x.target.to_string(), x.port),
        RData::TXT(x) => Txt(x.iter().map(|t| t.to_vec()).collect()),
        _ => Other,
    }).collect())
}

/// The names of a DNS payload: each question's, with no resolution, then each
/// answer's, resolved through its record data; `None` where the payload does
/// not parse.
pub fn parse_dns(payload: &[u8]) -> (r: Option<(Vec<Name>, Vec<Name>)>)
    ensures
        match r {
            Some((q, a)) => dns_names_of(payload@) == Some((names_view(q@), names_view(a@))),
            None => dns_names_of(payload@) is None,
        },
{
    let (qnames, anames) = dns_names(payload)?;
    let mut records = dns_record_data(payload)?;
    let ghost (qn, an, ad) = dns_records(payload@)->0;
    let ghost qs = question_names(qn);
    let ghost ans = answer_names(an, ad);
    let mut questions: Vec<Name> = Vec::new();
    let mut i: usize = 0;
    while i < qnames.len()
        invariant
            i <= qnames@.len(),
            strings_view(qnames@) == qn,
            qs == question_names(qn),
            names_view(questions@) == qs.subrange(0, i as int),
        decreases qnames@.len() - i,
    {
        let ghost before = questions@;
        let entry = Name { name: qnames[i].clone(), address: None };
        assert(entry@ == qs[i as int]) by {
            assert(qnames@[i as int]@ == qn[i as int]);
        }
        questions.push(entry);
        assert(names_view(questions@) =~= qs.subrange(0, i + 1)) by {
            assert(names_view(questions@) =~= names_view(before).push(qs[i as int]));
        }
        i += 1;
    }
    assert(qs.subrange(0, i as int) =~= qs);
    let ghost all = records@;
    assert(all.subrange(0, all.len() as int) =~= all);
    let mut answers: Vec<Name> = Vec::new();
    let mut k: usize = 0;
    while k < anames.len()
        invariant
            k <= anames@.len(),
            strings_view(anames@) == an,
            records_view(all) == ad,
            all.len() == an.len(),
            records@ == all.subrange(k as int, all.len() as int),
            ans == answer_names(an, ad),
            names_view(answers@) == ans.subrange(0, k as int),
        decreases anames@.len() - k,
    {
        let ghost before = answers@;
        let d = records.remove(0);
        assert(d == all[k as int]);
        assert(d@ == ad[k as int]);
        let res = resolution_of(d);
        let entry = Name { name: anames[k].clone(), address: res };
        assert(entry@ == ans[k as int]) by {
            assert(anames@[k as int]@ == an[k as int]);
        }
        answers.push(entry);
        assert(names_view(answers@) =~= ans.subrange(0, k + 1)) by {
            assert(names_view(answers@) =~= names_view(before).push(ans[k as int]));
        }
        k += 1;
        assert(records@ =~= all.subrange(k as int, all.len() as int));
    }
    assert(ans.subrange(0, k as int) =~= ans);
    Some((questions, answers))
}

} // verus!
