//! What the peer reads: each packet that the stack builds, taken apart again,
//! and what each packet from the peer does to the stack.

use vstd::prelude::*;

use crate::checksum::internet_checksum;
use crate::connection::Connection;
use crate::formats::{lemma_ipv4_fields, lemma_ipv6_fields};
use crate::packets::{
    pseudo_header, tcp_bytes, tcp_parse, udp_bytes, udp_parse, Datagram, IpAddr,
    Ipv4Fields, Ipv6Fields, ProtocolNumber, Segment, TcpFlags,
};
use crate::stack::Stack;
use crate::wire::{
    law_tcp_checksum_holds, law_tcp_reads_back, law_udp_checksum_holds, law_udp_reads_back,
};

verus! {

/// How long the IP header of the stack's packets is.
pub open spec fn header_len(s: Stack) -> int {
    if s.host_ip is V4 {
        20
    } else {
        40
    }
}

/// A packet is an IP packet from this side to the peer: the version, the length,
/// the hop limit of 255, the protocol and both addresses stand where they
/// belong, and the checksum of an IPv4 header cancels.
pub open spec fn addressed(s: Stack, b: Seq<u8>, protocol: u8) -> bool {
    &&& b.len() >= header_len(s)
    &&& match (s.host_ip, s.peer_ip) {
        (IpAddr::V4(host), IpAddr::V4(peer)) => {
            &&& b[0] == 0x45
            &&& b[2] * 256 + b[3] == b.len() % 0x1_0000
            &&& b[6] == 0 && b[7] == 0
            &&& b[8] == 255
            &&& b[9] == protocol
            &&& b.subrange(12, 16) == host@
            &&& b.subrange(16, 20) == peer@
            &&& internet_checksum(b.take(20)) == 0
        },
        (IpAddr::V6(host), IpAddr::V6(peer)) => {
            &&& b[0] == 0x60
            &&& b[4] * 256 + b[5] == (b.len() - 40) % 0x1_0000
            &&& b[6] == protocol
            &&& b[7] == 255
            &&& b.subrange(8, 24) == host@
            &&& b.subrange(24, 40) == peer@
        },
        _ => false,
    }
}

/// A packet carries a segment to the peer: behind the IP header the segment is
/// read, and its checksum cancels.
pub open spec fn carries_segment(s: Stack, b: Seq<u8>, segment: Segment) -> bool {
    let body = b.skip(header_len(s));
    &&& addressed(s, b, 6)
    &&& tcp_parse(body) == Some(segment)
    &&& internet_checksum(
        pseudo_header(s.host_ip, s.peer_ip, ProtocolNumber::Tcp, body.len() as int) + body,
    ) == 0
}

/// A segment of a connection with the usual window.
pub open spec fn segment_of(
    c: Connection,
    seq: u32,
    ack: u32,
    flags: TcpFlags,
    data: Seq<u8>,
) -> Segment {
    Segment {
        source_port: c.host_port,
        destination_port: c.peer_port,
        sequence_number: seq,
        acknowledgment_number: ack,
        flags,
        window_size: 65534,
        payload: data,
    }
}

/// Some of the flags ACK, PSH, SYN and FIN, and no others.
pub open spec fn flags_of(ack: bool, psh: bool, syn: bool, fin: bool) -> TcpFlags {
    TcpFlags { urg: false, ack, psh, rst: false, syn, fin }
}

/// A packet holds what it is given to carry behind its header.
pub proof fn law_packet_holds_its_payload(s: Stack, udp: bool, payload: Seq<u8>)
    requires
        s.one_family(),
    ensures
        ({
            let b = s.packet(
                if udp {
                    ProtocolNumber::Udp
                } else {
                    ProtocolNumber::Tcp
                },
                payload,
            );
            &&& addressed(
                s,
                b,
                if udp {
                    17u8
                } else {
                    6
                },
            )
            &&& b.len() == header_len(s) + payload.len()
            &&& b.skip(header_len(s)) == payload
        }),
{
    let code: u8 = if udp {
        17u8
    } else {
        6
    };
    match s.host_ip {
        IpAddr::V4(_) => lemma_ipv4_fields(
            Ipv4Fields {
                source: s.host_ip.octets(),
                destination: s.peer_ip.octets(),
                protocol: code,
                ttl: 255,
                payload,
            },
        ),
        IpAddr::V6(_) => lemma_ipv6_fields(
            Ipv6Fields {
                source: s.host_ip.octets(),
                destination: s.peer_ip.octets(),
                next_header: code,
                hop_limit: 255,
                payload,
            },
        ),
    }
}

/// A segment of a connection runs between its ports, with the numbers, flags
/// and bytes it was built with, and advertises a window of 65534.
pub proof fn law_segment_packet(
    s: Stack,
    c: Connection,
    seq: u32,
    ack: u32,
    flags: TcpFlags,
    data: Seq<u8>,
)
    requires
        s.one_family(),
    ensures
        carries_segment(
            s,
            s.tcp_packet(c, seq, ack, flags, data),
            Segment {
                source_port: c.host_port,
                destination_port: c.peer_port,
                sequence_number: seq,
                acknowledgment_number: ack,
                flags,
                window_size: 65534,
                payload: data,
            },
        ),
{
    reveal(Stack::tcp_packet);
    let segment = Segment {
        source_port: c.host_port,
        destination_port: c.peer_port,
        sequence_number: seq,
        acknowledgment_number: ack,
        flags,
        window_size: 65534,
        payload: data,
    };
    let body = tcp_bytes(s.host_ip, s.peer_ip, segment);
    law_packet_holds_its_payload(s, false, body);
    law_tcp_reads_back(s.host_ip, s.peer_ip, segment);
    law_tcp_checksum_holds(s.host_ip, s.peer_ip, segment);
}

/// The SYN of a connection: its own number, acknowledging nothing, SYN alone,
/// no bytes.
pub proof fn law_syn_packet(s: Stack, c: Connection)
    requires
        s.one_family(),
    ensures
        carries_segment(
            s,
            s.syn_packet(c),
            Segment {
                source_port: c.host_port,
                destination_port: c.peer_port,
                sequence_number: c.seq,
                acknowledgment_number: 0,
                flags: TcpFlags {
                    urg: false,
                    ack: false,
                    psh: false,
                    rst: false,
                    syn: true,
                    fin: false,
                },
                window_size: 65534,
                payload: Seq::empty(),
            },
        ),
{
    let flags = TcpFlags { urg: false, ack: false, psh: false, rst: false, syn: true, fin: false };
    law_segment_packet(s, c, c.seq, 0, flags, Seq::empty());
}

/// The ACK of a connection: its own number and the one it expects, ACK alone,
/// no bytes.
pub proof fn law_ack_packet(s: Stack, c: Connection)
    requires
        s.one_family(),
    ensures
        carries_segment(
            s,
            s.ack_packet(c),
            Segment {
                source_port: c.host_port,
                destination_port: c.peer_port,
                sequence_number: c.seq,
                acknowledgment_number: c.ack,
                flags: TcpFlags {
                    urg: false,
                    ack: true,
                    psh: false,
                    rst: false,
                    syn: false,
                    fin: false,
                },
                window_size: 65534,
                payload: Seq::empty(),
            },
        ),
{
    let flags = TcpFlags { urg: false, ack: true, psh: false, rst: false, syn: false, fin: false };
    law_segment_packet(s, c, c.seq, c.ack, flags, Seq::empty());
}

/// The FIN of a connection: its own number and the one it expects, FIN and ACK,
/// no bytes.
pub proof fn law_fin_packet(s: Stack, c: Connection)
    requires
        s.one_family(),
    ensures
        carries_segment(
            s,
            s.fin_packet(c),
            Segment {
                source_port: c.host_port,
                destination_port: c.peer_port,
                sequence_number: c.seq,
                acknowledgment_number: c.ack,
                flags: TcpFlags {
                    urg: false,
                    ack: true,
                    psh: false,
                    rst: false,
                    syn: false,
                    fin: true,
                },
                window_size: 65534,
                payload: Seq::empty(),
            },
        ),
{
    let flags = TcpFlags { urg: false, ack: true, psh: false, rst: false, syn: false, fin: true };
    law_segment_packet(s, c, c.seq, c.ack, flags, Seq::empty());
}

/// A data segment, whatever its length and whether it is new or repeated: the
/// given number and bytes, the number that is expected, PSH and ACK.
pub proof fn law_data_packet(s: Stack, c: Connection, seq: u32, data: Seq<u8>)
    requires
        s.one_family(),
    ensures
        carries_segment(
            s,
            s.data_packet(c, seq, data),
            Segment {
                source_port: c.host_port,
                destination_port: c.peer_port,
                sequence_number: seq,
                acknowledgment_number: c.ack,
                flags: TcpFlags {
                    urg: false,
                    ack: true,
                    psh: true,
                    rst: false,
                    syn: false,
                    fin: false,
                },
                window_size: 65534,
                payload: data,
            },
        ),
{
    let flags = TcpFlags { urg: false, ack: true, psh: true, rst: false, syn: false, fin: false };
    law_segment_packet(s, c, seq, c.ack, flags, data);
}

/// A datagram to the peer is read as it was given, if its length fits, and its
/// checksum cancels.
pub proof fn law_udp_packet(s: Stack, d: Datagram)
    requires
        s.one_family(),
    ensures
        ({
            let b = s.udp_packet(d);
            let body = b.skip(header_len(s));
            &&& addressed(s, b, 17)
            &&& 8 + d.payload.len() <= 0xffff ==> udp_parse(body) == Some(d)
            &&& internet_checksum(
                pseudo_header(s.host_ip, s.peer_ip, ProtocolNumber::Udp, body.len() as int) + body,
            ) == 0
        }),
{
    let body = udp_bytes(s.host_ip, s.peer_ip, d);
    law_packet_holds_its_payload(s, true, body);
    law_udp_checksum_holds(s.host_ip, s.peer_ip, d);
    if 8 + d.payload.len() <= 0xffff {
        law_udp_reads_back(s.host_ip, s.peer_ip, d);
    }
}

/// Packets can be built between addresses of one family; and without
/// connections there are none to build.
pub proof fn law_when_packets_can_be_built(s: Stack)
    ensures
        s.one_family() <==> (s.host_ip is V4 && s.peer_ip is V4) || (s.host_ip is V6
            && s.peer_ip is V6),
        s.can_send() <==> s.one_family() || forall|p: u16| !s.conns.contains_key(p),
        s.wf() <==> s.inbox.len() <= 4096 && forall|p: u16| #[trigger]
            s.conns.contains_key(p) ==> s.conns[p].host_port == p && s.conns[p].wf(),
{
}

/// Two stacks that differ in nothing but the connection on one port.
pub open spec fn same_but(s: Stack, t: Stack, port: u16) -> bool {
    &&& same_outside(s, t)
    &&& forall|p: u16|
        p != port ==> {
            &&& #[trigger] s.conns.contains_key(p) <==> t.conns.contains_key(p)
            &&& s.conns.contains_key(p) ==> s.conns[p] == t.conns[p]
        }
}

/// Two stacks that differ in nothing but their connections.
pub open spec fn same_outside(s: Stack, t: Stack) -> bool {
    &&& s.host_ip == t.host_ip
    &&& s.peer_ip == t.peer_ip
    &&& s.dropped == t.dropped
    &&& s.inbox == t.inbox
    &&& s.mss == t.mss
    &&& s.udp_ports == t.udp_ports
    &&& s.datagrams == t.datagrams
}

/// A segment from the peer is taken in by the connection on its port, whatever
/// its length, and by nothing else; it is answered exactly when that connection
/// answers it, with the ACK that says how far it then is.
pub proof fn law_segment_reaches_its_connection(s: Stack, segment: Segment)
    requires
        s.can_send(),
    ensures
        ({
            let port = segment.destination_port;
            let t = s.after_segment(segment);
            &&& same_but(s, t, port)
            &&& t.conns.contains_key(port) <==> s.conns.contains_key(port)
            &&& if s.conns.contains_key(port) {
                let (d, answered) = s.conns[port].on_segment(segment);
                &&& t.conns[port] == d
                &&& s.answer_to(segment) is Some <==> answered
                &&& s.answer_to(segment) matches Some(b) ==> carries_segment(
                    s,
                    b,
                    Segment {
                        source_port: d.host_port,
                        destination_port: d.peer_port,
                        sequence_number: d.seq,
                        acknowledgment_number: d.ack,
                        flags: TcpFlags {
                            urg: false,
                            ack: true,
                            psh: false,
                            rst: false,
                            syn: false,
                            fin: false,
                        },
                        window_size: 65534,
                        payload: Seq::empty(),
                    },
                )
            } else {
                s.answer_to(segment) is None
            }
        }),
{
    let port = segment.destination_port;
    if s.conns.contains_key(port) {
        law_ack_packet(s, s.conns[port].on_segment(segment).0);
    }
}

/// A UDP payload from the peer adds its datagram behind the ones that wait if
/// it is whole and its port is bound; otherwise nothing happens.
pub proof fn law_datagram_reaches_its_port(s: Stack, b: Seq<u8>)
    ensures
        ({
            let t = s.after_udp(b);
            let length = b[4] * 256 + b[5];
            let port = (b[2] * 256 + b[3]) as u16;
            let d = t.datagrams.last();
            &&& t.conns == s.conns && t.udp_ports == s.udp_ports
            &&& t.host_ip == s.host_ip && t.peer_ip == s.peer_ip
            &&& t.dropped == s.dropped && t.inbox == s.inbox && t.mss == s.mss
            &&& if b.len() >= 8 && 8 <= length <= b.len() && s.udp_ports.contains(port) {
                &&& t.datagrams.len() == s.datagrams.len() + 1
                &&& t.datagrams.drop_last() == s.datagrams
                &&& d.source_port == b[0] * 256 + b[1]
                &&& d.destination_port == b[2] * 256 + b[3]
                &&& d.payload == b.subrange(8, length)
            } else {
                t.datagrams == s.datagrams
            }
        }),
{
    let t = s.after_udp(b);
    if t.datagrams.len() > s.datagrams.len() {
        assert(t.datagrams.drop_last() =~= s.datagrams);
    }
}

} // verus!
