//! What the stack as a whole is: its addresses, its connections, and the bytes
//! that pass between it and the transport.

use vstd::prelude::*;

use crate::bytes::read16;
use crate::connection::Connection;
use crate::packets::{
    ipv4_bytes, ipv6_bytes, ipv6_parse, no_flags, same_family, tcp_bytes, udp_bytes, udp_parse,
    Datagram, IpAddr, IpParseError, Ipv4Fields, Ipv6Fields, ProtocolNumber, Segment, TcpFlags,
};

verus! {

/// Default MSS: IPv6 min MTU (1280) minus headers.
pub const DEFAULT_MSS: usize = 1220;

/// The receive window that every segment advertises.
pub const WINDOW: u16 = 65534;

/// The hop limit of every packet.
pub const HOP_LIMIT: u8 = 255;

/// How many bytes from the transport the stack holds at most.
pub const READ_BUF: usize = 4096;

/// What an IP packet carries.
pub struct FrameFields {
    pub protocol: u8,
    pub payload: Seq<u8>,
}

/// The IPv4 packet at the front of a buffer.
pub open spec fn ipv4_frame(b: Seq<u8>) -> IpParseError<FrameFields> {
    let header = (b[0] % 16) * 4;
    let total = read16(b, 2);
    if b.len() < 20 {
        IpParseError::NotEnough
    } else if b[0] / 16 != 4 || header < 20 || total < header {
        IpParseError::Invalid
    } else if b.len() < total {
        IpParseError::NotEnough
    } else {
        IpParseError::Whole {
            packet: FrameFields { protocol: b[9], payload: b.subrange(header, total) },
            bytes_consumed: total as usize,
        }
    }
}

/// The IPv6 packet at the front of a buffer.
pub open spec fn ipv6_frame(b: Seq<u8>) -> IpParseError<FrameFields> {
    match ipv6_parse(b) {
        IpParseError::Whole { packet, bytes_consumed } => IpParseError::Whole {
            packet: FrameFields { protocol: packet.next_header, payload: packet.payload },
            bytes_consumed,
        },
        IpParseError::NotEnough => IpParseError::NotEnough,
        IpParseError::Invalid => IpParseError::Invalid,
    }
}

/// The SYN flag alone.
pub open spec fn syn_flag() -> TcpFlags {
    TcpFlags { syn: true, ..no_flags() }
}

/// The ACK flag alone.
pub open spec fn ack_flag() -> TcpFlags {
    TcpFlags { ack: true, ..no_flags() }
}

/// The flags of a data segment.
pub open spec fn psh_flags() -> TcpFlags {
    TcpFlags { psh: true, ack: true, ..no_flags() }
}

/// The flags of a segment that closes a connection.
pub open spec fn fin_flags() -> TcpFlags {
    TcpFlags { fin: true, ack: true, ..no_flags() }
}

/// The state of the stack.
#[verifier::ext_equal]
pub struct Stack {
    pub host_ip: IpAddr,
    pub peer_ip: IpAddr,
    /// The connections, by their port on this side.
    pub conns: Map<u16, Connection>,
    /// Ports whose connections are to be closed.
    pub dropped: Seq<u16>,
    /// Bytes from the transport that were not taken apart yet.
    pub inbox: Seq<u8>,
    /// Maximum Segment Size (payload only, no headers).
    pub mss: nat,
    /// The bound UDP ports.
    pub udp_ports: Set<u16>,
    /// Datagrams that arrived for a bound port and were not taken yet.
    pub datagrams: Seq<Datagram>,
}

impl Stack {
    /// What holds of every state: each connection is filed under its own
    /// port and has at most one segment in flight, and the bytes from the
    /// transport fit the buffer.
    pub open spec fn wf(self) -> bool {
        &&& forall|p: u16| #[trigger]
            self.conns.contains_key(p) ==> self.conns[p].host_port == p && self.conns[p].wf()
        &&& self.inbox.len() <= READ_BUF
    }

    /// Whether packets can be built: both addresses are of one family.
    pub open spec fn one_family(self) -> bool {
        same_family(self.host_ip, self.peer_ip)
    }

    /// Whether a packet can be built for every connection.
    pub open spec fn can_send(self) -> bool {
        self.one_family() || forall|p: u16| !self.conns.contains_key(p)
    }

    /// The stack with one connection put in or replaced.
    pub open spec fn with(self, port: u16, c: Connection) -> Stack {
        Stack { conns: self.conns.insert(port, c), ..self }
    }

    /// The stack with one connection taken out.
    pub open spec fn without(self, port: u16) -> Stack {
        Stack { conns: self.conns.remove(port), ..self }
    }

    /// An IP packet to the peer.
    pub open spec fn packet(self, protocol: ProtocolNumber, payload: Seq<u8>) -> Seq<u8> {
        match self.host_ip {
            IpAddr::V4(_) => ipv4_bytes(
                Ipv4Fields {
                    source: self.host_ip.octets(),
                    destination: self.peer_ip.octets(),
                    protocol: protocol.code(),
                    ttl: HOP_LIMIT,
                    payload,
                },
            ),
            IpAddr::V6(_) => ipv6_bytes(
                Ipv6Fields {
                    source: self.host_ip.octets(),
                    destination: self.peer_ip.octets(),
                    next_header: protocol.code(),
                    hop_limit: HOP_LIMIT,
                    payload,
                },
            ),
        }
    }

    /// An IP packet that carries a segment of a connection.
    #[verifier::opaque]
    pub open spec fn tcp_packet(
        self,
        c: Connection,
        seq: u32,
        ack: u32,
        flags: TcpFlags,
        data: Seq<u8>,
    ) -> Seq<u8> {
        let s = Segment {
            source_port: c.host_port,
            destination_port: c.peer_port,
            sequence_number: seq,
            acknowledgment_number: ack,
            flags,
            window_size: WINDOW,
            payload: data,
        };
        self.packet(ProtocolNumber::Tcp, tcp_bytes(self.host_ip, self.peer_ip, s))
    }

    /// The SYN that opens a connection.
    pub open spec fn syn_packet(self, c: Connection) -> Seq<u8> {
        self.tcp_packet(c, c.seq, 0, syn_flag(), Seq::empty())
    }

    /// The ACK of what has arrived on a connection.
    pub open spec fn ack_packet(self, c: Connection) -> Seq<u8> {
        self.tcp_packet(c, c.seq, c.ack, ack_flag(), Seq::empty())
    }

    /// The FIN that closes a connection.
    pub open spec fn fin_packet(self, c: Connection) -> Seq<u8> {
        self.tcp_packet(c, c.seq, c.ack, fin_flags(), Seq::empty())
    }

    /// A data segment of a connection.
    pub open spec fn data_packet(self, c: Connection, seq: u32, data: Seq<u8>) -> Seq<u8> {
        self.tcp_packet(c, seq, c.ack, psh_flags(), data)
    }

    /// An IP packet that carries a datagram.
    pub open spec fn udp_packet(self, d: Datagram) -> Seq<u8> {
        self.packet(ProtocolNumber::Udp, udp_bytes(self.host_ip, self.peer_ip, d))
    }

    /// The IP packet at the front of the bytes from the transport.
    pub open spec fn front(self) -> IpParseError<FrameFields> {
        match self.host_ip {
            IpAddr::V4(_) => ipv4_frame(self.inbox),
            IpAddr::V6(_) => ipv6_frame(self.inbox),
        }
    }

    /// The stack after a segment from the peer.
    pub open spec fn after_segment(self, s: Segment) -> Stack {
        let port = s.destination_port;
        if self.conns.contains_key(port) {
            self.with(port, self.conns[port].on_segment(s).0)
        } else {
            self
        }
    }

    /// The packet that answers a segment from the peer, if one does.
    pub open spec fn answer_to(self, s: Segment) -> Option<Seq<u8>> {
        let port = s.destination_port;
        if self.conns.contains_key(port) && self.conns[port].on_segment(s).1 {
            Some(self.ack_packet(self.conns[port].on_segment(s).0))
        } else {
            None
        }
    }

    /// The stack after a UDP payload from the peer: a datagram for a bound
    /// port is kept, anything else is dropped.
    pub open spec fn after_udp(self, payload: Seq<u8>) -> Stack {
        match udp_parse(payload) {
            Some(d) => if self.udp_ports.contains(d.destination_port) {
                Stack { datagrams: self.datagrams.push(d), ..self }
            } else {
                self
            },
            None => self,
        }
    }
}

/// Taking a connection out before putting it back changes nothing else.
pub proof fn lemma_replace(s: Stack, port: u16, c: Connection)
    ensures
        s.without(port).with(port, c) == s.with(port, c),
{
    assert(s.without(port).with(port, c) =~= s.with(port, c));
}

/// The packets of a connection depend on the addresses alone.
pub proof fn lemma_same_packets(s: Stack, t: Stack, c: Connection)
    requires
        s.host_ip == t.host_ip,
        s.peer_ip == t.peer_ip,
    ensures
        s.ack_packet(c) == t.ack_packet(c),
        s.fin_packet(c) == t.fin_packet(c),
        forall|seq: u32, data: Seq<u8>| #[trigger]
            s.data_packet(c, seq, data) == t.data_packet(c, seq, data),
{
    reveal(Stack::tcp_packet);
}

/// Connections do not disturb each other: a segment from the peer concerns
/// the connection on its port, and nothing else of the stack.
pub proof fn law_segments_stay_apart(s: Stack, segment: Segment, port: u16)
    requires
        port != segment.destination_port,
    ensures
        s.after_segment(segment) == (Stack { conns: s.after_segment(segment).conns, ..s }),
        s.after_segment(segment).conns.contains_key(port) == s.conns.contains_key(port),
        s.conns.contains_key(port) ==> s.after_segment(segment).conns[port] == s.conns[port],
        !s.conns.contains_key(segment.destination_port) ==> s.after_segment(segment) == s,
        !s.conns.contains_key(segment.destination_port) ==> s.answer_to(segment) is None,
{
}

} // verus!
