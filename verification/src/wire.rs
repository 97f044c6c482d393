//! What is written on the wire is read back.

use vstd::prelude::*;

use crate::bytes::{be16, read16, read32};
use crate::checksum::{internet_checksum, law_checksum_cancels, lemma_ones_sum_range, word, words};
use crate::connection::Connection;
use crate::packets::{
    ipv4_bytes, ipv4_header, ipv4_parse, ipv6_bytes, ipv6_parse, pseudo_header, same_family,
    tcp_bytes, tcp_layout, tcp_parse, udp_bytes, udp_layout, udp_parse, Datagram, IpAddr,
    IpParseError, Ipv4Fields, Ipv6Fields, ProtocolNumber, Segment, TcpFlags,
};
use crate::stack::{ipv4_frame, ipv6_frame, FrameFields, Stack, HOP_LIMIT, WINDOW};

verus! {

/// The byte of some flags spells those flags.
pub proof fn law_flags_read_back(flags: TcpFlags)
    ensures
        TcpFlags::of(flags.code()) == flags,
{
}

proof fn lemma_tcp_layout_parses(s: Segment, sum: int)
    ensures
        tcp_parse(tcp_layout(s, sum)) == Some(s),
        tcp_layout(s, sum).len() == 20 + s.payload.len(),
{
    let b = tcp_layout(s, sum);
    law_flags_read_back(s.flags);
    assert(b.len() == 20 + s.payload.len());
    assert(b[12] == 0x50);
    assert(b[13] == s.flags.code());
    assert(read16(b, 0) == s.source_port);
    assert(read16(b, 2) == s.destination_port);
    assert(read32(b, 4) == s.sequence_number);
    assert(read32(b, 8) == s.acknowledgment_number);
    assert(read16(b, 14) == s.window_size);
    assert(b.skip(20) =~= s.payload);
}

/// A TCP segment is read back as it was written.
pub proof fn law_tcp_reads_back(source: IpAddr, destination: IpAddr, s: Segment)
    ensures
        tcp_parse(tcp_bytes(source, destination, s)) == Some(s),
        tcp_bytes(source, destination, s).len() == 20 + s.payload.len(),
{
    lemma_tcp_layout_parses(s, 0);
    let blank = tcp_layout(s, 0);
    let covered = pseudo_header(
        source,
        destination,
        ProtocolNumber::Tcp,
        blank.len() as int,
    ) + blank;
    lemma_tcp_layout_parses(s, internet_checksum(covered));
}

/// A UDP datagram whose length fits its header is read back as it was written.
pub proof fn law_udp_reads_back(source: IpAddr, destination: IpAddr, d: Datagram)
    requires
        8 + d.payload.len() <= 0xffff,
    ensures
        udp_parse(udp_bytes(source, destination, d)) == Some(d),
        udp_bytes(source, destination, d).len() == 8 + d.payload.len(),
{
    let b = udp_bytes(source, destination, d);
    assert(b.len() == 8 + d.payload.len());
    assert(read16(b, 0) == d.source_port);
    assert(read16(b, 2) == d.destination_port);
    assert(read16(b, 4) == 8 + d.payload.len());
    assert(b.subrange(8, 8 + d.payload.len() as int) =~= d.payload);
}

proof fn lemma_ipv4_header(p: Ipv4Fields, sum: int)
    requires
        p.source.len() == 4,
        p.destination.len() == 4,
        20 + p.payload.len() <= 0xffff,
    ensures
        ipv4_header(p, sum).len() == 20,
        ipv4_header(p, sum)[0] == 0x45,
        ipv4_header(p, sum)[8] == p.ttl,
        ipv4_header(p, sum)[9] == p.protocol,
        read16(ipv4_header(p, sum), 2) == 20 + p.payload.len(),
        ipv4_header(p, sum).subrange(12, 16) == p.source,
        ipv4_header(p, sum).subrange(16, 20) == p.destination,
{
    assert(ipv4_header(p, sum).subrange(12, 16) =~= p.source);
    assert(ipv4_header(p, sum).subrange(16, 20) =~= p.destination);
}

/// An IPv4 packet whose length fits its header is read back as it was
/// written.
pub proof fn law_ipv4_reads_back(p: Ipv4Fields)
    requires
        p.source.len() == 4,
        p.destination.len() == 4,
        20 + p.payload.len() <= 0xffff,
    ensures
        ipv4_parse(ipv4_bytes(p)) == Some(p),
        ipv4_bytes(p).len() == 20 + p.payload.len(),
{
    let sum = internet_checksum(ipv4_header(p, 0));
    lemma_ipv4_header(p, sum);
    let h = ipv4_header(p, sum);
    let b = ipv4_bytes(p);
    assert(b =~= h + p.payload);
    assert(b.subrange(12, 16) =~= h.subrange(12, 16));
    assert(b.subrange(16, 20) =~= h.subrange(16, 20));
    assert(b.subrange(20, 20 + p.payload.len() as int) =~= p.payload);
    assert((b[0] % 16) * 4 == 20 && b[0] / 16 == 4);
}

/// What the front of some bytes is said to be, as an IPv4 packet or as none,
/// does not change when more bytes follow.
pub proof fn law_ipv4_front_is_final(b: Seq<u8>, more: Seq<u8>)
    requires
        !(ipv4_frame(b) is NotEnough),
    ensures
        ipv4_frame(b + more) == ipv4_frame(b),
{
    let all = b + more;
    assert(all[0] == b[0] && all[9] == b[9]);
    assert(read16(all, 2) == read16(b, 2));
    let header = (b[0] % 16) * 4;
    let total = read16(b, 2);
    if ipv4_frame(b) is Whole {
        assert(all.subrange(header, total) =~= b.subrange(header, total));
    }
}

/// While only a part of an IPv4 packet has arrived, whoever built it and
/// whatever options it has, the stack waits for more.
pub proof fn law_ipv4_front_waits(b: Seq<u8>, n: int)
    requires
        ipv4_frame(b) matches IpParseError::Whole { packet, bytes_consumed } && 0 <= n
            < bytes_consumed,
    ensures
        ipv4_frame(b.take(n)) is NotEnough,
{
    let part = b.take(n);
    if n >= 20 {
        assert(part[0] == b[0]);
        assert(read16(part, 2) == read16(b, 2));
    }
}

/// What the front of some bytes is said to be, as an IPv6 packet or as none,
/// does not change when more bytes follow.
pub proof fn law_ipv6_front_is_final(b: Seq<u8>, more: Seq<u8>)
    requires
        !(ipv6_frame(b) is NotEnough),
    ensures
        ipv6_frame(b + more) == ipv6_frame(b),
        ipv6_parse(b + more) == ipv6_parse(b),
{
    let all = b + more;
    assert(all[0] == b[0] && all[6] == b[6] && all[7] == b[7]);
    assert(read16(all, 4) == read16(b, 4));
    let end = 40 + read16(b, 4);
    if ipv6_parse(b) is Whole {
        assert(all.subrange(8, 24) =~= b.subrange(8, 24));
        assert(all.subrange(24, 40) =~= b.subrange(24, 40));
        assert(all.subrange(40, end) =~= b.subrange(40, end));
    }
}

/// While only a part of an IPv6 packet has arrived, whoever built it, the stack
/// waits for more.
pub proof fn law_ipv6_front_waits(b: Seq<u8>, n: int)
    requires
        ipv6_frame(b) matches IpParseError::Whole { packet, bytes_consumed } && 0 <= n
            < bytes_consumed,
    ensures
        ipv6_frame(b.take(n)) is NotEnough,
        ipv6_parse(b.take(n)) is NotEnough,
{
    let part = b.take(n);
    if n >= 40 {
        assert(part[0] == b[0]);
        assert(read16(part, 4) == read16(b, 4));
    }
}

/// In which pieces bytes arrive makes no difference: as soon as the front of
/// what has arrived is a packet, or can be none, it is what the front of all
/// the bytes is; and until then, as long as a packet is on its way, the stack
/// waits for more.
pub proof fn law_pieces_make_no_difference(s: Stack, all: Seq<u8>, n: int)
    requires
        0 <= n <= all.len(),
    ensures
        ({
            let now = Stack { inbox: all.take(n), ..s }.front();
            let later = Stack { inbox: all, ..s }.front();
            &&& !(now is NotEnough) ==> now == later
            &&& later matches IpParseError::Whole { packet, bytes_consumed } ==> (now
                is NotEnough <==> n < bytes_consumed)
        }),
{
    let part = all.take(n);
    assert(part + all.skip(n) =~= all);
    match s.host_ip {
        IpAddr::V4(_) => {
            if !(ipv4_frame(part) is NotEnough) {
                law_ipv4_front_is_final(part, all.skip(n));
            }
            if let IpParseError::Whole { packet, bytes_consumed } = ipv4_frame(all) {
                if n < bytes_consumed {
                    law_ipv4_front_waits(all, n);
                } else if n >= 20 {
                    assert(part[0] == all[0]);
                    assert(read16(part, 2) == read16(all, 2));
                }
            }
        },
        IpAddr::V6(_) => {
            if !(ipv6_frame(part) is NotEnough) {
                law_ipv6_front_is_final(part, all.skip(n));
            }
            if let IpParseError::Whole { packet, bytes_consumed } = ipv6_frame(all) {
                if n < bytes_consumed {
                    law_ipv6_front_waits(all, n);
                } else if n >= 40 {
                    assert(part[0] == all[0]);
                    assert(read16(part, 4) == read16(all, 4));
                }
            }
        },
    }
}

/// An IPv4 packet is found at the front of a buffer, whatever follows it.
pub proof fn law_ipv4_is_framed(p: Ipv4Fields, rest: Seq<u8>)
    requires
        p.source.len() == 4,
        p.destination.len() == 4,
        20 + p.payload.len() <= 0xffff,
    ensures
        ipv4_frame(ipv4_bytes(p) + rest) == (IpParseError::Whole {
            packet: FrameFields { protocol: p.protocol, payload: p.payload },
            bytes_consumed: ipv4_bytes(p).len() as usize,
        }),
{
    let sum = internet_checksum(ipv4_header(p, 0));
    lemma_ipv4_header(p, sum);
    let h = ipv4_header(p, sum);
    let b = ipv4_bytes(p) + rest;
    assert(ipv4_bytes(p).len() == 20 + p.payload.len());
    assert(read16(b, 2) == read16(h, 2));
    assert((b[0] % 16) * 4 == 20 && b[0] / 16 == 4);
    assert(b[9] == h[9]);
    assert(b.subrange(20, 20 + p.payload.len() as int) =~= p.payload);
}

/// A part of an IPv4 packet is not enough.
pub proof fn law_ipv4_part_is_not_enough(p: Ipv4Fields, n: int)
    requires
        p.source.len() == 4,
        p.destination.len() == 4,
        20 + p.payload.len() <= 0xffff,
        0 <= n < ipv4_bytes(p).len(),
    ensures
        ipv4_frame(ipv4_bytes(p).take(n)) is NotEnough,
{
    let sum = internet_checksum(ipv4_header(p, 0));
    lemma_ipv4_header(p, sum);
    let h = ipv4_header(p, sum);
    let b = ipv4_bytes(p).take(n);
    assert(ipv4_bytes(p).len() == 20 + p.payload.len());
    if n >= 20 {
        assert(read16(b, 2) == read16(h, 2));
        assert((b[0] % 16) * 4 == 20 && b[0] / 16 == 4);
    }
}

/// An IPv6 packet is read back as it was written, whatever follows it.
pub proof fn law_ipv6_is_framed(p: Ipv6Fields, rest: Seq<u8>)
    requires
        p.source.len() == 16,
        p.destination.len() == 16,
        p.payload.len() <= 0xffff,
    ensures
        ipv6_parse(ipv6_bytes(p) + rest) == (IpParseError::Whole {
            packet: p,
            bytes_consumed: ipv6_bytes(p).len() as usize,
        }),
        ipv6_bytes(p).len() == 40 + p.payload.len(),
{
    let b = ipv6_bytes(p) + rest;
    assert(ipv6_bytes(p).len() == 40 + p.payload.len());
    assert(read16(b, 4) == p.payload.len());
    assert(b[0] / 16 == 6);
    assert(b[6] == p.next_header && b[7] == p.hop_limit);
    assert(b.subrange(8, 24) =~= p.source);
    assert(b.subrange(24, 40) =~= p.destination);
    assert(b.subrange(40, 40 + p.payload.len() as int) =~= p.payload);
}

/// A part of an IPv6 packet is not enough.
pub proof fn law_ipv6_part_is_not_enough(p: Ipv6Fields, n: int)
    requires
        p.source.len() == 16,
        p.destination.len() == 16,
        p.payload.len() <= 0xffff,
        0 <= n < ipv6_bytes(p).len(),
    ensures
        ipv6_parse(ipv6_bytes(p).take(n)) is NotEnough,
{
    let b = ipv6_bytes(p).take(n);
    assert(ipv6_bytes(p).len() == 40 + p.payload.len());
    if n >= 40 {
        assert(read16(b, 4) == p.payload.len());
        assert(b[0] / 16 == 6);
    }
}

/// Whether a packet with so long a payload fits the length field of its
/// header.
pub open spec fn fits(s: Stack, len: nat) -> bool {
    match s.host_ip {
        IpAddr::V4(_) => 20 + len <= 0xffff,
        IpAddr::V6(_) => len <= 0xffff,
    }
}

/// A packet that one stack builds is found by another of the same family at
/// the front of what it has read, whatever follows; and while it has read only
/// a part, it waits for more.
pub proof fn law_packet_crosses(
    sender: Stack,
    receiver: Stack,
    protocol: ProtocolNumber,
    payload: Seq<u8>,
    rest: Seq<u8>,
)
    requires
        sender.one_family(),
        same_family(sender.host_ip, receiver.host_ip),
        fits(sender, payload.len()),
    ensures
        receiver.inbox == sender.packet(protocol, payload) + rest ==> receiver.front() == (
        IpParseError::Whole {
            packet: FrameFields { protocol: protocol.code(), payload },
            bytes_consumed: sender.packet(protocol, payload).len() as usize,
        }),
        receiver.inbox.len() < sender.packet(protocol, payload).len() && receiver.inbox
            == sender.packet(protocol, payload).take(receiver.inbox.len() as int)
            ==> receiver.front() is NotEnough,
{
    let packet = sender.packet(protocol, payload);
    let n = receiver.inbox.len() as int;
    match sender.host_ip {
        IpAddr::V4(_) => {
            let p = Ipv4Fields {
                source: sender.host_ip.octets(),
                destination: sender.peer_ip.octets(),
                protocol: protocol.code(),
                ttl: HOP_LIMIT,
                payload,
            };
            law_ipv4_is_framed(p, rest);
            if n < packet.len() {
                law_ipv4_part_is_not_enough(p, n);
            }
        },
        IpAddr::V6(_) => {
            let p = Ipv6Fields {
                source: sender.host_ip.octets(),
                destination: sender.peer_ip.octets(),
                next_header: protocol.code(),
                hop_limit: HOP_LIMIT,
                payload,
            };
            law_ipv6_is_framed(p, rest);
            if n < packet.len() {
                law_ipv6_part_is_not_enough(p, n);
            }
        },
    }
}

/// A segment that one stack sends is the segment that another of the same
/// family takes in.
pub proof fn law_segment_crosses(
    sender: Stack,
    receiver: Stack,
    c: Connection,
    seq: u32,
    ack: u32,
    flags: TcpFlags,
    data: Seq<u8>,
    rest: Seq<u8>,
)
    requires
        sender.one_family(),
        same_family(sender.host_ip, receiver.host_ip),
        fits(sender, 20 + data.len()),
        receiver.inbox == sender.tcp_packet(c, seq, ack, flags, data) + rest,
    ensures
        ({
            let s = Segment {
                source_port: c.host_port,
                destination_port: c.peer_port,
                sequence_number: seq,
                acknowledgment_number: ack,
                flags,
                window_size: WINDOW,
                payload: data,
            };
            &&& receiver.front() matches IpParseError::Whole { packet, bytes_consumed }
            &&& packet.protocol == ProtocolNumber::Tcp.code()
            &&& tcp_parse(packet.payload) == Some(s)
            &&& receiver.inbox.skip(bytes_consumed as int) == rest
        }),
{
    reveal(Stack::tcp_packet);
    let s = Segment {
        source_port: c.host_port,
        destination_port: c.peer_port,
        sequence_number: seq,
        acknowledgment_number: ack,
        flags,
        window_size: WINDOW,
        payload: data,
    };
    let payload = tcp_bytes(sender.host_ip, sender.peer_ip, s);
    law_tcp_reads_back(sender.host_ip, sender.peer_ip, s);
    law_packet_crosses(sender, receiver, ProtocolNumber::Tcp, payload, rest);
    let packet = sender.packet(ProtocolNumber::Tcp, payload);
    assert(packet.len() <= 0x1_0040) by {
        match sender.host_ip {
            IpAddr::V4(_) => {
                law_ipv4_reads_back(
                    Ipv4Fields {
                        source: sender.host_ip.octets(),
                        destination: sender.peer_ip.octets(),
                        protocol: ProtocolNumber::Tcp.code(),
                        ttl: HOP_LIMIT,
                        payload,
                    },
                );
            },
            IpAddr::V6(_) => {
                law_ipv6_is_framed(
                    Ipv6Fields {
                        source: sender.host_ip.octets(),
                        destination: sender.peer_ip.octets(),
                        next_header: ProtocolNumber::Tcp.code(),
                        hop_limit: HOP_LIMIT,
                        payload,
                    },
                    rest,
                );
            },
        }
    }
    assert(receiver.inbox.skip(packet.len() as int) =~= rest);
}

/// A datagram that one stack sends is the datagram that another of the same
/// family takes in.
pub proof fn law_datagram_crosses(sender: Stack, receiver: Stack, d: Datagram, rest: Seq<u8>)
    requires
        sender.one_family(),
        same_family(sender.host_ip, receiver.host_ip),
        fits(sender, 8 + d.payload.len()),
        receiver.inbox == sender.udp_packet(d) + rest,
    ensures
        receiver.front() matches IpParseError::Whole { packet, bytes_consumed }
            && packet.protocol == ProtocolNumber::Udp.code()
            && udp_parse(packet.payload) == Some(d),
{
    law_udp_reads_back(sender.host_ip, sender.peer_ip, d);
    law_packet_crosses(
        sender,
        receiver,
        ProtocolNumber::Udp,
        udp_bytes(sender.host_ip, sender.peer_ip, d),
        rest,
    );
}

/// The checksum of an IPv4 header, its own field included, is zero: that is
/// how a receiver tests it.
pub proof fn law_ipv4_checksum_holds(p: Ipv4Fields)
    requires
        p.source.len() == 4,
        p.destination.len() == 4,
    ensures
        internet_checksum(ipv4_bytes(p).take(20)) == 0,
{
    let b = ipv4_header(p, 0);
    let sum = internet_checksum(b);
    let filled = ipv4_header(p, sum);
    lemma_checksum_range(b);
    assert(b.len() == 20 && filled.len() == 20);
    assert(b[0] == 0x45);
    assert(ipv4_bytes(p).take(20) =~= filled);
    assert forall|i: int| 0 <= i && i != 5 implies #[trigger] word(filled, i) == word(b, i) by {
        if i < 10 {
            assert(filled[2 * i] == b[2 * i]);
            assert(filled[2 * i + 1] == b[2 * i + 1]);
        }
    }
    assert(b[10] == 0 && b[11] == 0);
    assert(filled[10] == be16(sum)[0] && filled[11] == be16(sum)[1]);
    law_checksum_cancels(b, filled, 5, 0);
}

/// The checksum of a TCP segment with its pseudo header, its own field
/// included, is zero: that is how a receiver tests it.
#[verifier::rlimit(50)]
pub proof fn law_tcp_checksum_holds(source: IpAddr, destination: IpAddr, s: Segment)
    requires
        same_family(source, destination),
    ensures
        ({
            let b = tcp_bytes(source, destination, s);
            internet_checksum(
                pseudo_header(source, destination, ProtocolNumber::Tcp, b.len() as int) + b,
            ) == 0
        }),
{
    let blank = tcp_layout(s, 0);
    let head = pseudo_header(source, destination, ProtocolNumber::Tcp, blank.len() as int);
    let b = head + blank;
    let sum = internet_checksum(b);
    let whole = tcp_layout(s, sum);
    let filled = head + whole;
    lemma_checksum_range(b);
    lemma_tcp_layout_parses(s, 0);
    lemma_tcp_layout_parses(s, sum);
    let h = head.len() as int;
    assert(h == 12 || h == 40);
    let k = (h + 16) / 2;
    assert forall|i: int| 0 <= i < b.len() && i != h + 16 && i != h + 17 implies filled[i]
        == #[trigger] b[i] by {
        if i >= h {
            lemma_only_checksum_differs(s, sum, i - h);
        }
    }
    assert forall|i: int| 0 <= i && i != k implies #[trigger] word(filled, i) == word(b, i) by {
        if 2 * i < b.len() {
            assert(filled[2 * i] == b[2 * i]);
        }
        if 2 * i + 1 < b.len() {
            assert(filled[2 * i + 1] == b[2 * i + 1]);
        }
    }
    assert(blank[16] == 0 && blank[17] == 0);
    assert(whole[16] == be16(sum)[0] && whole[17] == be16(sum)[1]);
    assert(blank[12] == 0x50);
    assert(word(b, (h + 12) / 2) > 0);
    law_checksum_cancels(b, filled, k, (h + 12) / 2);
}

/// The checksum of a UDP datagram with its pseudo header, its own field
/// included, is zero: that is how a receiver tests it. The field itself is
/// never zero, which would say that there is no checksum.
#[verifier::rlimit(50)]
pub proof fn law_udp_checksum_holds(source: IpAddr, destination: IpAddr, d: Datagram)
    requires
        same_family(source, destination),
    ensures
        ({
            let b = udp_bytes(source, destination, d);
            &&& internet_checksum(
                pseudo_header(source, destination, ProtocolNumber::Udp, b.len() as int) + b,
            ) == 0
            &&& read16(b, 6) != 0
        }),
{
    let blank = udp_layout(d, 0);
    let head = pseudo_header(source, destination, ProtocolNumber::Udp, blank.len() as int);
    let b = head + blank;
    let sum = if internet_checksum(b) == 0 {
        0xffff
    } else {
        internet_checksum(b)
    };
    let whole = udp_layout(d, sum);
    let filled = head + whole;
    lemma_checksum_range(b);
    assert(blank.len() == 8 + d.payload.len() && whole.len() == blank.len());
    let h = head.len() as int;
    assert(h == 12 || h == 40);
    let k = (h + 6) / 2;
    assert forall|i: int| 0 <= i < b.len() && i != h + 6 && i != h + 7 implies filled[i]
        == #[trigger] b[i] by {
        if i >= h {
            lemma_only_udp_checksum_differs(d, sum, i - h);
        }
    }
    assert forall|i: int| 0 <= i && i != k implies #[trigger] word(filled, i) == word(b, i) by {
        if 2 * i < b.len() {
            assert(filled[2 * i] == b[2 * i]);
        }
        if 2 * i + 1 < b.len() {
            assert(filled[2 * i + 1] == b[2 * i + 1]);
        }
    }
    assert(blank[6] == 0 && blank[7] == 0);
    assert(whole[6] == be16(sum)[0] && whole[7] == be16(sum)[1]);
    let j: int = if h == 12 {
        4
    } else {
        19
    };
    assert(b[2 * j + 1] == 17);
    assert(word(b, j) > 0);
    law_checksum_cancels(b, filled, k, j);
}

proof fn lemma_only_udp_checksum_differs(d: Datagram, sum: int, i: int)
    requires
        0 <= i < udp_layout(d, 0).len(),
        i != 6 && i != 7,
    ensures
        udp_layout(d, sum)[i] == udp_layout(d, 0)[i],
{
}

proof fn lemma_only_checksum_differs(s: Segment, sum: int, i: int)
    requires
        0 <= i < tcp_layout(s, 0).len(),
        i != 16 && i != 17,
    ensures
        tcp_layout(s, sum)[i] == tcp_layout(s, 0)[i],
{
}

proof fn lemma_checksum_range(b: Seq<u8>)
    ensures
        0 <= internet_checksum(b) <= 0xffff,
{
    lemma_ones_sum_range(b, words(b));
}

} // verus!
