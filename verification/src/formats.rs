//! Where each byte stands: the formats on the wire and in capture files, field
//! by field.

use vstd::prelude::*;

use crate::adapter::{Adapter, Frame};
use crate::bytes::{be16, be32, le16, le32, lemma_digits, read16, read32};
use crate::checksum::{
    checksum, internet_checksum, lemma_ones_sum_range, ones_sum, word, words,
};
use crate::error::{Error, ErrorKind};
use crate::packets::{
    ipv4_bytes, ipv4_header, ipv6_bytes, pseudo_header, same_family, tcp_bytes, tcp_layout,
    udp_bytes, udp_layout, Datagram, IpAddr, IpParseError, Ipv4Fields, Ipv4Packet, Ipv6Fields,
    Ipv6Packet, ProtocolNumber, Segment, TcpFlags, TcpPacket, UdpDatagram,
};
use crate::pcap::{file_header, log_packet};
use crate::wire::{law_ipv4_checksum_holds, law_tcp_checksum_holds, law_udp_checksum_holds};

verus! {

// ---------------------------------------------------------------------------
// Numbers
// ---------------------------------------------------------------------------

/// A number is the sum of its bytes, each by its weight: the first byte weighs
/// most on the wire, and least in a capture.
pub proof fn law_two_bytes_of_a_number(x: int)
    requires
        0 <= x < 0x1_0000,
    ensures
        be16(x).len() == 2 && le16(x).len() == 2,
        be16(x)[0] * 256 + be16(x)[1] == x,
        le16(x)[1] * 256 + le16(x)[0] == x,
{
}

/// A larger number is the sum of its four bytes, each by its weight: the first
/// byte weighs most on the wire, and least in a capture.
pub proof fn law_four_bytes_of_a_number(y: int)
    requires
        0 <= y < 0x1_0000_0000,
    ensures
        be32(y).len() == 4 && le32(y).len() == 4,
        be32(y)[0] * 16777216 + be32(y)[1] * 65536 + be32(y)[2] * 256 + be32(y)[3] == y,
        le32(y)[3] * 16777216 + le32(y)[2] * 65536 + le32(y)[1] * 256 + le32(y)[0] == y,
{
    lemma_digits(y);
}

/// A number is read where it stands, the first byte weighing most.
pub proof fn law_number_in_bytes(b: Seq<u8>, i: int)
    requires
        0 <= i,
        i + 4 <= b.len(),
    ensures
        read16(b, i) == b[i] * 256 + b[i + 1],
        read32(b, i) == 65536 * (b[i] * 256 + b[i + 1]) + (b[i + 2] * 256 + b[i + 3]),
{
}

// ---------------------------------------------------------------------------
// The checksum
// ---------------------------------------------------------------------------

/// The checksum of nothing is all ones.
pub proof fn law_checksum_of_nothing(b: &[u8], sum: u16)
    requires
        call_ensures(checksum, (b,), sum),
        b@.len() == 0,
    ensures
        sum == 0xffff,
{
}

/// One more word takes its value off the checksum, counted modulo 65535.
pub proof fn law_checksum_of_one_more_word(
    b: &[u8],
    longer: &[u8],
    x: u8,
    y: u8,
    sum: u16,
    sum_longer: u16,
)
    requires
        b@.len() % 2 == 0,
        longer@ == b@.push(x).push(y),
        call_ensures(checksum, (b,), sum),
        call_ensures(checksum, (longer,), sum_longer),
    ensures
        (sum - sum_longer - (x * 256 + y)) % 65535 == 0,
        sum_longer == 0xffff <==> sum == 0xffff && x == 0 && y == 0,
{
    let n = words(b@);
    assert(words(longer@) == n + 1);
    lemma_same_words(b@, longer@, n);
    lemma_ones_sum_range(b@, n);
    assert(longer@[2 * n as int] == x && longer@[2 * n as int + 1] == y);
    assert(word(longer@, n as int) == x * 256 + y);
}

/// A last byte without a partner counts as if a zero followed it.
pub proof fn law_checksum_of_an_odd_byte(
    b: &[u8],
    padded: &[u8],
    sum: u16,
    sum_padded: u16,
)
    requires
        b@.len() % 2 == 1,
        padded@ == b@.push(0),
        call_ensures(checksum, (b,), sum),
        call_ensures(checksum, (padded,), sum_padded),
    ensures
        sum == sum_padded,
{
    assert(words(padded@) == words(b@));
    lemma_same_words(b@, padded@, words(b@));
}

proof fn lemma_same_words(b: Seq<u8>, c: Seq<u8>, n: nat)
    requires
        b.len() <= c.len(),
        forall|i: int| 0 <= i < b.len() ==> b[i] == c[i],
        forall|i: int| b.len() <= i < c.len() && i < 2 * n ==> c[i] == 0,
    ensures
        ones_sum(b, n) == ones_sum(c, n),
    decreases n,
{
    if n > 0 {
        lemma_same_words(b, c, (n - 1) as nat);
        assert(word(b, n - 1) == word(c, n - 1));
    }
}

// ---------------------------------------------------------------------------
// Below the checksums of TCP and UDP
// ---------------------------------------------------------------------------

/// The pseudo header between IPv4 addresses: both addresses, a zero, the
/// protocol and the length.
pub proof fn law_ipv4_pseudo_header(a: [u8; 4], b: [u8; 4], udp: bool, n: int)
    requires
        0 <= n < 0x1_0000,
    ensures
        ({
            let protocol = if udp {
                ProtocolNumber::Udp
            } else {
                ProtocolNumber::Tcp
            };
            let h = pseudo_header(IpAddr::V4(a), IpAddr::V4(b), protocol, n);
            &&& h.len() == 12
            &&& h.take(4) == a@
            &&& h.subrange(4, 8) == b@
            &&& h[8] == 0
            &&& h[9] == if udp {
                17u8
            } else {
                6
            }
            &&& h[10] * 256 + h[11] == n
        }),
{
    let protocol = if udp {
        ProtocolNumber::Udp
    } else {
        ProtocolNumber::Tcp
    };
    let h = pseudo_header(IpAddr::V4(a), IpAddr::V4(b), protocol, n);
    assert(h.take(4) =~= a@);
    assert(h.subrange(4, 8) =~= b@);
}

/// The pseudo header between IPv6 addresses: both addresses, the length in
/// four bytes, three zeros and the protocol.
pub proof fn law_ipv6_pseudo_header(a: [u8; 16], b: [u8; 16], udp: bool, n: int)
    requires
        0 <= n < 0x1_0000_0000,
    ensures
        ({
            let protocol = if udp {
                ProtocolNumber::Udp
            } else {
                ProtocolNumber::Tcp
            };
            let h = pseudo_header(IpAddr::V6(a), IpAddr::V6(b), protocol, n);
            &&& h.len() == 40
            &&& h.take(16) == a@
            &&& h.subrange(16, 32) == b@
            &&& 65536 * (h[32] * 256 + h[33]) + (h[34] * 256 + h[35]) == n
            &&& h[36] == 0 && h[37] == 0 && h[38] == 0
            &&& h[39] == if udp {
                17u8
            } else {
                6
            }
        }),
{
    let protocol = if udp {
        ProtocolNumber::Udp
    } else {
        ProtocolNumber::Tcp
    };
    let h = pseudo_header(IpAddr::V6(a), IpAddr::V6(b), protocol, n);
    assert(h.take(16) =~= a@);
    assert(h.subrange(16, 32) =~= b@);
}

/// The protocols have their assigned numbers; and without a choice no flag is
/// set.
pub proof fn law_assigned_numbers(tcp: u8, udp: u8, flags: TcpFlags)
    requires
        call_ensures(ProtocolNumber::number, (ProtocolNumber::Tcp,), tcp),
        call_ensures(ProtocolNumber::number, (ProtocolNumber::Udp,), udp),
        call_ensures(<TcpFlags as Default>::default, (), flags),
    ensures
        tcp == 6 && udp == 17,
        !flags.urg && !flags.ack && !flags.psh && !flags.rst && !flags.syn && !flags.fin,
{
}

// ---------------------------------------------------------------------------
// TCP
// ---------------------------------------------------------------------------

/// Each flag has its own bit of the flags byte, from FIN in the lowest to URG.
pub proof fn law_flag_bits(flags: TcpFlags, code: u8)
    ensures
        flags.code() & 0x01 != 0 <==> flags.fin,
        flags.code() & 0x02 != 0 <==> flags.syn,
        flags.code() & 0x04 != 0 <==> flags.rst,
        flags.code() & 0x08 != 0 <==> flags.psh,
        flags.code() & 0x10 != 0 <==> flags.ack,
        flags.code() & 0x20 != 0 <==> flags.urg,
        flags.code() & 0xc0 == 0,
        TcpFlags::of(code).fin <==> code & 0x01 != 0,
        TcpFlags::of(code).syn <==> code & 0x02 != 0,
        TcpFlags::of(code).rst <==> code & 0x04 != 0,
        TcpFlags::of(code).psh <==> code & 0x08 != 0,
        TcpFlags::of(code).ack <==> code & 0x10 != 0,
        TcpFlags::of(code).urg <==> code & 0x20 != 0,
{
    lemma_bits(code);
    let own = flags.code();
    lemma_bits(own);
    assert(own < 64 ==> own & 0xc0 == 0) by (bit_vector);
}

proof fn lemma_bits(x: u8)
    ensures
        x & 0x01 != 0 <==> x % 2 == 1,
        x & 0x02 != 0 <==> (x / 2) % 2 == 1,
        x & 0x04 != 0 <==> (x / 4) % 2 == 1,
        x & 0x08 != 0 <==> (x / 8) % 2 == 1,
        x & 0x10 != 0 <==> (x / 16) % 2 == 1,
        x & 0x20 != 0 <==> (x / 32) % 2 == 1,
{
    assert((x & 0x01 != 0 <==> x % 2 == 1) && (x & 0x02 != 0 <==> (x / 2) % 2 == 1) && (x & 0x04
        != 0 <==> (x / 4) % 2 == 1) && (x & 0x08 != 0 <==> (x / 8) % 2 == 1) && (x & 0x10 != 0
        <==> (x / 16) % 2 == 1) && (x & 0x20 != 0 <==> (x / 32) % 2 == 1)) by (bit_vector);
}

/// An encoded segment, byte by byte: ports, sequence and acknowledgment
/// numbers, a header of five words, the flags, the window, a checksum that
/// cancels, no urgent pointer, and the payload.
#[verifier::rlimit(40)]
pub proof fn law_tcp_layout(
    source: IpAddr,
    destination: IpAddr,
    source_port: u16,
    destination_port: u16,
    seq: u32,
    ack: u32,
    flags: TcpFlags,
    window: u16,
    payload: &[u8],
    out: Vec<u8>,
)
    requires
        call_ensures(
            TcpPacket::create,
            (source, destination, source_port, destination_port, seq, ack, flags, window, payload),
            out,
        ),
    ensures
        out@.len() == 20 + payload@.len(),
        out@[0] * 256 + out@[1] == source_port,
        out@[2] * 256 + out@[3] == destination_port,
        65536 * (out@[4] * 256 + out@[5]) + (out@[6] * 256 + out@[7]) == seq,
        65536 * (out@[8] * 256 + out@[9]) + (out@[10] * 256 + out@[11]) == ack,
        out@[12] == 0x50,
        out@[13] == flags.code(),
        out@[14] * 256 + out@[15] == window,
        out@[18] == 0 && out@[19] == 0,
        out@.skip(20) == payload@,
        same_family(source, destination) ==> internet_checksum(
            pseudo_header(source, destination, ProtocolNumber::Tcp, out@.len() as int) + out@,
        ) == 0,
{
    let s = Segment {
        source_port,
        destination_port,
        sequence_number: seq,
        acknowledgment_number: ack,
        flags,
        window_size: window,
        payload: payload@,
    };
    lemma_tcp_fields(source, destination, s);
    if same_family(source, destination) {
        law_tcp_checksum_holds(source, destination, s);
    }
}

proof fn lemma_tcp_fields(source: IpAddr, destination: IpAddr, s: Segment)
    ensures
        ({
            let b = tcp_bytes(source, destination, s);
            &&& b.len() == 20 + s.payload.len()
            &&& b[0] * 256 + b[1] == s.source_port
            &&& b[2] * 256 + b[3] == s.destination_port
            &&& 65536 * (b[4] * 256 + b[5]) + (b[6] * 256 + b[7]) == s.sequence_number
            &&& 65536 * (b[8] * 256 + b[9]) + (b[10] * 256 + b[11]) == s.acknowledgment_number
            &&& b[12] == 0x50
            &&& b[13] == s.flags.code()
            &&& b[14] * 256 + b[15] == s.window_size
            &&& b[18] == 0 && b[19] == 0
            &&& b.skip(20) == s.payload
        }),
{
    let blank = tcp_layout(s, 0);
    let sum = internet_checksum(
        pseudo_header(source, destination, ProtocolNumber::Tcp, blank.len() as int) + blank,
    );
    lemma_tcp_layout_fields(s, sum);
}

proof fn lemma_tcp_layout_fields(s: Segment, sum: int)
    ensures
        ({
            let b = tcp_layout(s, sum);
            &&& b.len() == 20 + s.payload.len()
            &&& b[0] * 256 + b[1] == s.source_port
            &&& b[2] * 256 + b[3] == s.destination_port
            &&& 65536 * (b[4] * 256 + b[5]) + (b[6] * 256 + b[7]) == s.sequence_number
            &&& 65536 * (b[8] * 256 + b[9]) + (b[10] * 256 + b[11]) == s.acknowledgment_number
            &&& b[12] == 0x50
            &&& b[13] == s.flags.code()
            &&& b[14] * 256 + b[15] == s.window_size
            &&& b[18] == 0 && b[19] == 0
            &&& b.skip(20) == s.payload
        }),
{
    let b = tcp_layout(s, sum);
    assert(b.skip(20) =~= s.payload);
}

/// A segment is decoded from any bytes whose header is whole and at least
/// twenty bytes long, each field from where it stands, and the payload from
/// behind the options; anything else is refused.
pub proof fn law_tcp_decoding(b: &[u8], r: Result<TcpPacket, Error>)
    requires
        call_ensures(TcpPacket::parse, (b,), r),
    ensures
        r is Ok <==> b@.len() >= 20 && 20 <= 4 * (b@[12] / 16) <= b@.len(),
        r matches Ok(p) ==> {
            &&& p.source_port == b@[0] * 256 + b@[1]
            &&& p.destination_port == b@[2] * 256 + b@[3]
            &&& p.sequence_number == 65536 * (b@[4] * 256 + b@[5]) + (b@[6] * 256 + b@[7])
            &&& p.acknowledgment_number == 65536 * (b@[8] * 256 + b@[9]) + (b@[10] * 256 + b@[11])
            &&& p.flags == TcpFlags::of(b@[13])
            &&& p.window_size == b@[14] * 256 + b@[15]
            &&& p.payload@ == b@.subrange(4 * (b@[12] / 16) as int, b@.len() as int)
        },
        r matches Err(e) ==> e.kind == ErrorKind::InvalidData && e.message@
            == "invalid TCP segment"@,
{
}

// ---------------------------------------------------------------------------
// UDP
// ---------------------------------------------------------------------------

/// An encoded datagram, byte by byte: ports, the length of the whole, a
/// checksum that cancels and is not zero, and the payload.
pub proof fn law_udp_layout(
    source: IpAddr,
    destination: IpAddr,
    source_port: u16,
    destination_port: u16,
    payload: &[u8],
    out: Vec<u8>,
)
    requires
        call_ensures(
            UdpDatagram::create,
            (source, destination, source_port, destination_port, payload),
            out,
        ),
    ensures
        out@.len() == 8 + payload@.len(),
        out@[0] * 256 + out@[1] == source_port,
        out@[2] * 256 + out@[3] == destination_port,
        out@[4] * 256 + out@[5] == (8 + payload@.len()) % 0x1_0000,
        out@.skip(8) == payload@,
        same_family(source, destination) ==> {
            &&& out@[6] * 256 + out@[7] != 0
            &&& internet_checksum(
                pseudo_header(source, destination, ProtocolNumber::Udp, out@.len() as int) + out@,
            ) == 0
        },
{
    let d = Datagram { source_port, destination_port, payload: payload@ };
    let blank = udp_layout(d, 0);
    assert(out@ == udp_bytes(source, destination, d));
    assert(out@.skip(8) =~= payload@);
    if same_family(source, destination) {
        law_udp_checksum_holds(source, destination, d);
    }
}

/// A datagram is decoded from any bytes that hold its header and as many bytes
/// as the header says; anything else is refused.
pub proof fn law_udp_decoding(b: &[u8], r: Option<UdpDatagram>)
    requires
        call_ensures(UdpDatagram::parse, (b,), r),
    ensures
        r is Some <==> b@.len() >= 8 && 8 <= b@[4] * 256 + b@[5] <= b@.len(),
        r matches Some(d) ==> {
            &&& d.source_port == b@[0] * 256 + b@[1]
            &&& d.destination_port == b@[2] * 256 + b@[3]
            &&& d.payload@ == b@.subrange(8, b@[4] * 256 + b@[5])
        },
{
}

// ---------------------------------------------------------------------------
// IP
// ---------------------------------------------------------------------------

/// An encoded IPv4 packet, byte by byte: version and header length, the length
/// of the whole, no fragmentation, the hop limit, the protocol, a checksum that
/// cancels, the addresses and the payload.
pub proof fn law_ipv4_layout(
    source: [u8; 4],
    destination: [u8; 4],
    udp: bool,
    ttl: u8,
    payload: &[u8],
    out: Vec<u8>,
)
    requires
        call_ensures(
            Ipv4Packet::create,
            (
                source,
                destination,
                if udp {
                    ProtocolNumber::Udp
                } else {
                    ProtocolNumber::Tcp
                },
                ttl,
                payload,
            ),
            out,
        ),
    ensures
        out@.len() == 20 + payload@.len(),
        out@[0] == 0x45,
        out@[1] == 0,
        out@[2] * 256 + out@[3] == (20 + payload@.len()) % 0x1_0000,
        out@[4] == 0 && out@[5] == 0 && out@[6] == 0 && out@[7] == 0,
        out@[8] == ttl,
        out@[9] == if udp {
            17u8
        } else {
            6
        },
        out@.subrange(12, 16) == source@,
        out@.subrange(16, 20) == destination@,
        out@.skip(20) == payload@,
        internet_checksum(out@.take(20)) == 0,
{
    lemma_ipv4_fields(
        Ipv4Fields {
            source: source@,
            destination: destination@,
            protocol: if udp {
                17u8
            } else {
                6
            },
            ttl,
            payload: payload@,
        },
    );
}

pub proof fn lemma_ipv4_fields(p: Ipv4Fields)
    requires
        p.source.len() == 4,
        p.destination.len() == 4,
    ensures
        ({
            let b = ipv4_bytes(p);
            &&& b.len() == 20 + p.payload.len()
            &&& b[0] == 0x45 && b[1] == 0
            &&& b[2] * 256 + b[3] == (20 + p.payload.len()) % 0x1_0000
            &&& b[4] == 0 && b[5] == 0 && b[6] == 0 && b[7] == 0
            &&& b[8] == p.ttl
            &&& b[9] == p.protocol
            &&& b.subrange(12, 16) == p.source
            &&& b.subrange(16, 20) == p.destination
            &&& b.skip(20) == p.payload
            &&& internet_checksum(b.take(20)) == 0
        }),
{
    law_ipv4_checksum_holds(p);
    let sum = internet_checksum(ipv4_header(p, 0));
    let h = ipv4_header(p, sum);
    assert(h.len() == 20);
    let b = ipv4_bytes(p);
    assert(b =~= h + p.payload);
    assert(b.subrange(12, 16) =~= p.source);
    assert(b.subrange(16, 20) =~= p.destination);
    assert(b.skip(20) =~= p.payload);
}

/// An IPv4 packet is found in any bytes that begin with version 4, a header of
/// at least twenty bytes and a length that covers it: what it carries stands
/// between the header's end and that length. Too few bytes are not enough; any
/// other beginning is none.
pub proof fn law_ipv4_decoding(
    b: &[u8],
    found: IpParseError<Frame>,
    packet: Option<Ipv4Packet>,
)
    requires
        call_ensures(Adapter::try_parse_v4, (b,), found),
        call_ensures(Ipv4Packet::parse, (b,), packet),
    ensures
        ({
            let header = 4 * (b@[0] % 16);
            let total = b@[2] * 256 + b@[3];
            let sound = b@[0] / 16 == 4 && 20 <= header <= total;
            &&& found is Invalid <==> b@.len() >= 20 && !sound
            &&& found is Whole <==> b@.len() >= 20 && sound && b@.len() >= total
            &&& packet is Some <==> found is Whole
            &&& found matches IpParseError::Whole { packet: f, bytes_consumed } ==> {
                &&& bytes_consumed == total
                &&& f.protocol == b@[9]
                &&& f.payload@ == b@.subrange(header, total)
            }
            &&& packet matches Some(p) ==> {
                &&& p.source@ == b@.subrange(12, 16)
                &&& p.destination@ == b@.subrange(16, 20)
                &&& p.ttl == b@[8]
                &&& p.protocol == b@[9]
                &&& p.payload@ == b@.subrange(header, total)
            }
        }),
{
}

/// An encoded IPv6 packet, byte by byte: version, no traffic class and no flow
/// label, the length of the payload, the protocol, the hop limit, the addresses
/// and the payload.
pub proof fn law_ipv6_layout(
    source: [u8; 16],
    destination: [u8; 16],
    udp: bool,
    hop_limit: u8,
    payload: &[u8],
    out: Vec<u8>,
)
    requires
        call_ensures(
            Ipv6Packet::create,
            (
                source,
                destination,
                if udp {
                    ProtocolNumber::Udp
                } else {
                    ProtocolNumber::Tcp
                },
                hop_limit,
                payload,
            ),
            out,
        ),
    ensures
        out@.len() == 40 + payload@.len(),
        out@[0] == 0x60,
        out@[1] == 0 && out@[2] == 0 && out@[3] == 0,
        out@[4] * 256 + out@[5] == payload@.len() % 0x1_0000,
        out@[6] == if udp {
            17u8
        } else {
            6
        },
        out@[7] == hop_limit,
        out@.subrange(8, 24) == source@,
        out@.subrange(24, 40) == destination@,
        out@.skip(40) == payload@,
{
    lemma_ipv6_fields(
        Ipv6Fields {
            source: source@,
            destination: destination@,
            next_header: if udp {
                17u8
            } else {
                6
            },
            hop_limit,
            payload: payload@,
        },
    );
}

pub proof fn lemma_ipv6_fields(p: Ipv6Fields)
    requires
        p.source.len() == 16,
        p.destination.len() == 16,
    ensures
        ({
            let b = ipv6_bytes(p);
            &&& b.len() == 40 + p.payload.len()
            &&& b[0] == 0x60 && b[1] == 0 && b[2] == 0 && b[3] == 0
            &&& b[4] * 256 + b[5] == p.payload.len() % 0x1_0000
            &&& b[6] == p.next_header
            &&& b[7] == p.hop_limit
            &&& b.subrange(8, 24) == p.source
            &&& b.subrange(24, 40) == p.destination
            &&& b.skip(40) == p.payload
        }),
{
    let b = ipv6_bytes(p);
    assert(b.subrange(8, 24) =~= p.source);
    assert(b.subrange(24, 40) =~= p.destination);
    assert(b.skip(40) =~= p.payload);
}

/// An IPv6 packet is found in any bytes that begin with version 6 and hold the
/// header and as many bytes behind it as it says.
pub proof fn law_ipv6_decoding(b: &[u8], found: IpParseError<Ipv6Packet>)
    requires
        call_ensures(Ipv6Packet::parse, (b,), found),
    ensures
        ({
            let end = 40 + b@[4] * 256 + b@[5];
            &&& found is Invalid <==> b@.len() >= 40 && b@[0] / 16 != 6
            &&& found is Whole <==> b@.len() >= 40 && b@[0] / 16 == 6 && b@.len() >= end
            &&& found matches IpParseError::Whole { packet: p, bytes_consumed } ==> {
                &&& bytes_consumed == end
                &&& p.next_header == b@[6]
                &&& p.hop_limit == b@[7]
                &&& p.source@ == b@.subrange(8, 24)
                &&& p.destination@ == b@.subrange(24, 40)
                &&& p.payload@ == b@.subrange(40, end)
            }
        }),
{
}

// ---------------------------------------------------------------------------
// Capture files
// ---------------------------------------------------------------------------

/// The header of a capture: the magic number of microsecond captures, version
/// 2.4, no time zone, packets up to 65535 bytes, and raw IP as link type.
pub proof fn law_capture_header(out: Vec<u8>)
    requires
        call_ensures(file_header, (), out),
    ensures
        out@ == seq![
            0xd4u8, 0xc3, 0xb2, 0xa1, 2, 0, 4, 0, 0, 0, 0, 0, 0, 0, 0, 0, 0xff, 0xff, 0, 0, 101, 0,
            0, 0,
        ],
{
    assert(out@ =~= seq![
        0xd4u8, 0xc3, 0xb2, 0xa1, 2, 0, 4, 0, 0, 0, 0, 0, 0, 0, 0, 0, 0xff, 0xff, 0, 0, 101, 0, 0,
        0,
    ]);
}

/// A record of a capture: the seconds, the microseconds within the second, the
/// length twice, least significant byte first, and the packet.
pub proof fn law_capture_record(micros: u64, packet: &[u8], out: Vec<u8>)
    requires
        call_ensures(log_packet, (micros, packet), out),
    ensures
        ({
            let b = out@;
            let length = packet@.len() % 0x1_0000_0000;
            &&& b.len() == 16 + packet@.len()
            &&& b[3] * 16777216 + b[2] * 65536 + b[1] * 256 + b[0] == (micros as int / 1_000_000)
                % 0x1_0000_0000
            &&& b[7] * 16777216 + b[6] * 65536 + b[5] * 256 + b[4] == micros as int % 1_000_000
            &&& b[11] * 16777216 + b[10] * 65536 + b[9] * 256 + b[8] == length
            &&& b[15] * 16777216 + b[14] * 65536 + b[13] * 256 + b[12] == length
            &&& b.skip(16) == packet@
        }),
{
    let b = out@;
    let seconds = (micros as int / 1_000_000) % 0x1_0000_0000;
    let fraction = micros as int % 1_000_000;
    let length = packet@.len() as int % 0x1_0000_0000;
    law_four_bytes_of_a_number(seconds);
    law_four_bytes_of_a_number(fraction);
    law_four_bytes_of_a_number(length);
    lemma_record(le32(seconds), le32(fraction), le32(length), packet@, b);
}

proof fn lemma_record(s: Seq<u8>, f: Seq<u8>, l: Seq<u8>, packet: Seq<u8>, b: Seq<u8>)
    requires
        s.len() == 4,
        f.len() == 4,
        l.len() == 4,
        b == s + f + l + l + packet,
    ensures
        b.len() == 16 + packet.len(),
        b[0] == s[0] && b[1] == s[1] && b[2] == s[2] && b[3] == s[3],
        b[4] == f[0] && b[5] == f[1] && b[6] == f[2] && b[7] == f[3],
        b[8] == l[0] && b[9] == l[1] && b[10] == l[2] && b[11] == l[3],
        b[12] == l[0] && b[13] == l[1] && b[14] == l[2] && b[15] == l[3],
        b.skip(16) == packet,
{
    assert(b.skip(16) =~= packet);
}

} // verus!
