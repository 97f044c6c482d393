//! The wire formats: TCP segments and UDP datagrams, in IPv4 or IPv6 packets.

use vstd::prelude::*;

use crate::bytes::{
    be16, be32, copy_range, get_be16, get_be32, put_be16, put_be32, put_slice, read16, read32,
};
use crate::checksum::{checksum, internet_checksum};
use crate::error::{Error, ErrorKind};

verus! {

// ---------------------------------------------------------------------------
// Addresses
// ---------------------------------------------------------------------------

/// An IP address of either family.
#[derive(Debug, Clone, Copy, PartialEq, Eq)]
pub enum IpAddr {
    V4([u8; 4]),
    V6([u8; 16]),
}

impl IpAddr {
    /// The bytes of the address, as they stand in a packet.
    pub open spec fn octets(self) -> Seq<u8> {
        match self {
            IpAddr::V4(a) => a@,
            IpAddr::V6(a) => a@,
        }
    }
}

/// Whether the two addresses are of the same family.
pub open spec fn same_family(a: IpAddr, b: IpAddr) -> bool {
    a is V4 <==> b is V4
}

fn put_address(out: &mut Vec<u8>, a: &IpAddr)
    ensures
        final(out)@ == old(out)@ + a.octets(),
{
    match a {
        IpAddr::V4(v4) => put_slice(out, v4.as_slice()),
        IpAddr::V6(v6) => put_slice(out, v6.as_slice()),
    }
}

/// The transport protocol that a packet carries.
#[derive(Debug, Clone, Copy, PartialEq, Eq, Structural)]
pub enum ProtocolNumber {
    Tcp,
    Udp,
}

impl ProtocolNumber {
    /// The number that stands for the protocol in an IP header.
    pub open spec fn code(self) -> u8 {
        match self {
            ProtocolNumber::Tcp => 6,
            ProtocolNumber::Udp => 17,
        }
    }

    /// The number that stands for the protocol in an IP header.
    pub fn number(self) -> (n: u8)
        ensures
            n == self.code(),
    {
        match self {
            ProtocolNumber::Tcp => 6,
            ProtocolNumber::Udp => 17,
        }
    }
}

/// What precedes a segment when its checksum is taken: the addresses, the
/// protocol and the segment's length.
pub open spec fn pseudo_header(
    source: IpAddr,
    destination: IpAddr,
    protocol: ProtocolNumber,
    length: int,
) -> Seq<u8> {
    source.octets() + destination.octets() + match source {
        IpAddr::V4(_) => seq![0u8, protocol.code()] + be16(length % 0x1_0000),
        IpAddr::V6(_) => be32(length % 0x1_0000_0000) + seq![0u8, 0u8, 0u8, protocol.code()],
    }
}

fn transport_checksum(
    source: &IpAddr,
    destination: &IpAddr,
    protocol: ProtocolNumber,
    segment: &Vec<u8>,
) -> (sum: u16)
    ensures
        sum == internet_checksum(
            pseudo_header(*source, *destination, protocol, segment@.len() as int) + segment@,
        ),
{
    let mut covered: Vec<u8> = Vec::new();
    put_address(&mut covered, source);
    put_address(&mut covered, destination);
    let length: u64 = segment.len() as u64;
    match source {
        IpAddr::V4(_) => {
            covered.push(0);
            covered.push(protocol.number());
            put_be16(&mut covered, (length % 0x1_0000) as u16);
        },
        IpAddr::V6(_) => {
            put_be32(&mut covered, (length % 0x1_0000_0000) as u32);
            covered.push(0);
            covered.push(0);
            covered.push(0);
            covered.push(protocol.number());
        },
    }
    assert(covered@ =~= pseudo_header(*source, *destination, protocol, segment@.len() as int));
    put_slice(&mut covered, segment.as_slice());
    checksum(covered.as_slice())
}

// ---------------------------------------------------------------------------
// TCP
// ---------------------------------------------------------------------------

/// The control flags of a TCP segment.
#[derive(Debug, Clone, Copy, PartialEq, Eq, Structural)]
pub struct TcpFlags {
    pub urg: bool,
    pub ack: bool,
    pub psh: bool,
    pub rst: bool,
    pub syn: bool,
    pub fin: bool,
}

/// No flag is set.
pub open spec fn no_flags() -> TcpFlags {
    TcpFlags { urg: false, ack: false, psh: false, rst: false, syn: false, fin: false }
}

impl Default for TcpFlags {
    /// No flag is set.
    fn default() -> (flags: TcpFlags)
        ensures
            flags == no_flags(),
    {
        TcpFlags { urg: false, ack: false, psh: false, rst: false, syn: false, fin: false }
    }
}

/// One if the flag is set, else zero.
pub open spec fn bit(flag: bool) -> int {
    if flag {
        1
    } else {
        0
    }
}

impl TcpFlags {
    /// The flags as they stand in a header, FIN in the lowest bit.
    pub open spec fn code(self) -> u8 {
        (bit(self.fin) + 2 * bit(self.syn) + 4 * bit(self.rst) + 8 * bit(self.psh) + 16 * bit(
            self.ack,
        ) + 32 * bit(self.urg)) as u8
    }

    /// The flags that a byte of a header spells; its two highest bits stand
    /// for none.
    pub open spec fn of(code: u8) -> TcpFlags {
        TcpFlags {
            fin: code % 2 == 1,
            syn: (code / 2) % 2 == 1,
            rst: (code / 4) % 2 == 1,
            psh: (code / 8) % 2 == 1,
            ack: (code / 16) % 2 == 1,
            urg: (code / 32) % 2 == 1,
        }
    }

    fn to_byte(self) -> (code: u8)
        ensures
            code == self.code(),
    {
        let fin: u8 = if self.fin { 1 } else { 0 };
        let syn: u8 = if self.syn { 2 } else { 0 };
        let rst: u8 = if self.rst { 4 } else { 0 };
        let psh: u8 = if self.psh { 8 } else { 0 };
        let ack: u8 = if self.ack { 16 } else { 0 };
        let urg: u8 = if self.urg { 32 } else { 0 };
        fin + syn + rst + psh + ack + urg
    }

    fn from_byte(code: u8) -> (flags: TcpFlags)
        ensures
            flags == TcpFlags::of(code),
    {
        TcpFlags {
            fin: code % 2 == 1,
            syn: (code / 2) % 2 == 1,
            rst: (code / 4) % 2 == 1,
            psh: (code / 8) % 2 == 1,
            ack: (code / 16) % 2 == 1,
            urg: (code / 32) % 2 == 1,
        }
    }
}

/// What a TCP segment says.
pub struct Segment {
    pub source_port: u16,
    pub destination_port: u16,
    pub sequence_number: u32,
    pub acknowledgment_number: u32,
    pub flags: TcpFlags,
    pub window_size: u16,
    pub payload: Seq<u8>,
}

/// The bytes of a segment without options, with a given checksum field.
pub open spec fn tcp_layout(s: Segment, sum: int) -> Seq<u8> {
    be16(s.source_port as int) + be16(s.destination_port as int) + be32(s.sequence_number as int)
        + be32(s.acknowledgment_number as int) + seq![0x50u8, s.flags.code()] + be16(
        s.window_size as int,
    ) + be16(sum) + be16(0) + s.payload
}

/// The bytes of a segment between two addresses.
pub open spec fn tcp_bytes(source: IpAddr, destination: IpAddr, s: Segment) -> Seq<u8> {
    let blank = tcp_layout(s, 0);
    let covered = pseudo_header(source, destination, ProtocolNumber::Tcp, blank.len() as int)
        + blank;
    tcp_layout(s, internet_checksum(covered))
}

/// The segment that some bytes spell: a header of at least twenty bytes, whose
/// length its thirteenth byte gives in words of four, then the payload.
pub open spec fn tcp_parse(b: Seq<u8>) -> Option<Segment> {
    let header = (b[12] / 16) * 4;
    if b.len() < 20 || header < 20 || header > b.len() {
        None
    } else {
        Some(
            Segment {
                source_port: read16(b, 0) as u16,
                destination_port: read16(b, 2) as u16,
                sequence_number: read32(b, 4) as u32,
                acknowledgment_number: read32(b, 8) as u32,
                flags: TcpFlags::of(b[13]),
                window_size: read16(b, 14) as u16,
                payload: b.skip(header),
            },
        )
    }
}

/// A TCP segment.
#[derive(Debug)]
pub struct TcpPacket {
    pub source_port: u16,
    pub destination_port: u16,
    pub sequence_number: u32,
    pub acknowledgment_number: u32,
    pub flags: TcpFlags,
    pub window_size: u16,
    pub payload: Vec<u8>,
}

impl View for TcpPacket {
    type V = Segment;

    open spec fn view(&self) -> Segment {
        Segment {
            source_port: self.source_port,
            destination_port: self.destination_port,
            sequence_number: self.sequence_number,
            acknowledgment_number: self.acknowledgment_number,
            flags: self.flags,
            window_size: self.window_size,
            payload: self.payload@,
        }
    }
}

fn put_tcp(
    source_port: u16,
    destination_port: u16,
    sequence_number: u32,
    acknowledgment_number: u32,
    flags: TcpFlags,
    window_size: u16,
    sum: u16,
    payload: &[u8],
) -> (out: Vec<u8>)
    ensures
        out@ == tcp_layout(
            Segment {
                source_port,
                destination_port,
                sequence_number,
                acknowledgment_number,
                flags,
                window_size,
                payload: payload@,
            },
            sum as int,
        ),
{
    let mut out: Vec<u8> = Vec::new();
    put_be16(&mut out, source_port);
    put_be16(&mut out, destination_port);
    put_be32(&mut out, sequence_number);
    put_be32(&mut out, acknowledgment_number);
    out.push(0x50);
    out.push(flags.to_byte());
    put_be16(&mut out, window_size);
    put_be16(&mut out, sum);
    put_be16(&mut out, 0);
    put_slice(&mut out, payload);
    proof {
        let s = Segment {
            source_port,
            destination_port,
            sequence_number,
            acknowledgment_number,
            flags,
            window_size,
            payload: payload@,
        };
        assert(out@ =~= tcp_layout(s, sum as int));
    }
    out
}

impl TcpPacket {
    /// Encodes a segment without options.
    pub fn create(
        source: IpAddr,
        destination: IpAddr,
        source_port: u16,
        destination_port: u16,
        sequence_number: u32,
        acknowledgment_number: u32,
        flags: TcpFlags,
        window_size: u16,
        payload: &[u8],
    ) -> (out: Vec<u8>)
        ensures
            out@ == tcp_bytes(
                source,
                destination,
                Segment {
                    source_port,
                    destination_port,
                    sequence_number,
                    acknowledgment_number,
                    flags,
                    window_size,
                    payload: payload@,
                },
            ),
    {
        let blank = put_tcp(
            source_port,
            destination_port,
            sequence_number,
            acknowledgment_number,
            flags,
            window_size,
            0,
            payload,
        );
        let sum: u16 = transport_checksum(&source, &destination, ProtocolNumber::Tcp, &blank);
        put_tcp(
            source_port,
            destination_port,
            sequence_number,
            acknowledgment_number,
            flags,
            window_size,
            sum,
            payload,
        )
    }

    /// Decodes a segment, whose options are skipped. The checksum is not
    /// looked at: the transport is reliable.
    pub fn parse(b: &[u8]) -> (r: Result<TcpPacket, Error>)
        ensures
            match r {
                Ok(packet) => tcp_parse(b@) == Some(packet@),
                Err(e) => tcp_parse(b@) is None && e.is(
                    ErrorKind::InvalidData,
                    "invalid TCP segment"@,
                ),
            },
    {
        if b.len() < 20 {
            return Err(Error::new(ErrorKind::InvalidData, "invalid TCP segment"));
        }
        let header: usize = ((b[12] / 16) as usize) * 4;
        if header < 20 || header > b.len() {
            return Err(Error::new(ErrorKind::InvalidData, "invalid TCP segment"));
        }
        let packet = TcpPacket {
            source_port: get_be16(b, 0),
            destination_port: get_be16(b, 2),
            sequence_number: get_be32(b, 4),
            acknowledgment_number: get_be32(b, 8),
            flags: TcpFlags::from_byte(b[13]),
            window_size: get_be16(b, 14),
            payload: copy_range(b, header, b.len()),
        };
        assert(packet.payload@ =~= b@.skip(header as int));
        Ok(packet)
    }
}

// ---------------------------------------------------------------------------
// UDP
// ---------------------------------------------------------------------------

/// What a UDP datagram says.
pub struct Datagram {
    pub source_port: u16,
    pub destination_port: u16,
    pub payload: Seq<u8>,
}

/// The bytes of a datagram with a given checksum field.
pub open spec fn udp_layout(d: Datagram, sum: int) -> Seq<u8> {
    be16(d.source_port as int) + be16(d.destination_port as int) + be16(
        (8 + d.payload.len() as int) % 0x1_0000,
    ) + be16(sum) + d.payload
}

/// The bytes of a datagram between two addresses. A checksum of zero would
/// say that there is none, and is sent as all ones.
pub open spec fn udp_bytes(source: IpAddr, destination: IpAddr, d: Datagram) -> Seq<u8> {
    let blank = udp_layout(d, 0);
    let sum = internet_checksum(
        pseudo_header(source, destination, ProtocolNumber::Udp, blank.len() as int) + blank,
    );
    udp_layout(
        d,
        if sum == 0 {
            0xffff
        } else {
            sum
        },
    )
}

/// The datagram that some bytes spell: a header of eight bytes that gives the
/// length of the whole, then the payload.
pub open spec fn udp_parse(b: Seq<u8>) -> Option<Datagram> {
    let length = read16(b, 4);
    if b.len() < 8 || length < 8 || length > b.len() {
        None
    } else {
        Some(
            Datagram {
                source_port: read16(b, 0) as u16,
                destination_port: read16(b, 2) as u16,
                payload: b.subrange(8, length),
            },
        )
    }
}

/// A UDP datagram.
#[derive(Debug)]
pub struct UdpDatagram {
    pub source_port: u16,
    pub destination_port: u16,
    pub payload: Vec<u8>,
}

impl View for UdpDatagram {
    type V = Datagram;

    open spec fn view(&self) -> Datagram {
        Datagram {
            source_port: self.source_port,
            destination_port: self.destination_port,
            payload: self.payload@,
        }
    }
}

fn put_udp(source_port: u16, destination_port: u16, sum: u16, payload: &[u8]) -> (out: Vec<u8>)
    ensures
        out@ == udp_layout(
            Datagram { source_port, destination_port, payload: payload@ },
            sum as int,
        ),
{
    let mut out: Vec<u8> = Vec::new();
    let low: usize = payload.len() % 0x1_0000;
    let length: u16 = ((low + 8) % 0x1_0000) as u16;
    assert(length as int == (8 + payload@.len() as int) % 0x1_0000);
    put_be16(&mut out, source_port);
    put_be16(&mut out, destination_port);
    put_be16(&mut out, length);
    put_be16(&mut out, sum);
    put_slice(&mut out, payload);
    assert(out@ =~= udp_layout(
        Datagram { source_port, destination_port, payload: payload@ },
        sum as int,
    ));
    out
}

impl UdpDatagram {
    /// Encodes a datagram.
    pub fn create(
        source: IpAddr,
        destination: IpAddr,
        source_port: u16,
        destination_port: u16,
        payload: &[u8],
    ) -> (out: Vec<u8>)
        ensures
            out@ == udp_bytes(
                source,
                destination,
                Datagram { source_port, destination_port, payload: payload@ },
            ),
    {
        let blank = put_udp(source_port, destination_port, 0, payload);
        let sum: u16 = transport_checksum(&source, &destination, ProtocolNumber::Udp, &blank);
        let shown: u16 = if sum == 0 {
            0xffff
        } else {
            sum
        };
        put_udp(source_port, destination_port, shown, payload)
    }

    /// Decodes a datagram. The checksum is not looked at.
    pub fn parse(b: &[u8]) -> (r: Option<UdpDatagram>)
        ensures
            match r {
                Some(datagram) => udp_parse(b@) == Some(datagram@),
                None => udp_parse(b@) is None,
            },
    {
        if b.len() < 8 {
            return None;
        }
        let length: usize = get_be16(b, 4) as usize;
        if length < 8 || length > b.len() {
            return None;
        }
        Some(
            UdpDatagram {
                source_port: get_be16(b, 0),
                destination_port: get_be16(b, 2),
                payload: copy_range(b, 8, length),
            },
        )
    }
}

// ---------------------------------------------------------------------------
// IP
// ---------------------------------------------------------------------------

/// What reading a packet off the front of a buffer gives.
#[derive(Debug)]
pub enum IpParseError<T> {
    /// A whole packet, and how many bytes of the buffer it takes up.
    Whole { packet: T, bytes_consumed: usize },
    /// The packet's end has not arrived.
    NotEnough,
    /// No packet begins like this.
    Invalid,
}

impl<T: View> View for IpParseError<T> {
    type V = IpParseError<T::V>;

    open spec fn view(&self) -> IpParseError<T::V> {
        match *self {
            IpParseError::Whole { packet, bytes_consumed } => IpParseError::Whole {
                packet: packet@,
                bytes_consumed,
            },
            IpParseError::NotEnough => IpParseError::NotEnough,
            IpParseError::Invalid => IpParseError::Invalid,
        }
    }
}

/// What an IPv4 packet says, as far as the stack reads it.
pub struct Ipv4Fields {
    pub source: Seq<u8>,
    pub destination: Seq<u8>,
    pub protocol: u8,
    pub ttl: u8,
    pub payload: Seq<u8>,
}

/// The header of an IPv4 packet without options, with a given checksum field.
pub open spec fn ipv4_header(p: Ipv4Fields, sum: int) -> Seq<u8> {
    seq![0x45u8, 0u8] + be16((20 + p.payload.len() as int) % 0x1_0000) + seq![
        0u8,
        0u8,
        0u8,
        0u8,
        p.ttl,
        p.protocol,
    ] + be16(sum) + p.source + p.destination
}

/// The bytes of an IPv4 packet.
pub open spec fn ipv4_bytes(p: Ipv4Fields) -> Seq<u8> {
    ipv4_header(p, internet_checksum(ipv4_header(p, 0))) + p.payload
}

/// The IPv4 packet that some bytes begin with: a header of at least twenty
/// bytes, whose length the first byte gives in words of four, then the
/// payload, up to the total length that the header gives.
pub open spec fn ipv4_parse(b: Seq<u8>) -> Option<Ipv4Fields> {
    let header = (b[0] % 16) * 4;
    let total = read16(b, 2);
    if b.len() < 20 || b[0] / 16 != 4 || header < 20 || total < header || b.len() < total {
        None
    } else {
        Some(
            Ipv4Fields {
                source: b.subrange(12, 16),
                destination: b.subrange(16, 20),
                protocol: b[9],
                ttl: b[8],
                payload: b.subrange(header, total),
            },
        )
    }
}

/// An IPv4 packet.
#[derive(Debug)]
pub struct Ipv4Packet {
    pub source: [u8; 4],
    pub destination: [u8; 4],
    pub protocol: u8,
    pub ttl: u8,
    pub payload: Vec<u8>,
}

impl View for Ipv4Packet {
    type V = Ipv4Fields;

    open spec fn view(&self) -> Ipv4Fields {
        Ipv4Fields {
            source: self.source@,
            destination: self.destination@,
            protocol: self.protocol,
            ttl: self.ttl,
            payload: self.payload@,
        }
    }
}

impl Ipv4Packet {
    /// Encodes a packet without options.
    pub fn create(
        source: [u8; 4],
        destination: [u8; 4],
        protocol: ProtocolNumber,
        ttl: u8,
        payload: &[u8],
    ) -> (out: Vec<u8>)
        ensures
            out@ == ipv4_bytes(
                Ipv4Fields {
                    source: source@,
                    destination: destination@,
                    protocol: protocol.code(),
                    ttl,
                    payload: payload@,
                },
            ),
    {
        let low: usize = payload.len() % 0x1_0000;
        let total: u16 = ((low + 20) % 0x1_0000) as u16;
        assert(total as int == (20 + payload@.len() as int) % 0x1_0000);
        let blank = put_ipv4_header(source, destination, protocol, ttl, total, 0);
        let sum: u16 = checksum(blank.as_slice());
        let mut out = put_ipv4_header(source, destination, protocol, ttl, total, sum);
        proof {
            let p = Ipv4Fields {
                source: source@,
                destination: destination@,
                protocol: protocol.code(),
                ttl,
                payload: payload@,
            };
            assert(blank@ =~= ipv4_header(p, 0));
            assert(out@ =~= ipv4_header(p, sum as int));
        }
        put_slice(&mut out, payload);
        out
    }

    /// Decodes the packet that the bytes begin with. The checksum is not
    /// looked at.
    pub fn parse(b: &[u8]) -> (r: Option<Ipv4Packet>)
        ensures
            match r {
                Some(packet) => ipv4_parse(b@) == Some(packet@),
                None => ipv4_parse(b@) is None,
            },
    {
        if b.len() < 20 || b[0] / 16 != 4 {
            return None;
        }
        let header: usize = ((b[0] % 16) as usize) * 4;
        let total: usize = get_be16(b, 2) as usize;
        if header < 20 || total < header || b.len() < total {
            return None;
        }
        let packet = Ipv4Packet {
            source: [b[12], b[13], b[14], b[15]],
            destination: [b[16], b[17], b[18], b[19]],
            protocol: b[9],
            ttl: b[8],
            payload: copy_range(b, header, total),
        };
        assert(packet.source@ =~= b@.subrange(12, 16));
        assert(packet.destination@ =~= b@.subrange(16, 20));
        Some(packet)
    }
}

fn put_ipv4_header(
    source: [u8; 4],
    destination: [u8; 4],
    protocol: ProtocolNumber,
    ttl: u8,
    total: u16,
    sum: u16,
) -> (out: Vec<u8>)
    ensures
        out@ == seq![0x45u8, 0u8] + be16(total as int) + seq![
            0u8,
            0u8,
            0u8,
            0u8,
            ttl,
            protocol.code(),
        ] + be16(sum as int) + source@ + destination@,
{
    let mut out: Vec<u8> = Vec::new();
    out.push(0x45);
    out.push(0);
    put_be16(&mut out, total);
    out.push(0);
    out.push(0);
    out.push(0);
    out.push(0);
    out.push(ttl);
    out.push(protocol.number());
    put_be16(&mut out, sum);
    put_slice(&mut out, source.as_slice());
    put_slice(&mut out, destination.as_slice());
    out
}

/// What an IPv6 packet says, as far as the stack reads it.
pub struct Ipv6Fields {
    pub source: Seq<u8>,
    pub destination: Seq<u8>,
    pub next_header: u8,
    pub hop_limit: u8,
    pub payload: Seq<u8>,
}

/// The bytes of an IPv6 packet.
pub open spec fn ipv6_bytes(p: Ipv6Fields) -> Seq<u8> {
    seq![0x60u8, 0u8, 0u8, 0u8] + be16(p.payload.len() as int % 0x1_0000) + seq![
        p.next_header,
        p.hop_limit,
    ] + p.source + p.destination + p.payload
}

/// The IPv6 packet at the front of a buffer: a header of forty bytes that
/// gives the length of the payload, then the payload.
pub open spec fn ipv6_parse(b: Seq<u8>) -> IpParseError<Ipv6Fields> {
    let end = 40 + read16(b, 4);
    if b.len() < 40 {
        IpParseError::NotEnough
    } else if b[0] / 16 != 6 {
        IpParseError::Invalid
    } else if b.len() < end {
        IpParseError::NotEnough
    } else {
        IpParseError::Whole {
            packet: Ipv6Fields {
                source: b.subrange(8, 24),
                destination: b.subrange(24, 40),
                next_header: b[6],
                hop_limit: b[7],
                payload: b.subrange(40, end),
            },
            bytes_consumed: end as usize,
        }
    }
}

/// An IPv6 packet.
#[derive(Debug)]
pub struct Ipv6Packet {
    pub source: [u8; 16],
    pub destination: [u8; 16],
    pub next_header: u8,
    pub hop_limit: u8,
    pub payload: Vec<u8>,
}

impl View for Ipv6Packet {
    type V = Ipv6Fields;

    open spec fn view(&self) -> Ipv6Fields {
        Ipv6Fields {
            source: self.source@,
            destination: self.destination@,
            next_header: self.next_header,
            hop_limit: self.hop_limit,
            payload: self.payload@,
        }
    }
}

fn get_v6_address(b: &[u8], i: usize) -> (a: [u8; 16])
    requires
        i + 16 <= b@.len(),
    ensures
        a@ == b@.subrange(i as int, i + 16),
{
    let a = [
        b[i],
        b[i + 1],
        b[i + 2],
        b[i + 3],
        b[i + 4],
        b[i + 5],
        b[i + 6],
        b[i + 7],
        b[i + 8],
        b[i + 9],
        b[i + 10],
        b[i + 11],
        b[i + 12],
        b[i + 13],
        b[i + 14],
        b[i + 15],
    ];
    assert(a@ =~= b@.subrange(i as int, i + 16));
    a
}

impl Ipv6Packet {
    /// Encodes a packet without extension headers.
    pub fn create(
        source: [u8; 16],
        destination: [u8; 16],
        protocol: ProtocolNumber,
        hop_limit: u8,
        payload: &[u8],
    ) -> (out: Vec<u8>)
        ensures
            out@ == ipv6_bytes(
                Ipv6Fields {
                    source: source@,
                    destination: destination@,
                    next_header: protocol.code(),
                    hop_limit,
                    payload: payload@,
                },
            ),
    {
        let mut out: Vec<u8> = Vec::new();
        out.push(0x60);
        out.push(0);
        out.push(0);
        out.push(0);
        put_be16(&mut out, (payload.len() % 0x1_0000) as u16);
        out.push(protocol.number());
        out.push(hop_limit);
        put_slice(&mut out, source.as_slice());
        put_slice(&mut out, destination.as_slice());
        put_slice(&mut out, payload);
        proof {
            let p = Ipv6Fields {
                source: source@,
                destination: destination@,
                next_header: protocol.code(),
                hop_limit,
                payload: payload@,
            };
            assert(out@ =~= ipv6_bytes(p));
        }
        out
    }

    /// Decodes the packet at the front of a buffer.
    pub fn parse(b: &[u8]) -> (r: IpParseError<Ipv6Packet>)
        ensures
            r@ == ipv6_parse(b@),
    {
        if b.len() < 40 {
            return IpParseError::NotEnough;
        }
        if b[0] / 16 != 6 {
            return IpParseError::Invalid;
        }
        let end: usize = 40 + get_be16(b, 4) as usize;
        if b.len() < end {
            return IpParseError::NotEnough;
        }
        IpParseError::Whole {
            packet: Ipv6Packet {
                source: get_v6_address(b, 8),
                destination: get_v6_address(b, 24),
                next_header: b[6],
                hop_limit: b[7],
                payload: copy_range(b, 40, end),
            },
            bytes_consumed: end,
        }
    }
}

} // verus!
