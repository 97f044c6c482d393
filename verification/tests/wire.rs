use jktcp::adapter::Adapter;
use jktcp::checksum::checksum;
use jktcp::connection::UnackedSegment;
use jktcp::packets::{
    IpAddr, IpParseError, Ipv4Packet, Ipv6Packet, ProtocolNumber, TcpFlags, TcpPacket, UdpDatagram,
};
use jktcp::pcap::{file_header, log_packet};
use jktcp::sequence::{seq_add, seq_lt, seq_lte};

#[test]
fn sequence_numbers_are_ordered_around_the_wrap() {
    assert!(seq_lt(1, 2));
    assert!(!seq_lt(2, 1));
    assert!(!seq_lt(5, 5));
    assert!(seq_lte(5, 5));
    assert!(seq_lt(u32::MAX, 0));
    assert!(!seq_lt(0, u32::MAX));
    assert!(seq_lt(0, 0x7fff_ffff));
    assert!(!seq_lt(0, 0x8000_0000));
    assert!(!seq_lt(0x8000_0000, 0));
    assert!(!seq_lte(0, 0x8000_0000));
    assert!(seq_lte(u32::MAX, 3));
    assert_eq!(seq_add(u32::MAX, 3), 2);
    assert_eq!(seq_add(7, 0), 7);
    for k in [0usize, 1, 77, 0xffff_ffff] {
        assert!(seq_lt(seq_add(10, k), seq_add(20, k)));
    }
}

#[test]
fn timeouts_double() {
    let rto = |retries| UnackedSegment::new(0, vec![], 0, retries).rto();
    let table: Vec<u64> = (0..6).map(rto).collect();
    assert_eq!(table, vec![200, 400, 800, 1600, 3200, 6400]);
    assert_eq!((rto(6), rto(7), rto(u32::MAX)), (6400, 6400, 6400));
    let seg = UnackedSegment::new(0, vec![], 1_000, 1);
    assert!(!seg.is_timed_out(400_000_999));
    assert!(seg.is_timed_out(400_001_000));
    assert!(!seg.is_timed_out(0));
}

#[test]
fn checksum_of_a_known_header() {
    let mut header = [
        0x45, 0x00, 0x00, 0x73, 0x00, 0x00, 0x40, 0x00, 0x40, 0x11, 0x00, 0x00, 0xc0, 0xa8, 0x00,
        0x01, 0xc0, 0xa8, 0x00, 0xc7,
    ];
    assert_eq!(checksum(&header), 0xb861);
    header[10] = 0xb8;
    header[11] = 0x61;
    assert_eq!(checksum(&header), 0);
    assert_eq!(checksum(&[]), 0xffff);
    assert_eq!(checksum(&[0x12]), 0xedff);
}

#[test]
fn a_syn_over_ipv4_byte_by_byte() {
    let a = [10, 0, 0, 1];
    let b = [10, 0, 0, 2];
    let syn = TcpFlags { syn: true, ..Default::default() };
    let tcp =
        TcpPacket::create(IpAddr::V4(a), IpAddr::V4(b), 0x1234, 80, 0x01020304, 0, syn, 65534, &[]);
    assert_eq!(
        tcp[..16],
        [0x12, 0x34, 0, 80, 1, 2, 3, 4, 0, 0, 0, 0, 0x50, 0x02, 0xff, 0xfe]
    );
    assert_eq!(tcp[18..], [0, 0]);
    let mut covered = vec![10, 0, 0, 1, 10, 0, 0, 2, 0, 6, 0, 20];
    covered.extend_from_slice(&tcp);
    assert_eq!(checksum(&covered), 0);
    let ip = Ipv4Packet::create(a, b, ProtocolNumber::Tcp, 255, &tcp);
    assert_eq!(ip[..10], [0x45, 0, 0, 40, 0, 0, 0, 0, 255, 6]);
    assert_eq!(ip[12..20], [10, 0, 0, 1, 10, 0, 0, 2]);
    assert_eq!(checksum(&ip[..20]), 0);
    assert_eq!(ip[20..], tcp[..]);
}

#[test]
fn an_ipv6_packet_byte_by_byte() {
    let ip = Ipv6Packet::create([1; 16], [2; 16], ProtocolNumber::Udp, 64, &[9, 8, 7]);
    assert_eq!(ip[..8], [0x60, 0, 0, 0, 0, 3, 17, 64]);
    assert_eq!(ip[8..24], [1; 16]);
    assert_eq!(ip[24..40], [2; 16]);
    assert_eq!(ip[40..], [9, 8, 7]);
}

#[test]
fn segments_are_read_back() {
    let a = IpAddr::V6([3; 16]);
    let b = IpAddr::V6([4; 16]);
    for code in 0..64u32 {
        let flags = TcpFlags {
            fin: code & 1 != 0,
            syn: code & 2 != 0,
            rst: code & 4 != 0,
            psh: code & 8 != 0,
            ack: code & 16 != 0,
            urg: code & 32 != 0,
        };
        let bytes = TcpPacket::create(a, b, 1, 65535, u32::MAX, 0x8000_0001, flags, 513, b"payload");
        assert_eq!(bytes[13] as u32, code);
        let p = TcpPacket::parse(&bytes).unwrap();
        assert_eq!(p.source_port, 1);
        assert_eq!(p.destination_port, 65535);
        assert_eq!(p.sequence_number, u32::MAX);
        assert_eq!(p.acknowledgment_number, 0x8000_0001);
        assert_eq!(p.flags, flags);
        assert_eq!(p.window_size, 513);
        assert_eq!(p.payload, b"payload");
    }
}

#[test]
fn tcp_options_are_skipped() {
    let a = IpAddr::V4([1, 1, 1, 1]);
    let mut bytes = TcpPacket::create(a, a, 1, 2, 3, 4, Default::default(), 5, b"xyzwdata");
    bytes[12] = 0x60;
    assert_eq!(TcpPacket::parse(&bytes).unwrap().payload, b"data");
    bytes[12] = 0x40;
    assert!(TcpPacket::parse(&bytes).is_err());
    bytes[12] = 0xf0;
    assert!(TcpPacket::parse(&bytes).is_err());
}

#[test]
fn ipv4_packets_are_framed() {
    let whole = Ipv4Packet::create([1; 4], [2; 4], ProtocolNumber::Tcp, 255, b"body");
    for n in 0..whole.len() {
        assert!(matches!(Adapter::try_parse_v4(&whole[..n]), IpParseError::NotEnough));
    }
    let mut more = whole.clone();
    more.extend_from_slice(b"next");
    match Adapter::try_parse_v4(&more) {
        IpParseError::Whole { packet, bytes_consumed } => {
            assert_eq!(bytes_consumed, 24);
            assert_eq!(packet.protocol, 6);
            assert_eq!(packet.payload, b"body");
        }
        _ => panic!("a packet is there"),
    }
    let p = Ipv4Packet::parse(&more).unwrap();
    assert_eq!((p.source, p.destination, p.ttl), ([1; 4], [2; 4], 255));
    // Options are skipped.
    let mut options = whole.clone();
    options[0] = 0x46;
    match Adapter::try_parse_v4(&options) {
        IpParseError::Whole { packet, .. } => assert!(packet.payload.is_empty()),
        _ => panic!("a packet is there"),
    }
    // A short header, a short packet, another version.
    let mut bad = whole.clone();
    bad[0] = 0x44;
    assert!(matches!(Adapter::try_parse_v4(&bad), IpParseError::Invalid));
    let mut bad = whole.clone();
    bad[3] = 19;
    assert!(matches!(Adapter::try_parse_v4(&bad), IpParseError::Invalid));
    let mut bad = whole.clone();
    bad[0] = 0x65;
    assert!(matches!(Adapter::try_parse_v4(&bad), IpParseError::Invalid));
    assert!(Ipv4Packet::parse(&bad).is_none());
}

#[test]
fn ipv6_packets_are_framed() {
    let whole = Ipv6Packet::create([1; 16], [2; 16], ProtocolNumber::Tcp, 255, b"body");
    for n in 0..whole.len() {
        assert!(matches!(Ipv6Packet::parse(&whole[..n]), IpParseError::NotEnough));
    }
    let mut more = whole.clone();
    more.extend_from_slice(b"next");
    match Ipv6Packet::parse(&more) {
        IpParseError::Whole { packet, bytes_consumed } => {
            assert_eq!(bytes_consumed, 44);
            assert_eq!(packet.payload, b"body");
        }
        _ => panic!("a packet is there"),
    }
    more[0] = 0x45;
    assert!(matches!(Ipv6Packet::parse(&more), IpParseError::Invalid));
}

#[test]
fn datagrams_are_read_back() {
    let a = IpAddr::V4([9, 9, 9, 9]);
    let bytes = UdpDatagram::create(a, a, 1000, 2000, b"abc");
    assert_eq!(bytes[..6], [0x03, 0xe8, 0x07, 0xd0, 0, 11]);
    let mut covered = vec![9, 9, 9, 9, 9, 9, 9, 9, 0, 17, 0, 11];
    covered.extend_from_slice(&bytes);
    assert_eq!(checksum(&covered), 0);
    let d = UdpDatagram::parse(&bytes).unwrap();
    assert_eq!((d.source_port, d.destination_port), (1000, 2000));
    assert_eq!(d.payload, b"abc");
    assert!(UdpDatagram::parse(&bytes[..7]).is_none());
    assert!(UdpDatagram::parse(&bytes[..10]).is_none());
}

#[test]
fn a_udp_checksum_of_zero_is_sent_as_all_ones() {
    let a = IpAddr::V4([9, 9, 9, 9]);
    let mut ones = 0;
    for payload in 0..=u16::MAX {
        let bytes = UdpDatagram::create(a, a, 1000, 2000, &payload.to_be_bytes());
        assert_ne!(bytes[6..8], [0, 0]);
        let mut covered = vec![9, 9, 9, 9, 9, 9, 9, 9, 0, 17, 0, 10];
        covered.extend_from_slice(&bytes);
        assert_eq!(checksum(&covered), 0);
        if bytes[6..8] == [0xff, 0xff] {
            ones += 1;
        }
    }
    assert_eq!(ones, 1);
}

#[test]
fn packets_with_options_are_framed_from_any_pieces() {
    let mut bytes = vec![0x47, 0, 0, 33, 1, 2, 3, 4, 5, 99, 6, 7];
    bytes.extend_from_slice(&[10, 0, 0, 1, 10, 0, 0, 2]);
    bytes.extend_from_slice(&[0xee; 8]);
    bytes.extend_from_slice(b"odd!!");
    bytes.extend_from_slice(b"next packet");
    for n in 0..=bytes.len() {
        match Adapter::try_parse_v4(&bytes[..n]) {
            IpParseError::Whole { packet, bytes_consumed } => {
                assert!(n >= 33);
                assert_eq!((packet.protocol, bytes_consumed), (99, 33));
                assert_eq!(packet.payload, b"odd!!");
            }
            IpParseError::NotEnough => assert!(n < 33),
            IpParseError::Invalid => panic!("it is a packet"),
        }
    }
    bytes[0] = 0x57;
    for n in 20..=bytes.len() {
        assert!(matches!(Adapter::try_parse_v4(&bytes[..n]), IpParseError::Invalid));
    }
}

#[test]
fn captures_byte_by_byte() {
    assert_eq!(
        file_header(),
        vec![
            0xd4, 0xc3, 0xb2, 0xa1, 2, 0, 4, 0, 0, 0, 0, 0, 0, 0, 0, 0, 0xff, 0xff, 0, 0, 101, 0, 0,
            0,
        ]
    );
    assert_eq!(
        log_packet(1_700_000_000_999_999, &[1, 2, 3]),
        vec![
            0x00, 0xf1, 0x53, 0x65, 0x3f, 0x42, 0x0f, 0x00, 3, 0, 0, 0, 3, 0, 0, 0, 1, 2, 3,
        ]
    );
}
