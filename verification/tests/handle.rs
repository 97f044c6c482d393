use jktcp::adapter::Adapter;
use jktcp::endpoint::{
    poll_flush, request_outcome, socket_outcome, write_outcome, FlushPoll, Received, Reply,
    StreamReader, WriteReply,
};
use jktcp::error::ErrorKind;
use jktcp::flush::FlushStep;
use jktcp::handle::{Hub, Outcome};
use jktcp::packets::{
    IpAddr, IpParseError, Ipv4Packet, ProtocolNumber, TcpFlags, TcpPacket, UdpDatagram,
};

const A: IpAddr = IpAddr::V4([10, 0, 0, 1]);
const B: IpAddr = IpAddr::V4([10, 0, 0, 2]);

fn from_peer(port: u16, seq: u32, flags: TcpFlags, payload: &[u8]) -> Vec<u8> {
    TcpPacket::create(B, A, 80, port, seq, 0, flags, 65534, payload)
}

fn open(hub: &mut Hub, adapter: &mut Adapter, port: u16) {
    assert!(adapter.open(port, 80, 500));
    let syn_ack = TcpFlags { syn: true, ack: true, ..Default::default() };
    adapter.process_tcp_packet_from_payload(&from_peer(port, 0, syn_ack, &[])).unwrap();
    hub.stream_opened(port);
}

fn send(adapter: &mut Adapter, port: u16, seq: u32, flags: TcpFlags, payload: &[u8]) {
    adapter.process_tcp_packet_from_payload(&from_peer(port, seq, flags, payload)).unwrap();
}

fn fin_port(bytes: &[u8]) -> u16 {
    match Adapter::try_parse_v4(bytes) {
        IpParseError::Whole { packet, .. } => {
            let tcp = TcpPacket::parse(&packet.payload).unwrap();
            assert!(tcp.flags.fin && tcp.flags.ack);
            tcp.source_port
        }
        _ => panic!("not a packet"),
    }
}

fn psh() -> TcpFlags {
    TcpFlags { psh: true, ack: true, ..Default::default() }
}

#[test]
fn each_stream_gets_its_own_bytes() {
    let mut hub = Hub::new();
    let mut adapter = Adapter::new(A, B);
    for port in [1, 2, 3] {
        open(&mut hub, &mut adapter, port);
    }
    send(&mut adapter, 1, 1, psh(), b"one");
    send(&mut adapter, 3, 1, psh(), b"three");
    let got = hub.collect(&mut adapter);
    assert_eq!(got.len(), 2);
    assert_eq!(got[0].port, 1);
    assert_eq!(got[0].result.as_ref().unwrap(), b"one");
    assert_eq!(got[1].port, 3);
    assert_eq!(got[1].result.as_ref().unwrap(), b"three");
    assert!(hub.collect(&mut adapter).is_empty());
}

#[test]
fn a_stream_that_nobody_reads_is_closed() {
    let mut hub = Hub::new();
    let mut adapter = Adapter::new(A, B);
    open(&mut hub, &mut adapter, 1);
    open(&mut hub, &mut adapter, 2);
    let outcomes = vec![
        Outcome { port: 1, gone: false, accepted: false },
        Outcome { port: 2, gone: false, accepted: true },
    ];
    let r = hub.settle(&mut adapter, &outcomes);
    assert_eq!(r.dead_fins.len(), 1);
    assert_eq!(fin_port(&r.dead_fins[0]), 1);
    assert!(r.ended.is_empty() && r.ended_fins.is_empty() && r.datagrams.is_empty());
    assert!(!adapter.contains(1) && adapter.contains(2));
}

#[test]
fn a_stream_without_a_connection_is_told_and_forgotten() {
    let mut hub = Hub::new();
    let mut adapter = Adapter::new(A, B);
    open(&mut hub, &mut adapter, 1);
    adapter.close(1).unwrap();
    let got = hub.collect(&mut adapter);
    assert_eq!(got.len(), 1);
    assert_eq!(got[0].result.as_ref().unwrap_err().kind, ErrorKind::NotConnected);
    let r = hub.settle(&mut adapter, &vec![Outcome { port: 1, gone: true, accepted: true }]);
    assert!(r.dead_fins.is_empty());
    assert!(hub.collect(&mut adapter).is_empty());
}

#[test]
fn bytes_come_before_the_error() {
    let mut hub = Hub::new();
    let mut adapter = Adapter::new(A, B);
    for port in [1, 2, 3] {
        open(&mut hub, &mut adapter, port);
    }
    send(&mut adapter, 1, 1, TcpFlags { fin: true, ack: true, ..Default::default() }, b"last");
    send(&mut adapter, 2, 1, psh(), b"kept");
    send(&mut adapter, 2, 5, TcpFlags { rst: true, ..Default::default() }, &[]);
    let got = hub.collect(&mut adapter);
    assert_eq!(got[0].result.as_ref().unwrap(), b"last");
    assert_eq!(got[1].result.as_ref().unwrap(), b"kept");
    let outcomes = vec![
        Outcome { port: 1, gone: false, accepted: true },
        Outcome { port: 2, gone: false, accepted: true },
    ];
    let r = hub.settle(&mut adapter, &outcomes);
    assert_eq!(r.ended, vec![(1, None), (2, Some(ErrorKind::ConnectionReset))]);
    let fins: Vec<u16> = r.ended_fins.iter().map(|p| fin_port(p)).collect();
    assert_eq!(fins, vec![1, 2]);
    assert_eq!(adapter.host_ports(), vec![3]);
}

#[test]
fn a_silent_peer_is_told_without_a_packet() {
    let mut hub = Hub::new();
    let mut adapter = Adapter::new(A, B);
    open(&mut hub, &mut adapter, 1);
    adapter.write(b"x", 1).unwrap();
    let mut now = 0;
    for _ in 0..7 {
        let mut job = adapter.write_buffer_flush();
        loop {
            match adapter.flush_step(&mut job, now) {
                FlushStep::Write(_) => assert!(adapter.flush_written(&mut job, true, now)),
                FlushStep::Skip => {}
                FlushStep::Done => break,
            }
        }
        now += 6_400_000_000;
    }
    assert!(hub.collect(&mut adapter).is_empty());
    let r = hub.settle(&mut adapter, &vec![]);
    assert_eq!(r.ended, vec![(1, Some(ErrorKind::TimedOut))]);
    assert!(!adapter.contains(1));
}

#[test]
fn a_failed_transport_closes_everything() {
    let mut hub = Hub::new();
    let mut adapter = Adapter::new(A, B);
    open(&mut hub, &mut adapter, 8);
    open(&mut hub, &mut adapter, 4);
    hub.stream_opened(8);
    let (ports, packets) = hub.transport_failed(&mut adapter);
    assert_eq!(ports, vec![8, 4]);
    let fins: Vec<u16> = packets.iter().map(|p| fin_port(p)).collect();
    assert_eq!(fins, vec![8, 4]);
    assert!(adapter.host_ports().is_empty());
    assert!(hub.transport_failed(&mut adapter).0.is_empty());
}

#[test]
fn closing_a_stream_sends_its_fin() {
    let mut hub = Hub::new();
    let mut adapter = Adapter::new(A, B);
    open(&mut hub, &mut adapter, 8);
    assert_eq!(fin_port(&hub.stream_closed(&mut adapter, 8).unwrap()), 8);
    assert!(hub.stream_closed(&mut adapter, 8).is_none());
    assert!(hub.collect(&mut adapter).is_empty());
}

#[test]
fn datagrams_go_to_their_socket() {
    let mut hub = Hub::new();
    let mut adapter = Adapter::new(A, B);
    let arrive = |adapter: &mut Adapter, port: u16, data: &[u8]| {
        let udp = UdpDatagram::create(B, A, 53, port, data);
        let ip = Ipv4Packet::create([10, 0, 0, 2], [10, 0, 0, 1], ProtocolNumber::Udp, 64, &udp);
        match Adapter::try_parse_v4(&ip) {
            IpParseError::Whole { packet, .. } => {
                assert!(adapter.process_frame(&packet).unwrap().is_none());
            }
            _ => panic!("not a packet"),
        }
    };
    for port in [70, 71] {
        assert_eq!(adapter.bind_udp(port), Some(port));
    }
    arrive(&mut adapter, 70, b"waits");
    assert!(hub.settle(&mut adapter, &vec![]).datagrams.is_empty());
    hub.socket_bound(70);
    arrive(&mut adapter, 71, b"no channel");
    arrive(&mut adapter, 70, b"more");
    let got = hub.settle(&mut adapter, &vec![]).datagrams;
    assert_eq!(got.len(), 2);
    assert_eq!(got[0].payload, b"waits");
    assert_eq!(got[1].payload, b"more");
    hub.socket_dropped(&mut adapter, 70);
    arrive(&mut adapter, 70, b"gone");
    assert!(adapter.udp_drain().is_empty());
}

#[test]
fn reads_are_served_in_order() {
    let mut reader = StreamReader::new();
    assert!(reader.serve(10).is_none());
    match reader.accept::<ErrorKind>(Some(Ok(b"abcdef".to_vec())), 2) {
        Received::Data(d) => assert_eq!(d, b"ab"),
        _ => panic!("bytes came"),
    }
    assert_eq!(reader.serve(3).unwrap(), b"cde");
    assert_eq!(reader.serve(3).unwrap(), b"f");
    assert!(reader.serve(3).is_none());
    match reader.accept(Some(Err(ErrorKind::TimedOut)), 2) {
        Received::Failed(k) => assert_eq!(k, ErrorKind::TimedOut),
        _ => panic!("an error came"),
    }
    match reader.accept::<ErrorKind>(None, 2) {
        Received::Closed(e) => {
            assert_eq!(e.kind, ErrorKind::BrokenPipe);
            assert_eq!(e.message, "channel closed");
        }
        _ => panic!("the channel is closed"),
    }
}

#[test]
fn writes_and_flushes_report_their_fate() {
    assert_eq!(write_outcome(true, 5).unwrap(), 5);
    assert_eq!(write_outcome(false, 5).unwrap_err().kind, ErrorKind::BrokenPipe);
    assert!(matches!(poll_flush::<u8>(WriteReply::Written), FlushPoll::Again));
    assert!(matches!(poll_flush(WriteReply::Failed(3u8)), FlushPoll::Failed(3)));
    assert!(matches!(poll_flush::<u8>(WriteReply::NoneLeft), FlushPoll::Ready));
    assert!(matches!(poll_flush::<u8>(WriteReply::Waiting), FlushPoll::Pending));
    match poll_flush::<u8>(WriteReply::Dropped) {
        FlushPoll::Broken(e) => assert_eq!(e.message, "channel closed"),
        _ => panic!("the task is gone"),
    }
}

#[test]
fn requests_report_their_fate() {
    assert_eq!(request_outcome(Reply::Answered(7)).unwrap(), 7);
    let kind = |r: Reply<u8>| request_outcome(r).unwrap_err();
    assert_eq!(kind(Reply::Refused).kind, ErrorKind::NetworkUnreachable);
    assert_eq!(kind(Reply::Refused).message, "adapter closed");
    assert_eq!(kind(Reply::Dropped).kind, ErrorKind::BrokenPipe);
    assert_eq!(kind(Reply::Dropped).message, "adapter closed");
    assert_eq!(kind(Reply::TimedOut).kind, ErrorKind::TimedOut);
    assert_eq!(kind(Reply::TimedOut).message, "channel recv timeout");
    assert_eq!(socket_outcome(Some(1)).unwrap(), 1);
    assert_eq!(socket_outcome::<u8>(None).unwrap_err().kind, ErrorKind::BrokenPipe);
}
