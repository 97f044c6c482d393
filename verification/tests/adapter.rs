use jktcp::adapter::{Adapter, ConnectStep, Connecting, ReadStep};
use jktcp::connection::{ConnectionStatus, INITIAL_RTO_MS, MAX_RETRIES};
use jktcp::error::ErrorKind;
use jktcp::flush::{Flush, FlushStep};
use jktcp::packets::{
    IpAddr, IpParseError, Ipv6Packet, ProtocolNumber, TcpFlags, TcpPacket, UdpDatagram,
};

const HOST: [u8; 16] = [0xfd, 0, 0, 0, 0, 0, 0, 0, 0, 0, 0, 0, 0, 0, 0, 1];
const PEER: [u8; 16] = [0xfd, 0, 0, 0, 0, 0, 0, 0, 0, 0, 0, 0, 0, 0, 0, 2];
const PEER_PORT: u16 = 80;
/// Peer's initial sequence number
const PEER_ISN: u32 = 5000;
const MS: u64 = 1_000_000;

fn new_adapter() -> Adapter {
    Adapter::new(IpAddr::V6(HOST), IpAddr::V6(PEER))
}

/// Build a raw TCP segment (not IP-wrapped) from PEER to the adapter.
fn tcp_seg(dst_port: u16, seq: u32, ack_num: u32, flags: TcpFlags, payload: &[u8]) -> Vec<u8> {
    TcpPacket::create(
        IpAddr::V6(PEER),
        IpAddr::V6(HOST),
        PEER_PORT,
        dst_port,
        seq,
        ack_num,
        flags,
        u16::MAX - 1,
        payload,
    )
}

fn read_pkt(bytes: &[u8]) -> TcpPacket {
    match Ipv6Packet::parse(bytes) {
        IpParseError::Whole { packet, bytes_consumed } => {
            assert_eq!(bytes_consumed, bytes.len());
            assert_eq!(packet.source, HOST);
            assert_eq!(packet.destination, PEER);
            assert_eq!(packet.next_header, 6);
            assert_eq!(packet.hop_limit, 255);
            TcpPacket::parse(&packet.payload).unwrap()
        }
        _ => panic!("not a valid IPv6 packet from adapter"),
    }
}

/// Runs a flush in which each write succeeds or not as told, and returns the
/// packets that were handed out, and whether it ran to its end.
fn run(adapter: &mut Adapter, mut job: Flush, now: u64, ok: bool) -> (Vec<TcpPacket>, bool) {
    let mut out = Vec::new();
    loop {
        match adapter.flush_step(&mut job, now) {
            FlushStep::Write(bytes) => {
                out.push(read_pkt(&bytes));
                if !adapter.flush_written(&mut job, ok, now) {
                    return (out, false);
                }
            }
            FlushStep::Skip => {}
            FlushStep::Done => return (out, true),
        }
    }
}

fn flush(adapter: &mut Adapter, now: u64) -> Vec<TcpPacket> {
    let job = adapter.write_buffer_flush();
    let (out, whole) = run(adapter, job, now, true);
    assert!(whole);
    out
}

fn ack_flag() -> TcpFlags {
    TcpFlags { ack: true, ..Default::default() }
}

fn psh_flags() -> TcpFlags {
    TcpFlags { psh: true, ack: true, ..Default::default() }
}

/// Returns the host port the adapter chose.
fn handshake(adapter: &mut Adapter) -> u16 {
    let hp = adapter.connect(PEER_PORT).expect("a port is free");
    let syn = read_pkt(&adapter.send_syn(hp).unwrap());
    assert!(syn.flags.syn, "first packet from adapter should be SYN");
    assert!(!syn.flags.ack);
    assert_eq!(syn.source_port, hp);
    assert_eq!(syn.destination_port, PEER_PORT);
    assert_eq!(syn.acknowledgment_number, 0);
    assert_eq!(syn.window_size, u16::MAX - 1);
    let answer = adapter
        .process_tcp_packet_from_payload(&tcp_seg(
            hp,
            PEER_ISN,
            syn.sequence_number.wrapping_add(1),
            TcpFlags { syn: true, ack: true, ..Default::default() },
            &[],
        ))
        .unwrap();
    let ack = read_pkt(&answer.expect("adapter should send ACK to complete handshake"));
    assert!(ack.flags.ack, "adapter should send ACK to complete handshake");
    assert_eq!(ack.acknowledgment_number, PEER_ISN + 1);
    assert_eq!(ack.sequence_number, syn.sequence_number.wrapping_add(1));
    let job = Connecting::new(hp, 0);
    assert!(matches!(adapter.connect_step(&job, 0), ConnectStep::Connected));
    hp
}

fn arrive(adapter: &mut Adapter, seg: &[u8]) -> Option<TcpPacket> {
    adapter.process_tcp_packet_from_payload(seg).unwrap().map(|p| read_pkt(&p))
}

// ---------------------------------------------------------------------------
// Reliability
// ---------------------------------------------------------------------------

/// After the RTO elapses without an ACK, the same segment is retransmitted
/// with the same sequence number.
#[test]
fn retransmit_fires_after_rto() {
    let mut adapter = new_adapter();
    let hp = handshake(&mut adapter);

    adapter.queue_send(b"hello", hp).unwrap();
    let sent = flush(&mut adapter, 0);
    assert_eq!(sent.len(), 1);
    assert_eq!(sent[0].payload, b"hello");
    let original_seq = sent[0].sequence_number;

    let again = flush(&mut adapter, (INITIAL_RTO_MS + 1) * MS);
    assert_eq!(again.len(), 1);
    assert_eq!(again[0].payload, b"hello", "retransmit payload must match original");
    assert_eq!(
        again[0].sequence_number, original_seq,
        "retransmit must reuse the original sequence number"
    );
}

/// Advancing through all retry intervals marks the connection as
/// `Error(TimedOut)` once MAX_RETRIES is exhausted.
#[test]
fn connection_killed_after_max_retries() {
    let mut adapter = new_adapter();
    let hp = handshake(&mut adapter);
    adapter.queue_send(b"data", hp).unwrap();
    let mut now = 0;
    assert_eq!(flush(&mut adapter, now).len(), 1);

    for i in 0..=MAX_RETRIES {
        let rto = INITIAL_RTO_MS << i.min(6);
        now += (rto + 1) * MS;
        let sent = flush(&mut adapter, now);
        if i < MAX_RETRIES {
            assert_eq!(sent.len(), 1);
            assert_eq!(sent[0].payload, b"data");
            assert_eq!(adapter.get_status(hp).unwrap(), ConnectionStatus::Connected);
        } else {
            assert!(sent.is_empty());
        }
    }

    assert_eq!(
        adapter.get_status(hp).unwrap(),
        ConnectionStatus::Error(ErrorKind::TimedOut),
        "connection should be Error(TimedOut) after exhausting retries"
    );
    let read = adapter.recv_step(hp).unwrap_err();
    assert_eq!(read.kind, ErrorKind::TimedOut);
    assert_eq!(read.message, "socket io error");
    let write = adapter.write(b"x", hp).unwrap_err();
    assert_eq!(write.kind, ErrorKind::TimedOut);
    assert_eq!(write.message, "socket error");
}

/// An ACK from the peer clears the unacked queue so new data can be sent.
#[test]
fn ack_clears_unacked_queue() {
    let mut adapter = new_adapter();
    let hp = handshake(&mut adapter);

    adapter.queue_send(b"first", hp).unwrap();
    let psh1 = flush(&mut adapter, 0);
    assert_eq!(psh1[0].payload, b"first");

    adapter.queue_send(b"second", hp).unwrap();
    assert!(
        flush(&mut adapter, 10 * MS).is_empty(),
        "second chunk must not be sent while first is unacked"
    );

    let peer_ack_num = psh1[0].sequence_number.wrapping_add(psh1[0].payload.len() as u32);
    assert!(arrive(&mut adapter, &tcp_seg(hp, PEER_ISN + 1, peer_ack_num, ack_flag(), &[])).is_none());

    let psh2 = flush(&mut adapter, 20 * MS);
    assert_eq!(psh2.len(), 1);
    assert_eq!(psh2[0].payload, b"second");
    assert_eq!(
        psh2[0].sequence_number, peer_ack_num,
        "second segment starts where first left off"
    );
}

#[test]
fn nothing_is_retransmitted_before_its_timeout() {
    let mut adapter = new_adapter();
    let hp = handshake(&mut adapter);
    adapter.queue_send(b"x", hp).unwrap();
    assert_eq!(flush(&mut adapter, 5 * MS).len(), 1);
    assert!(flush(&mut adapter, 205 * MS - 1).is_empty());
    assert_eq!(flush(&mut adapter, 205 * MS).len(), 1);
    assert!(flush(&mut adapter, 605 * MS - 1).is_empty());
    assert_eq!(flush(&mut adapter, 605 * MS).len(), 1);
}

/// With a look at the clock every millisecond a segment goes out at 0, 0.2,
/// 0.6, 1.4, 3 and 6.2 s, and is given up at 12.6 s.
#[test]
fn frequent_looks_keep_to_the_schedule() {
    let mut adapter = new_adapter();
    let hp = handshake(&mut adapter);
    adapter.queue_send(b"tick", hp).unwrap();
    let mut sent_at = Vec::new();
    let mut ended_at = None;
    for ms in 0..13_000 {
        for packet in flush(&mut adapter, ms * MS) {
            assert_eq!(packet.payload, b"tick");
            sent_at.push(ms);
        }
        if ended_at.is_none() && adapter.get_status(hp).unwrap() != ConnectionStatus::Connected {
            ended_at = Some(ms);
        }
    }
    assert_eq!(sent_at, vec![0, 200, 600, 1400, 3000, 6200]);
    assert_eq!(ended_at, Some(12_600));
    assert_eq!(
        adapter.get_status(hp).unwrap(),
        ConnectionStatus::Error(ErrorKind::TimedOut)
    );
}

#[test]
fn an_answering_peer_is_never_given_up() {
    let mut adapter = new_adapter();
    let hp = handshake(&mut adapter);
    let mut now = 0;
    for round in 0..20u8 {
        adapter.queue_send(&[round], hp).unwrap();
        let seq = flush(&mut adapter, now)[0].sequence_number;
        for retry in 0..MAX_RETRIES {
            now += (INITIAL_RTO_MS << retry) * MS;
            assert_eq!(flush(&mut adapter, now)[0].payload, [round]);
        }
        arrive(&mut adapter, &tcp_seg(hp, PEER_ISN + 1, seq.wrapping_add(1), ack_flag(), &[]));
        now += 60_000 * MS;
        assert_eq!(adapter.get_status(hp).unwrap(), ConnectionStatus::Connected);
    }
}

#[test]
fn a_flush_retransmits_then_sends_then_closes() {
    let mut adapter = new_adapter();
    let overdue = handshake(&mut adapter);
    adapter.queue_send(b"again", overdue).unwrap();
    flush(&mut adapter, 0);
    let fresh = handshake(&mut adapter);
    adapter.queue_send(b"new", fresh).unwrap();
    let dropped = handshake(&mut adapter);
    adapter.connection_drop(dropped);
    let sent = flush(&mut adapter, 200 * MS);
    let ports: Vec<u16> = sent.iter().map(|p| p.source_port).collect();
    assert_eq!(ports, vec![overdue, fresh, dropped]);
    assert_eq!(sent[0].payload, b"again");
    assert_eq!(sent[1].payload, b"new");
    assert!(sent[2].flags.fin);
}

#[test]
fn partial_ack_keeps_the_segment() {
    let mut adapter = new_adapter();
    let hp = handshake(&mut adapter);
    adapter.queue_send(b"hello", hp).unwrap();
    let seq = flush(&mut adapter, 0)[0].sequence_number;
    arrive(&mut adapter, &tcp_seg(hp, PEER_ISN + 1, seq.wrapping_add(4), ack_flag(), &[]));
    assert_eq!(flush(&mut adapter, 200 * MS)[0].payload, b"hello");
    arrive(&mut adapter, &tcp_seg(hp, PEER_ISN + 1, seq.wrapping_add(5), ack_flag(), &[]));
    assert!(flush(&mut adapter, 2_000 * MS).is_empty());
}

#[test]
fn data_is_cut_into_segments() {
    let mut adapter = new_adapter();
    adapter.set_mss(4);
    assert_eq!(adapter.mss(), 4);
    let hp = handshake(&mut adapter);
    adapter.queue_send(b"abcdefghij", hp).unwrap();
    let mut got = Vec::new();
    let mut next = None;
    for expected in [&b"abcd"[..], &b"efgh"[..], &b"ij"[..]] {
        let sent = flush(&mut adapter, 0);
        assert_eq!(sent.len(), 1);
        assert_eq!(sent[0].payload, expected);
        if let Some(seq) = next {
            assert_eq!(sent[0].sequence_number, seq);
        }
        got.extend_from_slice(&sent[0].payload);
        let end = sent[0].sequence_number.wrapping_add(expected.len() as u32);
        next = Some(end);
        arrive(&mut adapter, &tcp_seg(hp, PEER_ISN + 1, end, ack_flag(), &[]));
    }
    assert_eq!(got, b"abcdefghij");
    assert!(flush(&mut adapter, 0).is_empty());
}

#[test]
fn the_default_segment_size_is_1220() {
    let mut adapter = new_adapter();
    let hp = handshake(&mut adapter);
    adapter.queue_send(&[7u8; 3000], hp).unwrap();
    assert_eq!(flush(&mut adapter, 0)[0].payload.len(), 1220);
}

#[test]
fn a_chunk_that_cannot_be_written_is_sent_again() {
    let mut adapter = new_adapter();
    let hp = handshake(&mut adapter);
    adapter.queue_send(b"kept", hp).unwrap();
    let job = adapter.write_buffer_flush();
    let (out, whole) = run(&mut adapter, job, 0, false);
    assert_eq!(out.len(), 1);
    assert!(whole);
    adapter.queue_send(b" and more", hp).unwrap();
    let sent = flush(&mut adapter, MS);
    assert_eq!(sent.len(), 1);
    assert_eq!(sent[0].payload, b"kept and more");
    assert_eq!(sent[0].sequence_number, out[0].sequence_number);
}

#[test]
fn a_retransmission_that_cannot_be_written_ends_the_flush() {
    let mut adapter = new_adapter();
    let hp = handshake(&mut adapter);
    adapter.queue_send(b"x", hp).unwrap();
    flush(&mut adapter, 0);
    let job = adapter.check_retransmissions();
    let (out, whole) = run(&mut adapter, job, 200 * MS, false);
    assert_eq!(out.len(), 1);
    assert!(!whole);
    // The attempt counts: the next one comes after twice the time.
    assert!(flush(&mut adapter, 500 * MS).is_empty());
    assert_eq!(flush(&mut adapter, 600 * MS).len(), 1);
}

#[test]
fn check_retransmissions_sends_no_new_data() {
    let mut adapter = new_adapter();
    let hp = handshake(&mut adapter);
    adapter.queue_send(b"x", hp).unwrap();
    adapter.connection_drop(hp);
    let job = adapter.check_retransmissions();
    assert!(run(&mut adapter, job, 0, true).0.is_empty());
    assert!(adapter.contains(hp));
}

#[test]
fn dropped_connections_are_closed_by_a_flush() {
    let mut adapter = new_adapter();
    let hp = handshake(&mut adapter);
    adapter.queue_send(b"bye", hp).unwrap();
    adapter.connection_drop(hp);
    adapter.connection_drop(hp);
    let sent = flush(&mut adapter, 0);
    assert_eq!(sent.len(), 2);
    assert_eq!(sent[0].payload, b"bye");
    assert!(sent[1].flags.fin && sent[1].flags.ack);
    assert_eq!(sent[1].sequence_number, sent[0].sequence_number.wrapping_add(3));
    assert!(!adapter.contains(hp));
    assert!(flush(&mut adapter, 0).is_empty());
}

#[test]
fn an_ended_connection_drops_what_is_queued() {
    let mut adapter = new_adapter();
    adapter.set_mss(2);
    let hp = handshake(&mut adapter);
    arrive(&mut adapter, &tcp_seg(hp, 0, 0, TcpFlags { rst: true, ..Default::default() }, &[]));
    adapter.queue_send(b"abc", hp).unwrap();
    assert!(flush(&mut adapter, 0).is_empty());
    assert!(flush(&mut adapter, 0).is_empty());
    assert_eq!(adapter.psh(b"x", hp).unwrap_err().kind, ErrorKind::ConnectionReset);
}

#[test]
fn many_connections_are_flushed_together() {
    let mut adapter = new_adapter();
    let ports: Vec<u16> = (0..20).map(|_| handshake(&mut adapter)).collect();
    let mut sorted = ports.clone();
    sorted.sort();
    sorted.dedup();
    assert_eq!(sorted.len(), 20);
    let mut listed = adapter.host_ports();
    listed.sort();
    assert_eq!(listed, sorted);
    for &hp in &ports {
        adapter.queue_send(&hp.to_be_bytes(), hp).unwrap();
    }
    let mut sent = flush(&mut adapter, 0);
    sent.sort_by_key(|p| p.source_port);
    assert_eq!(sent.len(), 20);
    for (p, hp) in sent.iter().zip(sorted) {
        assert_eq!(p.source_port, hp);
        assert_eq!(p.payload, hp.to_be_bytes());
    }
}

// ---------------------------------------------------------------------------
// Delivery
// ---------------------------------------------------------------------------

#[test]
fn out_of_order_packet_dropped() {
    let mut adapter = new_adapter();
    let hp = handshake(&mut adapter);

    // After handshake the adapter expects seq = PEER_ISN + 1 from the peer.
    // Send seq = PEER_ISN + 100
    let answer = arrive(&mut adapter, &tcp_seg(hp, PEER_ISN + 100, 0, psh_flags(), b"ooo"));

    let buffered = adapter.uncache_all(hp).unwrap();
    assert!(buffered.is_empty(), "out-of-order data must not be buffered");
    assert!(answer.is_none(), "out-of-order packet must not trigger an ACK");
}

/// A duplicate segment (seq < expected, already received) is re-ACKed but
/// its payload is not buffered a second time.
#[test]
fn duplicate_packet_reacked_not_buffered() {
    let mut adapter = new_adapter();
    let hp = handshake(&mut adapter);

    let data_seq = PEER_ISN + 1;
    let ack1 = arrive(&mut adapter, &tcp_seg(hp, data_seq, 0, psh_flags(), b"hi")).unwrap();
    assert!(ack1.flags.ack);
    assert_eq!(
        ack1.acknowledgment_number,
        data_seq.wrapping_add(2),
        "ACK should cover both bytes"
    );

    let first_read = adapter.uncache_all(hp).unwrap();
    assert_eq!(first_read, b"hi");

    let ack2 = arrive(&mut adapter, &tcp_seg(hp, data_seq, 0, psh_flags(), b"hi")).unwrap();
    assert!(ack2.flags.ack);
    assert_eq!(
        ack2.acknowledgment_number, ack1.acknowledgment_number,
        "re-ACK must use same ack number as original"
    );

    let second_read = adapter.uncache_all(hp).unwrap();
    assert!(second_read.is_empty(), "duplicate payload must not be re-buffered");
}

#[test]
fn segments_in_any_order_give_the_stream() {
    let mut adapter = new_adapter();
    let hp = handshake(&mut adapter);
    let stream = b"the quick brown fox";
    let pieces = [(4usize, 10usize), (0, 4), (10, 16), (0, 4), (4, 10), (10, 16), (4, 10), (16, 19)];
    for (from, to) in pieces {
        let seq = (PEER_ISN + 1).wrapping_add(from as u32);
        arrive(&mut adapter, &tcp_seg(hp, seq, 0, psh_flags(), &stream[from..to]));
    }
    assert_eq!(adapter.uncache(7, hp).unwrap(), &stream[..7]);
    assert_eq!(adapter.uncache(100, hp).unwrap(), &stream[7..]);
    assert!(adapter.uncache(1, hp).unwrap().is_empty());
}

#[test]
fn sequence_numbers_wrap() {
    let mut adapter = new_adapter();
    assert!(adapter.open(1000, PEER_PORT, u32::MAX));
    assert!(!adapter.open(1000, PEER_PORT, 7));
    let syn_ack = TcpFlags { syn: true, ack: true, ..Default::default() };
    let ack = arrive(&mut adapter, &tcp_seg(1000, u32::MAX - 2, 0, syn_ack, &[])).unwrap();
    assert_eq!(ack.sequence_number, 0);
    assert_eq!(ack.acknowledgment_number, u32::MAX - 1);
    let ack = arrive(&mut adapter, &tcp_seg(1000, u32::MAX - 1, 0, psh_flags(), b"abcd")).unwrap();
    assert_eq!(ack.acknowledgment_number, 2);
    let ack = arrive(&mut adapter, &tcp_seg(1000, u32::MAX - 1, 0, psh_flags(), b"abcd")).unwrap();
    assert_eq!(ack.acknowledgment_number, 2);
    assert_eq!(adapter.uncache_all(1000).unwrap(), b"abcd");
}

#[test]
fn fin_ends_the_connection_after_its_data() {
    let mut adapter = new_adapter();
    let hp = handshake(&mut adapter);
    let fin = TcpFlags { fin: true, ack: true, ..Default::default() };
    let ack = arrive(&mut adapter, &tcp_seg(hp, PEER_ISN + 1, 0, fin, b"end")).unwrap();
    assert_eq!(ack.acknowledgment_number, PEER_ISN + 5);
    assert_eq!(
        adapter.get_status(hp).unwrap(),
        ConnectionStatus::Error(ErrorKind::UnexpectedEof)
    );
    assert_eq!(adapter.recv_step(hp).unwrap().unwrap(), b"end");
    let e = adapter.recv_step(hp).unwrap_err();
    assert_eq!(e.kind, ErrorKind::UnexpectedEof);
    // Nothing counts any more.
    assert!(arrive(&mut adapter, &tcp_seg(hp, PEER_ISN + 5, 0, psh_flags(), b"more")).is_none());
    assert!(adapter.uncache_all(hp).unwrap().is_empty());
}

#[test]
fn fin_without_data_takes_one_number() {
    let mut adapter = new_adapter();
    let hp = handshake(&mut adapter);
    let fin = TcpFlags { fin: true, ack: true, ..Default::default() };
    let ack = arrive(&mut adapter, &tcp_seg(hp, PEER_ISN + 1, 0, fin, &[])).unwrap();
    assert_eq!(ack.acknowledgment_number, PEER_ISN + 2);
}

#[test]
fn out_of_order_fin_is_dropped() {
    let mut adapter = new_adapter();
    let hp = handshake(&mut adapter);
    let fin = TcpFlags { fin: true, ack: true, ..Default::default() };
    assert!(arrive(&mut adapter, &tcp_seg(hp, PEER_ISN + 50, 0, fin, b"late")).is_none());
    assert!(arrive(&mut adapter, &tcp_seg(hp, PEER_ISN + 50, 0, fin, &[])).is_none());
    assert_eq!(adapter.get_status(hp).unwrap(), ConnectionStatus::Connected);
    let ack = arrive(&mut adapter, &tcp_seg(hp, PEER_ISN + 1, 0, psh_flags(), b"a")).unwrap();
    assert_eq!(ack.acknowledgment_number, PEER_ISN + 2);
}

#[test]
fn keep_alive_is_answered() {
    let mut adapter = new_adapter();
    let hp = handshake(&mut adapter);
    let ack = arrive(&mut adapter, &tcp_seg(hp, PEER_ISN, 0, ack_flag(), &[])).unwrap();
    assert_eq!(ack.acknowledgment_number, PEER_ISN + 1);
    assert!(arrive(&mut adapter, &tcp_seg(hp, PEER_ISN + 1, 0, ack_flag(), &[])).is_none());
    assert!(arrive(&mut adapter, &tcp_seg(hp, PEER_ISN - 1, 0, ack_flag(), &[])).is_none());
}

#[test]
fn reset_ends_the_connection() {
    let mut adapter = new_adapter();
    let hp = handshake(&mut adapter);
    arrive(&mut adapter, &tcp_seg(hp, PEER_ISN + 1, 0, psh_flags(), b"kept"));
    let rst = TcpFlags { rst: true, ..Default::default() };
    assert!(arrive(&mut adapter, &tcp_seg(hp, 0, 0, rst, &[])).is_none());
    assert_eq!(
        adapter.get_status(hp).unwrap(),
        ConnectionStatus::Error(ErrorKind::ConnectionReset)
    );
    assert_eq!(adapter.recv_step(hp).unwrap().unwrap(), b"kept");
    assert_eq!(adapter.recv_step(hp).unwrap_err().kind, ErrorKind::ConnectionReset);
}

#[test]
fn segments_for_other_ports_are_ignored() {
    let mut adapter = new_adapter();
    let hp = handshake(&mut adapter);
    assert!(arrive(&mut adapter, &tcp_seg(hp ^ 1, PEER_ISN + 1, 0, psh_flags(), b"no")).is_none());
    assert!(adapter.recv_step(hp).unwrap().is_none());
}

#[test]
fn short_segments_are_refused() {
    let mut adapter = new_adapter();
    let e = adapter.process_tcp_packet_from_payload(&[0; 19]).unwrap_err();
    assert_eq!(e.kind, ErrorKind::InvalidData);
    assert_eq!(e.message, "invalid TCP segment");
}

// ---------------------------------------------------------------------------
// Connecting and closing
// ---------------------------------------------------------------------------

#[test]
fn the_syn_is_repeated_and_given_up() {
    let mut adapter = new_adapter();
    assert!(adapter.open(4000, PEER_PORT, 77));
    let first = adapter.send_syn(4000).unwrap();
    let mut job = Connecting::new(4000, 0);
    for due in [200, 600, 1400, 3000, 6200] {
        assert!(matches!(adapter.connect_step(&job, due * MS - 1), ConnectStep::Wait));
        match adapter.connect_step(&job, due * MS) {
            ConnectStep::SendSyn(bytes) => {
                assert_eq!(bytes, first);
                let syn = read_pkt(&bytes);
                assert!(syn.flags.syn);
                assert_eq!(syn.sequence_number, 77);
            }
            _ => panic!("the SYN is due"),
        }
        job.syn_repeated(due * MS);
    }
    assert_eq!(job.retries, 5);
    assert!(matches!(adapter.connect_step(&job, 10_000 * MS), ConnectStep::Wait));
    match adapter.connect_step(&job, 10_000 * MS + 1) {
        ConnectStep::Failed(e) => {
            assert_eq!(e.kind, ErrorKind::TimedOut);
            assert_eq!(e.message, "SYN timed out");
        }
        _ => panic!("the peer has been silent for too long"),
    }
    assert!(!adapter.contains(4000));
    assert!(matches!(adapter.connect_step(&job, 10_000 * MS + 1), ConnectStep::Wait));
}

#[test]
fn connections_take_the_next_free_port() {
    let mut adapter = new_adapter();
    assert_eq!(adapter.open_from(65534, PEER_PORT, 1), Some(65534));
    assert_eq!(adapter.open_from(65534, PEER_PORT, 2), Some(65535));
    assert_eq!(adapter.open_from(65534, PEER_PORT, 3), Some(0));
    assert_eq!(read_pkt(&adapter.send_syn(0).unwrap()).sequence_number, 3);
    for port in 0..=u16::MAX {
        adapter.open(port, PEER_PORT, 4);
    }
    assert_eq!(adapter.open_from(7, PEER_PORT, 5), None);
    assert_eq!(adapter.connect(PEER_PORT), None);
    adapter.close(12345).unwrap();
    assert_eq!(adapter.connect(PEER_PORT), Some(12345));
}

#[test]
fn a_refused_connection_fails() {
    let mut adapter = new_adapter();
    assert!(adapter.open(4000, PEER_PORT, 77));
    let rst = TcpFlags { rst: true, ack: true, ..Default::default() };
    assert!(arrive(&mut adapter, &tcp_seg(4000, 0, 78, rst, &[])).is_none());
    let job = Connecting::new(4000, 0);
    match adapter.connect_step(&job, 0) {
        ConnectStep::Failed(e) => {
            assert_eq!(e.kind, ErrorKind::ConnectionReset);
            assert_eq!(e.message, "failed to connect");
        }
        _ => panic!("the peer refused"),
    }
    assert!(!adapter.contains(4000));
}

#[test]
fn only_a_syn_ack_opens_a_connection() {
    let mut adapter = new_adapter();
    assert!(adapter.open(4000, PEER_PORT, 77));
    let syn = TcpFlags { syn: true, ..Default::default() };
    assert!(arrive(&mut adapter, &tcp_seg(4000, 9, 78, syn, &[])).is_none());
    assert!(arrive(&mut adapter, &tcp_seg(4000, 9, 78, psh_flags(), b"x")).is_none());
    assert_eq!(adapter.get_status(4000).unwrap(), ConnectionStatus::WaitingForSyn);
}

#[test]
fn closing_sends_a_fin_once() {
    let mut adapter = new_adapter();
    let hp = handshake(&mut adapter);
    let fin = read_pkt(&adapter.close(hp).unwrap());
    assert!(fin.flags.fin && fin.flags.ack);
    assert_eq!(fin.acknowledgment_number, PEER_ISN + 1);
    let e = adapter.close(hp).unwrap_err();
    assert_eq!(e.kind, ErrorKind::NotConnected);
    assert_eq!(e.message, "not connected");
}

#[test]
fn ports_without_a_connection_are_not_connected() {
    let mut adapter = new_adapter();
    let kinds = [
        adapter.queue_send(b"x", 9).unwrap_err().kind,
        adapter.write(b"x", 9).unwrap_err().kind,
        adapter.uncache(1, 9).unwrap_err().kind,
        adapter.uncache_all(9).unwrap_err().kind,
        adapter.cache_read(b"x", 9).unwrap_err().kind,
        adapter.get_status(9).unwrap_err().kind,
        adapter.recv_step(9).unwrap_err().kind,
        adapter.send_syn(9).unwrap_err().kind,
        adapter.ack(9).unwrap_err().kind,
        adapter.psh(b"x", 9).unwrap_err().kind,
    ];
    assert!(kinds.iter().all(|k| *k == ErrorKind::NotConnected));
}

#[test]
fn cached_bytes_are_read_in_order() {
    let mut adapter = new_adapter();
    let hp = handshake(&mut adapter);
    adapter.cache_read(b"ab", hp).unwrap();
    adapter.cache_read(b"cd", hp).unwrap();
    assert_eq!(adapter.uncache(3, hp).unwrap(), b"abc");
    assert_eq!(adapter.uncache_all(hp).unwrap(), b"d");
}

// ---------------------------------------------------------------------------
// Bytes from the transport
// ---------------------------------------------------------------------------

fn ipv6(protocol: ProtocolNumber, payload: &[u8]) -> Vec<u8> {
    Ipv6Packet::create(PEER, HOST, protocol, 255, payload)
}

#[test]
fn packets_are_put_together_from_any_pieces() {
    let mut adapter = new_adapter();
    let hp = handshake(&mut adapter);
    let one = ipv6(ProtocolNumber::Tcp, &tcp_seg(hp, PEER_ISN + 1, 0, psh_flags(), b"one"));
    let two = ipv6(ProtocolNumber::Tcp, &tcp_seg(hp, PEER_ISN + 4, 0, psh_flags(), b"two"));
    let mut all = one.clone();
    all.extend_from_slice(&two);
    let mut packets = Vec::new();
    for (i, b) in all.iter().enumerate() {
        assert!(matches!(adapter.read_ip_packet(), ReadStep::Need(_)));
        adapter.received(&[*b]).unwrap();
        if i + 1 == one.len() || i + 1 == all.len() {
            match adapter.read_ip_packet() {
                ReadStep::Packet { frame, raw } => {
                    assert_eq!(frame.protocol, 6);
                    assert!(adapter.process_frame(&frame).unwrap().is_some());
                    packets.push(raw);
                }
                _ => panic!("a packet has arrived"),
            }
        }
    }
    assert_eq!(packets, vec![one, two]);
    assert_eq!(adapter.recv_step(hp).unwrap().unwrap(), b"onetwo");
}

#[test]
fn the_buffer_has_room_for_4096_bytes() {
    let mut adapter = new_adapter();
    assert!(matches!(adapter.read_ip_packet(), ReadStep::Need(4096)));
    let packet = ipv6(ProtocolNumber::Tcp, &[0; 5000]);
    adapter.received(&packet[..4000]).unwrap();
    assert!(matches!(adapter.read_ip_packet(), ReadStep::Need(96)));
    adapter.received(&packet[4000..4096]).unwrap();
    assert!(matches!(adapter.read_ip_packet(), ReadStep::Need(0)));
    let e = adapter.received(&[]).unwrap_err();
    assert_eq!(e.kind, ErrorKind::UnexpectedEof);
    assert_eq!(e.message, "transport closed");
}

#[test]
fn garbage_from_the_transport_is_refused() {
    let mut adapter = new_adapter();
    adapter.received(&[0x45; 40]).unwrap();
    for _ in 0..2 {
        match adapter.read_ip_packet() {
            ReadStep::Invalid(e) => {
                assert_eq!(e.kind, ErrorKind::InvalidData);
                assert_eq!(e.message, "invalid IPv6 packet");
            }
            _ => panic!("not an IPv6 packet"),
        }
    }
    let mut adapter = Adapter::new(IpAddr::V4([10, 0, 0, 1]), IpAddr::V4([10, 0, 0, 2]));
    adapter.received(&[0x60; 40]).unwrap();
    match adapter.read_ip_packet() {
        ReadStep::Invalid(e) => assert_eq!(e.message, "invalid IPv4 packet"),
        _ => panic!("not an IPv4 packet"),
    }
}

#[test]
fn two_stacks_talk_over_ipv4() {
    let a_ip = IpAddr::V4([10, 0, 0, 1]);
    let b_ip = IpAddr::V4([10, 0, 0, 2]);
    let mut a = Adapter::new(a_ip, b_ip);
    let mut b = Adapter::new(b_ip, a_ip);
    assert_eq!(a.host_ip(), a_ip);
    assert_eq!(a.peer_ip(), b_ip);
    assert!(a.open(1111, 2222, 100));
    assert!(b.open(2222, 1111, 900));
    let syn_ack = TcpFlags { syn: true, ack: true, ..Default::default() };
    let to_a = TcpPacket::create(b_ip, a_ip, 2222, 1111, 900, 101, syn_ack, 1, &[]);
    let to_b = TcpPacket::create(a_ip, b_ip, 1111, 2222, 100, 901, syn_ack, 1, &[]);
    assert!(a.process_tcp_packet_from_payload(&to_a).unwrap().is_some());
    assert!(b.process_tcp_packet_from_payload(&to_b).unwrap().is_some());
    a.write(b"ping", 1111).unwrap();
    let mut job = a.write_buffer_flush();
    let packet = loop {
        match a.flush_step(&mut job, 0) {
            FlushStep::Write(bytes) => {
                assert!(a.flush_written(&mut job, true, 0));
                break bytes;
            }
            FlushStep::Skip => {}
            FlushStep::Done => panic!("nothing was sent"),
        }
    };
    b.received(&packet).unwrap();
    let answer = match b.read_ip_packet() {
        ReadStep::Packet { frame, raw } => {
            assert_eq!(raw, packet);
            b.process_frame(&frame).unwrap().unwrap()
        }
        _ => panic!("a packet has arrived"),
    };
    assert_eq!(b.recv_step(2222).unwrap().unwrap(), b"ping");
    a.received(&answer).unwrap();
    match a.read_ip_packet() {
        ReadStep::Packet { frame, .. } => assert!(a.process_frame(&frame).unwrap().is_none()),
        _ => panic!("the answer has arrived"),
    }
    a.write(b"pong", 1111).unwrap();
    let mut job = a.write_buffer_flush();
    let mut written = 0;
    loop {
        match a.flush_step(&mut job, 0) {
            FlushStep::Write(_) => {
                written += 1;
                a.flush_written(&mut job, true, 0);
            }
            FlushStep::Skip => {}
            FlushStep::Done => break,
        }
    }
    assert_eq!(written, 1);
}

/// Writes fail, and segments and acknowledgments are lost, repeated and
/// reordered; the reader gets a beginning of the stream at any time, and all of
/// it in the end.
#[test]
fn a_bad_network_delivers_everything() {
    let a_ip = IpAddr::V4([10, 0, 0, 1]);
    let b_ip = IpAddr::V4([10, 0, 0, 2]);
    let mut a = Adapter::new(a_ip, b_ip);
    let mut b = Adapter::new(b_ip, a_ip);
    a.set_mss(7);
    assert!(a.open(1111, 2222, u32::MAX - 40));
    assert!(b.open(2222, 1111, 900));
    let syn_ack = TcpFlags { syn: true, ack: true, ..Default::default() };
    let to_a = TcpPacket::create(b_ip, a_ip, 2222, 1111, 900, 0, syn_ack, 1, &[]);
    let to_b = TcpPacket::create(a_ip, b_ip, 1111, 2222, u32::MAX - 40, 901, syn_ack, 1, &[]);
    a.process_tcp_packet_from_payload(&to_a).unwrap();
    b.process_tcp_packet_from_payload(&to_b).unwrap();

    let stream: Vec<u8> = (0..200u8).collect();
    a.write(&stream, 1111).unwrap();
    let mut state: u32 = 12345;
    let mut draw = |n: u32| {
        state = state.wrapping_mul(1_664_525).wrapping_add(1_013_904_223);
        (state >> 16) % n
    };
    let mut data: Vec<Vec<u8>> = Vec::new();
    let mut answers: Vec<Vec<u8>> = Vec::new();
    let mut got: Vec<u8> = Vec::new();
    let mut now = 0;
    for _ in 0..5_000 {
        now += 100 * MS;
        let mut arrivals: Vec<usize> = Vec::new();
        let mut job = a.write_buffer_flush();
        loop {
            match a.flush_step(&mut job, now) {
                FlushStep::Write(bytes) => {
                    let written = draw(6) != 0;
                    if !a.flush_written(&mut job, written, now) {
                        break;
                    }
                    if !written {
                        continue;
                    }
                    data.push(bytes);
                    if draw(5) != 0 {
                        arrivals.push(data.len() - 1);
                    }
                }
                FlushStep::Skip => {}
                FlushStep::Done => break,
            }
        }
        if !data.is_empty() && draw(3) == 0 {
            arrivals.push(draw(data.len() as u32) as usize);
        }
        for i in arrivals {
            b.received(&data[i]).unwrap();
            let answer = match b.read_ip_packet() {
                ReadStep::Packet { frame, .. } => b.process_frame(&frame).unwrap().unwrap(),
                _ => panic!("a packet has arrived"),
            };
            answers.push(answer);
            let newest = answers.len() - 1;
            let late = draw(answers.len() as u32) as usize;
            for (k, lost) in [(late, false), (newest, draw(5) == 0)] {
                if !lost {
                    a.received(&answers[k]).unwrap();
                    match a.read_ip_packet() {
                        ReadStep::Packet { frame, .. } => {
                            assert!(a.process_frame(&frame).unwrap().is_none());
                        }
                        _ => panic!("the answer has arrived"),
                    }
                }
            }
        }
        if draw(2) == 0 {
            got.extend(b.uncache(draw(9) as usize, 2222).unwrap());
        }
        assert_eq!(got[..], stream[..got.len()]);
    }
    assert_eq!(a.get_status(1111).unwrap(), ConnectionStatus::Connected);
    assert_eq!(got, stream);
}

// ---------------------------------------------------------------------------
// UDP
// ---------------------------------------------------------------------------

#[test]
fn datagrams_reach_bound_ports_only() {
    let mut adapter = new_adapter();
    assert_eq!(adapter.bind_udp(5353), Some(5353));
    assert_eq!(adapter.bind_udp(5353), Some(5353));
    for port in [5353u16, 5354] {
        let udp = UdpDatagram::create(IpAddr::V6(PEER), IpAddr::V6(HOST), 9, port, b"dg");
        adapter.received(&ipv6(ProtocolNumber::Udp, &udp)).unwrap();
        match adapter.read_ip_packet() {
            ReadStep::Packet { frame, .. } => {
                assert_eq!(frame.protocol, 17);
                assert!(adapter.process_frame(&frame).unwrap().is_none());
            }
            _ => panic!("a packet has arrived"),
        }
    }
    let got = adapter.udp_drain();
    assert_eq!(got.len(), 1);
    assert_eq!(got[0].source_port, 9);
    assert_eq!(got[0].destination_port, 5353);
    assert_eq!(got[0].payload, b"dg");
    assert!(adapter.udp_drain().is_empty());
    adapter.unbind_udp(5353);
    assert!(adapter.bind_if_free(5353));
    assert!(!adapter.bind_if_free(5353));
    assert!(!adapter.bind_if_free(0));
}

#[test]
fn port_zero_binds_a_free_port() {
    let mut adapter = new_adapter();
    let mut bound = Vec::new();
    while bound.len() < 50 {
        let port = adapter.bind_udp(0).unwrap();
        assert!(port != 0 && !bound.contains(&port));
        bound.push(port);
    }
}

#[test]
fn the_next_free_udp_port_is_bound() {
    let mut adapter = new_adapter();
    assert_eq!(adapter.bind_from(65534), Some(65534));
    assert_eq!(adapter.bind_from(65534), Some(65535));
    assert_eq!(adapter.bind_from(65534), Some(1));
    for port in 1..=u16::MAX {
        adapter.bind_udp(port);
    }
    assert_eq!(adapter.bind_from(7), None);
    assert_eq!(adapter.bind_udp(0), None);
}

#[test]
fn datagrams_are_sent_from_their_port() {
    let adapter = new_adapter();
    let bytes = adapter.send_udp(7000, 8000, b"hello");
    match Ipv6Packet::parse(&bytes) {
        IpParseError::Whole { packet, .. } => {
            assert_eq!(packet.next_header, 17);
            let d = UdpDatagram::parse(&packet.payload).unwrap();
            assert_eq!((d.source_port, d.destination_port), (7000, 8000));
            assert_eq!(d.payload, b"hello");
        }
        _ => panic!("not a valid IPv6 packet from adapter"),
    }
}
