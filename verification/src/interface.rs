//! What the calls of a stack do, one by one and one after the other.

use vstd::prelude::*;

use crate::adapter::{Adapter, ConnectStep, Connecting, Frame, ReadStep};
use crate::connection::{Connection, ConnectionStatus};
use crate::error::{Error, ErrorKind};
use crate::flush::Flush;
use crate::handle::{Hub, Outcome};
use crate::packets::{tcp_parse, udp_parse, Datagram, IpAddr, UdpDatagram};
use crate::peer::{
    addressed, carries_segment, flags_of, header_len, law_ack_packet, law_data_packet,
    law_datagram_reaches_its_port, law_fin_packet, law_segment_reaches_its_connection,
    law_syn_packet, law_udp_packet, same_but, same_outside, segment_of,
};
use crate::rules::wait_ms;
use crate::stack::Stack;

verus! {

/// An error says that nothing is connected.
pub open spec fn says_not_connected(e: Error) -> bool {
    e.kind == ErrorKind::NotConnected && e.message@ == "not connected"@
}

/// Two connections that differ in nothing but the bytes that wait to be read
/// and those that wait to be sent.
pub open spec fn same_but_buffers(c: Connection, d: Connection) -> bool {
    &&& c.seq == d.seq && c.ack == d.ack
    &&& c.host_port == d.host_port && c.peer_port == d.peer_port
    &&& c.status == d.status && c.unacked == d.unacked
}

// ---------------------------------------------------------------------------
// The stack itself
// ---------------------------------------------------------------------------

/// A new stack has its addresses, an MSS of 1220, and nothing else.
pub proof fn law_new_stack(host_ip: IpAddr, peer_ip: IpAddr, a: Adapter)
    requires
        call_ensures(Adapter::new, (host_ip, peer_ip), a),
    ensures
        a@.host_ip == host_ip && a@.peer_ip == peer_ip,
        a@.mss == 1220,
        forall|p: u16| !a@.conns.contains_key(p),
        forall|p: u16| !a@.udp_ports.contains(p),
        a@.dropped.len() == 0 && a@.inbox.len() == 0 && a@.datagrams.len() == 0,
{
}

/// Setting the MSS sets the MSS, to any value, and nothing else.
pub proof fn law_set_mss(a: &mut Adapter, mss: usize, this: &mut Adapter)
    requires
        call_ensures(Adapter::set_mss, (a, mss), this),
    ensures
        old(this)@.mss == mss,
        old(this)@.conns == old(a)@.conns,
        same_outside(
            old(this)@,
            (Stack { mss: mss as nat, ..old(a)@ }),
        ),
        *final(a) == *final(this),
{
}

/// What is asked of a stack is what it is.
pub proof fn law_lookups(
    a: &Adapter,
    port: u16,
    mss: usize,
    host_ip: IpAddr,
    peer_ip: IpAddr,
    there: bool,
    status: Result<ConnectionStatus, Error>,
    ports: Vec<u16>,
)
    requires
        call_ensures(Adapter::mss, (a,), mss),
        call_ensures(Adapter::host_ip, (a,), host_ip),
        call_ensures(Adapter::peer_ip, (a,), peer_ip),
        call_ensures(Adapter::contains, (a, port), there),
        call_ensures(Adapter::get_status, (a, port), status),
        call_ensures(Adapter::host_ports, (a,), ports),
    ensures
        mss == a@.mss,
        host_ip == a@.host_ip && peer_ip == a@.peer_ip,
        there == a@.conns.contains_key(port),
        status is Ok <==> there,
        status matches Ok(x) ==> x == a@.conns[port].status,
        status matches Err(e) ==> says_not_connected(e),
        ports@.contains(port) <==> there,
        forall|i: int, j: int| 0 <= i < j < ports@.len() ==> ports@[i] != ports@[j],
{
    assert(ports@.to_set().contains(port) <==> a@.conns.dom().contains(port));
    assert(ports@.to_set().contains(port) <==> ports@.contains(port));
}

/// An error is of the kind and carries the message that it was made with.
pub proof fn law_error(kind: ErrorKind, message: &'static str, e: Error, k: ErrorKind, m: Seq<char>)
    requires
        call_ensures(Error::new, (kind, message), e),
    ensures
        e.kind == kind && e.message@ == message@,
        e.is(k, m) <==> e.kind == k && e.message@ == m,
{
}

/// What is always allowed between addresses of one family, and before there
/// are connections: anything but more bytes than there is room for.
pub proof fn law_calls_are_allowed(
    a: &Adapter,
    m: &mut Adapter,
    hub: &Hub,
    hub_mut: &mut Hub,
    outcomes: &Vec<Outcome>,
    job: &Connecting,
    flush: &mut Flush,
    frame: &Frame,
    port: u16,
    data: &[u8],
    now: u64,
)
    requires
        a@.one_family() || forall|p: u16| !a@.conns.contains_key(p),
        old(m)@.one_family() || forall|p: u16| !old(m)@.conns.contains_key(p),
        old(m)@.wf(),
        hub@.streams.no_duplicates() && hub@.sockets.no_duplicates(),
    ensures
        call_requires(Adapter::send_syn, (a, port)),
        call_requires(Adapter::ack, (a, port)),
        call_requires(Adapter::psh, (a, data, port)),
        call_requires(Adapter::close, (m, port)),
        call_requires(Adapter::connect_step, (m, job, now)),
        call_requires(Adapter::process_tcp_packet_from_payload, (m, data)),
        call_requires(Adapter::process_frame, (m, frame)),
        call_requires(Adapter::read_ip_packet, (m,)),
        old(m)@.inbox.len() + data@.len() <= 4096 ==> call_requires(Adapter::received, (m, data)),
        a@.one_family() ==> call_requires(Adapter::send_udp, (a, port, port, data)),
        call_requires(Adapter::retransmit, (m, port, now)),
        call_requires(Adapter::flush_step, (m, flush, now)),
        call_requires(Hub::collect, (hub, m)),
        call_requires(Hub::settle, (hub_mut, m, outcomes)),
        call_requires(Hub::transport_failed, (hub_mut, m)),
        call_requires(Hub::stream_closed, (hub_mut, m, port)),
{
}

// ---------------------------------------------------------------------------
// Opening
// ---------------------------------------------------------------------------

/// A fresh connection between two ports.
pub open spec fn is_fresh(c: Connection, host_port: u16, peer_port: u16, seq: u32) -> bool {
    &&& c.status is WaitingForSyn
    &&& c.host_port == host_port && c.peer_port == peer_port
    &&& c.seq == seq && c.ack == 0
    &&& c.received.len() == 0 && c.queued.len() == 0 && c.unacked.len() == 0
}

/// A connection is opened on a port unless the port is taken, and nothing else
/// changes.
pub proof fn law_open(a: &mut Adapter, host_port: u16, port: u16, seq: u32, opened: bool)
    requires
        call_ensures(Adapter::open, (a, host_port, port, seq), opened),
    ensures
        opened <==> !old(a)@.conns.contains_key(host_port),
        opened ==> {
            &&& same_but(old(a)@, final(a)@, host_port)
            &&& final(a)@.conns.contains_key(host_port)
            &&& is_fresh(final(a)@.conns[host_port], host_port, port, seq)
        },
        !opened ==> final(a)@ == old(a)@,
{
}

/// From a given port up, past the highest to zero, the first free port is
/// taken: none is found only where none is free.
pub proof fn law_open_from(a: &mut Adapter, first: u16, port: u16, seq: u32, r: Option<u16>)
    requires
        call_ensures(Adapter::open_from, (a, first, port, seq), r),
    ensures
        r is None ==> final(a)@ == old(a)@ && forall|p: u16| old(a)@.conns.contains_key(p),
        r matches Some(hp) ==> {
            &&& !old(a)@.conns.contains_key(hp)
            &&& forall|p: u16| first <= p < hp ==> old(a)@.conns.contains_key(p)
            &&& hp < first ==> forall|p: u16| p >= first || p < hp ==> old(a)@.conns.contains_key(p)
            &&& same_but(old(a)@, final(a)@, hp)
            &&& final(a)@.conns.contains_key(hp)
            &&& is_fresh(final(a)@.conns[hp], hp, port, seq)
        },
{
    if let Some(hp) = r {
        let taken = old(a)@.conns.dom();
        assert forall|p: u16| first <= p < hp implies old(a)@.conns.contains_key(p) by {
            assert(taken.contains(p));
        }
        if hp < first {
            assert forall|p: u16| p >= first || p < hp implies old(a)@.conns.contains_key(p) by {
                assert(taken.contains(p));
            }
        }
    }
}

/// Whenever a port is free, a connection is opened on a free one, whatever is
/// drawn, and nothing else changes.
pub proof fn law_connect(a: &mut Adapter, port: u16, r: Option<u16>)
    requires
        call_ensures(Adapter::connect, (a, port), r),
    ensures
        r is Some <==> exists|p: u16| !old(a)@.conns.contains_key(p),
        r is None ==> final(a)@ == old(a)@,
        r matches Some(hp) ==> {
            &&& !old(a)@.conns.contains_key(hp)
            &&& same_but(old(a)@, final(a)@, hp)
            &&& final(a)@.conns.contains_key(hp)
            &&& is_fresh(final(a)@.conns[hp], hp, port, final(a)@.conns[hp].seq)
        },
{
}

/// A job to open a connection begins now with no repetitions, and each
/// repetition of the SYN is counted and timed.
pub proof fn law_connecting(host_port: u16, now: u64, job: Connecting, later: &mut Connecting, t: u64)
    requires
        call_ensures(Connecting::new, (host_port, now), job),
        call_ensures(Connecting::syn_repeated, (later, t), ()),
    ensures
        job.host_port == host_port && job.started == now && job.last_syn == now,
        job.retries == 0,
        final(later).host_port == old(later).host_port,
        final(later).started == old(later).started,
        final(later).last_syn == t,
        old(later).retries < u32::MAX ==> final(later).retries == old(later).retries + 1,
        old(later).retries == u32::MAX ==> final(later).retries == u32::MAX,
{
}

/// A look at a connection that is being opened, at any time: once it is open
/// the look says so; once it has ended, the look fails with its error and
/// forgets it. While it waits, it fails when more than ten seconds have passed
/// since it began; otherwise the SYN is due when the wait that has doubled
/// with each repetition is over. In all other cases there is nothing to do.
pub proof fn law_connect_step(a: &mut Adapter, job: &Connecting, now: u64, step: ConnectStep)
    requires
        old(a)@.can_send(),
        call_ensures(Adapter::connect_step, (a, job, now), step),
    ensures
        ({
            let port = job.host_port;
            let c = old(a)@.conns[port];
            let over = now > job.started + 10_000_000_000;
            let due = now >= job.last_syn + wait_ms(job.retries as int) * 1_000_000;
            &&& step is Failed ==> {
                &&& same_but(old(a)@, final(a)@, port)
                &&& !final(a)@.conns.contains_key(port)
            }
            &&& !(step is Failed) ==> final(a)@ == old(a)@
            &&& if !old(a)@.conns.contains_key(port) {
                step is Wait
            } else {
                match c.status {
                    ConnectionStatus::Connected => step is Connected,
                    ConnectionStatus::Error(kind) => {
                        &&& step matches ConnectStep::Failed(e)
                        &&& e.kind == kind && e.message@ == "failed to connect"@
                    },
                    ConnectionStatus::WaitingForSyn => if over {
                        &&& step matches ConnectStep::Failed(e)
                        &&& e.kind == ErrorKind::TimedOut && e.message@ == "SYN timed out"@
                    } else if due {
                        &&& step matches ConnectStep::SendSyn(b)
                        &&& carries_segment(
                            old(a)@,
                            b@,
                            segment_of(
                                c,
                                c.seq,
                                0,
                                flags_of(false, false, true, false),
                                Seq::empty(),
                            ),
                        )
                    } else {
                        step is Wait
                    },
                }
            }
        }),
{
    reveal_with_fuel(crate::connection::rto_ms, 7);
    let port = job.host_port;
    if old(a)@.conns.contains_key(port) {
        law_syn_packet(old(a)@, old(a)@.conns[port]);
    }
}

// ---------------------------------------------------------------------------
// Packets
// ---------------------------------------------------------------------------

/// Exactly a port with a connection has a SYN and an ACK, which carry what they
/// should.
pub proof fn law_control_packets(
    a: &Adapter,
    port: u16,
    syn: Result<Vec<u8>, Error>,
    ack: Result<Vec<u8>, Error>,
)
    requires
        a@.can_send(),
        call_ensures(Adapter::send_syn, (a, port), syn),
        call_ensures(Adapter::ack, (a, port), ack),
    ensures
        ({
            let c = a@.conns[port];
            &&& syn is Ok <==> a@.conns.contains_key(port)
            &&& ack is Ok <==> a@.conns.contains_key(port)
            &&& syn matches Ok(b) ==> carries_segment(
                a@,
                b@,
                segment_of(c, c.seq, 0, flags_of(false, false, true, false), Seq::empty()),
            )
            &&& ack matches Ok(b) ==> carries_segment(
                a@,
                b@,
                segment_of(c, c.seq, c.ack, flags_of(true, false, false, false), Seq::empty()),
            )
            &&& syn matches Err(e) ==> says_not_connected(e)
            &&& ack matches Err(e) ==> says_not_connected(e)
        }),
{
    if a@.conns.contains_key(port) {
        law_syn_packet(a@, a@.conns[port]);
        law_ack_packet(a@, a@.conns[port]);
    }
}

/// New data is carried under the number that is to be sent next, on any
/// connection that has not ended.
pub proof fn law_psh(a: &Adapter, data: &[u8], port: u16, r: Result<Vec<u8>, Error>)
    requires
        a@.can_send(),
        call_ensures(Adapter::psh, (a, data, port), r),
    ensures
        ({
            let c = a@.conns[port];
            &&& r is Ok <==> a@.conns.contains_key(port) && !(c.status is Error)
            &&& r matches Ok(b) ==> carries_segment(
                a@,
                b@,
                segment_of(c, c.seq, c.ack, flags_of(true, true, false, false), data@),
            )
            &&& r matches Err(e) ==> if a@.conns.contains_key(port) {
                c.status == ConnectionStatus::Error(e.kind) && e.message@ == "socket error"@
            } else {
                says_not_connected(e)
            }
        }),
{
    if a@.conns.contains_key(port) {
        law_data_packet(a@, a@.conns[port], a@.conns[port].seq, data@);
    }
}

/// Closing forgets the connection and gives its FIN.
pub proof fn law_close(a: &mut Adapter, port: u16, r: Result<Vec<u8>, Error>)
    requires
        old(a)@.can_send(),
        call_ensures(Adapter::close, (a, port), r),
    ensures
        ({
            let c = old(a)@.conns[port];
            &&& r is Ok <==> old(a)@.conns.contains_key(port)
            &&& same_but(old(a)@, final(a)@, port)
            &&& !final(a)@.conns.contains_key(port)
            &&& r matches Ok(b) ==> carries_segment(
                old(a)@,
                b@,
                segment_of(c, c.seq, c.ack, flags_of(true, false, false, true), Seq::empty()),
            )
            &&& r matches Err(e) ==> says_not_connected(e)
        }),
{
    if old(a)@.conns.contains_key(port) {
        law_fin_packet(old(a)@, old(a)@.conns[port]);
    }
}

/// A datagram goes to the peer between the given ports with the given bytes.
pub proof fn law_send_udp(a: &Adapter, from: u16, to: u16, data: &[u8], b: Vec<u8>)
    requires
        a@.one_family(),
        call_ensures(Adapter::send_udp, (a, from, to, data), b),
    ensures
        addressed(a@, b@, 17),
        8 + data@.len() <= 0xffff ==> udp_parse(b@.skip(header_len(a@))) == Some(
            Datagram { source_port: from, destination_port: to, payload: data@ },
        ),
{
    law_udp_packet(a@, Datagram { source_port: from, destination_port: to, payload: data@ });
}

// ---------------------------------------------------------------------------
// Writing and reading
// ---------------------------------------------------------------------------

/// What is written is queued behind what was queued, on any connection that has
/// not ended; one that has ended gives its error. Nothing else changes.
pub proof fn law_write(a: &mut Adapter, data: &[u8], port: u16, r: Result<(), Error>)
    requires
        call_ensures(Adapter::write, (a, data, port), r),
    ensures
        ({
            let c = old(a)@.conns[port];
            let d = final(a)@.conns[port];
            &&& r is Ok <==> old(a)@.conns.contains_key(port) && !(c.status is Error)
            &&& r is Ok ==> {
                &&& same_but(old(a)@, final(a)@, port)
                &&& final(a)@.conns.contains_key(port)
                &&& d.queued == c.queued + data@
                &&& d.received == c.received
                &&& same_but_buffers(c, d)
            }
            &&& r matches Err(e) ==> {
                &&& final(a)@ == old(a)@
                &&& if old(a)@.conns.contains_key(port) {
                    c.status == ConnectionStatus::Error(e.kind) && e.message@ == "socket error"@
                } else {
                    says_not_connected(e)
                }
            }
        }),
{
}

/// Queueing adds behind what was queued, in any state of the connection.
pub proof fn law_queue_send(a: &mut Adapter, data: &[u8], port: u16, r: Result<(), Error>)
    requires
        call_ensures(Adapter::queue_send, (a, data, port), r),
    ensures
        ({
            let c = old(a)@.conns[port];
            let d = final(a)@.conns[port];
            &&& r is Ok <==> old(a)@.conns.contains_key(port)
            &&& r is Ok ==> {
                &&& same_but(old(a)@, final(a)@, port)
                &&& final(a)@.conns.contains_key(port)
                &&& d.queued == c.queued + data@
                &&& d.received == c.received
                &&& same_but_buffers(c, d)
            }
            &&& r matches Err(e) ==> final(a)@ == old(a)@ && says_not_connected(e)
        }),
{
}

/// Adding to what has arrived adds behind it.
pub proof fn law_cache_read(a: &mut Adapter, data: &[u8], port: u16, r: Result<(), Error>)
    requires
        call_ensures(Adapter::cache_read, (a, data, port), r),
    ensures
        ({
            let c = old(a)@.conns[port];
            let d = final(a)@.conns[port];
            &&& r is Ok <==> old(a)@.conns.contains_key(port)
            &&& r is Ok ==> {
                &&& same_but(old(a)@, final(a)@, port)
                &&& final(a)@.conns.contains_key(port)
                &&& d.received == c.received + data@
                &&& d.queued == c.queued
                &&& same_but_buffers(c, d)
            }
            &&& r matches Err(e) ==> final(a)@ == old(a)@ && says_not_connected(e)
        }),
{
}

/// Reading some takes as many as there are, up to what is asked for; what was
/// taken and what is left are together what was there, in order.
pub proof fn law_uncache(a: &mut Adapter, n: usize, port: u16, r: Result<Vec<u8>, Error>)
    requires
        call_ensures(Adapter::uncache, (a, n, port), r),
    ensures
        ({
            let c = old(a)@.conns[port];
            let d = final(a)@.conns[port];
            &&& r is Ok <==> old(a)@.conns.contains_key(port)
            &&& r matches Ok(data) ==> {
                &&& same_but(old(a)@, final(a)@, port)
                &&& final(a)@.conns.contains_key(port)
                &&& data@ + d.received == c.received
                &&& data@.len() <= n
                &&& data@.len() == n || d.received.len() == 0
                &&& d.queued == c.queued
                &&& same_but_buffers(c, d)
            }
            &&& r matches Err(e) ==> final(a)@ == old(a)@ && says_not_connected(e)
        }),
{
    if let Ok(data) = r {
        let c = old(a)@.conns[port];
        assert(data@ + final(a)@.conns[port].received =~= c.received);
    }
}

/// Reading all takes all.
pub proof fn law_uncache_all(a: &mut Adapter, port: u16, r: Result<Vec<u8>, Error>)
    requires
        call_ensures(Adapter::uncache_all, (a, port), r),
    ensures
        ({
            let c = old(a)@.conns[port];
            let d = final(a)@.conns[port];
            &&& r is Ok <==> old(a)@.conns.contains_key(port)
            &&& r matches Ok(data) ==> {
                &&& same_but(old(a)@, final(a)@, port)
                &&& final(a)@.conns.contains_key(port)
                &&& data@ == c.received
                &&& d.received.len() == 0
                &&& d.queued == c.queued
                &&& same_but_buffers(c, d)
            }
            &&& r matches Err(e) ==> final(a)@ == old(a)@ && says_not_connected(e)
        }),
{
}

/// A reader gets all that has arrived, or, when nothing has, the error that
/// ended the connection; a connection that has not ended gives nothing yet.
pub proof fn law_recv_step(a: &mut Adapter, port: u16, r: Result<Option<Vec<u8>>, Error>)
    requires
        call_ensures(Adapter::recv_step, (a, port), r),
    ensures
        ({
            let there = old(a)@.conns.contains_key(port);
            let c = old(a)@.conns[port];
            let d = final(a)@.conns[port];
            let some = c.received.len() > 0;
            &&& (r is Ok && r->Ok_0 is Some) <==> there && some
            &&& (r is Ok && r->Ok_0 is None) <==> there && !some && !(c.status is Error)
            &&& r matches Ok(Some(data)) ==> {
                &&& data@ == c.received
                &&& same_but(old(a)@, final(a)@, port)
                &&& final(a)@.conns.contains_key(port)
                &&& d.received.len() == 0
                &&& d.queued == c.queued
                &&& same_but_buffers(c, d)
            }
            &&& !(there && some) ==> final(a)@ == old(a)@
            &&& r matches Err(e) ==> if there {
                c.status == ConnectionStatus::Error(e.kind) && e.message@ == "socket io error"@
            } else {
                says_not_connected(e)
            }
        }),
{
}

/// Marking a connection to be closed puts its port at the end of the list, and
/// changes nothing else.
pub proof fn law_connection_drop(a: &mut Adapter, port: u16)
    requires
        call_ensures(Adapter::connection_drop, (a, port), ()),
    ensures
        final(a)@.dropped == old(a)@.dropped.push(port),
        final(a)@.conns == old(a)@.conns,
        same_outside(
            old(a)@,
            (Stack { dropped: old(a)@.dropped, ..final(a)@ }),
        ),
{
}

// ---------------------------------------------------------------------------
// What comes from the transport
// ---------------------------------------------------------------------------

/// A segment of any length is decoded and taken in by the connection on its
/// port, and by nothing else. A packet answers it exactly when that connection
/// says so, and carries the ACK of what has arrived by then. Bytes that are no
/// segment are refused and change nothing.
pub proof fn law_segment_call(a: &mut Adapter, b: &[u8], r: Result<Option<Vec<u8>>, Error>)
    requires
        old(a)@.can_send(),
        call_ensures(Adapter::process_tcp_packet_from_payload, (a, b), r),
    ensures
        takes_segment(old(a)@, b@, final(a)@, r),
{
    if let Some(s) = tcp_parse(b@) {
        law_segment_reaches_its_connection(old(a)@, s);
    }
}

/// What taking in the bytes of a segment comes to.
pub open spec fn takes_segment(
    s: Stack,
    b: Seq<u8>,
    t: Stack,
    r: Result<Option<Vec<u8>>, Error>,
) -> bool {
    match tcp_parse(b) {
        None => {
            &&& t == s
            &&& r matches Err(e)
            &&& e.kind == ErrorKind::InvalidData && e.message@ == "invalid TCP segment"@
        },
        Some(segment) => {
            let port = segment.destination_port;
            let (d, answered) = s.conns[port].on_segment(segment);
            &&& r is Ok
            &&& same_but(s, t, port)
            &&& t.conns.contains_key(port) <==> s.conns.contains_key(port)
            &&& s.conns.contains_key(port) ==> t.conns[port] == d
            &&& r->Ok_0 is Some <==> s.conns.contains_key(port) && answered
            &&& r->Ok_0 matches Some(packet) ==> carries_segment(
                s,
                packet@,
                segment_of(d, d.seq, d.ack, flags_of(true, false, false, false), Seq::empty()),
            )
        },
    }
}

/// What an IP packet carries is a datagram if its protocol is 17, and a segment
/// otherwise.
pub proof fn law_frame_call(a: &mut Adapter, frame: &Frame, r: Result<Option<Vec<u8>>, Error>)
    requires
        old(a)@.can_send(),
        call_ensures(Adapter::process_frame, (a, frame), r),
    ensures
        frame.protocol != 17 ==> takes_segment(old(a)@, frame.payload@, final(a)@, r),
        frame.protocol == 17 ==> {
            let b = frame.payload@;
            let length = b[4] * 256 + b[5];
            let port = (b[2] * 256 + b[3]) as u16;
            let d = final(a)@.datagrams.last();
            &&& r is Ok && r->Ok_0 is None
            &&& final(a)@.conns == old(a)@.conns
            &&& same_outside(old(a)@, (Stack { datagrams: old(a)@.datagrams, ..final(a)@ }))
            &&& if b.len() >= 8 && 8 <= length <= b.len() && old(a)@.udp_ports.contains(port) {
                &&& final(a)@.datagrams.len() == old(a)@.datagrams.len() + 1
                &&& final(a)@.datagrams.drop_last() == old(a)@.datagrams
                &&& d.source_port == b[0] * 256 + b[1]
                &&& d.destination_port == b[2] * 256 + b[3]
                &&& d.payload == b.subrange(8, length)
            } else {
                final(a)@.datagrams == old(a)@.datagrams
            }
        },
{
    law_datagram_reaches_its_port(old(a)@, frame.payload@);
    if let Some(s) = tcp_parse(frame.payload@) {
        law_segment_reaches_its_connection(old(a)@, s);
    }
}

/// The length that the IP packet at the front of some bytes is to have.
pub open spec fn front_len(v4: bool, b: Seq<u8>) -> int {
    if v4 {
        b[2] * 256 + b[3]
    } else {
        40 + b[4] * 256 + b[5]
    }
}

/// Whether some bytes, of which there are enough to tell, begin like an IP
/// packet.
pub open spec fn front_sound(v4: bool, b: Seq<u8>) -> bool {
    if v4 {
        b[0] / 16 == 4 && 20 <= 4 * (b[0] % 16) <= front_len(v4, b)
    } else {
        b[0] / 16 == 6
    }
}

/// Reading the next packet: as soon as as many bytes have arrived as the header
/// says, the packet is taken off the front, and what it carries handed out;
/// bytes that begin no packet are refused; otherwise the stack says for how
/// many bytes there is room. Nothing else changes.
pub proof fn law_read_ip_packet(a: &mut Adapter, step: ReadStep)
    requires
        old(a)@.wf(),
        call_ensures(Adapter::read_ip_packet, (a,), step),
    ensures
        ({
            let b = old(a)@.inbox;
            let v4 = old(a)@.host_ip is V4;
            let least = if v4 {
                20int
            } else {
                40
            };
            let total = front_len(v4, b);
            let whole = b.len() >= least && front_sound(v4, b) && b.len() >= total;
            let refused = b.len() >= least && !front_sound(v4, b);
            &&& step is Packet <==> whole
            &&& step is Invalid <==> refused
            &&& step matches ReadStep::Packet { frame, raw } ==> {
                &&& raw@.len() == total
                &&& raw@ + final(a)@.inbox == b
                &&& frame.protocol == if v4 {
                    b[9]
                } else {
                    b[6]
                }
                &&& frame.payload@ == b.subrange(
                    if v4 {
                        4 * (b[0] % 16) as int
                    } else {
                        40
                    },
                    total,
                )
            }
            &&& step matches ReadStep::Need(room) ==> room == 4096 - b.len()
            &&& step matches ReadStep::Invalid(e) ==> {
                &&& e.kind == ErrorKind::InvalidData
                &&& e.message@ == if v4 {
                    "invalid IPv4 packet"@
                } else {
                    "invalid IPv6 packet"@
                }
            }
            &&& !(step is Packet) ==> final(a)@.inbox == b
            &&& final(a)@.conns == old(a)@.conns
            &&& same_outside(old(a)@, (Stack { inbox: b, ..final(a)@ }))
        }),
{
    if let ReadStep::Packet { frame, raw } = step {
        assert(raw@ + final(a)@.inbox =~= old(a)@.inbox);
    }
}

/// Bytes that arrive are added behind those that wait; none at all say that the
/// transport was closed.
pub proof fn law_received(a: &mut Adapter, bytes: &[u8], r: Result<(), Error>)
    requires
        old(a)@.inbox.len() + bytes@.len() <= 4096,
        call_ensures(Adapter::received, (a, bytes), r),
    ensures
        r is Ok <==> bytes@.len() > 0,
        final(a)@.inbox == old(a)@.inbox + bytes@,
        final(a)@.conns == old(a)@.conns,
        same_outside(old(a)@, (Stack { inbox: old(a)@.inbox, ..final(a)@ })),
        r matches Err(e) ==> e.kind == ErrorKind::UnexpectedEof && e.message@
            == "transport closed"@,
{
    assert(final(a)@.inbox =~= old(a)@.inbox + bytes@);
}

// ---------------------------------------------------------------------------
// UDP ports
// ---------------------------------------------------------------------------

/// Two stacks that differ in nothing but whether one UDP port is bound.
pub open spec fn same_but_udp(s: Stack, t: Stack, port: u16) -> bool {
    &&& s.conns == t.conns
    &&& same_outside(s, (Stack { udp_ports: s.udp_ports, ..t }))
    &&& forall|p: u16|
        p != port ==> (#[trigger] s.udp_ports.contains(p) <==> t.udp_ports.contains(p))
}

/// Binding a port binds it; asking for none in particular binds one that was
/// free, whenever one is.
pub proof fn law_bind_udp(a: &mut Adapter, port: u16, r: Option<u16>)
    requires
        call_ensures(Adapter::bind_udp, (a, port), r),
    ensures
        r is None ==> final(a)@ == old(a)@,
        r matches Some(p) ==> same_but_udp(old(a)@, final(a)@, p) && final(a)@.udp_ports.contains(p),
        port != 0 ==> r == Some(port),
        port == 0 ==> {
            &&& r is Some <==> exists|p: u16| p != 0 && !old(a)@.udp_ports.contains(p)
            &&& r matches Some(p) ==> p != 0 && !old(a)@.udp_ports.contains(p)
        },
{
}

/// From a given port up, the first that is neither zero nor bound is bound; and
/// a given port is, if it is neither.
pub proof fn law_bind_free(
    a: &mut Adapter,
    first: u16,
    r: Option<u16>,
    b: &mut Adapter,
    port: u16,
    bound: bool,
)
    requires
        call_ensures(Adapter::bind_from, (a, first), r),
        call_ensures(Adapter::bind_if_free, (b, port), bound),
    ensures
        r is None ==> final(a)@ == old(a)@ && forall|p: u16|
            p != 0 ==> old(a)@.udp_ports.contains(p),
        r matches Some(q) ==> {
            &&& q != 0 && !old(a)@.udp_ports.contains(q)
            &&& forall|p: u16| first <= p < q && p != 0 ==> old(a)@.udp_ports.contains(p)
            &&& q < first ==> forall|p: u16|
                (p >= first || p < q) && p != 0 ==> old(a)@.udp_ports.contains(p)
            &&& same_but_udp(old(a)@, final(a)@, q)
            &&& final(a)@.udp_ports.contains(q)
        },
        bound <==> port != 0 && !old(b)@.udp_ports.contains(port),
        bound ==> same_but_udp(old(b)@, final(b)@, port) && final(b)@.udp_ports.contains(port),
        !bound ==> final(b)@ == old(b)@,
{
    if let Some(q) = r {
        let taken = old(a)@.udp_ports.insert(0);
        assert forall|p: u16| first <= p < q && p != 0 implies old(a)@.udp_ports.contains(p) by {
            assert(taken.contains(p));
        }
        if q < first {
            assert forall|p: u16| (p >= first || p < q) && p != 0 implies old(
                a,
            )@.udp_ports.contains(p) by {
                assert(taken.contains(p));
            }
        }
    }
}

/// Freeing a port frees it, and taking the datagrams takes all of them, oldest
/// first.
pub proof fn law_unbind_and_drain(
    a: &mut Adapter,
    port: u16,
    b: &mut Adapter,
    drained: Vec<UdpDatagram>,
)
    requires
        call_ensures(Adapter::unbind_udp, (a, port), ()),
        call_ensures(Adapter::udp_drain, (b,), drained),
    ensures
        same_but_udp(old(a)@, final(a)@, port) && !final(a)@.udp_ports.contains(port),
        drained@.len() == old(b)@.datagrams.len(),
        forall|i: int|
            0 <= i < drained@.len() ==> {
                let d = #[trigger] drained@[i];
                let waited = old(b)@.datagrams[i];
                &&& d.source_port == waited.source_port
                &&& d.destination_port == waited.destination_port
                &&& d.payload@ == waited.payload
            },
        final(b)@.datagrams.len() == 0,
        final(b)@.conns == old(b)@.conns,
        same_outside(old(b)@, (Stack { datagrams: old(b)@.datagrams, ..final(b)@ })),
{
    let views = drained@.map_values(|d: UdpDatagram| d@);
    assert forall|i: int| 0 <= i < drained@.len() implies {
        let d = #[trigger] drained@[i];
        let waited = old(b)@.datagrams[i];
        &&& d.source_port == waited.source_port
        &&& d.destination_port == waited.destination_port
        &&& d.payload@ == waited.payload
    } by {
        assert(views[i] == drained@[i]@);
    }
}

} // verus!
