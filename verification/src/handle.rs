//! The decisions of the background task that serves many streams over one
//! stack, and of the handles that talk to it.
//!
//! The channels themselves are the caller's. A [`Hub`] knows which ports have
//! one, and says what goes into it.

use vstd::prelude::*;

use crate::adapter::{not_connected, Adapter};
use crate::connection::{Connection, ConnectionStatus};
use crate::error::{Error, ErrorKind};
use crate::packets::{Datagram, UdpDatagram};
use crate::stack::Stack;

verus! {

/// How long a caller waits for its connection, in seconds.
pub const CONNECT_TIMEOUT_SECS: u64 = 8;

/// How often pending writes are flushed and timeouts checked, in milliseconds.
pub const TICK_MS: u64 = 1;

/// How long the stack waits for a packet before it checks timeouts, in
/// milliseconds.
pub const POLL_MS: u64 = 500;

/// A caller waits eight seconds for its connection; writes are flushed every
/// millisecond; timeouts are checked at least twice a second.
pub proof fn law_intervals()
    ensures
        CONNECT_TIMEOUT_SECS == 8,
        TICK_MS == 1,
        0 < POLL_MS <= 500 && POLL_MS == 500,
{
}

// ---------------------------------------------------------------------------
// Lists of ports
// ---------------------------------------------------------------------------

/// Being another port.
pub open spec fn other_than(port: u16) -> spec_fn(u16) -> bool {
    |p: u16| p != port
}

/// A list without a port.
pub open spec fn remove_port(ports: Seq<u16>, port: u16) -> Seq<u16> {
    ports.filter(other_than(port))
}

/// A list with a port, at its end unless it was there.
pub open spec fn add_port(ports: Seq<u16>, port: u16) -> Seq<u16> {
    if ports.contains(port) {
        ports
    } else {
        ports.push(port)
    }
}

fn contains_port(ports: &Vec<u16>, port: u16) -> (r: bool)
    ensures
        r == ports@.contains(port),
{
    let mut i: usize = 0;
    while i < ports.len()
        invariant
            i <= ports@.len(),
            forall|j: int| 0 <= j < i ==> ports@[j] != port,
        decreases ports@.len() - i,
    {
        if ports[i] == port {
            assert(ports@[i as int] == port);
            return true;
        }
        i += 1;
    }
    false
}

fn without_port(ports: &Vec<u16>, port: u16) -> (out: Vec<u16>)
    ensures
        out@ == remove_port(ports@, port),
{
    let ghost keep = other_than(port);
    let mut out: Vec<u16> = Vec::new();
    let mut i: usize = 0;
    assert(ports@.take(0).filter(keep) =~= Seq::<u16>::empty()) by {
        reveal(Seq::filter);
    }
    while i < ports.len()
        invariant
            i <= ports@.len(),
            keep == other_than(port),
            out@ == ports@.take(i as int).filter(keep),
        decreases ports@.len() - i,
    {
        let p: u16 = ports[i];
        if p != port {
            out.push(p);
        }
        proof {
            ports@.take(i as int).lemma_filter_push(p, keep);
            assert(ports@.take(i + 1) =~= ports@.take(i as int).push(p));
        }
        i += 1;
    }
    assert(ports@.take(i as int) =~= ports@);
    out
}

// ---------------------------------------------------------------------------
// The hub
// ---------------------------------------------------------------------------

/// Which ports have a channel.
#[verifier::ext_equal]
pub struct Channels {
    /// The ports of the open streams.
    pub streams: Seq<u16>,
    /// The ports of the bound UDP sockets.
    pub sockets: Seq<u16>,
}

impl Channels {
    /// Each port is listed once.
    pub open spec fn wf(self) -> bool {
        self.streams.no_duplicates() && self.sockets.no_duplicates()
    }
}

/// What a stream is owed.
pub enum Owed {
    /// Bytes that have arrived.
    Data(Seq<u8>),
    /// The news that its connection is gone.
    Gone,
}

/// What the stream on a port is owed, if anything.
pub open spec fn owed(s: Stack, port: u16) -> Option<Owed> {
    if !s.conns.contains_key(port) {
        Some(Owed::Gone)
    } else if s.conns[port].received.len() > 0 {
        Some(Owed::Data(s.conns[port].received))
    } else {
        None
    }
}

/// What the streams on some ports are owed, in their order.
pub open spec fn owed_all(s: Stack, ports: Seq<u16>) -> Seq<(u16, Owed)>
    decreases ports.len(),
{
    if ports.len() == 0 {
        Seq::empty()
    } else {
        let earlier = owed_all(s, ports.drop_last());
        match owed(s, ports.last()) {
            Some(what) => earlier.push((ports.last(), what)),
            None => earlier,
        }
    }
}

/// The stack after what has arrived for some ports was taken.
pub open spec fn emptied(s: Stack, ports: Seq<u16>) -> Stack {
    Stack {
        conns: Map::new(
            |p: u16| s.conns.contains_key(p),
            |p: u16|
                if ports.contains(p) {
                    Connection { received: Seq::empty(), ..s.conns[p] }
                } else {
                    s.conns[p]
                },
        ),
        ..s
    }
}

/// The ports among some whose connections have ended, in their order. With
/// each comes the error that its stream is told: none where the peer closed
/// its side, which the end of the channel tells.
pub open spec fn ended_all(s: Stack, ports: Seq<u16>) -> Seq<(u16, Option<ErrorKind>)>
    decreases ports.len(),
{
    if ports.len() == 0 {
        Seq::empty()
    } else {
        let port = ports.last();
        let earlier = ended_all(s, ports.drop_last());
        if s.conns.contains_key(port) {
            match s.conns[port].status {
                ConnectionStatus::Error(kind) => earlier.push(
                    (
                        port,
                        if kind == ErrorKind::UnexpectedEof {
                            None
                        } else {
                            Some(kind)
                        },
                    ),
                ),
                _ => earlier,
            }
        } else {
            earlier
        }
    }
}

/// The stack after the connections on some ports were closed.
pub open spec fn closed_all(s: Stack, ports: Seq<u16>) -> Stack
    decreases ports.len(),
{
    if ports.len() == 0 {
        s
    } else {
        closed_all(s, ports.drop_last()).without(ports.last())
    }
}

/// The FINs of the connections on some ports, closed in their order.
pub open spec fn fins(s: Stack, ports: Seq<u16>) -> Seq<Seq<u8>>
    decreases ports.len(),
{
    if ports.len() == 0 {
        Seq::empty()
    } else {
        let before = closed_all(s, ports.drop_last());
        let earlier = fins(s, ports.drop_last());
        if before.conns.contains_key(ports.last()) {
            earlier.push(before.fin_packet(before.conns[ports.last()]))
        } else {
            earlier
        }
    }
}

/// A list of ports without some others.
pub open spec fn remove_ports(ports: Seq<u16>, gone: Seq<u16>) -> Seq<u16>
    decreases gone.len(),
{
    if gone.len() == 0 {
        ports
    } else {
        remove_port(remove_ports(ports, gone.drop_last()), gone.last())
    }
}

/// What became of something that was put into the channel of a stream.
#[derive(Debug, Clone, Copy)]
pub struct Outcome {
    pub port: u16,
    /// It was the news that the connection is gone.
    pub gone: bool,
    /// The channel took it.
    pub accepted: bool,
}

/// The ports whose streams are over, in their order: their connection is
/// gone, or nobody reads their channel.
pub open spec fn dead_ports(outcomes: Seq<Outcome>) -> Seq<u16>
    decreases outcomes.len(),
{
    if outcomes.len() == 0 {
        Seq::empty()
    } else {
        let earlier = dead_ports(outcomes.drop_last());
        if outcomes.last().gone || !outcomes.last().accepted {
            earlier.push(outcomes.last().port)
        } else {
            earlier
        }
    }
}

/// The first parts of some pairs.
pub open spec fn firsts(list: Seq<(u16, Option<ErrorKind>)>) -> Seq<u16> {
    list.map_values(|x: (u16, Option<ErrorKind>)| x.0)
}

/// The datagrams that go into a channel: those for the ports of bound
/// sockets.
pub open spec fn routed(s: Stack, sockets: Seq<u16>) -> Seq<Datagram> {
    if sockets.len() == 0 {
        Seq::empty()
    } else {
        s.datagrams.filter(|d: Datagram| sockets.contains(d.destination_port))
    }
}

/// The stack after the datagrams were taken, if any socket is bound.
pub open spec fn after_routing(s: Stack, sockets: Seq<u16>) -> Stack {
    if sockets.len() == 0 {
        s
    } else {
        Stack { datagrams: Seq::empty(), ..s }
    }
}

/// What is left to do after a packet, in this order: write the FINs of the
/// dead streams, tell the streams whose connections have ended, write their
/// FINs, and forward the datagrams. The channels of the dead streams and of
/// those whose connections have ended are no longer needed.
#[derive(Debug)]
pub struct Settlement {
    pub dead: Vec<u16>,
    pub dead_fins: Vec<Vec<u8>>,
    pub ended: Vec<(u16, Option<ErrorKind>)>,
    pub ended_fins: Vec<Vec<u8>>,
    pub datagrams: Vec<UdpDatagram>,
}

/// What settling comes to: the dead streams are closed first; then, of those
/// that are left, the ones whose connections have ended; then the datagrams
/// are taken.
pub open spec fn settles(
    s: Stack,
    channels: Channels,
    dead: Seq<u16>,
    after: Stack,
    left: Channels,
    r: Settlement,
) -> bool {
    let s1 = closed_all(s, dead);
    let streams1 = remove_ports(channels.streams, dead);
    let gone = firsts(ended_all(s1, streams1));
    let s2 = closed_all(s1, gone);
    &&& r.dead@ == dead
    &&& r.dead_fins@.map_values(|p: Vec<u8>| p@) == fins(s, dead)
    &&& r.ended@ == ended_all(s1, streams1)
    &&& r.ended_fins@.map_values(|p: Vec<u8>| p@) == fins(s1, gone)
    &&& r.datagrams@.map_values(|d: UdpDatagram| d@) == routed(s2, channels.sockets)
    &&& after == after_routing(s2, channels.sockets)
    &&& left == (Channels { streams: remove_ports(streams1, gone), ..channels })
}

/// Something for the channel of a stream.
#[derive(Debug)]
pub struct Delivery {
    pub port: u16,
    pub result: Result<Vec<u8>, Error>,
}

impl View for Delivery {
    type V = (u16, Owed);

    open spec fn view(&self) -> (u16, Owed) {
        (
            self.port,
            match self.result {
                Ok(data) => Owed::Data(data@),
                Err(_) => Owed::Gone,
            },
        )
    }
}

/// Which ports have a channel.
#[derive(Debug)]
pub struct Hub {
    streams: Vec<u16>,
    sockets: Vec<u16>,
}

impl View for Hub {
    type V = Channels;

    closed spec fn view(&self) -> Channels {
        Channels { streams: self.streams@, sockets: self.sockets@ }
    }
}

impl Hub {
    /// No port has a channel.
    pub fn new() -> (hub: Hub)
        ensures
            hub@ == (Channels { streams: Seq::empty(), sockets: Seq::empty() }),
            hub@.wf(),
    {
        Hub { streams: Vec::new(), sockets: Vec::new() }
    }

    /// A stream was opened on a port.
    pub fn stream_opened(&mut self, port: u16)
        ensures
            final(self)@ == (Channels {
                streams: add_port(old(self)@.streams, port),
                ..old(self)@
            }),
            old(self)@.wf() ==> final(self)@.wf(),
    {
        if !contains_port(&self.streams, port) {
            self.streams.push(port);
        }
    }

    /// The stream on a port was closed by its owner. Returns the FIN to send,
    /// if its connection was still there.
    pub fn stream_closed(&mut self, adapter: &mut Adapter, port: u16) -> (fin: Option<Vec<u8>>)
        requires
            old(adapter)@.can_send(),
        ensures
            final(self)@ == (Channels {
                streams: remove_port(old(self)@.streams, port),
                ..old(self)@
            }),
            final(adapter)@ == if old(adapter)@.conns.contains_key(port) {
                old(adapter)@.without(port)
            } else {
                old(adapter)@
            },
            match fin {
                Some(packet) => old(adapter)@.conns.contains_key(port) && packet@ == old(
                    adapter,
                )@.fin_packet(old(adapter)@.conns[port]),
                None => !old(adapter)@.conns.contains_key(port),
            },
            old(self)@.wf() ==> final(self)@.wf(),
            old(adapter)@.wf() ==> final(adapter)@.wf(),
    {
        proof {
            if self@.wf() {
                lemma_remove_port_keeps_distinct(self@.streams, port);
            }
        }
        self.streams = without_port(&self.streams, port);
        match adapter.close(port) {
            Ok(packet) => Some(packet),
            Err(_) => None,
        }
    }

    /// A UDP port was bound.
    pub fn socket_bound(&mut self, port: u16)
        ensures
            final(self)@ == (Channels {
                sockets: add_port(old(self)@.sockets, port),
                ..old(self)@
            }),
            old(self)@.wf() ==> final(self)@.wf(),
    {
        if !contains_port(&self.sockets, port) {
            self.sockets.push(port);
        }
    }

    /// The UDP socket on a port was dropped by its owner: the port is free.
    pub fn socket_dropped(&mut self, adapter: &mut Adapter, port: u16)
        ensures
            final(self)@ == (Channels {
                sockets: remove_port(old(self)@.sockets, port),
                ..old(self)@
            }),
            final(adapter)@ == (Stack {
                udp_ports: old(adapter)@.udp_ports.remove(port),
                ..old(adapter)@
            }),
            old(self)@.wf() ==> final(self)@.wf(),
            old(adapter)@.wf() ==> final(adapter)@.wf(),
    {
        proof {
            if self@.wf() {
                lemma_remove_port_keeps_distinct(self@.sockets, port);
            }
        }
        self.sockets = without_port(&self.sockets, port);
        adapter.unbind_udp(port);
    }

    /// Takes what has arrived for the streams, and says for which of them the
    /// connection is gone.
    pub fn collect(&self, adapter: &mut Adapter) -> (deliveries: Vec<Delivery>)
        requires
            self@.wf(),
        ensures
            deliveries@.map_values(|d: Delivery| d@) == owed_all(old(adapter)@, self@.streams),
            forall|i: int|
                0 <= i < deliveries@.len() ==> ((#[trigger] deliveries@[i]).result matches Err(e)
                    ==> not_connected(e)),
            final(adapter)@ == emptied(old(adapter)@, self@.streams),
            old(adapter)@.wf() ==> final(adapter)@.wf(),
    {
        let mut deliveries: Vec<Delivery> = Vec::new();
        let mut i: usize = 0;
        let ghost start = adapter@;
        let ghost ports = self@.streams;
        proof {
            assert(emptied(start, ports.take(0)).conns =~= start.conns);
            assert(owed_all(start, ports.take(0)) =~= Seq::empty());
        }
        while i < self.streams.len()
            invariant
                i <= ports.len(),
                ports == self.streams@,
                ports.no_duplicates(),
                deliveries@.map_values(|d: Delivery| d@) == owed_all(start, ports.take(i as int)),
                forall|j: int|
                    0 <= j < deliveries@.len() ==> ((#[trigger] deliveries@[j]).result matches Err(
                        e,
                    ) ==> not_connected(e)),
                adapter@ == emptied(start, ports.take(i as int)),
            decreases ports.len() - i,
        {
            let port: u16 = self.streams[i];
            let ghost views = deliveries@.map_values(|d: Delivery| d@);
            proof {
                lemma_take_one(ports, i as int);
                assert(!ports.take(i as int).contains(port));
            }
            let result = adapter.uncache_all(port);
            proof {
                assert(adapter@.conns =~= emptied(start, ports.take(i + 1)).conns);
            }
            let news: bool = match &result {
                Ok(data) => data.len() > 0,
                Err(_) => true,
            };
            if news {
                let delivery = Delivery { port, result };
                deliveries.push(delivery);
                assert(deliveries@.map_values(|d: Delivery| d@) =~= views.push(delivery@));
            }
            i += 1;
        }
        assert(ports.take(i as int) =~= ports);
        deliveries
    }

    /// Closes streams: they lose their channels, and their connections are
    /// forgotten. Returns the FINs to send.
    fn bury(&mut self, adapter: &mut Adapter, dead: &Vec<u16>) -> (packets: Vec<Vec<u8>>)
        requires
            old(adapter)@.can_send(),
        ensures
            final(self)@ == (Channels {
                streams: remove_ports(old(self)@.streams, dead@),
                ..old(self)@
            }),
            final(adapter)@ == closed_all(old(adapter)@, dead@),
            packets@.map_values(|p: Vec<u8>| p@) == fins(old(adapter)@, dead@),
            final(adapter)@.can_send(),
            old(self)@.wf() ==> final(self)@.wf(),
            old(adapter)@.wf() ==> final(adapter)@.wf(),
    {
        let mut packets: Vec<Vec<u8>> = Vec::new();
        let mut i: usize = 0;
        let ghost start = adapter@;
        let ghost before = self@;
        assert(packets@.map_values(|p: Vec<u8>| p@) =~= fins(start, dead@.take(0)));
        while i < dead.len()
            invariant
                i <= dead@.len(),
                self@ == (Channels {
                    streams: remove_ports(before.streams, dead@.take(i as int)),
                    ..before
                }),
                adapter@ == closed_all(start, dead@.take(i as int)),
                adapter@.can_send(),
                packets@.map_values(|p: Vec<u8>| p@) == fins(start, dead@.take(i as int)),
                before.wf() ==> self@.wf(),
                start.wf() ==> adapter@.wf(),
            decreases dead@.len() - i,
        {
            let port: u16 = dead[i];
            let ghost views = packets@.map_values(|p: Vec<u8>| p@);
            let ghost here = adapter@;
            assert(dead@.take(i + 1).drop_last() =~= dead@.take(i as int));
            let fin = self.stream_closed(adapter, port);
            proof {
                if !here.conns.contains_key(port) {
                    assert(here.without(port) =~= here);
                }
            }
            if let Some(packet) = fin {
                packets.push(packet);
                assert(packets@.map_values(|p: Vec<u8>| p@) =~= views.push(packet@));
            }
            i += 1;
        }
        assert(dead@.take(i as int) =~= dead@);
        packets
    }

    /// The streams whose connections have ended. With each comes the error
    /// that it is told: none where the peer closed its side.
    fn ended(&self, adapter: &Adapter) -> (list: Vec<(u16, Option<ErrorKind>)>)
        ensures
            list@ == ended_all(adapter@, self@.streams),
    {
        let mut list: Vec<(u16, Option<ErrorKind>)> = Vec::new();
        let mut i: usize = 0;
        assert(list@ =~= ended_all(adapter@, self@.streams.take(0)));
        while i < self.streams.len()
            invariant
                i <= self.streams@.len(),
                list@ == ended_all(adapter@, self.streams@.take(i as int)),
            decreases self.streams@.len() - i,
        {
            let port: u16 = self.streams[i];
            assert(self.streams@.take(i + 1).drop_last() =~= self.streams@.take(i as int));
            if let Ok(status) = adapter.get_status(port) {
                if let ConnectionStatus::Error(kind) = status {
                    let told: Option<ErrorKind> = if kind == ErrorKind::UnexpectedEof {
                        None
                    } else {
                        Some(kind)
                    };
                    list.push((port, told));
                }
            }
            i += 1;
        }
        assert(self.streams@.take(i as int) =~= self.streams@);
        list
    }

    /// The transport has failed: every stream is told, and all are closed.
    /// Returns the ports to tell and the FINs to send.
    pub fn transport_failed(&mut self, adapter: &mut Adapter) -> (r: (Vec<u16>, Vec<Vec<u8>>))
        requires
            old(adapter)@.can_send(),
        ensures
            r.0@ == old(self)@.streams,
            r.1@.map_values(|p: Vec<u8>| p@) == fins(old(adapter)@, old(self)@.streams),
            final(self)@ == (Channels { streams: Seq::empty(), ..old(self)@ }),
            final(adapter)@ == closed_all(old(adapter)@, old(self)@.streams),
            old(self)@.wf() ==> final(self)@.wf(),
            old(adapter)@.wf() ==> final(adapter)@.wf(),
    {
        let mut ports: Vec<u16> = Vec::new();
        std::mem::swap(&mut ports, &mut self.streams);
        let packets = self.bury(adapter, &ports);
        proof {
            lemma_remove_from_empty(ports@);
        }
        (ports, packets)
    }

    /// Takes the datagrams that have arrived, if any socket is bound, and
    /// drops those for ports without a channel.
    fn route(&self, adapter: &mut Adapter) -> (datagrams: Vec<UdpDatagram>)
        ensures
            datagrams@.map_values(|d: UdpDatagram| d@) == routed(old(adapter)@, self@.sockets),
            final(adapter)@ == after_routing(old(adapter)@, self@.sockets),
            old(adapter)@.wf() ==> final(adapter)@.wf(),
    {
        let mut kept: Vec<UdpDatagram> = Vec::new();
        if self.sockets.len() == 0 {
            assert(kept@.map_values(|d: UdpDatagram| d@) =~= Seq::empty());
            return kept;
        }
        let ghost keep = |d: Datagram| self@.sockets.contains(d.destination_port);
        let ghost all = adapter@.datagrams;
        let drained = adapter.udp_drain();
        let ghost items = drained@;
        assert(kept@.map_values(|d: UdpDatagram| d@) =~= all.take(0).filter(keep)) by {
            reveal(Seq::filter);
        }
        for datagram in it: drained
            invariant
                it.seq() == items,
                items.map_values(|d: UdpDatagram| d@) == all,
                keep == (|d: Datagram| self@.sockets.contains(d.destination_port)),
                kept@.map_values(|d: UdpDatagram| d@) == all.take(it.index()).filter(keep),
        {
            let ghost views = kept@.map_values(|d: UdpDatagram| d@);
            proof {
                let i = it.index();
                assert(all[i] == datagram@);
                assert(all.take(i + 1) =~= all.take(i).push(datagram@));
                all.take(i).lemma_filter_push(datagram@, keep);
            }
            if contains_port(&self.sockets, datagram.destination_port) {
                kept.push(datagram);
                assert(kept@.map_values(|d: UdpDatagram| d@) =~= views.push(datagram@));
            }
        }
        assert(all.take(all.len() as int) =~= all);
        kept
    }

    /// What follows the deliveries after a packet: streams that are over are
    /// closed, those whose connections have ended are told and closed, and
    /// the datagrams are handed out.
    pub fn settle(&mut self, adapter: &mut Adapter, outcomes: &Vec<Outcome>) -> (r: Settlement)
        requires
            old(adapter)@.can_send(),
        ensures
            settles(
                old(adapter)@,
                old(self)@,
                dead_ports(outcomes@),
                final(adapter)@,
                final(self)@,
                r,
            ),
            old(self)@.wf() ==> final(self)@.wf(),
            old(adapter)@.wf() ==> final(adapter)@.wf(),
    {
        let dead = list_dead(outcomes);
        let dead_fins = self.bury(adapter, &dead);
        let ended = self.ended(adapter);
        let gone = list_firsts(&ended);
        let ended_fins = self.bury(adapter, &gone);
        let datagrams = self.route(adapter);
        Settlement { dead, dead_fins, ended, ended_fins, datagrams }
    }
}

fn list_dead(outcomes: &Vec<Outcome>) -> (dead: Vec<u16>)
    ensures
        dead@ == dead_ports(outcomes@),
{
    let mut dead: Vec<u16> = Vec::new();
    let mut i: usize = 0;
    assert(dead@ =~= dead_ports(outcomes@.take(0)));
    while i < outcomes.len()
        invariant
            i <= outcomes@.len(),
            dead@ == dead_ports(outcomes@.take(i as int)),
        decreases outcomes@.len() - i,
    {
        assert(outcomes@.take(i + 1).drop_last() =~= outcomes@.take(i as int));
        if outcomes[i].gone || !outcomes[i].accepted {
            dead.push(outcomes[i].port);
        }
        i += 1;
    }
    assert(outcomes@.take(i as int) =~= outcomes@);
    dead
}

fn list_firsts(list: &Vec<(u16, Option<ErrorKind>)>) -> (out: Vec<u16>)
    ensures
        out@ == firsts(list@),
{
    let mut out: Vec<u16> = Vec::new();
    let mut i: usize = 0;
    while i < list.len()
        invariant
            i <= list@.len(),
            out@ == firsts(list@).take(i as int),
        decreases list@.len() - i,
    {
        out.push(list[i].0);
        assert(firsts(list@).take(i + 1) =~= firsts(list@).take(i as int).push(list@[i as int].0));
        i += 1;
    }
    assert(firsts(list@).take(i as int) =~= firsts(list@));
    out
}

proof fn lemma_take_one(ports: Seq<u16>, i: int)
    requires
        0 <= i < ports.len(),
    ensures
        ports.take(i + 1).drop_last() == ports.take(i),
        ports.take(i + 1).last() == ports[i],
        forall|p: u16| #[trigger]
            ports.take(i + 1).contains(p) <==> ports.take(i).contains(p) || p == ports[i],
{
    assert(ports.take(i + 1).drop_last() =~= ports.take(i));
    assert forall|p: u16| #[trigger]
        ports.take(i + 1).contains(p) <==> ports.take(i).contains(p) || p == ports[i] by {
        if ports.take(i).contains(p) {
            let j = choose|j: int| 0 <= j < i && ports.take(i)[j] == p;
            assert(ports.take(i + 1)[j] == p);
        }
        if p == ports[i] {
            assert(ports.take(i + 1)[i] == p);
        }
        if ports.take(i + 1).contains(p) && p != ports[i] {
            let more = ports.take(i + 1);
            let j = choose|j: int| 0 <= j < more.len() && more[j] == p;
            assert(ports.take(i)[j] == p);
        }
    }
}

pub proof fn lemma_remove_port_keeps_distinct(ports: Seq<u16>, port: u16)
    requires
        ports.no_duplicates(),
    ensures
        remove_port(ports, port).no_duplicates(),
    decreases ports.len(),
{
    if ports.len() > 0 {
        let earlier = ports.drop_last();
        let last = ports.last();
        lemma_remove_port_keeps_distinct(earlier, port);
        assert(ports =~= earlier.push(last));
        earlier.lemma_filter_push(last, other_than(port));
        if remove_port(earlier, port).contains(last) {
            earlier.lemma_filter_contains_rev(other_than(port), last);
        }
    } else {
        reveal(Seq::filter);
    }
}

proof fn lemma_remove_from_empty(gone: Seq<u16>)
    ensures
        remove_ports(Seq::empty(), gone) == Seq::<u16>::empty(),
    decreases gone.len(),
{
    if gone.len() > 0 {
        lemma_remove_from_empty(gone.drop_last());
        reveal(Seq::filter);
    }
}

// ---------------------------------------------------------------------------
// Laws of the hub
// ---------------------------------------------------------------------------

pub proof fn lemma_remove_ports(ports: Seq<u16>, gone: Seq<u16>, p: u16)
    ensures
        remove_ports(ports, gone).contains(p) <==> ports.contains(p) && !gone.contains(p),
    decreases gone.len(),
{
    if gone.len() > 0 {
        let earlier = gone.drop_last();
        let last = gone.last();
        let kept = remove_ports(ports, earlier);
        lemma_remove_ports(ports, earlier, p);
        assert(gone =~= earlier.push(last));
        assert(gone.contains(p) <==> earlier.contains(p) || p == last) by {
            if earlier.contains(p) {
                let j = choose|j: int| 0 <= j < earlier.len() && earlier[j] == p;
                assert(gone[j] == p);
            }
            if p == last {
                assert(gone[gone.len() - 1] == p);
            }
        }
        if kept.contains(p) && p != last {
            let j = choose|j: int| 0 <= j < kept.len() && kept[j] == p;
            kept.lemma_filter_contains(other_than(last), j);
        }
        if remove_port(kept, last).contains(p) {
            kept.lemma_filter_contains_rev(other_than(last), p);
            let out = kept.filter(other_than(last));
            let j = choose|j: int| 0 <= j < out.len() && out[j] == p;
            kept.lemma_filter_pred(other_than(last), j);
        }
    }
}

pub proof fn lemma_closed_all(s: Stack, ports: Seq<u16>, p: u16)
    ensures
        closed_all(s, ports).conns.contains_key(p) <==> s.conns.contains_key(p) && !ports.contains(
            p,
        ),
        closed_all(s, ports).conns.contains_key(p) ==> closed_all(s, ports).conns[p]
            == s.conns[p],
    decreases ports.len(),
{
    if ports.len() > 0 {
        let earlier = ports.drop_last();
        let last = ports.last();
        lemma_closed_all(s, earlier, p);
        assert(ports.contains(p) <==> earlier.contains(p) || p == last) by {
            assert(ports =~= earlier.push(last));
            if earlier.contains(p) {
                let j = choose|j: int| 0 <= j < earlier.len() && earlier[j] == p;
                assert(ports[j] == p);
            }
            if p == last {
                assert(ports[ports.len() - 1] == p);
            }
        }
    }
}

pub proof fn lemma_ended_all(s: Stack, ports: Seq<u16>, p: u16)
    ensures
        firsts(ended_all(s, ports)).contains(p) <==> ports.contains(p) && s.conns.contains_key(p)
            && s.conns[p].status is Error,
    decreases ports.len(),
{
    let list = ended_all(s, ports);
    if ports.len() > 0 {
        let earlier = ports.drop_last();
        let last = ports.last();
        let before = ended_all(s, earlier);
        lemma_ended_all(s, earlier, p);
        assert(ports.contains(p) <==> earlier.contains(p) || p == last) by {
            assert(ports =~= earlier.push(last));
            if earlier.contains(p) {
                let j = choose|j: int| 0 <= j < earlier.len() && earlier[j] == p;
                assert(ports[j] == p);
            }
            if p == last {
                assert(ports[ports.len() - 1] == p);
            }
        }
        if s.conns.contains_key(last) && s.conns[last].status is Error {
            assert(firsts(list) =~= firsts(before).push(last));
            if firsts(before).contains(p) {
                let j = choose|j: int| 0 <= j < firsts(before).len() && firsts(before)[j] == p;
                assert(firsts(list)[j] == p);
            }
            if p == last {
                assert(firsts(list)[firsts(list).len() - 1] == p);
            }
        }
    }
}

/// After a packet was dealt with, every stream that is left has a connection
/// that has not ended, provided that each stream whose connection was gone
/// was among the dead.
pub proof fn law_settling_leaves_live_streams(
    s: Stack,
    channels: Channels,
    dead: Seq<u16>,
    after: Stack,
    left: Channels,
    r: Settlement,
)
    requires
        settles(s, channels, dead, after, left, r),
        forall|p: u16|
            channels.streams.contains(p) && !s.conns.contains_key(p) ==> #[trigger] dead.contains(
                p,
            ),
    ensures
        forall|p: u16| #[trigger]
            left.streams.contains(p) ==> {
                &&& channels.streams.contains(p)
                &&& after.conns.contains_key(p)
                &&& after.conns[p] == s.conns[p]
                &&& !(s.conns[p].status is Error)
            },
{
    let s1 = closed_all(s, dead);
    let streams1 = remove_ports(channels.streams, dead);
    let gone = firsts(ended_all(s1, streams1));
    assert forall|p: u16| #[trigger] left.streams.contains(p) implies {
        &&& channels.streams.contains(p)
        &&& after.conns.contains_key(p)
        &&& after.conns[p] == s.conns[p]
        &&& !(s.conns[p].status is Error)
    } by {
        lemma_remove_ports(channels.streams, dead, p);
        lemma_remove_ports(streams1, gone, p);
        lemma_closed_all(s, dead, p);
        lemma_closed_all(s1, gone, p);
        lemma_ended_all(s1, streams1, p);
    }
}

/// Every stream gets its own bytes, and all of them: taking what has arrived
/// hands each stream what waited for it and leaves nothing behind.
pub proof fn law_collecting_hands_over_everything(s: Stack, ports: Seq<u16>, port: u16)
    requires
        ports.contains(port),
        s.conns.contains_key(port),
        s.conns[port].received.len() > 0,
    ensures
        owed_all(s, ports).contains((port, Owed::Data(s.conns[port].received))),
        emptied(s, ports).conns[port].received == Seq::<u8>::empty(),
    decreases ports.len(),
{
    let earlier = ports.drop_last();
    let what = (port, Owed::Data(s.conns[port].received));
    if ports.last() == port {
        assert(owed_all(s, ports).last() == what);
    } else {
        let j = choose|j: int| 0 <= j < ports.len() && ports[j] == port;
        assert(earlier[j] == port);
        law_collecting_hands_over_everything(s, earlier, port);
        let list = owed_all(s, earlier);
        let k = choose|k: int| 0 <= k < list.len() && list[k] == what;
        assert(owed_all(s, ports)[k] == what);
    }
}

/// Bytes come before errors: taking what has arrived ends no connection and
/// changes nothing of which ones have ended, so a stream that is told of an
/// error has been handed its bytes.
pub proof fn law_bytes_come_before_errors(s: Stack, ports: Seq<u16>, list: Seq<u16>)
    ensures
        ended_all(emptied(s, ports), list) == ended_all(s, list),
    decreases list.len(),
{
    if list.len() > 0 {
        law_bytes_come_before_errors(s, ports, list.drop_last());
    }
}

} // verus!
