//! What the calls of a hub and of the handles do: who gets what, who is told
//! what, and who is closed.

use vstd::prelude::*;

use crate::adapter::Adapter;
use crate::connection::{Connection, ConnectionStatus};
use crate::endpoint::{
    fitting, poll_flush, request_outcome, socket_outcome, write_outcome, FlushPoll, Received, Reply,
    StreamReader, WriteReply,
};
use crate::error::{Error, ErrorKind};
use crate::handle::{
    closed_all, dead_ports, ended_all, fins, firsts, lemma_closed_all, lemma_ended_all,
    lemma_remove_port_keeps_distinct, lemma_remove_ports, other_than, owed_all, remove_port, remove_ports, Channels, Delivery, Hub,
    Outcome, Owed, Settlement,
};
use crate::interface::{same_but_buffers, says_not_connected};
use crate::packets::{Datagram, UdpDatagram};
use crate::peer::{carries_segment, flags_of, law_fin_packet, same_but, same_outside, segment_of};
use crate::stack::{lemma_same_packets, Stack};

verus! {

/// A packet is the FIN of a connection.
pub open spec fn is_fin_of(s: Stack, b: Seq<u8>, c: Connection) -> bool {
    carries_segment(
        s,
        b,
        segment_of(c, c.seq, c.ack, flags_of(true, false, false, true), Seq::empty()),
    )
}

// ---------------------------------------------------------------------------
// Channels come and go
// ---------------------------------------------------------------------------

/// A new hub has no channels.
pub proof fn law_new_hub(hub: Hub)
    requires
        call_ensures(Hub::new, (), hub),
    ensures
        hub@.streams.len() == 0 && hub@.sockets.len() == 0,
{
}

/// Opening adds a channel, once, behind the others; of streams and sockets
/// alike.
pub proof fn law_channels_are_added(hub: &mut Hub, port: u16, other: &mut Hub, socket: u16)
    requires
        call_ensures(Hub::stream_opened, (hub, port), ()),
        call_ensures(Hub::socket_bound, (other, socket), ()),
    ensures
        old(hub)@.streams.contains(port) ==> final(hub)@.streams == old(hub)@.streams,
        !old(hub)@.streams.contains(port) ==> final(hub)@.streams == old(hub)@.streams.push(port),
        final(hub)@.sockets == old(hub)@.sockets,
        old(other)@.sockets.contains(socket) ==> final(other)@.sockets == old(other)@.sockets,
        !old(other)@.sockets.contains(socket) ==> final(other)@.sockets
            == old(other)@.sockets.push(socket),
        final(other)@.streams == old(other)@.streams,
{
}

proof fn lemma_remove_absent(ports: Seq<u16>, port: u16)
    requires
        !ports.contains(port),
    ensures
        remove_port(ports, port) == ports,
    decreases ports.len(),
{
    reveal(Seq::filter);
    if ports.len() > 0 {
        let earlier = ports.drop_last();
        assert(ports[ports.len() - 1] != port);
        assert(!earlier.contains(port)) by {
            if earlier.contains(port) {
                let j = choose|j: int| 0 <= j < earlier.len() && earlier[j] == port;
                assert(ports[j] == port);
            }
        }
        lemma_remove_absent(earlier, port);
        assert(ports =~= earlier.push(ports.last()));
        earlier.lemma_filter_push(ports.last(), other_than(port));
    }
}

proof fn lemma_remove_one(pre: Seq<u16>, port: u16, post: Seq<u16>)
    requires
        !pre.contains(port),
        !post.contains(port),
    ensures
        remove_port(pre.push(port) + post, port) == pre + post,
{
    lemma_remove_absent(pre, port);
    lemma_remove_absent(post, port);
    pre.lemma_filter_push(port, other_than(port));
    Seq::filter_distributes_over_add(pre.push(port), post, other_than(port));
}

/// Closing a stream takes its channel out and leaves the others in their order;
/// its connection is forgotten, and if there was one, its FIN is handed out.
pub proof fn law_stream_closed(
    hub: &mut Hub,
    a: &mut Adapter,
    port: u16,
    fin: Option<Vec<u8>>,
    pre: Seq<u16>,
    post: Seq<u16>,
)
    requires
        old(a)@.can_send(),
        call_ensures(Hub::stream_closed, (hub, a, port), fin),
        !pre.contains(port) && !post.contains(port),
    ensures
        old(hub)@.streams == pre.push(port) + post ==> final(hub)@.streams == pre + post,
        !old(hub)@.streams.contains(port) ==> final(hub)@.streams == old(hub)@.streams,
        final(hub)@.sockets == old(hub)@.sockets,
        same_but(old(a)@, final(a)@, port),
        !final(a)@.conns.contains_key(port),
        fin is Some <==> old(a)@.conns.contains_key(port),
        fin matches Some(b) ==> is_fin_of(old(a)@, b@, old(a)@.conns[port]),
{
    lemma_remove_one(pre, port, post);
    if !old(hub)@.streams.contains(port) {
        lemma_remove_absent(old(hub)@.streams, port);
    }
    if old(a)@.conns.contains_key(port) {
        law_fin_packet(old(a)@, old(a)@.conns[port]);
    }
}

/// Dropping a socket takes its channel out and frees its port.
pub proof fn law_socket_dropped(
    hub: &mut Hub,
    a: &mut Adapter,
    port: u16,
    pre: Seq<u16>,
    post: Seq<u16>,
)
    requires
        call_ensures(Hub::socket_dropped, (hub, a, port), ()),
        !pre.contains(port) && !post.contains(port),
    ensures
        old(hub)@.sockets == pre.push(port) + post ==> final(hub)@.sockets == pre + post,
        !old(hub)@.sockets.contains(port) ==> final(hub)@.sockets == old(hub)@.sockets,
        final(hub)@.streams == old(hub)@.streams,
        final(a)@.conns == old(a)@.conns,
        same_outside(old(a)@, (Stack { udp_ports: old(a)@.udp_ports, ..final(a)@ })),
        forall|p: u16| #[trigger]
            final(a)@.udp_ports.contains(p) <==> old(a)@.udp_ports.contains(p) && p != port,
{
    lemma_remove_one(pre, port, post);
    if !old(hub)@.sockets.contains(port) {
        lemma_remove_absent(old(hub)@.sockets, port);
    }
}

// ---------------------------------------------------------------------------
// What is handed out
// ---------------------------------------------------------------------------

proof fn lemma_owed_all(s: Stack, ports: Seq<u16>)
    requires
        ports.no_duplicates(),
    ensures
        forall|i: int|
            0 <= i < owed_all(s, ports).len() ==> {
                let (port, what) = #[trigger] owed_all(s, ports)[i];
                &&& ports.contains(port)
                &&& match what {
                    Owed::Gone => !s.conns.contains_key(port),
                    Owed::Data(data) => {
                        &&& s.conns.contains_key(port)
                        &&& data == s.conns[port].received
                        &&& data.len() > 0
                    },
                }
            },
        forall|i: int, j: int|
            0 <= i < j < owed_all(s, ports).len() ==> (#[trigger] owed_all(s, ports)[i]).0 != (
            #[trigger] owed_all(s, ports)[j]).0,
        forall|p: u16| #[trigger]
            ports.contains(p) && (!s.conns.contains_key(p) || s.conns[p].received.len() > 0)
                ==> exists|i: int|
                0 <= i < owed_all(s, ports).len() && (#[trigger] owed_all(s, ports)[i]).0 == p,
    decreases ports.len(),
{
    let list = owed_all(s, ports);
    if ports.len() > 0 {
        let earlier = ports.drop_last();
        let last = ports.last();
        let before = owed_all(s, earlier);
        assert(ports =~= earlier.push(last));
        lemma_owed_all(s, earlier);
        assert forall|p: u16| earlier.contains(p) implies #[trigger] ports.contains(p) && p
            != last by {
            let j = choose|j: int| 0 <= j < earlier.len() && earlier[j] == p;
            assert(ports[j] == p);
        }
        assert(ports[ports.len() - 1] == last);
        assert forall|i: int| 0 <= i < list.len() implies {
            let (port, what) = #[trigger] list[i];
            &&& ports.contains(port)
            &&& match what {
                Owed::Gone => !s.conns.contains_key(port),
                Owed::Data(data) => {
                    &&& s.conns.contains_key(port)
                    &&& data == s.conns[port].received
                    &&& data.len() > 0
                },
            }
        } by {
            if i < before.len() {
                assert(list[i] == before[i]);
                assert(earlier.contains(before[i].0));
            }
        }
        assert forall|i: int, j: int| 0 <= i < j < list.len() implies (#[trigger] list[i]).0 != (
        #[trigger] list[j]).0 by {
            assert(list[i] == before[i]);
            assert(earlier.contains(before[i].0));
            if j < before.len() {
                assert(list[j] == before[j]);
            }
        }
        assert forall|p: u16| #[trigger]
            ports.contains(p) && (!s.conns.contains_key(p) || s.conns[p].received.len()
                > 0) implies exists|i: int| 0 <= i < list.len() && (#[trigger] list[i]).0 == p by {
            if p == last {
                assert(list[list.len() - 1].0 == p);
            } else {
                let j = choose|j: int| 0 <= j < ports.len() && ports[j] == p;
                assert(earlier[j] == p);
                assert(earlier.contains(p));
                let i = choose|i: int| 0 <= i < before.len() && (#[trigger] before[i]).0 == p;
                assert(list[i] == before[i]);
            }
        }
    }
}

/// Collecting hands every stream what has arrived for it, all of it and once,
/// or the news that its connection is gone; a stream for which neither holds
/// gets nothing, and no other stream's bytes are touched.
pub proof fn law_collect(hub: &Hub, a: &mut Adapter, deliveries: Vec<Delivery>)
    requires
        hub@.wf(),
        call_ensures(Hub::collect, (hub, a), deliveries),
    ensures
        forall|i: int|
            0 <= i < deliveries@.len() ==> {
                let d = #[trigger] deliveries@[i];
                &&& hub@.streams.contains(d.port)
                &&& match d.result {
                    Ok(data) => {
                        &&& old(a)@.conns.contains_key(d.port)
                        &&& data@ == old(a)@.conns[d.port].received
                        &&& data@.len() > 0
                    },
                    Err(e) => !old(a)@.conns.contains_key(d.port) && says_not_connected(e),
                }
            },
        forall|i: int, j: int|
            0 <= i < j < deliveries@.len() ==> (#[trigger] deliveries@[i]).port != (
            #[trigger] deliveries@[j]).port,
        forall|p: u16| #[trigger]
            hub@.streams.contains(p) && (!old(a)@.conns.contains_key(p) || old(
                a,
            )@.conns[p].received.len() > 0) ==> exists|i: int|
                0 <= i < deliveries@.len() && (#[trigger] deliveries@[i]).port == p,
        same_outside(old(a)@, final(a)@),
        forall|p: u16| #[trigger]
            final(a)@.conns.contains_key(p) <==> old(a)@.conns.contains_key(p),
        forall|p: u16| #[trigger]
            old(a)@.conns.contains_key(p) ==> {
                let c = old(a)@.conns[p];
                let d = final(a)@.conns[p];
                &&& same_but_buffers(c, d)
                &&& d.queued == c.queued
                &&& hub@.streams.contains(p) ==> d.received.len() == 0
                &&& !hub@.streams.contains(p) ==> d.received == c.received
            },
{
    let s = old(a)@;
    let ports = hub@.streams;
    let list = owed_all(s, ports);
    lemma_owed_all(s, ports);
    let views = deliveries@.map_values(|d: Delivery| d@);
    assert(views == list);
    assert forall|i: int| 0 <= i < deliveries@.len() implies list[i] == (
    #[trigger] deliveries@[i])@ by {
        assert(views[i] == deliveries@[i]@);
    }
    assert forall|i: int, j: int| 0 <= i < j < deliveries@.len() implies (
    #[trigger] deliveries@[i]).port != (#[trigger] deliveries@[j]).port by {
        assert(list[i].0 != list[j].0);
    }
    assert forall|p: u16| #[trigger]
        hub@.streams.contains(p) && (!s.conns.contains_key(p) || s.conns[p].received.len()
            > 0) implies exists|i: int|
        0 <= i < deliveries@.len() && (#[trigger] deliveries@[i]).port == p by {
        let i = choose|i: int| 0 <= i < list.len() && (#[trigger] list[i]).0 == p;
        assert(deliveries@[i].port == p);
    }
}

// ---------------------------------------------------------------------------
// Who is closed
// ---------------------------------------------------------------------------

proof fn lemma_outside(s: Stack, ports: Seq<u16>)
    ensures
        same_outside(s, closed_all(s, ports)),
    decreases ports.len(),
{
    if ports.len() > 0 {
        lemma_outside(s, ports.drop_last());
    }
}

/// One port more adds the FIN of its connection, if there is one and it was not
/// closed before.
proof fn lemma_one_more_fin(s: Stack, earlier: Seq<u16>, last: u16)
    ensures
        fins(s, earlier.push(last)) == if s.conns.contains_key(last) && !earlier.contains(last) {
            fins(s, earlier).push(s.fin_packet(s.conns[last]))
        } else {
            fins(s, earlier)
        },
{
    let ports = earlier.push(last);
    let here = closed_all(s, earlier);
    assert(ports.drop_last() =~= earlier);
    lemma_outside(s, earlier);
    lemma_closed_all(s, earlier, last);
    if s.conns.contains_key(last) {
        lemma_same_packets(s, here, s.conns[last]);
    }
}

proof fn lemma_contains_push<T>(list: Seq<T>, x: T, y: T)
    ensures
        list.push(x).contains(y) <==> list.contains(y) || y == x,
{
    if list.contains(y) {
        let i = choose|i: int| 0 <= i < list.len() && list[i] == y;
        assert(list.push(x)[i] == y);
    }
    assert(list.push(x)[list.len() as int] == x);
    if list.push(x).contains(y) && y != x {
        let i = choose|i: int| 0 <= i < list.push(x).len() && list.push(x)[i] == y;
        assert(list[i] == y);
    }
}

/// A packet is among the FINs of some ports exactly when it is the FIN of the
/// connection on one of them.
pub proof fn law_fins_are_those_of_the_ports(s: Stack, ports: Seq<u16>, b: Seq<u8>)
    ensures
        fins(s, ports).contains(b) <==> exists|p: u16| #[trigger]
            ports.contains(p) && s.conns.contains_key(p) && b == s.fin_packet(s.conns[p]),
        fins(s, ports).len() <= ports.len(),
    decreases ports.len(),
{
    if ports.len() > 0 {
        let earlier = ports.drop_last();
        let last = ports.last();
        assert(ports =~= earlier.push(last));
        law_fins_are_those_of_the_ports(s, earlier, b);
        lemma_one_more_fin(s, earlier, last);
        lemma_contains_push(fins(s, earlier), s.fin_packet(s.conns[last]), b);
        if fins(s, earlier).contains(b) {
            let p = choose|p: u16| #[trigger]
                earlier.contains(p) && s.conns.contains_key(p) && b == s.fin_packet(s.conns[p]);
            lemma_contains_push(earlier, last, p);
        }
        lemma_contains_push(earlier, last, last);
        if exists|p: u16| #[trigger]
            ports.contains(p) && s.conns.contains_key(p) && b == s.fin_packet(s.conns[p]) {
            let p = choose|p: u16| #[trigger]
                ports.contains(p) && s.conns.contains_key(p) && b == s.fin_packet(s.conns[p]);
            lemma_contains_push(earlier, last, p);
        }
    }
}

/// The FINs of different ports, each with a connection, are one for each port,
/// in the ports' order.
pub proof fn law_one_fin_each(s: Stack, ports: Seq<u16>)
    requires
        ports.no_duplicates(),
        forall|i: int| 0 <= i < ports.len() ==> s.conns.contains_key(#[trigger] ports[i]),
    ensures
        fins(s, ports).len() == ports.len(),
        forall|i: int|
            0 <= i < ports.len() ==> #[trigger] fins(s, ports)[i] == s.fin_packet(
                s.conns[ports[i]],
            ),
    decreases ports.len(),
{
    if ports.len() > 0 {
        let earlier = ports.drop_last();
        let last = ports.last();
        assert(ports =~= earlier.push(last));
        assert forall|i: int| 0 <= i < earlier.len() implies s.conns.contains_key(
            #[trigger] earlier[i],
        ) by {
            assert(earlier[i] == ports[i]);
        }
        law_one_fin_each(s, earlier);
        assert(s.conns.contains_key(ports[ports.len() - 1]));
        assert(!earlier.contains(last)) by {
            if earlier.contains(last) {
                let j = choose|j: int| 0 <= j < earlier.len() && earlier[j] == last;
                assert(ports[j] == ports[ports.len() - 1]);
            }
        }
        lemma_one_more_fin(s, earlier, last);
        assert forall|i: int| 0 <= i < ports.len() implies #[trigger] fins(s, ports)[i]
            == s.fin_packet(s.conns[ports[i]]) by {
            if i < earlier.len() {
                assert(fins(s, ports)[i] == fins(s, earlier)[i]);
                assert(earlier[i] == ports[i]);
            }
        }
    }
}

proof fn lemma_dead_ports(outcomes: Seq<Outcome>, p: u16)
    ensures
        dead_ports(outcomes).contains(p) <==> exists|i: int|
            0 <= i < outcomes.len() && (#[trigger] outcomes[i]).port == p && (outcomes[i].gone
                || !outcomes[i].accepted),
    decreases outcomes.len(),
{
    let list = dead_ports(outcomes);
    if outcomes.len() > 0 {
        let earlier = outcomes.drop_last();
        let before = dead_ports(earlier);
        let last = outcomes.last();
        lemma_dead_ports(earlier, p);
        let adds = last.gone || !last.accepted;
        if before.contains(p) {
            let j = choose|j: int| 0 <= j < before.len() && before[j] == p;
            assert(list[j] == p);
            let i = choose|i: int|
                0 <= i < earlier.len() && (#[trigger] earlier[i]).port == p && (earlier[i].gone
                    || !earlier[i].accepted);
            assert(outcomes[i] == earlier[i]);
        }
        if adds && last.port == p {
            assert(list[list.len() - 1] == p);
            assert(outcomes[outcomes.len() - 1] == last);
        }
        if list.contains(p) && !before.contains(p) {
            let j = choose|j: int| 0 <= j < list.len() && list[j] == p;
            if j < before.len() {
                assert(before[j] == p);
            }
            assert(adds && last.port == p);
        }
        if exists|i: int|
            0 <= i < outcomes.len() && (#[trigger] outcomes[i]).port == p && (outcomes[i].gone
                || !outcomes[i].accepted) {
            let i = choose|i: int|
                0 <= i < outcomes.len() && (#[trigger] outcomes[i]).port == p && (
                outcomes[i].gone || !outcomes[i].accepted);
            if i < earlier.len() {
                assert(earlier[i] == outcomes[i]);
            }
        }
    }
}

proof fn lemma_ended_entries(s: Stack, ports: Seq<u16>)
    ensures
        forall|i: int|
            0 <= i < ended_all(s, ports).len() ==> {
                let (p, told) = #[trigger] ended_all(s, ports)[i];
                &&& s.conns.contains_key(p)
                &&& match told {
                    None => s.conns[p].status == ConnectionStatus::Error(ErrorKind::UnexpectedEof),
                    Some(kind) => kind != ErrorKind::UnexpectedEof && s.conns[p].status
                        == ConnectionStatus::Error(kind),
                }
            },
    decreases ports.len(),
{
    if ports.len() > 0 {
        lemma_ended_entries(s, ports.drop_last());
        let list = ended_all(s, ports);
        let before = ended_all(s, ports.drop_last());
        assert forall|i: int| 0 <= i < list.len() implies {
            let (p, told) = #[trigger] list[i];
            &&& s.conns.contains_key(p)
            &&& match told {
                None => s.conns[p].status == ConnectionStatus::Error(ErrorKind::UnexpectedEof),
                Some(kind) => kind != ErrorKind::UnexpectedEof && s.conns[p].status
                    == ConnectionStatus::Error(kind),
            }
        } by {
            if i < before.len() {
                assert(list[i] == before[i]);
            }
        }
    }
}

proof fn lemma_dead_count(outcomes: Seq<Outcome>)
    ensures
        dead_ports(outcomes).len() <= outcomes.len(),
    decreases outcomes.len(),
{
    if outcomes.len() > 0 {
        lemma_dead_count(outcomes.drop_last());
    }
}

proof fn lemma_told_once(s: Stack, ports: Seq<u16>)
    requires
        ports.no_duplicates(),
    ensures
        firsts(ended_all(s, ports)).no_duplicates(),
    decreases ports.len(),
{
    if ports.len() > 0 {
        let earlier = ports.drop_last();
        let last = ports.last();
        lemma_told_once(s, earlier);
        lemma_ended_all(s, earlier, last);
        let before = firsts(ended_all(s, earlier));
        let list = firsts(ended_all(s, ports));
        assert(!earlier.contains(last)) by {
            if earlier.contains(last) {
                let j = choose|j: int| 0 <= j < earlier.len() && earlier[j] == last;
                assert(ports[j] == ports[ports.len() - 1]);
            }
        }
        if s.conns.contains_key(last) && s.conns[last].status is Error {
            assert(list =~= before.push(last));
        } else {
            assert(list =~= before);
        }
    }
}

proof fn lemma_removing_keeps_distinct(ports: Seq<u16>, gone: Seq<u16>)
    requires
        ports.no_duplicates(),
    ensures
        remove_ports(ports, gone).no_duplicates(),
    decreases gone.len(),
{
    if gone.len() > 0 {
        lemma_removing_keeps_distinct(ports, gone.drop_last());
        lemma_remove_port_keeps_distinct(remove_ports(ports, gone.drop_last()), gone.last());
    }
}

/// Settling tells each stream once and closes each once.
pub proof fn law_settle_once(hub: &mut Hub, a: &mut Adapter, outcomes: &Vec<Outcome>, r: Settlement)
    requires
        old(a)@.can_send(),
        old(hub)@.wf(),
        call_ensures(Hub::settle, (hub, a, outcomes), r),
    ensures
        r.dead@.len() <= outcomes@.len(),
        r.dead_fins@.len() <= r.dead@.len(),
        r.ended_fins@.len() == r.ended@.len(),
        forall|i: int, j: int|
            0 <= i < j < r.ended@.len() ==> (#[trigger] r.ended@[i]).0 != (
            #[trigger] r.ended@[j]).0,
        final(hub)@.streams.no_duplicates(),
{
    let s = old(a)@;
    let dead = dead_ports(outcomes@);
    let s1 = closed_all(s, dead);
    let streams1 = remove_ports(old(hub)@.streams, dead);
    let gone = firsts(ended_all(s1, streams1));
    lemma_dead_count(outcomes@);
    lemma_removing_keeps_distinct(old(hub)@.streams, dead);
    lemma_removing_keeps_distinct(streams1, gone);
    lemma_told_once(s1, streams1);
    law_fins_are_those_of_the_ports(s, dead, Seq::empty());
    assert(r.dead_fins@.map_values(|p: Vec<u8>| p@).len() == r.dead_fins@.len());
    assert(r.ended_fins@.map_values(|p: Vec<u8>| p@).len() == r.ended_fins@.len());
    lemma_ended_entries(s1, streams1);
    assert forall|i: int| 0 <= i < gone.len() implies s1.conns.contains_key(#[trigger] gone[i]) by {
        assert(gone[i] == ended_all(s1, streams1)[i].0);
    }
    law_one_fin_each(s1, gone);
    assert forall|i: int, j: int| 0 <= i < j < r.ended@.len() implies (#[trigger] r.ended@[i]).0
        != (#[trigger] r.ended@[j]).0 by {
        assert(gone[i] == r.ended@[i].0);
        assert(gone[j] == r.ended@[j].0);
    }
}

/// Whether an outcome says that a stream is over.
pub open spec fn says_over(outcomes: Seq<Outcome>, p: u16) -> bool {
    exists|i: int|
        0 <= i < outcomes.len() && (#[trigger] outcomes[i]).port == p && (outcomes[i].gone
            || !outcomes[i].accepted)
}

/// What settling makes of one port.
proof fn lemma_settled(s: Stack, streams: Seq<u16>, outcomes: Seq<Outcome>, p: u16)
    ensures
        ({
            let dead = dead_ports(outcomes);
            let s1 = closed_all(s, dead);
            let streams1 = remove_ports(streams, dead);
            let gone = firsts(ended_all(s1, streams1));
            let s2 = closed_all(s1, gone);
            let over = says_over(outcomes, p);
            let there = s.conns.contains_key(p);
            let ended = there && s.conns[p].status is Error;
            &&& dead.contains(p) <==> over
            &&& s1.conns.contains_key(p) <==> there && !over
            &&& s1.conns.contains_key(p) ==> s1.conns[p] == s.conns[p]
            &&& gone.contains(p) <==> streams.contains(p) && !over && ended
            &&& remove_ports(streams1, gone).contains(p) <==> streams.contains(p) && !over && !ended
            &&& s2.conns.contains_key(p) <==> there && !over && !(streams.contains(p) && ended)
            &&& s2.conns.contains_key(p) ==> s2.conns[p] == s.conns[p]
        }),
{
    let dead = dead_ports(outcomes);
    let s1 = closed_all(s, dead);
    let streams1 = remove_ports(streams, dead);
    let gone = firsts(ended_all(s1, streams1));
    lemma_dead_ports(outcomes, p);
    lemma_remove_ports(streams, dead, p);
    lemma_remove_ports(streams1, gone, p);
    lemma_closed_all(s, dead, p);
    lemma_closed_all(s1, gone, p);
    lemma_ended_all(s1, streams1, p);
}

/// Settling: the streams that are over, because their connection is gone or
/// nobody reads them, are closed. Of the others, those whose connections have
/// ended are told and closed: told nothing where the peer closed its side, and
/// the error otherwise. All other streams and connections stay as they are.
pub proof fn law_settle(hub: &mut Hub, a: &mut Adapter, outcomes: &Vec<Outcome>, r: Settlement)
    requires
        old(a)@.can_send(),
        call_ensures(Hub::settle, (hub, a, outcomes), r),
    ensures
        forall|p: u16| #[trigger] r.dead@.contains(p) <==> says_over(outcomes@, p),
        forall|p: u16| #[trigger]
            final(hub)@.streams.contains(p) <==> {
                &&& old(hub)@.streams.contains(p)
                &&& !says_over(outcomes@, p)
                &&& !(old(a)@.conns.contains_key(p) && old(a)@.conns[p].status is Error)
            },
        final(hub)@.sockets == old(hub)@.sockets,
        forall|p: u16| #[trigger]
            final(a)@.conns.contains_key(p) <==> {
                &&& old(a)@.conns.contains_key(p)
                &&& !says_over(outcomes@, p)
                &&& !(old(hub)@.streams.contains(p) && old(a)@.conns[p].status is Error)
            },
        forall|p: u16| #[trigger]
            final(a)@.conns.contains_key(p) ==> final(a)@.conns[p] == old(a)@.conns[p],
        forall|p: u16| #[trigger]
            firsts(r.ended@).contains(p) <==> {
                &&& old(hub)@.streams.contains(p)
                &&& !says_over(outcomes@, p)
                &&& old(a)@.conns.contains_key(p)
                &&& old(a)@.conns[p].status is Error
            },
        forall|i: int|
            0 <= i < r.ended@.len() ==> {
                let (p, told) = #[trigger] r.ended@[i];
                &&& old(a)@.conns.contains_key(p)
                &&& match told {
                    None => old(a)@.conns[p].status == ConnectionStatus::Error(
                        ErrorKind::UnexpectedEof,
                    ),
                    Some(kind) => kind != ErrorKind::UnexpectedEof && old(a)@.conns[p].status
                        == ConnectionStatus::Error(kind),
                }
            },
        same_outside(old(a)@, (Stack { datagrams: old(a)@.datagrams, ..final(a)@ })),
{
    let s = old(a)@;
    let channels = old(hub)@;
    let dead = dead_ports(outcomes@);
    let s1 = closed_all(s, dead);
    let streams1 = remove_ports(channels.streams, dead);
    let gone = firsts(ended_all(s1, streams1));
    lemma_outside(s, dead);
    lemma_outside(s1, gone);
    lemma_ended_entries(s1, streams1);
    assert forall|p: u16| #[trigger] r.dead@.contains(p) <==> says_over(outcomes@, p) by {
        lemma_settled(s, channels.streams, outcomes@, p);
    }
    assert forall|p: u16| #[trigger]
        final(hub)@.streams.contains(p) <==> {
            &&& channels.streams.contains(p)
            &&& !says_over(outcomes@, p)
            &&& !(s.conns.contains_key(p) && s.conns[p].status is Error)
        } by {
        lemma_settled(s, channels.streams, outcomes@, p);
    }
    assert forall|p: u16| #[trigger]
        final(a)@.conns.contains_key(p) <==> {
            &&& s.conns.contains_key(p)
            &&& !says_over(outcomes@, p)
            &&& !(channels.streams.contains(p) && s.conns[p].status is Error)
        } by {
        lemma_settled(s, channels.streams, outcomes@, p);
    }
    assert forall|p: u16| #[trigger]
        final(a)@.conns.contains_key(p) implies final(a)@.conns[p] == s.conns[p] by {
        lemma_settled(s, channels.streams, outcomes@, p);
    }
    assert forall|p: u16| #[trigger]
        firsts(r.ended@).contains(p) <==> {
            &&& channels.streams.contains(p)
            &&& !says_over(outcomes@, p)
            &&& s.conns.contains_key(p)
            &&& s.conns[p].status is Error
        } by {
        lemma_settled(s, channels.streams, outcomes@, p);
    }
    assert forall|i: int| 0 <= i < r.ended@.len() implies {
        let (p, told) = #[trigger] r.ended@[i];
        &&& old(a)@.conns.contains_key(p)
        &&& match told {
            None => old(a)@.conns[p].status == ConnectionStatus::Error(ErrorKind::UnexpectedEof),
            Some(kind) => kind != ErrorKind::UnexpectedEof && old(a)@.conns[p].status
                == ConnectionStatus::Error(kind),
        }
    } by {
        let p = r.ended@[i].0;
        lemma_closed_all(s, dead, p);
    }
}

/// A packet is the FIN of a connection on one of some ports.
pub open spec fn is_fin_of_some(s: Stack, b: Seq<u8>, ports: spec_fn(u16) -> bool) -> bool {
    exists|p: u16| #[trigger] s.conns.contains_key(p) && ports(p) && is_fin_of(s, b, s.conns[p])
}

/// The FIN of a connection is among some packets.
pub open spec fn has_fin_of(s: Stack, packets: Seq<Vec<u8>>, c: Connection) -> bool {
    exists|i: int| 0 <= i < packets.len() && is_fin_of(s, (#[trigger] packets[i])@, c)
}

/// Some packets are the FINs of exactly the connections on some ports.
pub open spec fn are_fins(s: Stack, packets: Seq<Vec<u8>>, ports: spec_fn(u16) -> bool) -> bool {
    &&& forall|i: int|
        0 <= i < packets.len() ==> is_fin_of_some(s, (#[trigger] packets[i])@, ports)
    &&& forall|p: u16| #[trigger]
        s.conns.contains_key(p) && ports(p) ==> has_fin_of(s, packets, s.conns[p])
}

proof fn lemma_are_fins(
    s: Stack,
    t: Stack,
    packets: Seq<Vec<u8>>,
    list: Seq<u16>,
    ports: spec_fn(u16) -> bool,
)
    requires
        s.can_send(),
        same_outside(s, t),
        t.can_send(),
        packets.map_values(|p: Vec<u8>| p@) == fins(t, list),
        forall|p: u16| #[trigger]
            t.conns.contains_key(p) ==> s.conns.contains_key(p) && t.conns[p] == s.conns[p],
        forall|p: u16| #[trigger]
            s.conns.contains_key(p) ==> (ports(p) <==> list.contains(p) && t.conns.contains_key(p)),
    ensures
        are_fins(s, packets, ports),
{
    let views = packets.map_values(|p: Vec<u8>| p@);
    assert forall|i: int| 0 <= i < packets.len() implies is_fin_of_some(
        s,
        (#[trigger] packets[i])@,
        ports,
    ) by {
        assert(views[i] == packets[i]@);
        assert(fins(t, list).contains(packets[i]@));
        law_fins_are_those_of_the_ports(t, list, packets[i]@);
        let p = choose|p: u16| #[trigger]
            list.contains(p) && t.conns.contains_key(p) && packets[i]@ == t.fin_packet(t.conns[p]);
        law_fin_packet(t, t.conns[p]);
        assert(s.conns.contains_key(p) && ports(p));
        assert(is_fin_of(s, packets[i]@, s.conns[p]));
    }
    assert forall|p: u16| #[trigger] s.conns.contains_key(p) && ports(p) implies has_fin_of(
        s,
        packets,
        s.conns[p],
    ) by {
        assert(list.contains(p) && t.conns.contains_key(p));
        let b = t.fin_packet(t.conns[p]);
        law_fins_are_those_of_the_ports(t, list, b);
        let i = choose|i: int| 0 <= i < fins(t, list).len() && fins(t, list)[i] == b;
        assert(views[i] == packets[i]@);
        law_fin_packet(t, t.conns[p]);
        assert(is_fin_of(s, packets[i]@, s.conns[p]));
    }
}

/// The FINs that settling hands out are those of the connections that it
/// closes: first of the streams that are over, then of those that are told.
pub proof fn law_settle_fins(hub: &mut Hub, a: &mut Adapter, outcomes: &Vec<Outcome>, r: Settlement)
    requires
        old(a)@.can_send(),
        call_ensures(Hub::settle, (hub, a, outcomes), r),
    ensures
        are_fins(old(a)@, r.dead_fins@, |p: u16| says_over(outcomes@, p)),
        are_fins(
            old(a)@,
            r.ended_fins@,
            |p: u16|
                old(hub)@.streams.contains(p) && !says_over(outcomes@, p) && old(
                    a,
                )@.conns[p].status is Error,
        ),
{
    let s = old(a)@;
    let channels = old(hub)@;
    let dead = dead_ports(outcomes@);
    let s1 = closed_all(s, dead);
    let streams1 = remove_ports(channels.streams, dead);
    let gone = firsts(ended_all(s1, streams1));
    lemma_outside(s, dead);
    assert forall|p: u16| #[trigger]
        s1.conns.contains_key(p) implies s.conns.contains_key(p) && s1.conns[p] == s.conns[p] by {
        lemma_settled(s, channels.streams, outcomes@, p);
    }
    if !s.one_family() {
        assert forall|p: u16| !s1.conns.contains_key(p) by {
            lemma_settled(s, channels.streams, outcomes@, p);
        }
    }
    let over = |p: u16| says_over(outcomes@, p);
    let told = |p: u16|
        old(hub)@.streams.contains(p) && !says_over(outcomes@, p) && old(
            a,
        )@.conns[p].status is Error;
    assert forall|p: u16| #[trigger] s.conns.contains_key(p) implies (over(p) <==> dead.contains(p)
        && s.conns.contains_key(p)) && (told(p) <==> gone.contains(p) && s1.conns.contains_key(
        p,
    )) by {
        lemma_settled(s, channels.streams, outcomes@, p);
    }
    lemma_are_fins(s, s, r.dead_fins@, dead, over);
    lemma_are_fins(s, s1, r.ended_fins@, gone, told);
}

/// Settling hands out the datagrams for the ports of sockets, in the order of
/// their arrival, and drops the others; but while there is no socket at all it
/// leaves them.
pub proof fn law_settle_datagrams(
    hub: &mut Hub,
    a: &mut Adapter,
    outcomes: &Vec<Outcome>,
    r: Settlement,
)
    requires
        old(a)@.can_send(),
        call_ensures(Hub::settle, (hub, a, outcomes), r),
    ensures
        old(hub)@.sockets.len() == 0 ==> r.datagrams@.len() == 0 && final(a)@.datagrams == old(
            a,
        )@.datagrams,
        old(hub)@.sockets.len() > 0 ==> final(a)@.datagrams.len() == 0,
        old(hub)@.sockets.len() > 0 ==> r.datagrams@.map_values(|d: UdpDatagram| d@) == old(
            a,
        )@.datagrams.filter(|d: Datagram| old(hub)@.sockets.contains(d.destination_port)),
{
    let s = old(a)@;
    let dead = dead_ports(outcomes@);
    let s1 = closed_all(s, dead);
    let streams1 = remove_ports(old(hub)@.streams, dead);
    lemma_outside(s, dead);
    lemma_outside(s1, firsts(ended_all(s1, streams1)));
    let views = r.datagrams@.map_values(|d: UdpDatagram| d@);
    assert(views.len() == r.datagrams@.len());
}

/// When the transport fails every stream is told, in order, and every stream's
/// connection is closed with a FIN; nothing else changes.
pub proof fn law_transport_failed(hub: &mut Hub, a: &mut Adapter, r: (Vec<u16>, Vec<Vec<u8>>))
    requires
        old(a)@.can_send(),
        call_ensures(Hub::transport_failed, (hub, a), r),
    ensures
        r.0@ == old(hub)@.streams,
        are_fins(old(a)@, r.1@, |p: u16| old(hub)@.streams.contains(p)),
        final(hub)@.streams.len() == 0,
        final(hub)@.sockets == old(hub)@.sockets,
        same_outside(old(a)@, final(a)@),
        forall|p: u16| #[trigger]
            final(a)@.conns.contains_key(p) <==> old(a)@.conns.contains_key(p) && !old(
                hub,
            )@.streams.contains(p),
        forall|p: u16| #[trigger]
            final(a)@.conns.contains_key(p) ==> final(a)@.conns[p] == old(a)@.conns[p],
{
    let s = old(a)@;
    let ports = old(hub)@.streams;
    lemma_outside(s, ports);
    lemma_are_fins(s, s, r.1@, ports, |p: u16| old(hub)@.streams.contains(p));
    assert forall|p: u16| #[trigger]
        final(a)@.conns.contains_key(p) <==> s.conns.contains_key(p) && !ports.contains(p) by {
        lemma_closed_all(s, ports, p);
    }
    assert forall|p: u16| #[trigger]
        final(a)@.conns.contains_key(p) implies final(a)@.conns[p] == s.conns[p] by {
        lemma_closed_all(s, ports, p);
    }
}

// ---------------------------------------------------------------------------
// The handles
// ---------------------------------------------------------------------------

/// A read is served from what is left over, if anything is: what is handed out
/// and what stays are together what was there, and as much is handed out as
/// fits.
pub proof fn law_serve(reader: &mut StreamReader, room: usize, r: Option<Vec<u8>>)
    requires
        call_ensures(StreamReader::serve, (reader, room), r),
    ensures
        r is Some <==> old(reader)@.len() > 0,
        r is None ==> final(reader)@ == old(reader)@,
        r matches Some(data) ==> {
            &&& data@ + final(reader)@ == old(reader)@
            &&& data@.len() <= room
            &&& data@.len() == room || final(reader)@.len() == 0
        },
{
    if let Some(data) = r {
        assert(data@ + final(reader)@ =~= old(reader)@);
    }
}

/// What comes out of the channel is served as far as it fits, and the rest is
/// kept; errors are passed on; and the end of the channel is one.
pub proof fn law_accept<E>(
    reader: &mut StreamReader,
    item: Option<Result<Vec<u8>, E>>,
    room: usize,
    r: Received<E>,
)
    requires
        call_ensures(StreamReader::accept::<E>, (reader, item, room), r),
    ensures
        item matches Some(Ok(data)) ==> {
            &&& r matches Received::Data(front)
            &&& old(reader)@.len() == 0 ==> front@ + final(reader)@ == data@
            &&& final(reader)@.len() == old(reader)@.len() + data@.len() - front@.len()
            &&& front@.len() <= room
            &&& front@.len() == room || front@.len() == data@.len()
        },
        item matches Some(Err(e)) ==> r == Received::<E>::Failed(e) && final(reader)@ == old(
            reader,
        )@,
        item is None ==> {
            &&& final(reader)@ == old(reader)@
            &&& r matches Received::Closed(e)
            &&& e.kind == ErrorKind::BrokenPipe && e.message@ == "channel closed"@
        },
{
    if let Some(Ok(data)) = item {
        if let Received::Data(front) = r {
            if old(reader)@.len() == 0 {
                assert(front@ + final(reader)@ =~= data@);
            }
        }
    }
}

/// A new reader has nothing left over; and the most that fits is the smaller of
/// the room and what there is.
pub proof fn law_new_reader(reader: StreamReader, room: usize, bytes: Seq<u8>)
    requires
        call_ensures(StreamReader::new, (), reader),
    ensures
        reader@.len() == 0,
        fitting(room, bytes) <= room && fitting(room, bytes) <= bytes.len(),
        fitting(room, bytes) == room || fitting(room, bytes) == bytes.len(),
{
}

/// A write takes all its bytes, of any number, if the channel takes them, and
/// fails otherwise.
pub proof fn law_write_outcome(sent: bool, len: usize, r: Result<usize, Error>)
    requires
        call_ensures(write_outcome, (sent, len), r),
    ensures
        sent ==> r == Ok::<usize, Error>(len),
        !sent ==> {
            &&& r matches Err(e)
            &&& e.kind == ErrorKind::BrokenPipe && e.message@ == "channel closed"@
        },
{
}

/// A flush asks on while writes are answered well, is done when none is left,
/// waits while some are, and fails with the first write that failed or was
/// dropped.
pub proof fn law_poll_flush<E>(reply: WriteReply<E>, r: FlushPoll<E>)
    requires
        call_ensures(poll_flush::<E>, (reply,), r),
    ensures
        r is Again <==> reply is Written,
        r is Ready <==> reply is NoneLeft,
        r is Pending <==> reply is Waiting,
        reply matches WriteReply::Failed(e) ==> r == FlushPoll::<E>::Failed(e),
        reply is Dropped ==> {
            &&& r matches FlushPoll::Broken(e)
            &&& e.kind == ErrorKind::BrokenPipe && e.message@ == "channel closed"@
        },
{
}

/// An answered request gives its answer; one that was refused, dropped or not
/// answered in time gives the error that says so.
pub proof fn law_request_outcome<T>(
    reply: Reply<T>,
    r: Result<T, Error>,
    answer: Option<T>,
    q: Result<T, Error>,
)
    requires
        call_ensures(request_outcome::<T>, (reply,), r),
        call_ensures(socket_outcome::<T>, (answer,), q),
    ensures
        r is Ok <==> reply is Answered,
        reply matches Reply::Answered(x) ==> r == Ok::<T, Error>(x),
        r matches Err(e) ==> {
            &&& reply is Refused ==> e.kind == ErrorKind::NetworkUnreachable && e.message@
                == "adapter closed"@
            &&& reply is Dropped ==> e.kind == ErrorKind::BrokenPipe && e.message@
                == "adapter closed"@
            &&& reply is TimedOut ==> e.kind == ErrorKind::TimedOut && e.message@
                == "channel recv timeout"@
        },
        q is Ok <==> answer is Some,
        answer matches Some(x) ==> q == Ok::<T, Error>(x),
        q matches Err(e) ==> e.kind == ErrorKind::BrokenPipe && e.message@ == "adapter closed"@,
{
}

} // verus!
