//! What a connection promises its reader: the peer's bytes, in order, each
//! once.

use vstd::prelude::*;

use crate::connection::{opening, Connection, ConnectionStatus};
use crate::error::ErrorKind;
use crate::packets::Segment;
use crate::sequence::{
    advance, at, before, law_advance_follows_the_stream, law_order_follows_the_stream,
};

verus! {

/// A segment carries the bytes of the peer's stream from offset `offset` on,
/// where the stream's first byte stands at position `base`.
pub open spec fn carries(s: Segment, stream: Seq<u8>, base: int, offset: int) -> bool {
    &&& 0 <= offset
    &&& offset + s.payload.len() <= stream.len()
    &&& s.payload == stream.subrange(offset, offset + s.payload.len())
    &&& s.sequence_number == at(base + offset)
}

/// The first `n` bytes of the peer's stream have arrived: the reader has taken
/// some, the others wait, and the next one is expected.
pub open spec fn delivered(
    c: Connection,
    taken: Seq<u8>,
    stream: Seq<u8>,
    base: int,
    n: int,
) -> bool {
    &&& 0 <= n <= stream.len()
    &&& taken + c.received == stream.take(n)
    &&& c.ack == at(base + n)
}

/// The handshake: only a SYN-ACK opens a connection, it is answered, and the
/// sequence numbers on both sides move past the SYNs.
pub proof fn law_handshake(host_port: u16, peer_port: u16, isn: u32, s: Segment)
    ensures
        ({
            let (c, answer) = opening(host_port, peer_port, isn).on_segment(s);
            if s.flags.syn && s.flags.ack && !s.flags.rst {
                &&& c.status is Connected
                &&& answer
                &&& c.seq == advance(isn, 1)
                &&& c.ack == advance(s.sequence_number, 1)
                &&& c.received == Seq::<u8>::empty()
            } else {
                &&& !(c.status is Connected)
                &&& !answer
            }
        }),
{
}

/// A connection that was just opened has delivered nothing of any stream that
/// begins behind the peer's SYN.
pub proof fn law_delivery_begins(
    host_port: u16,
    peer_port: u16,
    isn: u32,
    s: Segment,
    peer_isn: int,
    stream: Seq<u8>,
)
    requires
        s.flags.syn && s.flags.ack && !s.flags.rst,
        s.sequence_number == at(peer_isn),
    ensures
        delivered(
            opening(host_port, peer_port, isn).on_segment(s).0,
            Seq::empty(),
            stream,
            peer_isn + 1,
            0,
        ),
{
    law_advance_follows_the_stream(peer_isn, 1);
    assert(stream.take(0) =~= Seq::<u8>::empty());
}

/// In-order delivery: a segment of the peer's stream adds its bytes if it is
/// the expected one, and nothing otherwise. It is answered if it carries
/// bytes and is not ahead of the stream, or if it probes the last position.
pub proof fn law_delivery(
    c: Connection,
    taken: Seq<u8>,
    stream: Seq<u8>,
    base: int,
    n: int,
    s: Segment,
    offset: int,
)
    requires
        c.status is Connected,
        delivered(c, taken, stream, base, n),
        carries(s, stream, base, offset),
        !s.flags.rst && !s.flags.fin,
        -0x8000_0000 < offset - n < 0x8000_0000,
    ensures
        ({
            let (after, answer) = c.on_segment(s);
            let m = if offset == n {
                n + s.payload.len()
            } else {
                n
            };
            &&& after.status is Connected
            &&& delivered(after, taken, stream, base, m)
            &&& offset == n ==> after.received == c.received + s.payload
            &&& offset != n ==> after.received == c.received && after.ack == c.ack
            &&& answer == (s.payload.len() > 0 && offset <= n || s.payload.len() == 0 && offset + 1
                == n)
        }),
{
    law_order_follows_the_stream(base + offset, base + n);
    law_advance_follows_the_stream(base + n, s.payload.len() as int);
    law_advance_follows_the_stream(base + offset, 1);
    law_order_follows_the_stream(base + n, base + offset);
    if offset + 1 != n {
        if -0x8000_0000 < offset + 1 - n < 0x8000_0000 {
            law_order_follows_the_stream(base + offset + 1, base + n);
        } else {
            assert(offset + 1 - n == 0x8000_0000);
            assert(at(base + offset + 1) != at(base + n));
        }
    }
    if offset == n {
        assert(stream.take(n) + stream.subrange(n, n + s.payload.len()) =~= stream.take(
            n + s.payload.len(),
        ));
        assert(taken + (c.received + s.payload) =~= (taken + c.received) + s.payload);
    }
}

/// What a connection has become after some segments.
pub open spec fn after_segments(c: Connection, arrivals: Seq<Segment>) -> Connection
    decreases arrivals.len(),
{
    if arrivals.len() == 0 {
        c
    } else {
        after_segments(c, arrivals.drop_last()).on_segment(arrivals.last()).0
    }
}

/// How much of the stream has arrived after some segments of it, where `n`
/// bytes had arrived before: each segment that begins at the expected offset
/// adds its bytes.
pub open spec fn arrived(n: int, arrivals: Seq<Segment>, offsets: Seq<int>) -> int
    decreases arrivals.len(),
{
    if arrivals.len() == 0 {
        n
    } else {
        let m = arrived(n, arrivals.drop_last(), offsets.drop_last());
        if offsets.last() == m {
            m + arrivals.last().payload.len()
        } else {
            m
        }
    }
}

/// In-order delivery, whatever arrives: after any segments of the peer's
/// stream, in any order and with any repeated, what the reader gets is a
/// beginning of the stream, and never a shorter one than before. Each segment
/// is to lie within half the circle of sequence numbers around the expected
/// one, so that its number says where in the stream it belongs.
pub proof fn law_delivery_of_any_arrivals(
    c: Connection,
    taken: Seq<u8>,
    stream: Seq<u8>,
    base: int,
    n: int,
    arrivals: Seq<Segment>,
    offsets: Seq<int>,
)
    requires
        c.status is Connected,
        delivered(c, taken, stream, base, n),
        offsets.len() == arrivals.len(),
        forall|i: int|
            0 <= i < arrivals.len() ==> {
                &&& carries(#[trigger] arrivals[i], stream, base, offsets[i])
                &&& !arrivals[i].flags.rst && !arrivals[i].flags.fin
                &&& -0x8000_0000 < offsets[i] - arrived(n, arrivals.take(i), offsets.take(i))
                    < 0x8000_0000
            },
    ensures
        after_segments(c, arrivals).status is Connected,
        n <= arrived(n, arrivals, offsets),
        delivered(
            after_segments(c, arrivals),
            taken,
            stream,
            base,
            arrived(n, arrivals, offsets),
        ),
    decreases arrivals.len(),
{
    if arrivals.len() > 0 {
        let earlier = arrivals.drop_last();
        let places = offsets.drop_last();
        let k = arrivals.len() - 1;
        assert forall|i: int| 0 <= i < earlier.len() implies {
            &&& carries(#[trigger] earlier[i], stream, base, places[i])
            &&& !earlier[i].flags.rst && !earlier[i].flags.fin
            &&& -0x8000_0000 < places[i] - arrived(n, earlier.take(i), places.take(i)) < 0x8000_0000
        } by {
            assert(earlier[i] == arrivals[i]);
            assert(earlier.take(i) =~= arrivals.take(i));
            assert(places.take(i) =~= offsets.take(i));
        }
        law_delivery_of_any_arrivals(c, taken, stream, base, n, earlier, places);
        assert(arrivals[k] == arrivals.last());
        assert(arrivals.take(k) =~= earlier);
        assert(offsets.take(k) =~= places);
        law_delivery(
            after_segments(c, earlier),
            taken,
            stream,
            base,
            arrived(n, earlier, places),
            arrivals.last(),
            offsets[k],
        );
    }
}

/// Progress: the expected segment is always accepted, whole.
pub proof fn law_expected_segment_is_accepted(
    c: Connection,
    taken: Seq<u8>,
    stream: Seq<u8>,
    base: int,
    n: int,
    s: Segment,
)
    requires
        c.status is Connected,
        delivered(c, taken, stream, base, n),
        carries(s, stream, base, n),
        !s.flags.rst && !s.flags.fin,
    ensures
        delivered(c.on_segment(s).0, taken, stream, base, n + s.payload.len()),
        s.payload.len() > 0 ==> c.on_segment(s).1,
{
    law_delivery(c, taken, stream, base, n, s, n);
}

/// Reading takes bytes off the front and leaves the others: what was taken
/// and what waits are still the same beginning of the stream.
pub proof fn law_reading_keeps_order(
    c: Connection,
    taken: Seq<u8>,
    stream: Seq<u8>,
    base: int,
    n: int,
    count: int,
)
    requires
        delivered(c, taken, stream, base, n),
        0 <= count <= c.received.len(),
    ensures
        delivered(
            Connection { received: c.received.skip(count), ..c },
            taken + c.received.take(count),
            stream,
            base,
            n,
        ),
{
    assert(taken + c.received.take(count) + c.received.skip(count) =~= taken + c.received);
}

/// An out-of-order segment is dropped: it leaves what has arrived and what is
/// expected alone, does not end the connection, and is not answered. Only its
/// acknowledgment counts.
pub proof fn law_out_of_order_is_dropped(c: Connection, s: Segment)
    requires
        c.status is Connected,
        c.out_of_order(s),
        !s.flags.rst,
    ensures
        !c.on_segment(s).1,
        c.on_segment(s).0 == (if s.flags.ack {
            c.acknowledge(s.acknowledgment_number)
        } else {
            c
        }),
{
}

/// A duplicate segment is answered with the same acknowledgment number and
/// not buffered again.
pub proof fn law_duplicate_is_answered(c: Connection, s: Segment)
    requires
        c.status is Connected,
        before(s.sequence_number, c.ack),
        s.payload.len() > 0,
        !s.flags.rst && !s.flags.fin,
    ensures
        c.on_segment(s).1,
        c.on_segment(s).0.ack == c.ack,
        c.on_segment(s).0.received == c.received,
        c.on_segment(s).0.status is Connected,
{
}

/// Delivering the same segment twice is delivering it once; the second time
/// it is answered again, with the same acknowledgment number.
pub proof fn law_delivery_is_idempotent(c: Connection, s: Segment)
    requires
        c.status is Connected,
        s.sequence_number == c.ack,
        0 < s.payload.len() < 0x8000_0000,
        !s.flags.rst && !s.flags.fin,
    ensures
        ({
            let once = c.on_segment(s).0;
            let (twice, answer) = once.on_segment(s);
            &&& answer
            &&& twice.received == once.received
            &&& twice.ack == once.ack
        }),
{
}

/// A segment that ends the stream ends the connection if it is expected, or if
/// the whole stream has arrived before it; then the reader gets all of the
/// stream. One that is ahead of the stream does not end it.
///
/// A segment that begins before the expected byte and reaches past it is not
/// spoken of here: it counts as a duplicate, of which nothing is buffered, and
/// its FIN ends the connection nevertheless.
pub proof fn law_end_of_stream_comes_last(
    c: Connection,
    taken: Seq<u8>,
    stream: Seq<u8>,
    base: int,
    n: int,
    s: Segment,
    offset: int,
)
    requires
        c.status is Connected,
        delivered(c, taken, stream, base, n),
        carries(s, stream, base, offset),
        offset + s.payload.len() == stream.len(),
        s.flags.fin && !s.flags.rst,
        -0x8000_0000 < offset - n < 0x8000_0000,
        !(offset < n < stream.len()),
    ensures
        ({
            let (after, answer) = c.on_segment(s);
            if offset <= n {
                &&& after.status == ConnectionStatus::Error(ErrorKind::UnexpectedEof)
                &&& taken + after.received == stream
                &&& answer
            } else {
                &&& after.status is Connected
                &&& delivered(after, taken, stream, base, n)
                &&& !answer
            }
        }),
{
    law_order_follows_the_stream(base + offset, base + n);
    law_order_follows_the_stream(base + n, base + offset);
    assert(stream.take(stream.len() as int) =~= stream);
    if offset == n {
        assert(stream.take(n) + stream.subrange(n, stream.len() as int) =~= stream);
        assert(taken + (c.received + s.payload) =~= (taken + c.received) + s.payload);
    }
}

/// A RST ends the connection at once, in any state.
pub proof fn law_reset_ends_the_connection(c: Connection, s: Segment)
    requires
        s.flags.rst,
    ensures
        c.on_segment(s).0.status == ConnectionStatus::Error(ErrorKind::ConnectionReset),
        c.on_segment(s).0.received == c.received,
        !c.on_segment(s).1,
{
}

/// A connection that has ended stays ended, takes in no more bytes and
/// answers nothing.
pub proof fn law_ended_connection_is_silent(c: Connection, s: Segment)
    requires
        c.status is Error,
    ensures
        c.on_segment(s).0.status is Error,
        c.on_segment(s).0.received == c.received,
        c.on_segment(s).0.ack == c.ack,
        !c.on_segment(s).1,
{
}

/// A keep-alive probe is answered and changes nothing but what it
/// acknowledges.
pub proof fn law_keep_alive_is_answered(c: Connection, s: Segment)
    requires
        c.status is Connected,
        c.keep_alive(s),
        !s.flags.rst,
    ensures
        c.on_segment(s).1,
        c.on_segment(s).0 == (if s.flags.ack {
            c.acknowledge(s.acknowledgment_number)
        } else {
            c
        }),
{
}

} // verus!
