//! The rules of one connection, in plain numbers: what each segment, each look
//! at the clock and each sending does to it.

use vstd::prelude::*;

use crate::connection::{
    drop_acked, elapsed, opening, rto_ms, Connection, ConnectionState, ConnectionStatus, InFlight,
    UnackedSegment,
};
use crate::error::ErrorKind;
use crate::packets::{Segment, TcpPacket};
use crate::reliability::lemma_one_segment;
use crate::sequence::{advance, at, before, not_after, seq_add, seq_lt, seq_lte};

verus! {

// ---------------------------------------------------------------------------
// Sequence numbers and time
// ---------------------------------------------------------------------------

/// One sequence number comes before another if it is smaller by less than half
/// the circle, or larger by more than half.
pub proof fn law_order_in_numbers(a: u32, b: u32, less: bool, less_or_same: bool)
    requires
        call_ensures(seq_lt, (a, b), less),
        call_ensures(seq_lte, (a, b), less_or_same),
    ensures
        less == (a < b && b - a < 0x8000_0000 || a > b && a - b > 0x8000_0000),
        less_or_same == (less || a == b),
        less == before(a, b),
        less_or_same == not_after(a, b),
{
}

/// Stepping forward is addition modulo 2^32.
pub proof fn law_steps_in_numbers(a: u32, n: usize, r: u32, k: int)
    requires
        call_ensures(seq_add, (a, n), r),
    ensures
        (r - a - n) % 0x1_0000_0000 == 0,
        (advance(a, k) - a - k) % 0x1_0000_0000 == 0,
        (at(k) - k) % 0x1_0000_0000 == 0,
        r == advance(a, n as int),
{
}

/// Time passes forward only.
pub proof fn law_elapsed_in_numbers(from: u64, to: u64, n: u64)
    requires
        call_ensures(crate::connection::elapsed_nanos, (from, to), n),
    ensures
        from <= to ==> n == to - from,
        to <= from ==> n == 0,
        n == elapsed(from, to),
{
}

/// The timeout of a segment: 200 ms times two for each retransmission, up to
/// five.
pub proof fn law_timeout_in_numbers(segment: &UnackedSegment, ms: u64, now: u64, late: bool)
    requires
        call_ensures(UnackedSegment::rto, (segment,), ms),
        call_ensures(UnackedSegment::is_timed_out, (segment, now), late),
    ensures
        ms == wait_ms(segment@.retries as int),
        late <==> now >= segment@.sent_at + ms * 1_000_000,
{
    lemma_wait(segment@.retries as nat);
}

/// 200 ms, doubled once for each of the first five retransmissions.
pub open spec fn wait_ms(retries: int) -> int {
    if retries <= 0 {
        200
    } else if retries == 1 {
        400
    } else if retries == 2 {
        800
    } else if retries == 3 {
        1600
    } else if retries == 4 {
        3200
    } else {
        6400
    }
}

proof fn lemma_wait(retries: nat)
    ensures
        rto_ms(retries) == wait_ms(retries as int),
{
    reveal_with_fuel(rto_ms, 7);
}

// ---------------------------------------------------------------------------
// Opening
// ---------------------------------------------------------------------------

/// A new connection waits for its SYN-ACK, and nothing has passed on it.
pub proof fn law_new_connection(host_port: u16, peer_port: u16, seq: u32, state: ConnectionState)
    requires
        call_ensures(ConnectionState::with_seq, (host_port, peer_port, seq), state),
    ensures
        state@ == opening(host_port, peer_port, seq),
        state@.status is WaitingForSyn,
        state@.host_port == host_port && state@.peer_port == peer_port,
        state@.seq == seq && state@.ack == 0,
        state@.received.len() == 0 && state@.queued.len() == 0 && state@.unacked.len() == 0,
{
}

/// A connection with a drawn sequence number is a new connection too.
pub proof fn law_drawn_connection(host_port: u16, peer_port: u16, state: ConnectionState)
    requires
        call_ensures(ConnectionState::new, (host_port, peer_port), state),
    ensures
        state@.status is WaitingForSyn,
        state@.host_port == host_port && state@.peer_port == peer_port,
        state@.ack == 0,
        state@.received.len() == 0 && state@.queued.len() == 0 && state@.unacked.len() == 0,
{
}

/// While a connection waits, a SYN-ACK opens it, and moves both sequence
/// numbers one on; it is answered. Nothing else opens it or is answered.
pub proof fn law_waiting_connection(c: Connection, s: Segment)
    requires
        c.status is WaitingForSyn,
        !s.flags.rst,
    ensures
        ({
            let (d, answer) = c.on_segment(s);
            &&& d.received == c.received
            &&& if s.flags.syn && s.flags.ack {
                &&& answer
                &&& d.status is Connected
                &&& (d.seq - c.seq - 1) % 0x1_0000_0000 == 0
                &&& (d.ack - s.sequence_number - 1) % 0x1_0000_0000 == 0
            } else {
                &&& !answer
                &&& d.status is WaitingForSyn
                &&& d.seq == c.seq
                &&& d.ack == c.ack
            }
        }),
{
}

// ---------------------------------------------------------------------------
// Receiving
// ---------------------------------------------------------------------------

/// The expected segment, whatever its length: its bytes are added behind the
/// received ones, the next expected number moves on by their count, and it is
/// answered if there are any. A FIN moves the number one more, ends the
/// connection and is answered.
pub proof fn law_expected_segment(c: Connection, s: Segment)
    requires
        c.status is Connected,
        s.sequence_number == c.ack,
        !s.flags.rst,
    ensures
        ({
            let (d, answer) = c.on_segment(s);
            let taken = s.payload.len() + if s.flags.fin {
                1int
            } else {
                0
            };
            &&& d.received == c.received + s.payload
            &&& (d.ack - c.ack - taken) % 0x1_0000_0000 == 0
            &&& answer == (taken > 0)
            &&& d.status == if s.flags.fin {
                ConnectionStatus::Error(ErrorKind::UnexpectedEof)
            } else {
                ConnectionStatus::Connected
            }
        }),
{
    assert(c.received + s.payload =~= c.buffer(s).received);
}

/// A segment that begins up to half the circle ahead of the expected number is
/// dropped, whatever it carries: nothing arrives, nothing ends, nothing is
/// answered.
pub proof fn law_segment_ahead(c: Connection, s: Segment)
    requires
        c.status is Connected,
        0 < (s.sequence_number - c.ack) % 0x1_0000_0000 <= 0x8000_0000,
        !s.flags.rst,
    ensures
        ({
            let (d, answer) = c.on_segment(s);
            &&& d.received == c.received
            &&& d.ack == c.ack
            &&& d.status is Connected
            &&& !answer
        }),
{
}

/// A segment that begins behind the expected number, whatever its length,
/// brings nothing: if it carries bytes, or nothing at the number just before
/// the expected one, it is answered with the number that is expected anyway. A
/// FIN on it ends the connection, one number on.
pub proof fn law_segment_behind(c: Connection, s: Segment)
    requires
        c.status is Connected,
        0 < (c.ack - s.sequence_number) % 0x1_0000_0000 < 0x8000_0000,
        !s.flags.rst,
    ensures
        ({
            let (d, answer) = c.on_segment(s);
            &&& d.received == c.received
            &&& if s.flags.fin {
                &&& answer
                &&& (d.ack - c.ack - 1) % 0x1_0000_0000 == 0
                &&& d.status == ConnectionStatus::Error(ErrorKind::UnexpectedEof)
            } else {
                &&& answer == (s.payload.len() > 0 || (c.ack - s.sequence_number) % 0x1_0000_0000
                    == 1)
                &&& d.ack == c.ack
                &&& d.status is Connected
            }
        }),
{
}

/// A RST ends a connection in any state, and a connection that has ended takes
/// nothing in; neither is answered.
pub proof fn law_reset_and_ended(c: Connection, s: Segment)
    requires
        s.flags.rst || c.status is Error,
    ensures
        ({
            let (d, answer) = c.on_segment(s);
            &&& d.received == c.received
            &&& d.ack == c.ack
            &&& d.seq == c.seq
            &&& d.status == if s.flags.rst {
                ConnectionStatus::Error(ErrorKind::ConnectionReset)
            } else {
                c.status
            }
            &&& !answer
        }),
{
}

/// No segment changes what is queued or between which ports a connection runs;
/// and only the SYN-ACK changes the number that is sent next.
pub proof fn law_segments_leave_sending_alone(c: Connection, s: Segment)
    ensures
        c.on_segment(s).0.queued == c.queued,
        c.on_segment(s).0.host_port == c.host_port,
        c.on_segment(s).0.peer_port == c.peer_port,
        !(c.status is WaitingForSyn) ==> c.on_segment(s).0.seq == c.seq,
{
}

// ---------------------------------------------------------------------------
// Acknowledgments
// ---------------------------------------------------------------------------

/// An acknowledgment number reaches a segment's end if it is that end or lies
/// less than half the circle beyond.
pub open spec fn reaches(ack: u32, segment: InFlight) -> bool {
    (ack - segment.seq - segment.data.len()) % 0x1_0000_0000 < 0x8000_0000
}

/// On a connection in any state, a segment with the ACK flag takes the segment
/// in flight out if its number reaches that one's end; otherwise what is in
/// flight stays as it is.
pub proof fn law_acknowledgment(c: Connection, s: Segment)
    requires
        c.unacked.len() <= 1,
    ensures
        c.on_segment(s).0.unacked == if c.unacked.len() == 1 && s.flags.ack && reaches(
            s.acknowledgment_number,
            c.unacked[0],
        ) {
            Seq::<InFlight>::empty()
        } else {
            c.unacked
        },
{
    lemma_one_segment(c.unacked, s.acknowledgment_number);
    if c.unacked.len() == 1 {
        lemma_reaches(s.acknowledgment_number, c.unacked[0]);
    }
}

proof fn lemma_reaches(ack: u32, segment: InFlight)
    ensures
        segment.covered_by(ack) == reaches(ack, segment),
{
    let end = segment.end();
    let n = segment.data.len() as int;
    assert((end - segment.seq - n) % 0x1_0000_0000 == 0);
    assert((ack - end) % 0x1_0000_0000 == (ack - segment.seq - n) % 0x1_0000_0000);
}

/// Of a queue of segments an acknowledgment number takes those at the front
/// whose ends it reaches, up to the first one whose end it does not.
pub proof fn law_acknowledged_leave_in_order(queue: Seq<InFlight>, ack: u32) -> (k: int)
    ensures
        0 <= k <= queue.len(),
        drop_acked(queue, ack) == queue.skip(k),
        forall|i: int| 0 <= i < k ==> reaches(ack, #[trigger] queue[i]),
        k < queue.len() ==> !reaches(ack, queue[k]),
    decreases queue.len(),
{
    if queue.len() == 0 {
        assert(queue.skip(0) =~= queue);
        0
    } else {
        lemma_reaches(ack, queue[0]);
        if queue[0].covered_by(ack) {
            let rest = queue.skip(1);
            let j = law_acknowledged_leave_in_order(rest, ack);
            assert(rest.skip(j) =~= queue.skip(j + 1));
            assert forall|i: int| 0 <= i < j + 1 implies reaches(ack, #[trigger] queue[i]) by {
                if i > 0 {
                    assert(rest[i - 1] == queue[i]);
                }
            }
            if j + 1 < queue.len() {
                assert(rest[j] == queue[j + 1]);
            }
            j + 1
        } else {
            assert(queue.skip(0) =~= queue);
            0
        }
    }
}

// ---------------------------------------------------------------------------
// Sending
// ---------------------------------------------------------------------------

/// A connection may send when bytes are queued and none are in flight, and then
/// sends as many as the MSS allows, from the front of the queue.
pub proof fn law_next_chunk(c: Connection, mss: nat)
    ensures
        c.ready() <==> c.queued.len() > 0 && c.unacked.len() == 0,
        c.chunk_len(mss) <= mss && c.chunk_len(mss) <= c.queued.len(),
        c.chunk_len(mss) == mss || c.chunk_len(mss) == c.queued.len(),
        c.chunk(mss) == c.queued.subrange(0, c.chunk_len(mss) as int),
{
    assert(c.chunk(mss) =~= c.queued.subrange(0, c.chunk_len(mss) as int));
}

/// A segment that was just sent, whatever its length, is in flight under the
/// number that was to be sent next, with the bytes from the front of the
/// queue, the time of its sending, and no retransmissions. The number moves on
/// by its length, and nothing else changes.
pub proof fn law_just_sent(c: Connection, n: int, now: u64)
    requires
        0 <= n <= c.queued.len(),
    ensures
        ({
            let d = c.sent(n, now);
            &&& d.unacked.len() == c.unacked.len() + 1
            &&& d.unacked.drop_last() == c.unacked
            &&& d.unacked.last().seq == c.seq
            &&& d.unacked.last().data + d.queued == c.queued
            &&& d.unacked.last().data.len() == n
            &&& d.unacked.last().sent_at == now
            &&& d.unacked.last().retries == 0
            &&& (d.seq - c.seq - n) % 0x1_0000_0000 == 0
            &&& d.ack == c.ack
            &&& d.received == c.received
            &&& d.status == c.status
            &&& d.host_port == c.host_port && d.peer_port == c.peer_port
        }),
{
    let d = c.sent(n, now);
    assert(d.unacked.drop_last() =~= c.unacked);
    assert(d.unacked.last().data + d.queued =~= c.queued);
}

/// A segment that was sent while none was in flight is sent again at the first
/// look at the clock 200 ms or more later, and at none before, whatever its
/// length.
pub proof fn law_first_retransmission(c: Connection, n: int, now: u64, later: u64)
    requires
        0 <= n <= c.queued.len(),
        c.unacked.len() == 0,
    ensures
        c.sent(n, now).resends(later) <==> later >= now + 200_000_000,
{
    lemma_wait(0);
}

/// Bytes that leave the queue unsent leave from its front, and nothing else
/// changes.
pub proof fn law_unqueued(c: Connection, n: int)
    requires
        0 <= n <= c.queued.len(),
    ensures
        c.unqueue(n).queued == c.queued.subrange(n, c.queued.len() as int),
        c.unqueue(n).unacked == c.unacked,
        c.unqueue(n).received == c.received,
        c.unqueue(n).seq == c.seq && c.unqueue(n).ack == c.ack,
        c.unqueue(n).status == c.status,
        c.unqueue(n).host_port == c.host_port && c.unqueue(n).peer_port == c.peer_port,
{
    assert(c.unqueue(n).queued =~= c.queued.subrange(n, c.queued.len() as int));
}

/// A look at the clock: a segment in flight whose timeout has run out is sent
/// again, up to five times, and then its connection has timed out. Before that,
/// and where nothing is in flight, nothing happens.
pub proof fn law_look_at_the_clock(c: Connection, now: u64)
    requires
        c.unacked.len() <= 1,
    ensures
        ({
            let d = c.on_clock(now);
            let s = c.unacked[0];
            let late = c.unacked.len() == 1 && now >= s.sent_at + wait_ms(s.retries as int)
                * 1_000_000;
            &&& d.received == c.received && d.queued == c.queued
            &&& d.seq == c.seq && d.ack == c.ack
            &&& d.host_port == c.host_port && d.peer_port == c.peer_port
            &&& c.resends(now) <==> late && s.retries < 5
            &&& if !late {
                d.unacked == c.unacked && d.status == c.status
            } else if s.retries < 5 {
                &&& d.status == c.status
                &&& d.unacked.len() == 1
                &&& d.unacked[0].seq == s.seq
                &&& d.unacked[0].data == s.data
                &&& d.unacked[0].sent_at == now
                &&& d.unacked[0].retries == s.retries + 1
            } else {
                &&& d.status == ConnectionStatus::Error(ErrorKind::TimedOut)
                &&& d.unacked == c.unacked
            }
        }),
{
    if c.unacked.len() == 1 {
        lemma_wait(c.unacked[0].retries as nat);
    }
}

/// The calls on one connection follow its rules: a segment is taken in and
/// answered, the clock looked at, and a sent chunk recorded, as they say.
pub proof fn law_state_follows_the_rules(
    a: &mut ConnectionState,
    packet: &TcpPacket,
    answer: bool,
    b: &mut ConnectionState,
    now: u64,
    resend: Option<(u32, Vec<u8>)>,
    c: &mut ConnectionState,
    n: usize,
    d: &mut ConnectionState,
)
    requires
        call_ensures(ConnectionState::on_segment, (a, packet), answer),
        call_ensures(ConnectionState::on_clock, (b, now), resend),
        n <= old(c)@.queued.len(),
        call_ensures(ConnectionState::mark_sent, (c, n, now), ()),
        n <= old(d)@.queued.len(),
        call_ensures(ConnectionState::unqueue, (d, n), ()),
    ensures
        ({
            let s = Segment {
                source_port: packet.source_port,
                destination_port: packet.destination_port,
                sequence_number: packet.sequence_number,
                acknowledgment_number: packet.acknowledgment_number,
                flags: packet.flags,
                window_size: packet.window_size,
                payload: packet.payload@,
            };
            &&& final(a)@ == old(a)@.on_segment(s).0
            &&& answer == old(a)@.on_segment(s).1
        }),
        final(b)@ == old(b)@.on_clock(now),
        resend is Some <==> old(b)@.resends(now),
        resend matches Some((seq, data)) ==> {
            &&& old(b)@.unacked.len() > 0
            &&& seq == old(b)@.unacked[0].seq
            &&& data@ == old(b)@.unacked[0].data
        },
        final(c)@ == old(c)@.sent(n as int, now),
        final(d)@ == old(d)@.unqueue(n as int),
{
}

/// The buffers of one connection: bytes are added at the end and taken from the
/// front, and nothing else changes.
pub proof fn law_state_buffers(
    a: &mut ConnectionState,
    b: &mut ConnectionState,
    payload: &[u8],
    c: &mut ConnectionState,
    n: usize,
    part: Vec<u8>,
    d: &mut ConnectionState,
    all: Vec<u8>,
)
    requires
        call_ensures(ConnectionState::queue, (a, payload), ()),
        call_ensures(ConnectionState::cache, (b, payload), ()),
        call_ensures(ConnectionState::read, (c, n), part),
        call_ensures(ConnectionState::read_all, (d,), all),
    ensures
        final(a)@ == (Connection { queued: final(a)@.queued, ..old(a)@ }),
        final(a)@.queued == old(a)@.queued + payload@,
        final(b)@ == (Connection { received: final(b)@.received, ..old(b)@ }),
        final(b)@.received == old(b)@.received + payload@,
        final(c)@ == (Connection { received: final(c)@.received, ..old(c)@ }),
        part@ + final(c)@.received == old(c)@.received,
        part@.len() <= n,
        part@.len() == n || final(c)@.received.len() == 0,
        final(d)@ == (Connection { received: final(d)@.received, ..old(d)@ }),
        all@ == old(d)@.received && final(d)@.received.len() == 0,
{
    assert(part@ + final(c)@.received =~= old(c)@.received);
}

/// What is asked of a connection is what it is; and its next chunk is there
/// exactly when it may send.
pub proof fn law_state_lookups(
    a: &ConnectionState,
    mss: usize,
    host_port: u16,
    peer_port: u16,
    seq: u32,
    ack: u32,
    status: ConnectionStatus,
    queued: usize,
    ready: bool,
    chunk: Option<Vec<u8>>,
)
    requires
        call_ensures(ConnectionState::host_port, (a,), host_port),
        call_ensures(ConnectionState::peer_port, (a,), peer_port),
        call_ensures(ConnectionState::seq, (a,), seq),
        call_ensures(ConnectionState::ack, (a,), ack),
        call_ensures(ConnectionState::status, (a,), status),
        call_ensures(ConnectionState::queued_len, (a,), queued),
        call_ensures(ConnectionState::is_ready, (a,), ready),
        call_ensures(ConnectionState::next_chunk, (a, mss), chunk),
    ensures
        host_port == a@.host_port && peer_port == a@.peer_port,
        seq == a@.seq && ack == a@.ack && status == a@.status,
        queued == a@.queued.len(),
        ready <==> a@.queued.len() > 0 && a@.unacked.len() == 0,
        chunk is Some <==> ready,
        chunk matches Some(data) ==> {
            &&& data@ == a@.queued.subrange(0, data@.len() as int)
            &&& data@.len() <= mss && data@.len() <= a@.queued.len()
            &&& data@.len() == mss || data@.len() == a@.queued.len()
        },
{
    law_next_chunk(a@, mss as nat);
}

/// What holds of every connection: at most one segment is in flight, with at
/// most five retransmissions.
pub proof fn law_one_in_flight(c: Connection)
    ensures
        c.wf() <==> c.unacked.len() == 0 || c.unacked.len() == 1 && c.unacked[0].retries <= 5,
{
}

} // verus!
