//! The state of one TCP connection, and how it changes.
//!
//! Points in time are nanoseconds on a clock that never goes back.

use std::collections::VecDeque;

use vstd::prelude::*;

use crate::bytes::{copy_range, put_slice, take_front};
use crate::error::ErrorKind;
use crate::packets::{Segment, TcpPacket};
use crate::random::random_u32;
use crate::sequence::{advance, before, not_after, seq_add, seq_lt, seq_lte};

verus! {

/// Maximum number of retransmission attempts before a connection is killed.
pub const MAX_RETRIES: u32 = 5;

/// Initial retransmission timeout in milliseconds. Doubles on each retry.
pub const INITIAL_RTO_MS: u64 = 200;

/// Nanoseconds in a millisecond.
pub const NANOS_PER_MS: u64 = 1_000_000;

/// How long passes between two points in time; nothing if the second comes
/// first.
pub open spec fn elapsed(from: u64, to: u64) -> int {
    if from <= to {
        to - from
    } else {
        0
    }
}

/// Computes how long passes between two points in time.
pub fn elapsed_nanos(from: u64, to: u64) -> (n: u64)
    ensures
        n == elapsed(from, to),
{
    if from <= to {
        to - from
    } else {
        0
    }
}

// ---------------------------------------------------------------------------
// Unacknowledged segments
// ---------------------------------------------------------------------------

/// A segment that was sent and is not acknowledged.
pub struct InFlight {
    pub seq: u32,
    pub data: Seq<u8>,
    pub sent_at: u64,
    pub retries: u32,
}

/// The retransmission timeout, in milliseconds, of a segment that was
/// retransmitted so many times: 200 ms, doubled by each of the first five
/// retries.
pub open spec fn rto_ms(retries: nat) -> nat
    decreases retries,
{
    if retries == 0 {
        INITIAL_RTO_MS as nat
    } else if retries > 5 {
        rto_ms(5)
    } else {
        2 * rto_ms((retries - 1) as nat)
    }
}

/// Computes a retransmission timeout in milliseconds.
pub fn backoff_ms(retries: u32) -> (ms: u64)
    ensures
        ms == rto_ms(retries as nat),
        ms <= 6400,
{
    let doublings: u32 = if retries < 5 {
        retries
    } else {
        5
    };
    proof {
        reveal_with_fuel(rto_ms, 7);
        assert((200u64 << 0u32) == 200 && (200u64 << 1u32) == 400 && (200u64 << 2u32) == 800
            && (200u64 << 3u32) == 1600 && (200u64 << 4u32) == 3200 && (200u64 << 5u32) == 6400)
            by (bit_vector);
    }
    INITIAL_RTO_MS << doublings
}

impl InFlight {
    /// The sequence number behind the segment's last byte.
    pub open spec fn end(self) -> u32 {
        advance(self.seq, self.data.len() as int)
    }

    /// Whether an acknowledgment number covers the whole segment.
    pub open spec fn covered_by(self, ack: u32) -> bool {
        not_after(self.end(), ack)
    }

    /// Whether the segment has been waiting for its timeout or longer.
    pub open spec fn timed_out(self, now: u64) -> bool {
        elapsed(self.sent_at, now) >= rto_ms(self.retries as nat) * NANOS_PER_MS
    }
}

/// A segment that was sent and is not acknowledged.
#[derive(Debug)]
pub struct UnackedSegment {
    pub(crate) seq: u32,
    pub(crate) data: Vec<u8>,
    pub(crate) sent_at: u64,
    pub(crate) retries: u32,
}

impl View for UnackedSegment {
    type V = InFlight;

    closed spec fn view(&self) -> InFlight {
        InFlight {
            seq: self.seq,
            data: self.data@,
            sent_at: self.sent_at,
            retries: self.retries,
        }
    }
}

impl UnackedSegment {
    /// A segment that was sent at `sent_at` and retransmitted `retries` times
    /// since.
    pub fn new(seq: u32, data: Vec<u8>, sent_at: u64, retries: u32) -> (segment: UnackedSegment)
        ensures
            segment@ == (InFlight { seq, data: data@, sent_at, retries }),
    {
        UnackedSegment { seq, data, sent_at, retries }
    }

    /// The retransmission timeout in milliseconds.
    pub fn rto(&self) -> (ms: u64)
        ensures
            ms == rto_ms(self@.retries as nat),
            ms <= 6400,
    {
        backoff_ms(self.retries)
    }

    /// Whether the segment has been waiting for its timeout or longer.
    pub fn is_timed_out(&self, now: u64) -> (r: bool)
        ensures
            r == self@.timed_out(now),
    {
        let rto: u64 = self.rto();
        elapsed_nanos(self.sent_at, now) >= rto * NANOS_PER_MS
    }
}

/// The timeouts that a segment runs through: 200 ms, 400 ms, 800 ms, 1.6 s and
/// 3.2 s before its five retransmissions, and 6.4 s before it is given up.
/// None is ever longer.
pub proof fn law_backoff_schedule()
    ensures
        rto_ms(0) == 200,
        rto_ms(1) == 400,
        rto_ms(2) == 800,
        rto_ms(3) == 1600,
        rto_ms(4) == 3200,
        rto_ms(MAX_RETRIES as nat) == 6400,
        forall|n: nat| #[trigger] rto_ms(n) <= 6400,
        forall|n: nat| n >= MAX_RETRIES ==> #[trigger] rto_ms(n) == 6400,
{
    reveal_with_fuel(rto_ms, 7);
}

/// A queue of segments, oldest first, without those at its front that an
/// acknowledgment number covers.
pub open spec fn drop_acked(queue: Seq<InFlight>, ack: u32) -> Seq<InFlight>
    decreases queue.len(),
{
    if queue.len() > 0 && queue[0].covered_by(ack) {
        drop_acked(queue.skip(1), ack)
    } else {
        queue
    }
}

// ---------------------------------------------------------------------------
// Connections
// ---------------------------------------------------------------------------

/// How far a connection has come.
#[derive(Debug, Clone, Copy, PartialEq, Eq, PartialOrd, Ord, Structural)]
pub enum ConnectionStatus {
    WaitingForSyn,
    Connected,
    Error(ErrorKind),
}

/// What is known of a connection.
#[verifier::ext_equal]
pub struct Connection {
    /// Next sequence number we will send.
    pub seq: u32,
    /// Next sequence number we expect from the peer.
    pub ack: u32,
    pub host_port: u16,
    pub peer_port: u16,
    /// Bytes that have arrived and were not read.
    pub received: Seq<u8>,
    /// Bytes that are to be sent.
    pub queued: Seq<u8>,
    pub status: ConnectionStatus,
    /// Segments that were sent and are not acknowledged, oldest first.
    pub unacked: Seq<InFlight>,
}

/// A connection before its first SYN.
pub open spec fn opening(host_port: u16, peer_port: u16, seq: u32) -> Connection {
    Connection {
        seq,
        ack: 0,
        host_port,
        peer_port,
        received: Seq::empty(),
        queued: Seq::empty(),
        status: ConnectionStatus::WaitingForSyn,
        unacked: Seq::empty(),
    }
}

impl Connection {
    /// What holds of every connection: at most one segment is in flight, and
    /// it was retransmitted at most five times.
    pub open spec fn wf(self) -> bool {
        &&& self.unacked.len() <= 1
        &&& forall|i: int|
            0 <= i < self.unacked.len() ==> (#[trigger] self.unacked[i]).retries <= MAX_RETRIES
    }

    /// The connection with its acknowledged segments dropped.
    pub open spec fn acknowledge(self, ack: u32) -> Connection {
        Connection { unacked: drop_acked(self.unacked, ack), ..self }
    }

    /// The connection in another state.
    pub open spec fn with_status(self, status: ConnectionStatus) -> Connection {
        Connection { status, ..self }
    }

    /// A segment is out of order if it begins neither at the expected
    /// sequence number nor before it.
    pub open spec fn out_of_order(self, s: Segment) -> bool {
        s.sequence_number != self.ack && !before(s.sequence_number, self.ack)
    }

    /// A keep-alive probe: nothing, one before the expected sequence number.
    pub open spec fn keep_alive(self, s: Segment) -> bool {
        s.payload.len() == 0 && !s.flags.fin && advance(s.sequence_number, 1) == self.ack
    }

    /// The connection with the payload of an expected segment buffered.
    pub open spec fn buffer(self, s: Segment) -> Connection {
        if s.sequence_number == self.ack {
            Connection {
                ack: advance(self.ack, s.payload.len() as int),
                received: self.received + s.payload,
                ..self
            }
        } else {
            self
        }
    }

    /// A segment on an established connection: the connection after it, and
    /// whether it is answered with an ACK.
    ///
    /// An out-of-order segment is dropped, its FIN included. Of any other, an
    /// expected payload is buffered, a duplicate one is not, and either is
    /// answered; so is a keep-alive probe. A FIN takes up one sequence number
    /// and ends the connection.
    pub open spec fn on_established(self, s: Segment) -> (Connection, bool) {
        if self.out_of_order(s) {
            (self, false)
        } else if s.flags.fin {
            let c = self.buffer(s);
            (
                Connection {
                    ack: advance(c.ack, 1),
                    status: ConnectionStatus::Error(ErrorKind::UnexpectedEof),
                    ..c
                },
                true,
            )
        } else {
            (self.buffer(s), s.payload.len() > 0 || self.keep_alive(s))
        }
    }

    /// A SYN-ACK on a connection that waits for it. Both SYNs take up one
    /// sequence number.
    pub open spec fn established(self, s: Segment) -> Connection {
        Connection {
            ack: advance(s.sequence_number, 1),
            seq: advance(self.seq, 1),
            status: ConnectionStatus::Connected,
            ..self
        }
    }

    /// A segment from the peer: the connection after it, and whether it is
    /// answered with an ACK.
    pub open spec fn on_segment(self, s: Segment) -> (Connection, bool) {
        let c = if s.flags.ack {
            self.acknowledge(s.acknowledgment_number)
        } else {
            self
        };
        if s.flags.rst {
            (c.with_status(ConnectionStatus::Error(ErrorKind::ConnectionReset)), false)
        } else {
            match c.status {
                ConnectionStatus::WaitingForSyn => if s.flags.syn && s.flags.ack {
                    (c.established(s), true)
                } else {
                    (c, false)
                },
                ConnectionStatus::Connected => c.on_established(s),
                ConnectionStatus::Error(_) => (c, false),
            }
        }
    }

    /// Whether the oldest segment has been waiting for too long.
    pub open spec fn overdue(self, now: u64) -> bool {
        self.unacked.len() > 0 && self.unacked[0].timed_out(now)
    }

    /// Whether the oldest segment is due to be retransmitted.
    pub open spec fn resends(self, now: u64) -> bool {
        self.overdue(now) && self.unacked[0].retries < MAX_RETRIES
    }

    /// The connection after a look at the clock: an overdue segment is
    /// retransmitted now, or, if it was retransmitted too often, the
    /// connection is given up.
    pub open spec fn on_clock(self, now: u64) -> Connection {
        if self.resends(now) {
            let s = self.unacked[0];
            let again = InFlight { sent_at: now, retries: (s.retries + 1) as u32, ..s };
            Connection { unacked: self.unacked.update(0, again), ..self }
        } else if self.overdue(now) {
            self.with_status(ConnectionStatus::Error(ErrorKind::TimedOut))
        } else {
            self
        }
    }

    /// Whether there is something to send and nothing in flight.
    pub open spec fn ready(self) -> bool {
        self.queued.len() > 0 && self.unacked.len() == 0
    }

    /// How many of the queued bytes the next segment takes.
    pub open spec fn chunk_len(self, mss: nat) -> nat {
        if self.queued.len() < mss {
            self.queued.len()
        } else {
            mss
        }
    }

    /// The bytes of the next segment.
    pub open spec fn chunk(self, mss: nat) -> Seq<u8> {
        self.queued.take(self.chunk_len(mss) as int)
    }

    /// The connection without the first `n` queued bytes.
    pub open spec fn unqueue(self, n: int) -> Connection {
        Connection { queued: self.queued.skip(n), ..self }
    }

    /// The connection after the first `n` queued bytes were sent.
    pub open spec fn sent(self, n: int, now: u64) -> Connection {
        Connection {
            seq: advance(self.seq, n),
            queued: self.queued.skip(n),
            unacked: self.unacked.push(
                InFlight { seq: self.seq, data: self.queued.take(n), sent_at: now, retries: 0 },
            ),
            ..self
        }
    }
}

/// The state of a connection.
#[derive(Debug)]
pub struct ConnectionState {
    pub(crate) seq: u32,
    pub(crate) ack: u32,
    pub(crate) host_port: u16,
    pub(crate) peer_port: u16,
    pub(crate) read_buffer: Vec<u8>,
    pub(crate) write_buffer: Vec<u8>,
    pub(crate) status: ConnectionStatus,
    pub(crate) unacked: VecDeque<UnackedSegment>,
}

/// What a queue of segments holds.
pub closed spec fn segments(queue: Seq<UnackedSegment>) -> Seq<InFlight> {
    queue.map_values(|s: UnackedSegment| s@)
}

impl View for ConnectionState {
    type V = Connection;

    closed spec fn view(&self) -> Connection {
        Connection {
            seq: self.seq,
            ack: self.ack,
            host_port: self.host_port,
            peer_port: self.peer_port,
            received: self.read_buffer@,
            queued: self.write_buffer@,
            status: self.status,
            unacked: segments(self.unacked@),
        }
    }
}

impl ConnectionState {
    /// A connection before its first SYN, with a random initial sequence
    /// number.
    pub fn new(host_port: u16, peer_port: u16) -> (state: ConnectionState)
        ensures
            state@ == opening(host_port, peer_port, state@.seq),
            state@.wf(),
    {
        ConnectionState::with_seq(host_port, peer_port, random_u32())
    }

    /// A connection before its first SYN, with a given initial sequence
    /// number.
    pub fn with_seq(host_port: u16, peer_port: u16, seq: u32) -> (state: ConnectionState)
        ensures
            state@ == opening(host_port, peer_port, seq),
            state@.wf(),
    {
        let state = ConnectionState {
            seq,
            ack: 0,
            host_port,
            peer_port,
            read_buffer: Vec::new(),
            write_buffer: Vec::new(),
            status: ConnectionStatus::WaitingForSyn,
            unacked: VecDeque::new(),
        };
        assert(state@ =~= opening(host_port, peer_port, seq));
        state
    }

    /// The port on this side.
    pub fn host_port(&self) -> (port: u16)
        ensures
            port == self@.host_port,
    {
        self.host_port
    }

    /// The port on the peer's side.
    pub fn peer_port(&self) -> (port: u16)
        ensures
            port == self@.peer_port,
    {
        self.peer_port
    }

    /// The next sequence number to send.
    pub fn seq(&self) -> (seq: u32)
        ensures
            seq == self@.seq,
    {
        self.seq
    }

    /// The next sequence number that is expected from the peer.
    pub fn ack(&self) -> (ack: u32)
        ensures
            ack == self@.ack,
    {
        self.ack
    }

    /// How far the connection has come.
    pub fn status(&self) -> (status: ConnectionStatus)
        ensures
            status == self@.status,
    {
        self.status
    }

    /// Queues bytes to be sent.
    pub fn queue(&mut self, payload: &[u8])
        ensures
            final(self)@ == (Connection { queued: old(self)@.queued + payload@, ..old(self)@ }),
    {
        put_slice(&mut self.write_buffer, payload);
    }

    /// Adds bytes behind the received ones.
    pub fn cache(&mut self, payload: &[u8])
        ensures
            final(self)@ == (Connection { received: old(self)@.received + payload@, ..old(self)@ }),
    {
        put_slice(&mut self.read_buffer, payload);
    }

    /// Takes up to `to_copy` of the oldest received bytes.
    pub fn read(&mut self, to_copy: usize) -> (data: Vec<u8>)
        ensures
            ({
                let n = if to_copy < old(self)@.received.len() {
                    to_copy as int
                } else {
                    old(self)@.received.len() as int
                };
                &&& data@ == old(self)@.received.take(n)
                &&& final(self)@ == (Connection {
                    received: old(self)@.received.skip(n),
                    ..old(self)@
                })
            }),
    {
        let n: usize = if to_copy < self.read_buffer.len() {
            to_copy
        } else {
            self.read_buffer.len()
        };
        take_front(&mut self.read_buffer, n)
    }

    /// Takes all received bytes.
    pub fn read_all(&mut self) -> (data: Vec<u8>)
        ensures
            data@ == old(self)@.received,
            final(self)@ == (Connection { received: Seq::empty(), ..old(self)@ }),
    {
        let mut data: Vec<u8> = Vec::new();
        std::mem::swap(&mut data, &mut self.read_buffer);
        data
    }

    fn acknowledge(&mut self, ack: u32)
        ensures
            final(self)@ == old(self)@.acknowledge(ack),
    {
        let ghost start = self@;
        while self.unacked.len() > 0
            invariant_except_break
                drop_acked(self@.unacked, ack) == drop_acked(start.unacked, ack),
                self@ == (Connection { unacked: self@.unacked, ..start }),
            ensures
                self@.unacked == drop_acked(start.unacked, ack),
                self@ == (Connection { unacked: self@.unacked, ..start }),
            decreases self.unacked@.len(),
        {
            let end: u32 = seq_add(self.unacked[0].seq, self.unacked[0].data.len());
            assert(self@.unacked[0] == self.unacked@[0]@);
            if !seq_lte(end, ack) {
                break;
            }
            let ghost queue = self@.unacked;
            let _ = self.unacked.pop_front();
            assert(self@.unacked =~= queue.skip(1));
        }
    }

    /// Takes in a segment from the peer. Returns whether it is answered with
    /// an ACK.
    pub fn on_segment(&mut self, packet: &TcpPacket) -> (answer: bool)
        ensures
            (final(self)@, answer) == old(self)@.on_segment(packet@),
            old(self)@.wf() ==> final(self)@.wf(),
    {
        proof {
            if self@.wf() {
                lemma_on_segment_keeps_wf(self@, packet@);
            }
        }
        if packet.flags.ack {
            self.acknowledge(packet.acknowledgment_number);
        }
        if packet.flags.rst {
            self.status = ConnectionStatus::Error(ErrorKind::ConnectionReset);
            return false;
        }
        match self.status {
            ConnectionStatus::WaitingForSyn => {
                if packet.flags.syn && packet.flags.ack {
                    self.ack = seq_add(packet.sequence_number, 1);
                    self.seq = seq_add(self.seq, 1);
                    self.status = ConnectionStatus::Connected;
                    true
                } else {
                    false
                }
            },
            ConnectionStatus::Connected => self.on_established(packet),
            ConnectionStatus::Error(_) => false,
        }
    }

    fn on_established(&mut self, packet: &TcpPacket) -> (answer: bool)
        ensures
            (final(self)@, answer) == old(self)@.on_established(packet@),
    {
        let expected: bool = packet.sequence_number == self.ack;
        if !expected && !seq_lt(packet.sequence_number, self.ack) {
            return false;
        }
        let keep_alive: bool = packet.payload.len() == 0 && !packet.flags.fin && seq_add(
            packet.sequence_number,
            1,
        ) == self.ack;
        if expected {
            self.ack = seq_add(self.ack, packet.payload.len());
            put_slice(&mut self.read_buffer, packet.payload.as_slice());
        }
        if packet.flags.fin {
            self.ack = seq_add(self.ack, 1);
            self.status = ConnectionStatus::Error(ErrorKind::UnexpectedEof);
            return true;
        }
        packet.payload.len() > 0 || keep_alive
    }

    /// Looks at the clock. Returns the sequence number and the bytes of the
    /// segment that is to be retransmitted, if one is.
    pub fn on_clock(&mut self, now: u64) -> (resend: Option<(u32, Vec<u8>)>)
        ensures
            final(self)@ == old(self)@.on_clock(now),
            old(self)@.wf() ==> final(self)@.wf(),
            match resend {
                Some((seq, data)) => old(self)@.resends(now) && seq == old(self)@.unacked[0].seq
                    && data@ == old(self)@.unacked[0].data,
                None => !old(self)@.resends(now),
            },
    {
        if self.unacked.len() == 0 {
            return None;
        }
        assert(self@.unacked[0] == self.unacked@[0]@);
        if !self.unacked[0].is_timed_out(now) {
            return None;
        }
        if self.unacked[0].retries >= MAX_RETRIES {
            self.status = ConnectionStatus::Error(ErrorKind::TimedOut);
            return None;
        }
        let ghost before = self.unacked@;
        match self.unacked.pop_front() {
            Some(segment) => {
                let seq: u32 = segment.seq;
                let data = copy_range(segment.data.as_slice(), 0, segment.data.len());
                assert(data@ =~= segment.data@);
                let again = UnackedSegment {
                    sent_at: now,
                    retries: segment.retries + 1,
                    ..segment
                };
                self.unacked.push_front(again);
                assert(self@ =~= old(self)@.on_clock(now));
                Some((seq, data))
            },
            None => None,
        }
    }

    /// The bytes of the next segment, if there is something to send and
    /// nothing in flight.
    pub fn next_chunk(&self, mss: usize) -> (chunk: Option<Vec<u8>>)
        ensures
            match chunk {
                Some(data) => self@.ready() && data@ == self@.chunk(mss as nat),
                None => !self@.ready(),
            },
    {
        if !self.is_ready() {
            return None;
        }
        let n: usize = if self.write_buffer.len() < mss {
            self.write_buffer.len()
        } else {
            mss
        };
        let chunk = copy_range(self.write_buffer.as_slice(), 0, n);
        assert(chunk@ =~= self@.chunk(mss as nat));
        Some(chunk)
    }

    /// How many bytes are queued.
    pub fn queued_len(&self) -> (n: usize)
        ensures
            n == self@.queued.len(),
    {
        self.write_buffer.len()
    }

    /// Whether there is something to send and nothing in flight.
    pub fn is_ready(&self) -> (r: bool)
        ensures
            r == self@.ready(),
    {
        self.write_buffer.len() > 0 && self.unacked.len() == 0
    }

    /// Drops the first `n` queued bytes.
    pub fn unqueue(&mut self, n: usize)
        requires
            n <= old(self)@.queued.len(),
        ensures
            final(self)@ == old(self)@.unqueue(n as int),
            old(self)@.wf() ==> final(self)@.wf(),
    {
        let _ = take_front(&mut self.write_buffer, n);
    }

    /// Records that the first `n` queued bytes were sent.
    pub fn mark_sent(&mut self, n: usize, now: u64)
        requires
            n <= old(self)@.queued.len(),
        ensures
            final(self)@ == old(self)@.sent(n as int, now),
            old(self)@.unacked.len() == 0 ==> final(self)@.wf(),
    {
        let seq: u32 = self.seq;
        let data = take_front(&mut self.write_buffer, n);
        self.unacked.push_back(UnackedSegment { seq, data, sent_at: now, retries: 0 });
        self.seq = seq_add(seq, n);
        assert(self@ =~= old(self)@.sent(n as int, now));
    }
}

proof fn lemma_drop_acked_is_suffix(queue: Seq<InFlight>, ack: u32)
    ensures
        exists|k: int|
            0 <= k <= queue.len() && drop_acked(queue, ack) == #[trigger] queue.skip(k),
    decreases queue.len(),
{
    if queue.len() > 0 && queue[0].covered_by(ack) {
        lemma_drop_acked_is_suffix(queue.skip(1), ack);
        let k = choose|k: int|
            0 <= k <= queue.skip(1).len() && drop_acked(queue.skip(1), ack) == #[trigger] queue.skip(
                1,
            ).skip(k);
        assert(queue.skip(1).skip(k) =~= queue.skip(k + 1));
    } else {
        assert(queue.skip(0) =~= queue);
    }
}

/// A segment from the peer keeps what holds of every connection.
pub proof fn lemma_on_segment_keeps_wf(c: Connection, s: Segment)
    requires
        c.wf(),
    ensures
        c.on_segment(s).0.wf(),
{
    lemma_drop_acked_is_suffix(c.unacked, s.acknowledgment_number);
}

} // verus!
