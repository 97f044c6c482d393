//! What a connection promises its writer: its bytes, in order, one segment at
//! a time, each sent again until it is acknowledged or given up.

use vstd::prelude::*;

use crate::connection::{
    drop_acked, elapsed, rto_ms, Connection, ConnectionStatus, InFlight, MAX_RETRIES, NANOS_PER_MS,
};
use crate::error::ErrorKind;
use crate::delivery::{carries, delivered, law_delivery};
use crate::packets::Segment;
use crate::sequence::{at, law_advance_follows_the_stream, law_order_follows_the_stream};

verus! {

/// Of all bytes that were ever queued, the first `n` were sent, and all but
/// those of the segment in flight are acknowledged. The stream's first byte
/// stands at position `base`.
pub open spec fn sending(c: Connection, stream: Seq<u8>, base: int, n: int) -> bool {
    &&& 0 <= n <= stream.len()
    &&& c.queued == stream.skip(n)
    &&& c.seq == at(base + n)
    &&& c.unacked.len() <= 1
    &&& c.unacked.len() == 1 ==> in_place(c.unacked[0], stream, base, n)
}

/// A segment holds the last bytes among the first `n` of the stream, under
/// the sequence number of its first byte.
pub open spec fn in_place(segment: InFlight, stream: Seq<u8>, base: int, n: int) -> bool {
    let k = segment.data.len();
    &&& k <= n
    &&& segment.data == stream.subrange(n - k, n)
    &&& segment.seq == at(base + n - k)
}

/// When the handshake is over, what was queued so far is the stream, which
/// begins behind our SYN.
pub proof fn law_sending_begins(c: Connection, isn: int, s: Segment)
    requires
        c.status is WaitingForSyn,
        c.unacked.len() == 0,
        c.seq == at(isn),
        s.flags.syn && s.flags.ack && !s.flags.rst,
    ensures
        sending(c.on_segment(s).0, c.queued, isn + 1, 0),
{
    law_advance_follows_the_stream(isn, 1);
    assert(c.queued.skip(0) =~= c.queued);
}

/// Queueing adds to the end of the stream.
pub proof fn law_queueing_extends_the_stream(
    c: Connection,
    stream: Seq<u8>,
    base: int,
    n: int,
    payload: Seq<u8>,
)
    requires
        sending(c, stream, base, n),
    ensures
        sending(Connection { queued: c.queued + payload, ..c }, stream + payload, base, n),
{
    assert((stream + payload).skip(n) =~= stream.skip(n) + payload);
    if c.unacked.len() == 1 {
        let k = c.unacked[0].data.len();
        assert((stream + payload).subrange(n - k, n) =~= stream.subrange(n - k, n));
    }
}

/// A new segment goes on where the last one ended, with the bytes of the
/// stream that belong there, and never more than the MSS.
pub proof fn law_sending_follows_the_stream(
    c: Connection,
    stream: Seq<u8>,
    base: int,
    n: int,
    mss: nat,
    now: u64,
)
    requires
        sending(c, stream, base, n),
        c.ready(),
    ensures
        ({
            let len = c.chunk_len(mss);
            &&& len <= mss
            &&& len < mss ==> n + len == stream.len()
            &&& c.chunk(mss) == stream.subrange(n, n + len)
            &&& c.seq == at(base + n)
            &&& sending(c.sent(len as int, now), stream, base, n + len)
        }),
{
    let len = c.chunk_len(mss);
    law_advance_follows_the_stream(base + n, len as int);
    assert(c.chunk(mss) =~= stream.subrange(n, n + len));
    assert(stream.skip(n).skip(len as int) =~= stream.skip(n + len));
}

/// A segment from the peer on an open connection can only acknowledge: it
/// leaves what is queued and what was sent alone.
pub proof fn law_arrivals_keep_what_was_sent(
    c: Connection,
    stream: Seq<u8>,
    base: int,
    n: int,
    s: Segment,
)
    requires
        sending(c, stream, base, n),
        !(c.status is WaitingForSyn),
    ensures
        sending(c.on_segment(s).0, stream, base, n),
{
    lemma_one_segment(c.unacked, s.acknowledgment_number);
}

pub proof fn lemma_one_segment(queue: Seq<InFlight>, ack: u32)
    requires
        queue.len() <= 1,
    ensures
        drop_acked(queue, ack) == if queue.len() == 1 && queue[0].covered_by(ack) {
            Seq::<InFlight>::empty()
        } else {
            queue
        },
{
    if queue.len() == 1 {
        assert(queue.skip(1) =~= Seq::<InFlight>::empty());
        reveal_with_fuel(drop_acked, 2);
    }
}

/// A segment stays in flight until an acknowledgment number covers it, and
/// then leaves.
pub proof fn law_in_flight_until_acknowledged(c: Connection, s: Segment)
    requires
        c.wf(),
        c.unacked.len() == 1,
    ensures
        c.on_segment(s).0.unacked == if s.flags.ack && c.unacked[0].covered_by(
            s.acknowledgment_number,
        ) {
            Seq::<InFlight>::empty()
        } else {
            c.unacked
        },
{
    lemma_one_segment(c.unacked, s.acknowledgment_number);
}

/// Stop-and-wait: while a segment is in flight nothing new is sent, and when
/// it is acknowledged what is queued may be.
pub proof fn law_stop_and_wait(c: Connection, s: Segment)
    requires
        c.wf(),
        c.unacked.len() == 1,
        c.queued.len() > 0,
        !(c.status is WaitingForSyn),
    ensures
        !c.ready(),
        c.on_segment(s).0.ready() == (s.flags.ack && c.unacked[0].covered_by(
            s.acknowledgment_number,
        )),
{
    lemma_one_segment(c.unacked, s.acknowledgment_number);
}

/// What is in flight is, wherever it arrives, a piece of the writer's stream.
pub proof fn law_in_flight_carries_the_stream(
    c: Connection,
    stream: Seq<u8>,
    base: int,
    n: int,
    s: Segment,
)
    requires
        sending(c, stream, base, n),
        c.unacked.len() == 1,
        s.sequence_number == c.unacked[0].seq,
        s.payload == c.unacked[0].data,
    ensures
        carries(s, stream, base, n - s.payload.len()),
{
}

/// Writer and reader together: when the segment in flight arrives, for the
/// first time or once more, everything that was sent has been delivered, and
/// it is answered; when the answer arrives, nothing is in flight. So one
/// exchange that gets through makes up for any number that did not.
pub proof fn law_exchange(
    writer: Connection,
    reader: Connection,
    taken: Seq<u8>,
    stream: Seq<u8>,
    base: int,
    n: int,
    m: int,
    data: Segment,
    answer: Segment,
)
    requires
        sending(writer, stream, base, n),
        !(writer.status is WaitingForSyn),
        writer.unacked.len() == 1,
        0 < writer.unacked[0].data.len() < 0x8000_0000,
        reader.status is Connected,
        delivered(reader, taken, stream, base, m),
        m == n || m == n - writer.unacked[0].data.len(),
        data.sequence_number == writer.unacked[0].seq,
        data.payload == writer.unacked[0].data,
        !data.flags.rst && !data.flags.fin,
        answer.flags.ack,
        answer.acknowledgment_number == reader.on_segment(data).0.ack,
    ensures
        reader.on_segment(data).1,
        delivered(reader.on_segment(data).0, taken, stream, base, n),
        writer.on_segment(answer).0.unacked.len() == 0,
        sending(writer.on_segment(answer).0, stream, base, n),
{
    let k = writer.unacked[0].data.len();
    law_in_flight_carries_the_stream(writer, stream, base, n, data);
    law_delivery(reader, taken, stream, base, m, data, n - k);
    law_advance_follows_the_stream(base + n - k, k as int);
    law_order_follows_the_stream(base + n, base + n);
    law_arrivals_keep_what_was_sent(writer, stream, base, n, answer);
    lemma_one_segment(writer.unacked, answer.acknowledgment_number);
}

/// A look at the clock leaves what was sent alone: a retransmission carries
/// the same bytes under the same sequence number.
pub proof fn law_retransmission_repeats(
    c: Connection,
    stream: Seq<u8>,
    base: int,
    n: int,
    now: u64,
)
    requires
        sending(c, stream, base, n),
    ensures
        sending(c.on_clock(now), stream, base, n),
        c.unacked.len() == 1 ==> {
            &&& c.on_clock(now).unacked.len() == 1
            &&& c.on_clock(now).unacked[0].seq == c.unacked[0].seq
            &&& c.on_clock(now).unacked[0].data == c.unacked[0].data
        },
{
}

/// Before its timeout a segment is left alone.
pub proof fn law_no_early_retransmission(c: Connection, now: u64)
    requires
        c.wf(),
        c.unacked.len() == 1,
        elapsed(c.unacked[0].sent_at, now) < rto_ms(c.unacked[0].retries as nat) * NANOS_PER_MS,
    ensures
        !c.resends(now),
        c.on_clock(now) == c,
{
}

/// What a connection has become after looks at the clock at these times.
pub open spec fn after_looks(c: Connection, times: Seq<u64>) -> Connection
    decreases times.len(),
{
    if times.len() == 0 {
        c
    } else {
        after_looks(c, times.drop_last()).on_clock(times.last())
    }
}

/// Whether each look comes no earlier than the timeout that then runs: the
/// first after the segment was sent, each other after the one before.
pub open spec fn each_after_timeout(sent_at: u64, times: Seq<u64>) -> bool {
    forall|i: int|
        0 <= i < times.len() ==> elapsed(
            if i == 0 {
                sent_at
            } else {
                times[i - 1]
            },
            #[trigger] times[i],
        ) >= rto_ms(i as nat) * NANOS_PER_MS
}

proof fn lemma_after_looks(c: Connection, times: Seq<u64>)
    requires
        c.unacked.len() == 1,
        c.unacked[0].retries == 0,
        times.len() <= MAX_RETRIES,
        each_after_timeout(c.unacked[0].sent_at, times),
    ensures
        after_looks(c, times) == (Connection {
            unacked: seq![
                InFlight {
                    seq: c.unacked[0].seq,
                    data: c.unacked[0].data,
                    sent_at: if times.len() == 0 {
                        c.unacked[0].sent_at
                    } else {
                        times.last()
                    },
                    retries: times.len() as u32,
                },
            ],
            ..c
        }),
    decreases times.len(),
{
    if times.len() == 0 {
        assert(after_looks(c, times).unacked =~= seq![c.unacked[0]]);
    } else {
        let earlier = times.drop_last();
        assert forall|i: int| 0 <= i < earlier.len() implies elapsed(
            if i == 0 {
                c.unacked[0].sent_at
            } else {
                earlier[i - 1]
            },
            #[trigger] earlier[i],
        ) >= rto_ms(i as nat) * NANOS_PER_MS by {
            assert(earlier[i] == times[i]);
        }
        lemma_after_looks(c, earlier);
        let d = after_looks(c, earlier);
        let now = times.last();
        assert(times[times.len() - 1] == now);
        assert(d.resends(now));
        assert(d.on_clock(now).unacked =~= seq![
            InFlight {
                seq: c.unacked[0].seq,
                data: c.unacked[0].data,
                sent_at: now,
                retries: times.len() as u32,
            },
        ]);
    }
}

/// A segment that is never acknowledged is retransmitted five times, each
/// time when its timeout has run out, with the same sequence number and
/// bytes; when the sixth timeout has run out, the connection ends with
/// `TimedOut`.
pub proof fn law_given_up_after_five_retransmissions(c: Connection, times: Seq<u64>)
    requires
        c.unacked.len() == 1,
        c.unacked[0].retries == 0,
        times.len() == MAX_RETRIES + 1,
        each_after_timeout(c.unacked[0].sent_at, times),
    ensures
        forall|i: int|
            0 <= i < MAX_RETRIES ==> {
                let d = after_looks(c, #[trigger] times.take(i));
                &&& d.resends(times[i])
                &&& d.unacked[0].seq == c.unacked[0].seq
                &&& d.unacked[0].data == c.unacked[0].data
                &&& d.status == c.status
            },
        !after_looks(c, times.drop_last()).resends(times.last()),
        after_looks(c, times).status == ConnectionStatus::Error(ErrorKind::TimedOut),
{
    assert forall|k: int| 0 <= k <= MAX_RETRIES implies each_after_timeout(
        c.unacked[0].sent_at,
        #[trigger] times.take(k),
    ) by {
        let part = times.take(k);
        assert forall|i: int| 0 <= i < part.len() implies elapsed(
            if i == 0 {
                c.unacked[0].sent_at
            } else {
                part[i - 1]
            },
            #[trigger] part[i],
        ) >= rto_ms(i as nat) * NANOS_PER_MS by {
            assert(part[i] == times[i]);
        }
    }
    assert forall|i: int| 0 <= i < MAX_RETRIES implies {
        let d = after_looks(c, #[trigger] times.take(i));
        &&& d.resends(times[i])
        &&& d.unacked[0].seq == c.unacked[0].seq
        &&& d.unacked[0].data == c.unacked[0].data
        &&& d.status == c.status
    } by {
        lemma_after_looks(c, times.take(i));
    }
    assert(times.take(MAX_RETRIES as int) =~= times.drop_last());
    lemma_after_looks(c, times.drop_last());
    assert(times[MAX_RETRIES as int] == times.last());
}

/// How long, in milliseconds, the timeouts before so many retransmissions take
/// together.
pub open spec fn waited_ms(retries: nat) -> nat
    decreases retries,
{
    if retries == 0 {
        0
    } else {
        waited_ms((retries - 1) as nat) + rto_ms((retries - 1) as nat)
    }
}

/// Whether some points in time never go back.
pub open spec fn in_order(times: Seq<u64>) -> bool {
    forall|i: int, j: int| 0 <= i <= j < times.len() ==> times[i] <= times[j]
}

/// Back-off, however often and whenever the clock is looked at: an
/// unacknowledged segment keeps its sequence number and its bytes, it is
/// retransmitted at most five times, each time after a timeout that is twice
/// as long as the one before, and the connection is given up only when 6.4 s
/// have passed since the fifth time. Nothing else of the connection changes.
pub proof fn law_back_off(c: Connection, times: Seq<u64>)
    requires
        c.unacked.len() == 1,
        c.unacked[0].retries == 0,
        in_order(times),
    ensures
        ({
            let d = after_looks(c, times);
            let first = c.unacked[0];
            let last = d.unacked[0];
            &&& d == (Connection { unacked: d.unacked, status: d.status, ..c })
            &&& d.unacked.len() == 1
            &&& last.seq == first.seq
            &&& last.data == first.data
            &&& last.retries <= MAX_RETRIES
            &&& last.sent_at >= first.sent_at + waited_ms(last.retries as nat) * NANOS_PER_MS
            &&& d.status == c.status || {
                &&& d.status == ConnectionStatus::Error(ErrorKind::TimedOut)
                &&& last.retries == MAX_RETRIES
                &&& elapsed(last.sent_at, times.last()) >= 6400 * NANOS_PER_MS
            }
        }),
    decreases times.len(),
{
    if times.len() > 0 {
        let earlier = times.drop_last();
        law_back_off(c, earlier);
        let d = after_looks(c, earlier);
        let now = times.last();
        let k = d.unacked[0].retries as nat;
        crate::connection::law_backoff_schedule();
        if earlier.len() > 0 {
            assert(earlier.last() == times[times.len() - 2]);
            assert(earlier.last() <= now);
        }
        assert(waited_ms(k + 1) == waited_ms(k) + rto_ms(k));
        assert(rto_ms(k) > 0) by {
            reveal_with_fuel(rto_ms, 7);
        }
    }
}

/// Whether the first point in time comes at most `gap` after a given one, and
/// each other at most `gap` after the one before.
pub open spec fn at_most_apart(from: u64, times: Seq<u64>, gap: int) -> bool {
    forall|i: int|
        0 <= i < times.len() ==> 0 <= #[trigger] times[i] - (if i == 0 {
            from
        } else {
            times[i - 1]
        }) <= gap
}

proof fn lemma_looks_in_time(c: Connection, times: Seq<u64>, gap: int)
    requires
        c.unacked.len() == 1,
        c.unacked[0].retries == 0,
        !(c.status is Error),
        in_order(times),
        at_most_apart(c.unacked[0].sent_at, times, gap),
        0 <= gap,
    ensures
        ({
            let d = after_looks(c, times);
            let first = c.unacked[0];
            let last = d.unacked[0];
            let k = last.retries as nat;
            let now = if times.len() == 0 {
                first.sent_at
            } else {
                times.last()
            };
            &&& last.sent_at <= now
            &&& last.sent_at <= first.sent_at + waited_ms(k) * NANOS_PER_MS + k * gap
            &&& d.status == ConnectionStatus::Error(ErrorKind::TimedOut) || now - last.sent_at
                < rto_ms(k) * NANOS_PER_MS
        }),
    decreases times.len(),
{
    law_back_off(c, times);
    reveal_with_fuel(rto_ms, 7);
    if times.len() > 0 {
        let earlier = times.drop_last();
        assert(in_order(earlier));
        assert forall|i: int| 0 <= i < earlier.len() implies 0 <= #[trigger] earlier[i] - (if i
            == 0 {
            c.unacked[0].sent_at
        } else {
            earlier[i - 1]
        }) <= gap by {
            assert(earlier[i] == times[i]);
        }
        lemma_looks_in_time(c, earlier, gap);
        law_back_off(c, earlier);
        let d = after_looks(c, earlier);
        let k = d.unacked[0].retries as nat;
        assert(times[times.len() - 1] == times.last());
        assert(waited_ms(k + 1) == waited_ms(k) + rto_ms(k));
        assert((k + 1) * gap == k * gap + gap) by (nonlinear_arith);
    }
}

/// A silent peer is given up in time: where the clock is looked at every so
/// often, a connection ends with `TimedOut` by the time that the six timeouts,
/// 12.6 s together, and five times the longest gap between looks have passed.
pub proof fn law_given_up_in_time(c: Connection, times: Seq<u64>, gap: int)
    requires
        c.unacked.len() == 1,
        c.unacked[0].retries == 0,
        !(c.status is Error),
        in_order(times),
        at_most_apart(c.unacked[0].sent_at, times, gap),
        0 <= gap,
        times.len() > 0,
        times.last() >= c.unacked[0].sent_at + 12_600 * NANOS_PER_MS + 5 * gap,
    ensures
        after_looks(c, times).status == ConnectionStatus::Error(ErrorKind::TimedOut),
{
    lemma_looks_in_time(c, times, gap);
    law_back_off(c, times);
    let k = after_looks(c, times).unacked[0].retries as nat;
    reveal_with_fuel(rto_ms, 7);
    reveal_with_fuel(waited_ms, 7);
    assert(waited_ms(k) + rto_ms(k) <= 12_600);
    assert(k * gap <= 5 * gap) by (nonlinear_arith)
        requires
            k <= 5,
            0 <= gap,
    ;
}

/// A connection that the peer goes on acknowledging is never given up: it
/// ends with `TimedOut` only by a look at the clock that finds a segment
/// retransmitted five times and 6.4 s without an acknowledgment.
pub proof fn law_only_silence_times_out(c: Connection, now: u64)
    requires
        c.wf(),
        c.status != ConnectionStatus::Error(ErrorKind::TimedOut),
        c.on_clock(now).status == ConnectionStatus::Error(ErrorKind::TimedOut),
    ensures
        c.unacked.len() == 1,
        c.unacked[0].retries == MAX_RETRIES,
        elapsed(c.unacked[0].sent_at, now) >= 6400 * NANOS_PER_MS,
{
    crate::connection::law_backoff_schedule();
}

} // verus!
