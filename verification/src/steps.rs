//! What each step of a flush does, with a packet that could be written or could
//! not.

use vstd::prelude::*;

use crate::adapter::Adapter;
use crate::connection::{Connection, ConnectionStatus};
use crate::error::ErrorKind;
use crate::flush::{Flush, FlushAction, FlushJob, FlushStage, FlushStep};
use crate::peer::{
    carries_segment, flags_of, law_data_packet, law_fin_packet, same_but, same_outside, segment_of,
};
use crate::rules::{law_just_sent, law_look_at_the_clock, law_next_chunk, law_unqueued, wait_ms};
use crate::stack::Stack;

verus! {

/// A flush begins with the retransmissions, before any port, and goes through
/// each port with a connection once; a check of the timeouts goes no further.
pub proof fn law_flush_begins(a: &Adapter, port: u16, flush: Flush, check: Flush)
    requires
        call_ensures(Adapter::write_buffer_flush, (a,), flush),
        call_ensures(Adapter::check_retransmissions, (a,), check),
    ensures
        flush@.stage is Retransmit && check@.stage is Retransmit,
        flush@.next == 0 && check@.next == 0,
        flush@.whole && !check@.whole,
        flush@.pending is Nothing && check@.pending is Nothing,
        flush@.ports.contains(port) <==> a@.conns.contains_key(port),
        check@.ports.contains(port) <==> a@.conns.contains_key(port),
        forall|i: int, j: int| 0 <= i < j < flush@.ports.len() ==> flush@.ports[i] != flush@.ports[j],
        forall|i: int, j: int| 0 <= i < j < check@.ports.len() ==> check@.ports[i] != check@.ports[j],
{
    assert(flush@.ports.to_set().contains(port) <==> a@.conns.dom().contains(port));
    assert(check@.ports.to_set().contains(port) <==> a@.conns.dom().contains(port));
}

/// Retransmission on one port: the segment in flight is sent again, with its old
/// number and bytes, when its timeout has run out, up to five times.
pub proof fn law_retransmit(a: &mut Adapter, port: u16, now: u64, packet: Option<Vec<u8>>)
    requires
        old(a)@.can_send(),
        old(a)@.wf(),
        call_ensures(Adapter::retransmit, (a, port, now), packet),
    ensures
        ({
            let c = old(a)@.conns[port];
            let d = final(a)@.conns[port];
            let s = c.unacked[0];
            let there = old(a)@.conns.contains_key(port);
            let late = there && c.unacked.len() == 1 && now >= s.sent_at + wait_ms(
                s.retries as int,
            ) * 1_000_000;
            &&& same_but(old(a)@, final(a)@, port)
            &&& final(a)@.conns.contains_key(port) <==> there
            &&& packet is Some <==> late && s.retries < 5
            &&& packet matches Some(b) ==> carries_segment(
                old(a)@,
                b@,
                segment_of(c, s.seq, c.ack, flags_of(true, true, false, false), s.data),
            )
            &&& there && !late ==> d == c
            &&& late && s.retries < 5 ==> {
                &&& d.status == c.status
                &&& d.unacked.len() == 1
                &&& d.unacked[0].seq == s.seq && d.unacked[0].data == s.data
                &&& d.unacked[0].sent_at == now && d.unacked[0].retries == s.retries + 1
            }
            &&& late && s.retries >= 5 ==> {
                &&& d.status == ConnectionStatus::Error(ErrorKind::TimedOut)
                &&& d.unacked == c.unacked
            }
            &&& there ==> {
                &&& d.queued == c.queued && d.received == c.received
                &&& d.seq == c.seq && d.ack == c.ack
                &&& d.host_port == c.host_port && d.peer_port == c.peer_port
            }
        }),
{
    let c = old(a)@.conns[port];
    if old(a)@.conns.contains_key(port) {
        law_look_at_the_clock(c, now);
        law_data_packet(old(a)@, c, c.unacked[0].seq, c.unacked[0].data);
        assert(c.on_clock(now).unacked =~= final(a)@.conns[port].unacked);
    }
}

/// A step of the retransmissions does to the port at hand what retransmission
/// does, and goes on to the next. A packet that could not be written ends the
/// flush; one that could lets it go on.
pub proof fn law_retransmission_step(
    a: &mut Adapter,
    job: &mut Flush,
    now: u64,
    step: FlushStep,
    b: &mut Adapter,
    next: &mut Flush,
    written: bool,
    later: u64,
    go_on: bool,
)
    requires
        old(a)@.can_send(),
        old(a)@.wf(),
        old(job)@.stage is Retransmit,
        0 <= old(job)@.next < old(job)@.ports.len(),
        call_ensures(Adapter::flush_step, (a, job, now), step),
        *old(b) == *final(a),
        *old(next) == *final(job),
        call_ensures(Adapter::flush_written, (b, next, written, later), go_on),
    ensures
        ({
            let port = old(job)@.ports[old(job)@.next];
            let c = old(a)@.conns[port];
            let s = c.unacked[0];
            let there = old(a)@.conns.contains_key(port);
            let late = there && c.unacked.len() == 1 && now >= s.sent_at + wait_ms(
                s.retries as int,
            ) * 1_000_000;
            &&& same_but(old(a)@, final(a)@, port)
            &&& final(a)@.conns.contains_key(port) <==> there
            &&& there ==> final(a)@.conns[port] == c.on_clock(now)
            &&& step is Write <==> late && s.retries < 5
            &&& !(step is Write) ==> step is Skip
            &&& step matches FlushStep::Write(p) ==> carries_segment(
                old(a)@,
                p@,
                segment_of(c, s.seq, c.ack, flags_of(true, true, false, false), s.data),
            )
            &&& final(b)@ == final(a)@
            &&& go_on <==> !(step is Write) || written
            &&& !go_on ==> final(next)@.stage is Done
            &&& go_on ==> {
                &&& final(next)@.stage is Retransmit
                &&& final(next)@.ports == old(job)@.ports
                &&& final(next)@.next == old(job)@.next + 1
                &&& final(next)@.whole == old(job)@.whole
            }
        }),
{
    let port = old(job)@.ports[old(job)@.next];
    let c = old(a)@.conns[port];
    if old(a)@.conns.contains_key(port) {
        law_look_at_the_clock(c, now);
        law_data_packet(old(a)@, c, c.unacked[0].seq, c.unacked[0].data);
    }
}

/// A step of the transmissions: on a connection that may send, the next chunk
/// is handed out under the number that is to be sent next, whatever its length.
/// If it could be written, it is in flight from then on; if not, it stays
/// queued. Either way the flush goes on to the next port. A connection that has
/// ended drops the chunk.
#[verifier::rlimit(60)]
pub proof fn law_transmission_step(
    a: &mut Adapter,
    job: &mut Flush,
    now: u64,
    step: FlushStep,
    b: &mut Adapter,
    next: &mut Flush,
    written: bool,
    later: u64,
    go_on: bool,
)
    requires
        old(a)@.can_send(),
        old(a)@.wf(),
        old(a)@.mss <= usize::MAX,
        old(job)@.stage is Transmit,
        0 <= old(job)@.next < old(job)@.ports.len(),
        call_ensures(Adapter::flush_step, (a, job, now), step),
        *old(b) == *final(a),
        *old(next) == *final(job),
        call_ensures(Adapter::flush_written, (b, next, written, later), go_on),
    ensures
        ({
            let port = old(job)@.ports[old(job)@.next];
            let c = old(a)@.conns[port];
            let d = final(b)@.conns[port];
            let n = if c.queued.len() < old(a)@.mss {
                c.queued.len() as int
            } else {
                old(a)@.mss as int
            };
            let may = old(a)@.conns.contains_key(port) && c.queued.len() > 0 && c.unacked.len()
                == 0;
            &&& go_on
            &&& final(next)@.stage is Transmit
            &&& final(next)@.ports == old(job)@.ports
            &&& final(next)@.next == old(job)@.next + 1
            &&& step is Write <==> may && !(c.status is Error)
            &&& !(step is Write) ==> step is Skip
            &&& step matches FlushStep::Write(p) ==> carries_segment(
                old(a)@,
                p@,
                segment_of(
                    c,
                    c.seq,
                    c.ack,
                    flags_of(true, true, false, false),
                    c.queued.subrange(0, n),
                ),
            )
            &&& same_but(old(a)@, final(b)@, port)
            &&& final(b)@.conns.contains_key(port) <==> old(a)@.conns.contains_key(port)
            &&& if step is Write && written {
                &&& d.unacked.len() == 1
                &&& d.unacked[0].seq == c.seq
                &&& d.unacked[0].data == c.queued.subrange(0, n)
                &&& d.unacked[0].sent_at == later
                &&& d.unacked[0].retries == 0
                &&& (d.seq - c.seq - n) % 0x1_0000_0000 == 0
                &&& d.queued == c.queued.subrange(n, c.queued.len() as int)
                &&& d.received == c.received && d.ack == c.ack && d.status == c.status
                &&& d.host_port == c.host_port && d.peer_port == c.peer_port
            } else if may && c.status is Error {
                &&& d.queued == c.queued.subrange(n, c.queued.len() as int)
                &&& d.received == c.received && d.status == c.status && d.unacked == c.unacked
                &&& d.seq == c.seq && d.ack == c.ack
            } else {
                final(b)@ == old(a)@
            }
        }),
{
    let port = old(job)@.ports[old(job)@.next];
    let c = old(a)@.conns[port];
    let n = c.chunk_len(old(a)@.mss) as int;
    lemma_transmission(old(a)@, old(job)@, now, written, later);
    if old(a)@.conns.contains_key(port) {
        law_next_chunk(c, old(a)@.mss);
        law_just_sent(c, n, later);
        law_unqueued(c, n);
        if c.unacked.len() == 0 {
            lemma_chunk_sent(c, n, later);
        }
    }
}

proof fn lemma_chunk_sent(c: Connection, n: int, now: u64)
    requires
        0 <= n <= c.queued.len(),
        c.unacked.len() == 0,
    ensures
        c.sent(n, now).unacked.len() == 1,
        c.sent(n, now).unacked[0] == c.sent(n, now).unacked.last(),
        c.sent(n, now).unacked[0].data == c.queued.subrange(0, n),
        c.sent(n, now).queued == c.queued.subrange(n, c.queued.len() as int),
{
    assert(c.sent(n, now).queued =~= c.queued.subrange(n, c.queued.len() as int));
    assert(c.queued.take(n) =~= c.queued.subrange(0, n));
}

proof fn lemma_transmission(
    s: Stack,
    job: FlushJob,
    now: u64,
    written: bool,
    later: u64,
)
    requires
        s.can_send(),
        s.mss <= usize::MAX,
        job.stage is Transmit,
        0 <= job.next < job.ports.len(),
    ensures
        ({
            let port = job.ports[job.next];
            let c = s.conns[port];
            let n = if c.queued.len() < s.mss {
                c.queued.len() as int
            } else {
                s.mss as int
            };
            let may = s.conns.contains_key(port) && c.queued.len() > 0 && c.unacked.len() == 0;
            let (s1, job1, action) = s.flush_step(job, now);
            let (s2, job2, go_on) = s1.flush_written(job1, written, later);
            let d = s2.conns[port];
            &&& go_on
            &&& job2.stage is Transmit
            &&& job2.ports == job.ports
            &&& job2.next == job.next + 1
            &&& action is Write <==> may && !(c.status is Error)
            &&& !(action is Write) ==> action is Skip
            &&& action matches FlushAction::Write(p) ==> carries_segment(
                s,
                p,
                segment_of(
                    c,
                    c.seq,
                    c.ack,
                    flags_of(true, true, false, false),
                    c.queued.subrange(0, n),
                ),
            )
            &&& if action is Write && written {
                s2 == s.with(port, c.sent(n, later))
            } else if may && c.status is Error {
                s2 == s.with(port, c.unqueue(n))
            } else {
                s2 == s
            }
        }),
{
    let port = job.ports[job.next];
    let c = s.conns[port];
    if s.conns.contains_key(port) {
        law_next_chunk(c, s.mss);
        law_data_packet(s, c, c.seq, c.chunk(s.mss));
    }
}

/// A step of the closing: a connection whose port is listed is forgotten and
/// its FIN handed out; whether that could be written makes no difference.
pub proof fn law_closing_step(
    a: &mut Adapter,
    job: &mut Flush,
    now: u64,
    step: FlushStep,
    b: &mut Adapter,
    next: &mut Flush,
    written: bool,
    later: u64,
    go_on: bool,
)
    requires
        old(a)@.can_send(),
        old(job)@.stage is Reap,
        0 <= old(job)@.next < old(job)@.ports.len(),
        call_ensures(Adapter::flush_step, (a, job, now), step),
        *old(b) == *final(a),
        *old(next) == *final(job),
        call_ensures(Adapter::flush_written, (b, next, written, later), go_on),
    ensures
        ({
            let port = old(job)@.ports[old(job)@.next];
            let c = old(a)@.conns[port];
            &&& go_on
            &&& final(next)@.stage is Reap
            &&& final(next)@.ports == old(job)@.ports
            &&& final(next)@.next == old(job)@.next + 1
            &&& step is Write <==> old(a)@.conns.contains_key(port)
            &&& !(step is Write) ==> step is Skip
            &&& step matches FlushStep::Write(p) ==> carries_segment(
                old(a)@,
                p@,
                segment_of(c, c.seq, c.ack, flags_of(true, false, false, true), Seq::empty()),
            )
            &&& same_but(old(a)@, final(b)@, port)
            &&& !final(b)@.conns.contains_key(port)
        }),
{
    let port = old(job)@.ports[old(job)@.next];
    if old(a)@.conns.contains_key(port) {
        law_fin_packet(old(a)@, old(a)@.conns[port]);
    }
}

/// When a stage has gone through its ports, the next begins: the transmissions
/// go through the same ports, the closing through those that were marked, which
/// are marked no longer. Then, or after the retransmissions of a mere check,
/// the flush is over.
pub proof fn law_stages(a: &mut Adapter, job: &mut Flush, now: u64, step: FlushStep)
    requires
        old(a)@.can_send(),
        old(job)@.next == old(job)@.ports.len() || old(job)@.stage is Done,
        call_ensures(Adapter::flush_step, (a, job, now), step),
    ensures
        final(a)@.conns == old(a)@.conns,
        same_outside(old(a)@, (Stack { dropped: old(a)@.dropped, ..final(a)@ })),
        match old(job)@.stage {
            FlushStage::Retransmit => {
                &&& step is Skip
                &&& final(a)@.dropped == old(a)@.dropped
                &&& old(job)@.whole ==> {
                    &&& final(job)@.stage is Transmit
                    &&& final(job)@.ports == old(job)@.ports
                    &&& final(job)@.next == 0
                    &&& final(job)@.whole
                }
                &&& !old(job)@.whole ==> final(job)@.stage is Done
            },
            FlushStage::Transmit => {
                &&& step is Skip
                &&& final(a)@.dropped.len() == 0
                &&& final(job)@.stage is Reap
                &&& final(job)@.ports == old(a)@.dropped
                &&& final(job)@.next == 0
            },
            FlushStage::Reap => {
                &&& step is Skip
                &&& final(a)@.dropped == old(a)@.dropped
                &&& final(job)@.stage is Done
            },
            FlushStage::Done => {
                &&& step is Done
                &&& final(a)@.dropped == old(a)@.dropped
                &&& final(job)@.stage is Done
            },
        },
{
}

} // verus!
