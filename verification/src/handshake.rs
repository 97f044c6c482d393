//! What a connection that is being opened promises: its SYN is repeated, the
//! same each time, at growing intervals.

use vstd::prelude::*;

use crate::adapter::{connect_step, ConnectStep, Connecting, SYN_TIMEOUT};
use crate::connection::{elapsed, rto_ms, Connection, ConnectionStatus, NANOS_PER_MS};
use crate::packets::Segment;
use crate::peer::same_but;
use crate::stack::Stack;

verus! {

/// A connection that is being opened, after its SYN was repeated at these
/// times.
pub open spec fn after_syns(job: Connecting, times: Seq<u64>) -> Connecting
    decreases times.len(),
{
    if times.len() == 0 {
        job
    } else {
        after_syns(job, times.drop_last()).after_syn(times.last())
    }
}

proof fn lemma_after_syns(job: Connecting, times: Seq<u64>)
    requires
        job.retries == 0,
        times.len() <= u32::MAX,
    ensures
        after_syns(job, times) == (Connecting {
            last_syn: if times.len() == 0 {
                job.last_syn
            } else {
                times.last()
            },
            retries: times.len() as u32,
            ..job
        }),
    decreases times.len(),
{
    if times.len() > 0 {
        lemma_after_syns(job, times.drop_last());
    }
}

/// The SYN is repeated when the peer has been silent for 200 ms since the first
/// one, and then for twice as long each time, up to 6.4 s; not before, and not
/// when 10 s have passed since the first one. Then the connection is given up.
pub proof fn law_syn_backoff(
    job: Connecting,
    times: Seq<u64>,
    s: Stack,
    now: u64,
    after: Stack,
    step: ConnectStep,
)
    requires
        job.retries == 0,
        times.len() <= u32::MAX,
        s.conns.contains_key(job.host_port),
        s.conns[job.host_port].status is WaitingForSyn,
        connect_step(s, after_syns(job, times), now, after, step),
    ensures
        ({
            let last = if times.len() == 0 {
                job.last_syn
            } else {
                times.last()
            };
            let due = elapsed(last, now) >= rto_ms(times.len()) * NANOS_PER_MS;
            let over = elapsed(job.started, now) > SYN_TIMEOUT;
            &&& step is SendSyn <==> due && !over
            &&& step is Failed <==> over
            &&& step is Wait <==> !due && !over
        }),
{
    lemma_after_syns(job, times);
}

/// Once a connection is open, the next look says so, whenever it began and
/// whenever the look comes; and nothing changes.
pub proof fn law_open_connection_is_reported(
    s: Stack,
    job: Connecting,
    now: u64,
    after: Stack,
    step: ConnectStep,
)
    requires
        connect_step(s, job, now, after, step),
        s.conns.contains_key(job.host_port),
        s.conns[job.host_port].status is Connected,
    ensures
        step is Connected,
        after == s,
{
}

/// Once a connection has ended, the next look fails with the error that ended
/// it, whenever it comes, and forgets it and nothing else.
pub proof fn law_ended_connection_is_reported(
    s: Stack,
    job: Connecting,
    now: u64,
    after: Stack,
    step: ConnectStep,
)
    requires
        connect_step(s, job, now, after, step),
        s.conns.contains_key(job.host_port),
        s.conns[job.host_port].status is Error,
    ensures
        step matches ConnectStep::Failed(e) && s.conns[job.host_port].status
            == ConnectionStatus::Error(e.kind),
        same_but(s, after, job.host_port),
        !after.conns.contains_key(job.host_port),
{
}

/// All SYNs of a connection are the same packet: while it waits for its
/// SYN-ACK, neither a segment from the peer nor the clock changes it.
pub proof fn law_syn_is_repeated(s: Stack, c: Connection, segment: Segment, now: u64)
    requires
        c.status is WaitingForSyn,
    ensures
        c.on_segment(segment).0.status is WaitingForSyn ==> s.syn_packet(c.on_segment(segment).0)
            == s.syn_packet(c),
        s.syn_packet(c.on_clock(now)) == s.syn_packet(c),
{
    reveal(Stack::tcp_packet);
}

} // verus!
