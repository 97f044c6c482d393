//! What a whole flush does.

use vstd::prelude::*;

use crate::connection::Connection;
use crate::flush::{flush_begin, FlushAction, FlushJob, FlushStage, Pending};
use crate::stack::{lemma_same_packets, Stack};

verus! {

/// How many steps a flush has left, at most.
pub open spec fn steps_left(s: Stack, job: FlushJob) -> nat {
    let here = if job.next < job.ports.len() {
        job.ports.len() - job.next
    } else {
        0
    };
    (match job.stage {
        FlushStage::Retransmit => here + job.ports.len() + s.dropped.len() + 3,
        FlushStage::Transmit => here + s.dropped.len() + 2,
        FlushStage::Reap => here + 1,
        FlushStage::Done => 0,
    }) as nat
}

/// A flush comes to an end: each step that is not the last leaves fewer steps,
/// whatever becomes of the packets.
pub proof fn law_flush_ends(s: Stack, job: FlushJob, now: u64, written: bool, later: u64)
    requires
        0 <= job.next <= job.ports.len(),
    ensures
        ({
            let (s1, job1, action) = s.flush_step(job, now);
            let (s2, job2, _) = s1.flush_written(job1, written, later);
            &&& 0 <= job1.next <= job1.ports.len()
            &&& 0 <= job2.next <= job2.ports.len()
            &&& !(action is Done) ==> steps_left(s1, job1) < steps_left(s, job)
            &&& !(action is Done) ==> steps_left(s2, job2) < steps_left(s, job)
            &&& action is Done <==> steps_left(s, job) == 0
        }),
{
}

/// The stack and the packets after a flush in which every packet could be
/// written, all at one point in time.
pub open spec fn flush_run(s: Stack, job: FlushJob, now: u64) -> (Stack, Seq<Seq<u8>>)
    decreases steps_left(s, job),
    when 0 <= job.next <= job.ports.len()
    via flush_run_ends
{
    match s.flush_step(job, now) {
        (s1, job1, FlushAction::Write(packet)) => {
            let (s2, job2, _) = s1.flush_written(job1, true, now);
            let (end, packets) = flush_run(s2, job2, now);
            (end, seq![packet] + packets)
        },
        (s1, job1, FlushAction::Skip) => flush_run(s1, job1, now),
        (s1, _, FlushAction::Done) => (s1, Seq::empty()),
    }
}

#[via_fn]
proof fn flush_run_ends(s: Stack, job: FlushJob, now: u64) {
    law_flush_ends(s, job, now, true, now);
}

/// What a flush makes of a connection: first the clock, then, if nothing is
/// in flight, the next chunk.
pub open spec fn flushed(c: Connection, mss: nat, now: u64) -> Connection {
    transmitted(c.on_clock(now), mss, now)
}

/// What sending the next chunk, if there is one to send, makes of a
/// connection. A connection that has ended drops it.
pub open spec fn transmitted(c: Connection, mss: nat, now: u64) -> Connection {
    let len = c.chunk_len(mss) as int;
    if !c.ready() {
        c
    } else if c.status is Error {
        c.unqueue(len)
    } else {
        c.sent(len, now)
    }
}

/// The stack with all its connections changed.
pub open spec fn each(s: Stack, f: spec_fn(Connection) -> Connection) -> Stack {
    Stack { conns: s.conns.map_values(f), ..s }
}

/// The retransmissions that are due on some ports, in their order.
pub open spec fn resent(s: Stack, ports: Seq<u16>, now: u64) -> Seq<Seq<u8>>
    decreases ports.len(),
{
    if ports.len() == 0 {
        Seq::empty()
    } else {
        let c = s.conns[ports[0]];
        let later = resent(s, ports.skip(1), now);
        if c.resends(now) {
            seq![s.data_packet(c, c.unacked[0].seq, c.unacked[0].data)] + later
        } else {
            later
        }
    }
}

/// The segments with new data that may be sent on some ports, in their order.
pub open spec fn chunks(s: Stack, ports: Seq<u16>) -> Seq<Seq<u8>>
    decreases ports.len(),
{
    if ports.len() == 0 {
        Seq::empty()
    } else {
        let c = s.conns[ports[0]];
        let later = chunks(s, ports.skip(1));
        if c.ready() && !(c.status is Error) {
            seq![s.data_packet(c, c.seq, c.chunk(s.mss))] + later
        } else {
            later
        }
    }
}

/// The FINs of the connections on some ports, in their order, each once.
pub open spec fn farewells(s: Stack, ports: Seq<u16>) -> Seq<Seq<u8>>
    decreases ports.len(),
{
    if ports.len() == 0 {
        Seq::empty()
    } else {
        let later = farewells(s.without(ports[0]), ports.skip(1));
        if s.conns.contains_key(ports[0]) {
            seq![s.fin_packet(s.conns[ports[0]])] + later
        } else {
            later
        }
    }
}

/// The stack with the connections on the first `i` ports changed.
spec fn partly(s: Stack, ports: Seq<u16>, i: int, f: spec_fn(Connection) -> Connection) -> Stack {
    Stack {
        conns: Map::new(
            |p: u16| s.conns.contains_key(p),
            |p: u16|
                if ports.take(i).contains(p) {
                    f(s.conns[p])
                } else {
                    s.conns[p]
                },
        ),
        ..s
    }
}

proof fn lemma_partly(s: Stack, ports: Seq<u16>, i: int, f: spec_fn(Connection) -> Connection)
    requires
        ports.no_duplicates(),
        0 <= i < ports.len(),
        s.conns.contains_key(ports[i]),
    ensures
        partly(s, ports, i, f).conns[ports[i]] == s.conns[ports[i]],
        partly(s, ports, i + 1, f) == partly(s, ports, i, f).with(
            ports[i],
            f(s.conns[ports[i]]),
        ),
{
    let q = ports[i];
    assert(!ports.take(i).contains(q));
    assert forall|p: u16| ports.take(i + 1).contains(p) <==> (ports.take(i).contains(p) || p
        == q) by {
        assert(ports.take(i + 1) =~= ports.take(i).push(q));
        if ports.take(i).contains(p) {
            let j = choose|j: int| 0 <= j < i && ports.take(i)[j] == p;
            assert(ports.take(i + 1)[j] == p);
        }
        if p == q {
            assert(ports.take(i + 1)[i] == p);
        }
    }
    assert(partly(s, ports, i + 1, f).conns =~= partly(s, ports, i, f).with(
        q,
        f(s.conns[q]),
    ).conns);
}

proof fn lemma_partly_none(s: Stack, ports: Seq<u16>, f: spec_fn(Connection) -> Connection)
    ensures
        partly(s, ports, 0, f) == s,
{
    assert(partly(s, ports, 0, f).conns =~= s.conns);
}

proof fn lemma_partly_all(s: Stack, ports: Seq<u16>, f: spec_fn(Connection) -> Connection)
    requires
        ports.to_set() == s.conns.dom(),
    ensures
        partly(s, ports, ports.len() as int, f) == each(s, f),
{
    assert(ports.take(ports.len() as int) =~= ports);
    assert forall|p: u16| s.conns.contains_key(p) implies ports.contains(p) by {
        assert(ports.to_set().contains(p));
    }
    assert(partly(s, ports, ports.len() as int, f).conns =~= each(s, f).conns);
}

proof fn lemma_farewells(s: Stack, t: Stack, ports: Seq<u16>)
    requires
        s.conns == t.conns,
        s.host_ip == t.host_ip,
        s.peer_ip == t.peer_ip,
    ensures
        farewells(s, ports) == farewells(t, ports),
    decreases ports.len(),
{
    if ports.len() > 0 {
        lemma_same_packets(s, t, s.conns[ports[0]]);
        lemma_farewells(s.without(ports[0]), t.without(ports[0]), ports.skip(1));
    }
}

/// What follows the retransmissions of a flush.
spec fn after_retransmissions(ports: Seq<u16>, whole: bool) -> FlushJob {
    if whole {
        flush_begin(ports, whole).at_stage(FlushStage::Transmit, ports)
    } else {
        flush_begin(ports, whole).at_stage(FlushStage::Done, Seq::empty())
    }
}

proof fn lemma_retransmit_stage(s: Stack, ports: Seq<u16>, i: int, whole: bool, now: u64)
    requires
        ports.no_duplicates(),
        ports.to_set() == s.conns.dom(),
        0 <= i <= ports.len(),
    ensures
        ({
            let f = |c: Connection| c.on_clock(now);
            let job = FlushJob { next: i, ..flush_begin(ports, whole) };
            let next_stage = after_retransmissions(ports, whole);
            let run = flush_run(partly(s, ports, i, f), job, now);
            let then = flush_run(partly(s, ports, ports.len() as int, f), next_stage, now);
            &&& run.0 == then.0
            &&& run.1 == resent(s, ports.skip(i), now) + then.1
        }),
    decreases ports.len() - i,
{
    let f = |c: Connection| c.on_clock(now);
    let job = FlushJob { next: i, ..flush_begin(ports, whole) };
    let next_stage = after_retransmissions(ports, whole);
    let then = flush_run(partly(s, ports, ports.len() as int, f), next_stage, now);
    if i < ports.len() {
        assert(ports.to_set().contains(ports[i]));
        lemma_partly(s, ports, i, f);
        lemma_retransmit_stage(s, ports, i + 1, whole, now);
        let t = partly(s, ports, i, f);
        let (t1, job1, action) = t.flush_step(job, now);
        assert(t1 == partly(s, ports, i + 1, f));
        let settled = FlushJob { next: i + 1, ..flush_begin(ports, whole) };
        assert(FlushJob { pending: Pending::Nothing, ..job1 } =~= settled);
        let c = s.conns[ports[i]];
        lemma_same_packets(s, t, c);
        let later = resent(s, ports.skip(i + 1), now);
        let packet = s.data_packet(c, c.unacked[0].seq, c.unacked[0].data);
        assert(ports.skip(i).skip(1) =~= ports.skip(i + 1));
        assert(seq![packet] + (later + then.1) =~= (seq![packet] + later) + then.1);
    } else {
        assert(resent(s, ports.skip(i), now) + then.1 =~= then.1);
    }
}

proof fn lemma_transmit_stage(s: Stack, ports: Seq<u16>, i: int, now: u64)
    requires
        ports.no_duplicates(),
        ports.to_set() == s.conns.dom(),
        0 <= i <= ports.len(),
        s.mss <= usize::MAX,
    ensures
        ({
            let f = |c: Connection| transmitted(c, s.mss, now);
            let start = flush_begin(ports, true).at_stage(FlushStage::Transmit, ports);
            let job = FlushJob { next: i, ..start };
            let sent = partly(s, ports, ports.len() as int, f);
            let run = flush_run(partly(s, ports, i, f), job, now);
            let then = flush_run(
                Stack { dropped: Seq::empty(), ..sent },
                start.at_stage(FlushStage::Reap, s.dropped),
                now,
            );
            &&& run.0 == then.0
            &&& run.1 == chunks(s, ports.skip(i)) + then.1
        }),
    decreases ports.len() - i,
{
    let f = |c: Connection| transmitted(c, s.mss, now);
    let start = flush_begin(ports, true).at_stage(FlushStage::Transmit, ports);
    let job = FlushJob { next: i, ..start };
    let sent = partly(s, ports, ports.len() as int, f);
    let then = flush_run(
        Stack { dropped: Seq::empty(), ..sent },
        start.at_stage(FlushStage::Reap, s.dropped),
        now,
    );
    if i < ports.len() {
        let port = ports[i];
        assert(ports.to_set().contains(port));
        lemma_partly(s, ports, i, f);
        lemma_transmit_stage(s, ports, i + 1, now);
        let t = partly(s, ports, i, f);
        let c = s.conns[port];
        let (t1, job1, action) = t.flush_step(job, now);
        let (t2, job2, _) = t1.flush_written(job1, true, now);
        let settled = FlushJob { next: i + 1, ..start };
        assert(FlushJob { pending: Pending::Nothing, ..job1 } =~= settled);
        if !c.ready() {
            assert(t.with(port, c) =~= t);
        } else if c.status is Error {
        } else {
            assert(t2 == t.with(port, f(c)));
        }
        lemma_same_packets(s, t, c);
        let later = chunks(s, ports.skip(i + 1));
        let packet = s.data_packet(c, c.seq, c.chunk(s.mss));
        assert(ports.skip(i).skip(1) =~= ports.skip(i + 1));
        assert(seq![packet] + (later + then.1) =~= (seq![packet] + later) + then.1);
    } else {
        assert(chunks(s, ports.skip(i)) + then.1 =~= then.1);
    }
}

proof fn lemma_skip_one(ports: Seq<u16>, i: int)
    requires
        0 <= i < ports.len(),
    ensures
        ports.skip(i).to_set() == ports.skip(i + 1).to_set().insert(ports[i]),
{
    let here = ports.skip(i);
    let later = ports.skip(i + 1);
    assert forall|p: u16|
        here.to_set().contains(p) <==> later.to_set().insert(ports[i]).contains(p) by {
        assert(here[0] == ports[i]);
        if later.to_set().contains(p) {
            let j = choose|j: int| 0 <= j < later.len() && later[j] == p;
            assert(here[j + 1] == p);
        }
        if here.to_set().contains(p) && p != ports[i] {
            let j = choose|j: int| 0 <= j < here.len() && here[j] == p;
            assert(later[j - 1] == p);
        }
    }
    assert(here.to_set() =~= later.to_set().insert(ports[i]));
}

proof fn lemma_reap_stage(s: Stack, ports: Seq<u16>, i: int, whole: bool, now: u64)
    requires
        0 <= i <= ports.len(),
    ensures
        ({
            let job = FlushJob {
                stage: FlushStage::Reap,
                ports,
                next: i,
                whole,
                pending: Pending::Nothing,
            };
            &&& flush_run(s, job, now).0 == Stack {
                conns: s.conns.remove_keys(ports.skip(i).to_set()),
                ..s
            }
            &&& flush_run(s, job, now).1 == farewells(s, ports.skip(i))
        }),
    decreases ports.len() - i,
{
    let job = FlushJob {
        stage: FlushStage::Reap,
        ports,
        next: i,
        whole,
        pending: Pending::Nothing,
    };
    let rest = ports.skip(i).to_set();
    if i < ports.len() {
        let port = ports[i];
        let tail = ports.skip(i + 1).to_set();
        lemma_skip_one(ports, i);
        let (s1, job1, action) = s.flush_step(job, now);
        assert(FlushJob { pending: Pending::Nothing, ..job1 } =~= job1);
        lemma_reap_stage(s1, ports, i + 1, whole, now);
        assert(s.conns.remove_keys(rest) =~= s1.conns.remove_keys(tail));
        assert(ports.skip(i).skip(1) =~= ports.skip(i + 1));
        assert(s1 =~= s.without(port));
    } else {
        assert(ports.skip(i) =~= Seq::<u16>::empty());
        assert(s.conns.remove_keys(rest) =~= s.conns);
        let (s1, job1, _) = s.flush_step(job, now);
        assert(s1 == s && job1.stage is Done);
        assert(flush_run(s1, job1, now).0 == s1);
    }
}

/// A whole flush, in which every packet could be written, goes through each
/// connection once: an overdue segment is retransmitted or its connection
/// ended, then, if nothing is in flight, the next chunk is sent. Then the
/// dropped connections are closed, and none is left to close. Nothing else
/// changes, and no other packet is written.
pub proof fn law_flush(s: Stack, ports: Seq<u16>, now: u64)
    requires
        ports.no_duplicates(),
        ports.to_set() == s.conns.dom(),
        s.mss <= usize::MAX,
    ensures
        ({
            let (end, packets) = flush_run(s, flush_begin(ports, true), now);
            let looked = each(s, |c: Connection| c.on_clock(now));
            let sent = each(looked, |c: Connection| transmitted(c, s.mss, now));
            &&& end == Stack { conns: end.conns, dropped: Seq::empty(), ..s }
            &&& forall|p: u16| #[trigger]
                end.conns.contains_key(p) <==> s.conns.contains_key(p) && !s.dropped.contains(p)
            &&& forall|p: u16| #[trigger]
                end.conns.contains_key(p) ==> end.conns[p] == flushed(s.conns[p], s.mss, now)
            &&& packets == resent(s, ports, now) + chunks(looked, ports) + farewells(
                sent,
                s.dropped,
            )
        }),
{
    let clock = |c: Connection| c.on_clock(now);
    let send = |c: Connection| transmitted(c, s.mss, now);
    let all = ports.len() as int;
    lemma_partly_none(s, ports, clock);
    lemma_retransmit_stage(s, ports, 0, true, now);
    let looked = partly(s, ports, all, clock);
    assert(looked.conns.dom() =~= s.conns.dom());
    lemma_partly_none(looked, ports, send);
    lemma_transmit_stage(looked, ports, 0, now);
    let before = partly(looked, ports, all, send);
    let sent = Stack { dropped: Seq::empty(), ..before };
    lemma_reap_stage(sent, s.dropped, 0, true, now);
    lemma_partly_all(s, ports, clock);
    lemma_partly_all(looked, ports, send);
    lemma_farewells(before, sent, s.dropped);
    assert(s.dropped.skip(0) =~= s.dropped);
    assert(ports.skip(0) =~= ports);
    assert(ports.take(all) =~= ports);
    let begin = flush_begin(ports, true);
    assert(FlushJob { next: 0, ..begin } =~= begin);
    let start = begin.at_stage(FlushStage::Transmit, ports);
    assert(FlushJob { next: 0, ..start } =~= start);
    let (end, packets) = flush_run(s, begin, now);
    assert(end.conns == sent.conns.remove_keys(s.dropped.to_set()));
    assert forall|p: u16| #[trigger] end.conns.contains_key(p) implies end.conns[p] == flushed(
        s.conns[p],
        s.mss,
        now,
    ) by {
        assert(ports.to_set().contains(p));
    }
    let first = resent(s, ports, now);
    let second = chunks(looked, ports);
    let third = farewells(sent, s.dropped);
    assert(first + (second + third) =~= first + second + third);
}

/// A check of the timeouts, in which every packet could be written, looks at
/// the clock once for each connection: an overdue segment is retransmitted or
/// its connection ended. Nothing else changes, and no other packet is written.
pub proof fn law_check_retransmissions(s: Stack, ports: Seq<u16>, now: u64)
    requires
        ports.no_duplicates(),
        ports.to_set() == s.conns.dom(),
    ensures
        ({
            let (end, packets) = flush_run(s, flush_begin(ports, false), now);
            &&& end == each(s, |c: Connection| c.on_clock(now))
            &&& packets == resent(s, ports, now)
        }),
{
    let clock = |c: Connection| c.on_clock(now);
    lemma_partly_none(s, ports, clock);
    lemma_retransmit_stage(s, ports, 0, false, now);
    lemma_partly_all(s, ports, clock);
    let begin = flush_begin(ports, false);
    assert(FlushJob { next: 0, ..begin } =~= begin);
    assert(ports.skip(0) =~= ports);
    let then = flush_run(each(s, clock), after_retransmissions(ports, false), now);
    assert(then == (each(s, clock), Seq::<Seq<u8>>::empty()));
    assert(resent(s, ports, now) + then.1 =~= resent(s, ports, now));
}

/// A segment with new data that could not be written is not lost: the stack is
/// as it was before, so the next flush builds the same packet again. The flush
/// goes on.
pub proof fn law_failed_write_loses_nothing(s: Stack, job: FlushJob, now: u64, later: u64)
    requires
        job.stage is Transmit,
        0 <= job.next < job.ports.len(),
        s.may_transmit(job.ports[job.next]),
        !(s.conns[job.ports[job.next]].status is Error),
    ensures
        ({
            let c = s.conns[job.ports[job.next]];
            let (s1, job1, action) = s.flush_step(job, now);
            let (s2, job2, go_on) = s1.flush_written(job1, false, later);
            &&& action == FlushAction::Write(s.data_packet(c, c.seq, c.chunk(s.mss)))
            &&& s2 == s
            &&& go_on
        }),
{
}

} // verus!
