//! Flushing: what is overdue is retransmitted, what is queued is sent, and
//! dropped connections are closed.
//!
//! A flush goes step by step. Each step looks at one connection, and may hand
//! out a packet to write; what became of the write is handed back before the
//! next step. A flush that is not carried on leaves nothing half done.

use vstd::prelude::*;

use crate::adapter::Adapter;
use crate::stack::{lemma_replace, Stack};

verus! {

/// The part of a flush that is being worked on.
#[derive(Debug, Clone, Copy, PartialEq, Eq, Structural)]
pub enum FlushStage {
    /// Overdue segments are retransmitted.
    Retransmit,
    /// Queued bytes are sent.
    Transmit,
    /// Dropped connections are closed.
    Reap,
    /// Nothing is left to do.
    Done,
}

/// The packet that a flush has handed out last.
#[derive(Debug, Clone, Copy, PartialEq, Eq, Structural)]
pub enum Pending {
    /// None whose fate matters.
    Nothing,
    /// A retransmission.
    Retransmission,
    /// New data: the first `len` queued bytes of the connection on `port`.
    Chunk { port: u16, len: usize },
}

/// How far a flush has come.
#[verifier::ext_equal]
pub struct FlushJob {
    pub stage: FlushStage,
    /// The ports that the stage goes through.
    pub ports: Seq<u16>,
    /// How many of them it has gone through.
    pub next: int,
    /// Whether the flush goes beyond retransmissions.
    pub whole: bool,
    pub pending: Pending,
}

/// What a step of a flush comes to.
pub enum FlushAction {
    /// A packet is to be written.
    Write(Seq<u8>),
    /// Nothing; there are more steps.
    Skip,
    /// Nothing; the flush is over.
    Done,
}

/// The beginning of a flush that goes through the given ports.
pub open spec fn flush_begin(ports: Seq<u16>, whole: bool) -> FlushJob {
    FlushJob { stage: FlushStage::Retransmit, ports, next: 0, whole, pending: Pending::Nothing }
}

impl FlushJob {
    /// The job with the current port behind it and a packet handed out.
    pub open spec fn past(self, pending: Pending) -> FlushJob {
        FlushJob { next: self.next + 1, pending, ..self }
    }

    /// The job at the beginning of another stage.
    pub open spec fn at_stage(self, stage: FlushStage, ports: Seq<u16>) -> FlushJob {
        FlushJob { stage, ports, next: 0, whole: self.whole, pending: Pending::Nothing }
    }
}

impl Stack {
    /// Retransmission on one port: an overdue segment is sent again with its
    /// old sequence number and its old bytes, or its connection is given up.
    pub open spec fn retransmit(self, port: u16, now: u64) -> (Stack, Option<Seq<u8>>) {
        if self.conns.contains_key(port) {
            let c = self.conns[port];
            (
                self.with(port, c.on_clock(now)),
                if c.resends(now) {
                    Some(self.data_packet(c, c.unacked[0].seq, c.unacked[0].data))
                } else {
                    None
                },
            )
        } else {
            (self, None)
        }
    }

    /// Whether a port has queued bytes that may be sent.
    pub open spec fn may_transmit(self, port: u16) -> bool {
        self.conns.contains_key(port) && self.conns[port].ready()
    }

    /// One step of a flush.
    pub open spec fn flush_step(self, job: FlushJob, now: u64) -> (Stack, FlushJob, FlushAction) {
        let port = job.ports[job.next];
        let c = self.conns[port];
        let len = c.chunk_len(self.mss);
        match job.stage {
            FlushStage::Retransmit => if job.next < job.ports.len() {
                match self.retransmit(port, now) {
                    (s, Some(packet)) => (
                        s,
                        job.past(Pending::Retransmission),
                        FlushAction::Write(packet),
                    ),
                    (s, None) => (s, job.past(Pending::Nothing), FlushAction::Skip),
                }
            } else if job.whole {
                (self, job.at_stage(FlushStage::Transmit, job.ports), FlushAction::Skip)
            } else {
                (self, job.at_stage(FlushStage::Done, Seq::empty()), FlushAction::Skip)
            },
            FlushStage::Transmit => if job.next < job.ports.len() {
                if !self.may_transmit(port) {
                    (self, job.past(Pending::Nothing), FlushAction::Skip)
                } else if c.status is Error {
                    (
                        self.with(port, c.unqueue(len as int)),
                        job.past(Pending::Nothing),
                        FlushAction::Skip,
                    )
                } else {
                    (
                        self,
                        job.past(Pending::Chunk { port, len: len as usize }),
                        FlushAction::Write(self.data_packet(c, c.seq, c.chunk(self.mss))),
                    )
                }
            } else {
                (
                    Stack { dropped: Seq::empty(), ..self },
                    job.at_stage(FlushStage::Reap, self.dropped),
                    FlushAction::Skip,
                )
            },
            FlushStage::Reap => if job.next < job.ports.len() {
                if self.conns.contains_key(port) {
                    (
                        self.without(port),
                        job.past(Pending::Nothing),
                        FlushAction::Write(self.fin_packet(c)),
                    )
                } else {
                    (self, job.past(Pending::Nothing), FlushAction::Skip)
                }
            } else {
                (self, job.at_stage(FlushStage::Done, Seq::empty()), FlushAction::Skip)
            },
            FlushStage::Done => (self, job, FlushAction::Done),
        }
    }

    /// What becomes of the bytes of a chunk: sent ones leave the queue and are
    /// in flight, and ones that could not be written stay where they are.
    pub open spec fn after_chunk(self, port: u16, len: nat, written: bool, now: u64) -> Stack {
        let c = self.conns[port];
        if written && self.may_transmit(port) && len <= c.queued.len() {
            self.with(port, c.sent(len as int, now))
        } else {
            self
        }
    }

    /// The fate of the packet that a flush has handed out. A retransmission
    /// that could not be written ends the flush; new data that could not be
    /// written stays queued.
    pub open spec fn flush_written(self, job: FlushJob, written: bool, now: u64) -> (
        Stack,
        FlushJob,
        bool,
    ) {
        let settled = FlushJob { pending: Pending::Nothing, ..job };
        match job.pending {
            Pending::Nothing => (self, settled, true),
            Pending::Retransmission => if written {
                (self, settled, true)
            } else {
                (self, job.at_stage(FlushStage::Done, Seq::empty()), false)
            },
            Pending::Chunk { port, len } => (
                self.after_chunk(port, len as nat, written, now),
                settled,
                true,
            ),
        }
    }
}

/// A flush that is under way.
#[derive(Debug)]
pub struct Flush {
    stage: FlushStage,
    ports: Vec<u16>,
    next: usize,
    whole: bool,
    pending: Pending,
}

impl View for Flush {
    type V = FlushJob;

    closed spec fn view(&self) -> FlushJob {
        FlushJob {
            stage: self.stage,
            ports: self.ports@,
            next: self.next as int,
            whole: self.whole,
            pending: self.pending,
        }
    }
}

/// What a step of a flush comes to.
#[derive(Debug)]
pub enum FlushStep {
    /// A packet is to be written, and what became of it to be handed back.
    Write(Vec<u8>),
    /// Nothing; there are more steps.
    Skip,
    /// Nothing; the flush is over.
    Done,
}

impl View for FlushStep {
    type V = FlushAction;

    open spec fn view(&self) -> FlushAction {
        match *self {
            FlushStep::Write(packet) => FlushAction::Write(packet@),
            FlushStep::Skip => FlushAction::Skip,
            FlushStep::Done => FlushAction::Done,
        }
    }
}

impl Flush {
    fn past(&mut self, pending: Pending)
        requires
            old(self)@.next < old(self)@.ports.len(),
        ensures
            final(self)@ == old(self)@.past(pending),
    {
        assert(self.next < self.ports.len());
        self.next += 1;
        self.pending = pending;
    }

    fn at_stage(&mut self, stage: FlushStage, ports: Vec<u16>)
        ensures
            final(self)@ == old(self)@.at_stage(stage, ports@),
    {
        self.stage = stage;
        self.ports = ports;
        self.next = 0;
        self.pending = Pending::Nothing;
    }
}

impl Adapter {
    /// Begins a flush: check retransmissions first so a timed-out connection
    /// is marked before new data is sent on it, then send what is queued
    /// (stop-and-wait: a connection with a segment in flight is passed over),
    /// then close what was dropped.
    pub fn write_buffer_flush(&self) -> (job: Flush)
        ensures
            job@ == flush_begin(job@.ports, true),
            job@.ports.no_duplicates(),
            job@.ports.to_set() == self@.conns.dom(),
    {
        Flush {
            stage: FlushStage::Retransmit,
            ports: self.host_ports(),
            next: 0,
            whole: true,
            pending: Pending::Nothing,
        }
    }

    /// Begins a flush that only retransmits.
    pub fn check_retransmissions(&self) -> (job: Flush)
        ensures
            job@ == flush_begin(job@.ports, false),
            job@.ports.no_duplicates(),
            job@.ports.to_set() == self@.conns.dom(),
    {
        Flush {
            stage: FlushStage::Retransmit,
            ports: self.host_ports(),
            next: 0,
            whole: false,
            pending: Pending::Nothing,
        }
    }

    /// Looks at the clock for one connection: an overdue segment is to be
    /// retransmitted, or its connection is given up.
    pub fn retransmit(&mut self, host_port: u16, now: u64) -> (packet: Option<Vec<u8>>)
        requires
            old(self)@.can_send(),
        ensures
            final(self)@ == old(self)@.retransmit(host_port, now).0,
            match packet {
                Some(bytes) => old(self)@.retransmit(host_port, now).1 == Some(bytes@),
                None => old(self)@.retransmit(host_port, now).1 is None,
            },
            old(self)@.wf() ==> final(self)@.wf(),
    {
        match self.take(host_port) {
            Some(state) => {
                let mut state = state;
                let resend = state.on_clock(now);
                proof {
                    lemma_replace(old(self)@, host_port, state@);
                    reveal(Stack::tcp_packet);
                }
                let packet = match resend {
                    Some((seq, data)) => Some(self.data_segment(&state, seq, data.as_slice())),
                    None => None,
                };
                self.put(host_port, state);
                packet
            },
            None => None,
        }
    }

    /// Records that the first queued bytes of a connection were sent.
    fn chunk_sent(&mut self, host_port: u16, len: usize, now: u64)
        ensures
            final(self)@ == old(self)@.after_chunk(host_port, len as nat, true, now),
            old(self)@.wf() ==> final(self)@.wf(),
    {
        match self.take(host_port) {
            Some(state) => {
                let mut state = state;
                if state.is_ready() && len <= state.queued_len() {
                    state.mark_sent(len, now);
                }
                proof {
                    lemma_replace(old(self)@, host_port, state@);
                    assert(old(self)@.with(host_port, old(self)@.conns[host_port]) =~= old(self)@);
                }
                self.put(host_port, state);
            },
            None => {},
        }
    }

    /// Drops the first queued bytes of a connection that has ended.
    fn chunk_dropped(&mut self, host_port: u16, len: usize)
        requires
            old(self)@.conns.contains_key(host_port),
            len <= old(self)@.conns[host_port].queued.len(),
        ensures
            final(self)@ == old(self)@.with(
                host_port,
                old(self)@.conns[host_port].unqueue(len as int),
            ),
            old(self)@.wf() ==> final(self)@.wf(),
    {
        match self.take(host_port) {
            Some(state) => {
                let mut state = state;
                state.unqueue(len);
                proof {
                    lemma_replace(old(self)@, host_port, state@);
                }
                self.put(host_port, state);
            },
            None => {},
        }
    }

    /// Takes one step of a flush.
    pub fn flush_step(&mut self, job: &mut Flush, now: u64) -> (step: FlushStep)
        requires
            old(self)@.can_send(),
        ensures
            (final(self)@, final(job)@, step@) == old(self)@.flush_step(old(job)@, now),
            old(self)@.wf() ==> final(self)@.wf(),
            final(self)@.can_send(),
    {
        match job.stage {
            FlushStage::Retransmit => {
                if job.next < job.ports.len() {
                    let port: u16 = job.ports[job.next];
                    match self.retransmit(port, now) {
                        Some(packet) => {
                            job.past(Pending::Retransmission);
                            FlushStep::Write(packet)
                        },
                        None => {
                            job.past(Pending::Nothing);
                            FlushStep::Skip
                        },
                    }
                } else if job.whole {
                    job.stage = FlushStage::Transmit;
                    job.next = 0;
                    job.pending = Pending::Nothing;
                    FlushStep::Skip
                } else {
                    job.at_stage(FlushStage::Done, Vec::new());
                    FlushStep::Skip
                }
            },
            FlushStage::Transmit => {
                if job.next < job.ports.len() {
                    let port: u16 = job.ports[job.next];
                    self.transmit_step(job, port)
                } else {
                    let dropped = self.take_dropped();
                    job.at_stage(FlushStage::Reap, dropped);
                    FlushStep::Skip
                }
            },
            FlushStage::Reap => {
                if job.next < job.ports.len() {
                    let port: u16 = job.ports[job.next];
                    job.past(Pending::Nothing);
                    match self.close(port) {
                        Ok(packet) => FlushStep::Write(packet),
                        Err(_) => FlushStep::Skip,
                    }
                } else {
                    job.at_stage(FlushStage::Done, Vec::new());
                    FlushStep::Skip
                }
            },
            FlushStage::Done => FlushStep::Done,
        }
    }

    fn transmit_step(&mut self, job: &mut Flush, port: u16) -> (step: FlushStep)
        requires
            old(self)@.can_send(),
            old(job)@.stage is Transmit,
            old(job)@.next < old(job)@.ports.len(),
            port == old(job)@.ports[old(job)@.next],
        ensures
            forall|now: u64|
                (final(self)@, final(job)@, step@) == #[trigger] old(self)@.flush_step(
                    old(job)@,
                    now,
                ),
            old(self)@.wf() ==> final(self)@.wf(),
            final(self)@.can_send(),
    {
        let mss: usize = self.mss();
        let chunk = match self.get(port) {
            Some(state) => state.next_chunk(mss),
            None => None,
        };
        match chunk {
            Some(data) => {
                match self.psh(data.as_slice(), port) {
                    Ok(packet) => {
                        job.past(Pending::Chunk { port, len: data.len() });
                        FlushStep::Write(packet)
                    },
                    Err(_) => {
                        self.chunk_dropped(port, data.len());
                        job.past(Pending::Nothing);
                        FlushStep::Skip
                    },
                }
            },
            None => {
                job.past(Pending::Nothing);
                FlushStep::Skip
            },
        }
    }

    /// Hands back whether the packet of the last step could be written.
    /// Returns whether the flush goes on.
    pub fn flush_written(&mut self, job: &mut Flush, written: bool, now: u64) -> (go_on: bool)
        ensures
            (final(self)@, final(job)@, go_on) == old(self)@.flush_written(old(job)@, written, now),
            old(self)@.wf() ==> final(self)@.wf(),
    {
        match job.pending {
            Pending::Nothing => {
                job.pending = Pending::Nothing;
                true
            },
            Pending::Retransmission => {
                if written {
                    job.pending = Pending::Nothing;
                } else {
                    job.at_stage(FlushStage::Done, Vec::new());
                }
                written
            },
            Pending::Chunk { port, len } => {
                if written {
                    self.chunk_sent(port, len, now);
                }
                job.pending = Pending::Nothing;
                true
            },
        }
    }
}

} // verus!
