//! What a writer and a reader promise together, over a network that loses,
//! repeats, delays and reorders what it carries.

use vstd::prelude::*;

use crate::connection::Connection;
use crate::delivery::{delivered, law_delivery, law_reading_keeps_order};
use crate::packets::Segment;
use crate::reliability::{
    law_arrivals_keep_what_was_sent, law_queueing_extends_the_stream, law_retransmission_repeats,
    law_sending_follows_the_stream, lemma_one_segment, sending,
};
use crate::sequence::{at, law_advance_follows_the_stream, law_order_follows_the_stream};

verus! {

/// One direction of a connection: the ends on both sides, and what has passed
/// between them so far.
#[verifier::ext_equal]
pub struct Link {
    pub writer: Connection,
    pub reader: Connection,
    /// All bytes that were ever queued.
    pub stream: Seq<u8>,
    /// How many of them were sent.
    pub sent: int,
    /// How many of them have arrived.
    pub arrived: int,
    /// The bytes that were read.
    pub taken: Seq<u8>,
    /// The segments that were ever sent, each by its offset in the stream and
    /// its length.
    pub segments: Set<(int, int)>,
    /// The offsets that the reader has ever acknowledged.
    pub answers: Set<int>,
}

/// What can happen to a link.
pub enum Event {
    /// The writer's side queues bytes.
    Queue(Seq<u8>),
    /// The writer sends its next segment, or tries to: if it cannot be
    /// written, nothing of it gets out.
    Send { mss: nat, now: u64, written: bool },
    /// The writer looks at the clock; it may retransmit.
    Clock(u64),
    /// The network brings a segment to the reader.
    Data { segment: Segment, offset: int },
    /// The network brings an acknowledgment to the writer.
    Answer { segment: Segment, offset: int },
    /// The reader's side reads bytes.
    Read(int),
}

impl Link {
    /// What can happen now. The network can bring any segment that was ever
    /// sent and any acknowledgment that was ever given, as often as it likes,
    /// provided that they are not so old that half the circle of sequence
    /// numbers has passed since. The writer's side sends no FIN and no RST.
    /// Those of the reader's side end the writer, which then sends nothing
    /// new.
    pub open spec fn possible(self, base: int, e: Event) -> bool {
        match e {
            Event::Queue(_) => true,
            Event::Send { .. } => self.writer.ready() && !(self.writer.status is Error),
            Event::Clock(_) => true,
            Event::Data { segment, offset } => {
                let len = segment.payload.len() as int;
                &&& self.segments.contains((offset, len))
                &&& segment.payload == self.stream.subrange(offset, offset + len)
                &&& segment.sequence_number == at(base + offset)
                &&& !segment.flags.rst && !segment.flags.fin
                &&& self.arrived - offset < 0x8000_0000
            },
            Event::Answer { segment, offset } => {
                &&& self.answers.contains(offset)
                &&& segment.acknowledgment_number == at(base + offset)
                &&& self.sent - offset < 0x8000_0000
            },
            Event::Read(count) => 0 <= count <= self.reader.received.len(),
        }
    }

    /// The link after something has happened.
    pub open spec fn after(self, e: Event) -> Link {
        match e {
            Event::Queue(payload) => Link {
                writer: Connection { queued: self.writer.queued + payload, ..self.writer },
                stream: self.stream + payload,
                ..self
            },
            Event::Send { mss, now, written } => {
                let len = self.writer.chunk_len(mss) as int;
                if written {
                    Link {
                        writer: self.writer.sent(len, now),
                        sent: self.sent + len,
                        segments: self.segments.insert((self.sent, len)),
                        ..self
                    }
                } else {
                    self
                }
            },
            Event::Clock(now) => Link { writer: self.writer.on_clock(now), ..self },
            Event::Data { segment, offset } => {
                let arrived = if offset == self.arrived {
                    self.arrived + segment.payload.len()
                } else {
                    self.arrived
                };
                Link {
                    reader: self.reader.on_segment(segment).0,
                    arrived,
                    answers: self.answers.insert(arrived),
                    ..self
                }
            },
            Event::Answer { segment, offset } => Link {
                writer: self.writer.on_segment(segment).0,
                ..self
            },
            Event::Read(count) => Link {
                reader: Connection {
                    received: self.reader.received.skip(count),
                    ..self.reader
                },
                taken: self.taken + self.reader.received.take(count),
                ..self
            },
        }
    }

    /// How many of the sent bytes are known to have arrived: all but those in
    /// flight.
    pub open spec fn acknowledged(self) -> int {
        if self.writer.unacked.len() == 0 {
            self.sent
        } else {
            self.sent - self.writer.unacked[0].data.len()
        }
    }

    /// What holds of a link at any time: what has arrived lies between what
    /// is acknowledged and what was sent, and nothing is under way but
    /// segments that have arrived and the one in flight.
    pub open spec fn holds(self, base: int) -> bool {
        &&& sending(self.writer, self.stream, base, self.sent)
        &&& !(self.writer.status is WaitingForSyn)
        &&& self.reader.status is Connected
        &&& delivered(self.reader, self.taken, self.stream, base, self.arrived)
        &&& self.acknowledged() == self.arrived || self.sent == self.arrived
        &&& forall|o: int, k: int| #[trigger]
            self.segments.contains((o, k)) ==> {
                &&& 0 <= o && 0 <= k
                &&& o + k <= self.acknowledged() || (o == self.acknowledged() && o + k == self.sent)
            }
        &&& forall|o: int| #[trigger] self.answers.contains(o) ==> 0 <= o <= self.arrived
    }
}

/// What holds of a link at any time holds after anything that can happen.
proof fn lemma_holds_on(l: Link, base: int, e: Event)
    requires
        l.holds(base),
        l.possible(base, e),
    ensures
        l.after(e).holds(base),
{
    let next = l.after(e);
    match e {
        Event::Queue(payload) => {
            law_queueing_extends_the_stream(l.writer, l.stream, base, l.sent, payload);
            assert((l.stream + payload).take(l.arrived) =~= l.stream.take(l.arrived));
        },
        Event::Send { mss, now, written } => {
            if written {
                law_sending_follows_the_stream(l.writer, l.stream, base, l.sent, mss, now);
                assert(next.writer.unacked[0].data.len() == l.writer.chunk_len(mss));
                assert(next.acknowledged() == l.sent);
            }
        },
        Event::Clock(now) => {
            law_retransmission_repeats(l.writer, l.stream, base, l.sent, now);
            assert(next.acknowledged() == l.acknowledged());
        },
        Event::Data { segment, offset } => {
            law_delivery(l.reader, l.taken, l.stream, base, l.arrived, segment, offset);
            if l.writer.unacked.len() == 1 {
                assert(l.acknowledged() <= l.sent);
            }
        },
        Event::Answer { segment, offset } => {
            law_arrivals_keep_what_was_sent(l.writer, l.stream, base, l.sent, segment);
            lemma_one_segment(l.writer.unacked, segment.acknowledgment_number);
            if l.writer.unacked.len() == 1 {
                let k = l.writer.unacked[0].data.len() as int;
                law_advance_follows_the_stream(base + l.sent - k, k);
                law_order_follows_the_stream(base + l.sent, base + offset);
            }
        },
        Event::Read(count) => {
            law_reading_keeps_order(l.reader, l.taken, l.stream, base, l.arrived, count);
        },
    }
}

/// The link after some events.
pub open spec fn after_events(l: Link, events: Seq<Event>) -> Link
    decreases events.len(),
{
    if events.len() == 0 {
        l
    } else {
        after_events(l, events.drop_last()).after(events.last())
    }
}

/// A link on which the handshake is over and nothing has passed yet.
pub open spec fn link_begins(writer: Connection, reader: Connection) -> Link {
    Link {
        writer,
        reader,
        stream: writer.queued,
        sent: 0,
        arrived: 0,
        taken: Seq::empty(),
        segments: Set::empty(),
        answers: Set::empty(),
    }
}

/// Whether each event is possible when it happens.
pub open spec fn all_possible(l: Link, base: int, events: Seq<Event>) -> bool
    decreases events.len(),
{
    events.len() > 0 ==> {
        &&& all_possible(l, base, events.drop_last())
        &&& after_events(l, events.drop_last()).possible(base, events.last())
    }
}

proof fn lemma_holds_after(l: Link, base: int, events: Seq<Event>)
    requires
        l.holds(base),
        all_possible(l, base, events),
    ensures
        after_events(l, events).holds(base),
    decreases events.len(),
{
    if events.len() > 0 {
        let earlier = events.drop_last();
        lemma_holds_after(l, base, earlier);
        lemma_holds_on(after_events(l, earlier), base, events.last());
    }
}

proof fn lemma_holds_means(l: Link, base: int)
    requires
        l.holds(base),
    ensures
        (l.taken + l.reader.received).is_prefix_of(l.stream),
        l.writer.unacked.len() == 0 && l.writer.queued.len() == 0 ==> l.taken + l.reader.received
            == l.stream,
{
    if l.writer.unacked.len() == 0 && l.writer.queued.len() == 0 {
        assert(l.stream.skip(l.sent).len() == 0);
        assert(l.stream.take(l.stream.len() as int) =~= l.stream);
    }
}

/// Reliable, ordered delivery: whatever happens on a link, with writes that
/// fail, and segments and acknowledgments that are lost, repeated, delayed and
/// reordered, what was read and what waits to be read are together a beginning
/// of what was queued; and when nothing is queued or in flight any more, they
/// are all of it.
pub proof fn law_stream_is_carried(
    writer: Connection,
    reader: Connection,
    base: int,
    events: Seq<Event>,
)
    requires
        sending(writer, writer.queued, base, 0),
        writer.unacked.len() == 0,
        writer.status is Connected,
        delivered(reader, Seq::empty(), writer.queued, base, 0),
        reader.status is Connected,
        all_possible(link_begins(writer, reader), base, events),
    ensures
        ({
            let l = after_events(link_begins(writer, reader), events);
            &&& l.holds(base)
            &&& (l.taken + l.reader.received).is_prefix_of(l.stream)
            &&& l.writer.unacked.len() == 0 && l.writer.queued.len() == 0 ==> l.taken
                + l.reader.received == l.stream
        }),
{
    let start = link_begins(writer, reader);
    lemma_holds_after(start, base, events);
    lemma_holds_means(after_events(start, events), base);
}

} // verus!
