//! The decisions of the handles that callers hold: how a read is served, and
//! what a request to the background task comes to.

use vstd::prelude::*;

use crate::bytes::{put_slice, take_front};
use crate::error::{Error, ErrorKind};

verus! {

// ---------------------------------------------------------------------------
// Reading
// ---------------------------------------------------------------------------

/// The smaller of a room and a length.
pub open spec fn fitting(room: usize, bytes: Seq<u8>) -> int {
    if room < bytes.len() {
        room as int
    } else {
        bytes.len() as int
    }
}

/// What the channel of a stream gave.
#[derive(Debug)]
pub enum Received<E> {
    /// Bytes for the reader.
    Data(Vec<u8>),
    /// The error that ended the connection.
    Failed(E),
    /// The end of the channel.
    Closed(Error),
}

/// The bytes that were taken out of a stream's channel and did not fit the
/// reader's buffer.
#[derive(Debug)]
pub struct StreamReader {
    read_buffer: Vec<u8>,
}

impl View for StreamReader {
    type V = Seq<u8>;

    closed spec fn view(&self) -> Seq<u8> {
        self.read_buffer@
    }
}

impl StreamReader {
    /// Nothing is left over.
    pub fn new() -> (reader: StreamReader)
        ensures
            reader@ == Seq::<u8>::empty(),
    {
        StreamReader { read_buffer: Vec::new() }
    }

    /// Serves a read from what is left over, if anything is.
    pub fn serve(&mut self, room: usize) -> (r: Option<Vec<u8>>)
        ensures
            match r {
                Some(data) => {
                    &&& old(self)@.len() > 0
                    &&& data@ == old(self)@.take(fitting(room, old(self)@))
                    &&& final(self)@ == old(self)@.skip(fitting(room, old(self)@))
                },
                None => old(self)@.len() == 0 && final(self)@ == old(self)@,
            },
    {
        if self.read_buffer.len() == 0 {
            return None;
        }
        let n: usize = if room < self.read_buffer.len() {
            room
        } else {
            self.read_buffer.len()
        };
        Some(take_front(&mut self.read_buffer, n))
    }

    /// Serves a read from what came out of the channel: what fits goes to the
    /// reader, the tail is left over. The end of the channel is an error.
    pub fn accept<E>(&mut self, item: Option<Result<Vec<u8>, E>>, room: usize) -> (r: Received<E>)
        ensures
            match item {
                Some(Ok(data)) => {
                    &&& r matches Received::Data(front)
                    &&& front@ == data@.take(fitting(room, data@))
                    &&& final(self)@ == old(self)@ + data@.skip(fitting(room, data@))
                },
                Some(Err(e)) => r == Received::<E>::Failed(e) && final(self)@ == old(self)@,
                None => {
                    &&& r matches Received::Closed(e)
                    &&& e.is(ErrorKind::BrokenPipe, "channel closed"@)
                    &&& final(self)@ == old(self)@
                },
            },
    {
        match item {
            Some(Ok(data)) => {
                let mut tail = data;
                let n: usize = if room < tail.len() {
                    room
                } else {
                    tail.len()
                };
                let front = take_front(&mut tail, n);
                put_slice(&mut self.read_buffer, tail.as_slice());
                Received::Data(front)
            },
            Some(Err(e)) => Received::Failed(e),
            None => Received::Closed(Error::new(ErrorKind::BrokenPipe, "channel closed")),
        }
    }
}

/// Reading in two goes is reading in one: nothing is lost, repeated or moved.
pub proof fn law_reads_add_up(bytes: Seq<u8>, first: usize, second: usize)
    requires
        first + second <= usize::MAX,
    ensures
        ({
            let n = fitting(first, bytes);
            let rest = bytes.skip(n);
            let m = fitting(second, rest);
            let both = fitting((first + second) as usize, bytes);
            &&& bytes.take(n) + rest.take(m) == bytes.take(both)
            &&& rest.skip(m) == bytes.skip(both)
        }),
{
    let n = fitting(first, bytes);
    let rest = bytes.skip(n);
    let m = fitting(second, rest);
    let both = fitting((first + second) as usize, bytes);
    assert(both == n + m);
    assert(bytes.take(n) + rest.take(m) =~= bytes.take(both));
    assert(rest.skip(m) =~= bytes.skip(both));
}

// ---------------------------------------------------------------------------
// Writing
// ---------------------------------------------------------------------------

/// What a write of so many bytes comes to: all of them are taken, unless the
/// channel to the background task is closed.
pub fn write_outcome(sent: bool, len: usize) -> (r: Result<usize, Error>)
    ensures
        match r {
            Ok(n) => sent && n == len,
            Err(e) => !sent && e.is(ErrorKind::BrokenPipe, "channel closed"@),
        },
{
    if sent {
        Ok(len)
    } else {
        Err(Error::new(ErrorKind::BrokenPipe, "channel closed"))
    }
}

/// What asking for the next answer to a pending write gave.
#[derive(Debug)]
pub enum WriteReply<E> {
    /// A write was carried out.
    Written,
    /// A write failed.
    Failed(E),
    /// The background task dropped a write.
    Dropped,
    /// No write is pending.
    NoneLeft,
    /// Writes are pending, and none has been answered.
    Waiting,
}

/// What a flush does next.
#[derive(Debug)]
pub enum FlushPoll<E> {
    /// It asks for the next answer.
    Again,
    /// It is done.
    Ready,
    /// It waits.
    Pending,
    /// It fails with the error of a write.
    Failed(E),
    /// It fails because the background task is gone.
    Broken(Error),
}

/// What a flush does with the next answer.
pub fn poll_flush<E>(reply: WriteReply<E>) -> (r: FlushPoll<E>)
    ensures
        match reply {
            WriteReply::Written => r is Again,
            WriteReply::Failed(e) => r == FlushPoll::<E>::Failed(e),
            WriteReply::Dropped => r matches FlushPoll::Broken(e) && e.is(
                ErrorKind::BrokenPipe,
                "channel closed"@,
            ),
            WriteReply::NoneLeft => r is Ready,
            WriteReply::Waiting => r is Pending,
        },
{
    match reply {
        WriteReply::Written => FlushPoll::Again,
        WriteReply::Failed(e) => FlushPoll::Failed(e),
        WriteReply::Dropped => FlushPoll::Broken(
            Error::new(ErrorKind::BrokenPipe, "channel closed"),
        ),
        WriteReply::NoneLeft => FlushPoll::Ready,
        WriteReply::Waiting => FlushPoll::Pending,
    }
}

// ---------------------------------------------------------------------------
// Requests
// ---------------------------------------------------------------------------

/// What became of a request to the background task.
#[derive(Debug)]
pub enum Reply<T> {
    /// The channel to the task is closed.
    Refused,
    /// The task dropped the request.
    Dropped,
    /// No answer came in time.
    TimedOut,
    /// The task's answer.
    Answered(T),
}

/// What a request through an adapter's handle comes to.
pub fn request_outcome<T>(reply: Reply<T>) -> (r: Result<T, Error>)
    ensures
        match reply {
            Reply::Answered(answer) => r == Ok::<T, Error>(answer),
            Reply::Refused => r matches Err(e) && e.is(
                ErrorKind::NetworkUnreachable,
                "adapter closed"@,
            ),
            Reply::Dropped => r matches Err(e) && e.is(ErrorKind::BrokenPipe, "adapter closed"@),
            Reply::TimedOut => r matches Err(e) && e.is(
                ErrorKind::TimedOut,
                "channel recv timeout"@,
            ),
        },
{
    match reply {
        Reply::Answered(answer) => Ok(answer),
        Reply::Refused => Err(Error::new(ErrorKind::NetworkUnreachable, "adapter closed")),
        Reply::Dropped => Err(Error::new(ErrorKind::BrokenPipe, "adapter closed")),
        Reply::TimedOut => Err(Error::new(ErrorKind::TimedOut, "channel recv timeout")),
    }
}

/// What a request through a UDP socket's handle comes to, where `None` stands
/// for a task that is gone.
pub fn socket_outcome<T>(answer: Option<T>) -> (r: Result<T, Error>)
    ensures
        match answer {
            Some(x) => r == Ok::<T, Error>(x),
            None => r matches Err(e) && e.is(ErrorKind::BrokenPipe, "adapter closed"@),
        },
{
    match answer {
        Some(x) => Ok(x),
        None => Err(Error::new(ErrorKind::BrokenPipe, "adapter closed")),
    }
}

} // verus!
