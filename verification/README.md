# jktcp

A userspace TCP stack that runs over any async read/write transport, with a
protocol core that is verified with Verus.

The stack is for reliable, ordered transports that carry framed IPv4 or IPv6
packets: TUN devices, tunnels, in-process pipes.

## Layout

- `src/` is the protocol core. It does no I/O: bytes from the transport and
  points in time go in, packets for the transport come out. Every function has
  a contract, and what holds of the stack as a whole is proved as laws.
- `app/` drives the core: it owns the transport, the clock, the capture file,
  and the background task with its channels.
- `tests/` runs the core on concrete values.

## What is proved

- **Handshake**: only a SYN-ACK opens a connection; the SYN is repeated
  when the peer has been silent for 200 ms, then for twice as long each time,
  and given up after 10 s.
- **In-order delivery**: whatever segments of a stream arrive, in any order and
  with any repeated, the reader gets a beginning of the stream. Out-of-order
  segments are dropped; duplicate segments are re-ACKed without re-buffering.
- **Stop-and-wait reliability**: at most one segment is in flight; it is
  retransmitted, the same bytes under the same sequence number, until it is
  acknowledged. A segment that could not be written stays queued.
- **Both together**: with writes that fail, over a network that loses, repeats,
  delays and reorders, the reader gets a beginning of what the writer queued,
  and all of it once nothing is queued or in flight.
- **Connection timeout**: the timeouts run 200 ms, 400 ms, 800 ms, 1.6 s and
  3.2 s; after 5 retransmissions and another 6.4 s the connection ends with
  `TimedOut`.
- **Wire formats**: what one stack writes, another reads back, from any pieces
  in which it arrives; checksums cancel.
- **Streams of a background task**: each gets its own bytes, all of them, and
  before the error that ends it.

The one thing taken on trust is that random numbers come from the `rand` crate;
nothing is claimed of them.
