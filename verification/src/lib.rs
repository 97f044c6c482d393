//! The protocol core of a userspace TCP stack.
//!
//! The stack is for **reliable, ordered transports** that carry raw IP packets,
//! where real packet loss is rare. It still implements stop-and-wait
//! retransmission with exponential back-off, so that transient glitches do not
//! silently drop data.
//!
//! Nothing here reads, writes, waits or looks at a clock. Bytes from the
//! transport and points in time are arguments; packets for the transport are
//! results. What runs a connection, step by step:
//!
//! - [`adapter::Adapter`] opens connections, takes packets apart and answers
//!   them, and keeps what has arrived and what is to be sent.
//! - [`flush`] retransmits what is overdue, sends what is queued and closes
//!   what was dropped.
//! - [`handle`] and [`endpoint`] hold the decisions of a background task that
//!   serves many streams, and of the handles that talk to it.
//! - [`packets`], [`checksum`] and [`pcap`] are the formats on the wire and in
//!   capture files.
//!
//! What holds of the stack as a whole is stated, and proved, as laws:
//! [`handshake`] is what a connection promises while it is being opened,
//! [`delivery`] what it promises its reader, [`reliability`] what it promises
//! its writer, and [`exchange`] what both promise together over a network that
//! loses, repeats and reorders; [`progress`] is what a whole flush does, and
//! [`wire`] that what is written is read back. [`sequence`] has the laws of
//! sequence numbers, and [`handle`] those of the background task.
//!
//! Below these stand the laws of single calls, in plain numbers and bytes:
//! [`rules`] for one connection, [`formats`] for each byte on the wire,
//! [`peer`] for what a packet says and does, [`interface`] for the calls of a
//! stack, [`steps`] for those of a flush, and [`streams`] for those of the
//! background task and the handles.

pub mod adapter;
pub mod bytes;
pub mod checksum;
pub mod connection;
pub mod delivery;
pub mod endpoint;
pub mod error;
pub mod exchange;
pub mod flush;
pub mod formats;
pub mod handle;
pub mod handshake;
pub mod interface;
pub mod packets;
pub mod pcap;
pub mod peer;
pub mod progress;
pub mod random;
pub mod reliability;
pub mod rules;
pub mod sequence;
pub mod stack;
pub mod steps;
pub mod streams;
pub mod wire;
