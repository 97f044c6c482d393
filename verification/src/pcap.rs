//! PCAP captures: files of raw IP packets that Wireshark opens.

use vstd::prelude::*;

use crate::bytes::{le16, le32, lemma_digits, put_le16, put_le32, put_slice};

verus! {

/// The number that marks a capture with times in microseconds.
pub const MAGIC: u32 = 0xa1b2c3d4;

/// The longest part of a packet that a capture holds.
pub const SNAP_LEN: u32 = 65535;

/// The link type of raw IP packets.
pub const LINKTYPE_RAW: u32 = 101;

/// Microseconds in a second.
pub const MICROS_PER_SECOND: u64 = 1_000_000;

/// The header of a capture: format version 2.4, times in UTC, raw IP packets.
pub open spec fn header_bytes() -> Seq<u8> {
    le32(MAGIC as int) + le16(2) + le16(4) + le32(0) + le32(0) + le32(SNAP_LEN as int) + le32(
        LINKTYPE_RAW as int,
    )
}

/// A packet in a capture: when it was captured, in seconds and microseconds,
/// its length twice, and its bytes.
pub open spec fn record_bytes(micros: int, packet: Seq<u8>) -> Seq<u8> {
    le32((micros / MICROS_PER_SECOND as int) % 0x1_0000_0000) + le32(
        micros % MICROS_PER_SECOND as int,
    ) + le32(packet.len() as int % 0x1_0000_0000) + le32(packet.len() as int % 0x1_0000_0000)
        + packet
}

/// The header of a capture.
pub fn file_header() -> (out: Vec<u8>)
    ensures
        out@ == header_bytes(),
{
    let mut out: Vec<u8> = Vec::new();
    put_le32(&mut out, MAGIC);
    put_le16(&mut out, 2);
    put_le16(&mut out, 4);
    put_le32(&mut out, 0);
    put_le32(&mut out, 0);
    put_le32(&mut out, SNAP_LEN);
    put_le32(&mut out, LINKTYPE_RAW);
    assert(out@ =~= header_bytes());
    out
}

/// A packet in a capture, captured so many microseconds after the epoch.
pub fn log_packet(micros: u64, packet: &[u8]) -> (out: Vec<u8>)
    ensures
        out@ == record_bytes(micros as int, packet@),
{
    let seconds: u32 = ((micros / MICROS_PER_SECOND) % 0x1_0000_0000) as u32;
    let fraction: u32 = (micros % MICROS_PER_SECOND) as u32;
    let wide: u64 = packet.len() as u64;
    let length: u32 = (wide % 0x1_0000_0000) as u32;
    let mut out: Vec<u8> = Vec::new();
    put_le32(&mut out, seconds);
    put_le32(&mut out, fraction);
    put_le32(&mut out, length);
    put_le32(&mut out, length);
    put_slice(&mut out, packet);
    assert(out@ =~= record_bytes(micros as int, packet@));
    out
}

/// The number that the four bytes from `i` on spell, least significant first.
pub open spec fn read_le32(b: Seq<u8>, i: int) -> int {
    b[i] + b[i + 1] * 0x100 + b[i + 2] * 0x1_0000 + b[i + 3] * 0x100_0000
}

/// A capture is read back: the time of a packet is given in whole seconds and
/// less than a million microseconds, and its bytes follow its length.
pub proof fn law_record_reads_back(micros: int, packet: Seq<u8>, rest: Seq<u8>)
    requires
        0 <= micros < 0x1_0000_0000 * MICROS_PER_SECOND,
        packet.len() < 0x1_0000_0000,
    ensures
        ({
            let b = record_bytes(micros, packet) + rest;
            &&& read_le32(b, 0) * MICROS_PER_SECOND + read_le32(b, 4) == micros
            &&& 0 <= read_le32(b, 4) < MICROS_PER_SECOND
            &&& read_le32(b, 8) == packet.len()
            &&& read_le32(b, 12) == packet.len()
            &&& b.subrange(16, 16 + packet.len() as int) == packet
            &&& b.skip(16 + packet.len() as int) == rest
        }),
{
    let b = record_bytes(micros, packet) + rest;
    let seconds = micros / MICROS_PER_SECOND as int;
    let fraction = micros % MICROS_PER_SECOND as int;
    let length = packet.len() as int;
    assert(0 <= seconds < 0x1_0000_0000);
    assert(seconds % 0x1_0000_0000 == seconds);
    assert(length % 0x1_0000_0000 == length);
    assert(b == le32(seconds) + le32(fraction) + le32(length) + le32(length) + packet + rest);
    lemma_fields(seconds, fraction, length, packet, rest);
    assert(seconds * MICROS_PER_SECOND + fraction == micros);
}

proof fn lemma_fields(seconds: int, fraction: int, length: int, packet: Seq<u8>, rest: Seq<u8>)
    requires
        0 <= seconds < 0x1_0000_0000,
        0 <= fraction < 0x1_0000_0000,
        0 <= length < 0x1_0000_0000,
    ensures
        ({
            let b = le32(seconds) + le32(fraction) + le32(length) + le32(length) + packet + rest;
            &&& read_le32(b, 0) == seconds
            &&& read_le32(b, 4) == fraction
            &&& read_le32(b, 8) == length
            &&& read_le32(b, 12) == length
            &&& b.subrange(16, 16 + packet.len() as int) == packet
            &&& b.skip(16 + packet.len() as int) == rest
        }),
{
    lemma_le32_reads_back(seconds);
    lemma_le32_reads_back(fraction);
    lemma_le32_reads_back(length);
    lemma_layout(le32(seconds), le32(fraction), le32(length), packet, rest);
}

proof fn lemma_le32_reads_back(x: int)
    requires
        0 <= x < 0x1_0000_0000,
    ensures
        read_le32(le32(x), 0) == x,
{
    lemma_digits(x);
}

proof fn lemma_layout(s: Seq<u8>, f: Seq<u8>, l: Seq<u8>, packet: Seq<u8>, rest: Seq<u8>)
    requires
        s.len() == 4,
        f.len() == 4,
        l.len() == 4,
    ensures
        ({
            let b = s + f + l + l + packet + rest;
            &&& read_le32(b, 0) == read_le32(s, 0)
            &&& read_le32(b, 4) == read_le32(f, 0)
            &&& read_le32(b, 8) == read_le32(l, 0)
            &&& read_le32(b, 12) == read_le32(l, 0)
            &&& b.subrange(16, 16 + packet.len() as int) == packet
            &&& b.skip(16 + packet.len() as int) == rest
        }),
{
    let b = s + f + l + l + packet + rest;
    assert(b.subrange(16, 16 + packet.len() as int) =~= packet);
    assert(b.skip(16 + packet.len() as int) =~= rest);
}

} // verus!
