//! Integers as bytes.

use vstd::prelude::*;

verus! {

/// The two bytes of `x`, most significant first.
pub open spec fn be16(x: int) -> Seq<u8> {
    seq![((x / 256) % 256) as u8, (x % 256) as u8]
}

/// The four bytes of `x`, most significant first.
pub open spec fn be32(x: int) -> Seq<u8> {
    seq![
        ((x / 0x100_0000) % 256) as u8,
        ((x / 0x1_0000) % 256) as u8,
        ((x / 0x100) % 256) as u8,
        (x % 256) as u8,
    ]
}

/// The two bytes of `x`, least significant first.
pub open spec fn le16(x: int) -> Seq<u8> {
    seq![(x % 256) as u8, ((x / 256) % 256) as u8]
}

/// The four bytes of `x`, least significant first.
pub open spec fn le32(x: int) -> Seq<u8> {
    seq![
        (x % 256) as u8,
        ((x / 0x100) % 256) as u8,
        ((x / 0x1_0000) % 256) as u8,
        ((x / 0x100_0000) % 256) as u8,
    ]
}

/// The number that the two bytes from `i` on spell, most significant first.
pub open spec fn read16(b: Seq<u8>, i: int) -> int {
    b[i] * 256 + b[i + 1]
}

/// The number that the four bytes from `i` on spell, most significant first.
pub open spec fn read32(b: Seq<u8>, i: int) -> int {
    b[i] * 0x100_0000 + b[i + 1] * 0x1_0000 + b[i + 2] * 0x100 + b[i + 3]
}

/// Appends `x`, most significant byte first.
pub fn put_be16(out: &mut Vec<u8>, x: u16)
    ensures
        final(out)@ == old(out)@ + be16(x as int),
{
    out.push((x / 256) as u8);
    out.push((x % 256) as u8);
}

/// Appends `x`, most significant byte first.
pub fn put_be32(out: &mut Vec<u8>, x: u32)
    ensures
        final(out)@ == old(out)@ + be32(x as int),
{
    out.push((x / 0x100_0000) as u8);
    out.push(((x / 0x1_0000) % 256) as u8);
    out.push(((x / 0x100) % 256) as u8);
    out.push((x % 256) as u8);
}

/// Appends `x`, least significant byte first.
pub fn put_le16(out: &mut Vec<u8>, x: u16)
    ensures
        final(out)@ == old(out)@ + le16(x as int),
{
    out.push((x % 256) as u8);
    out.push((x / 256) as u8);
}

/// Appends `x`, least significant byte first.
pub fn put_le32(out: &mut Vec<u8>, x: u32)
    ensures
        final(out)@ == old(out)@ + le32(x as int),
{
    out.push((x % 256) as u8);
    out.push(((x / 0x100) % 256) as u8);
    out.push(((x / 0x1_0000) % 256) as u8);
    out.push((x / 0x100_0000) as u8);
}

/// Appends the bytes of a slice.
pub fn put_slice(out: &mut Vec<u8>, bytes: &[u8])
    ensures
        final(out)@ == old(out)@ + bytes@,
{
    out.extend_from_slice(bytes);
    assert(out@ =~= old(out)@ + bytes@);
}

/// Reads two bytes, most significant first.
pub fn get_be16(b: &[u8], i: usize) -> (x: u16)
    requires
        i + 2 <= b@.len(),
    ensures
        x == read16(b@, i as int),
{
    (b[i] as u16) * 256 + b[i + 1] as u16
}

/// Reads four bytes, most significant first.
pub fn get_be32(b: &[u8], i: usize) -> (x: u32)
    requires
        i + 4 <= b@.len(),
    ensures
        x == read32(b@, i as int),
{
    (b[i] as u32) * 0x100_0000 + (b[i + 1] as u32) * 0x1_0000 + (b[i + 2] as u32) * 0x100
        + b[i + 3] as u32
}

/// The bytes of a slice from `from` up to `to`.
pub fn copy_range(b: &[u8], from: usize, to: usize) -> (out: Vec<u8>)
    requires
        from <= to <= b@.len(),
    ensures
        out@ == b@.subrange(from as int, to as int),
{
    let part = vstd::slice::slice_subrange(b, from, to);
    vstd::slice::slice_to_vec(part)
}

/// Splits the first `n` bytes off a buffer.
pub fn take_front(buffer: &mut Vec<u8>, n: usize) -> (front: Vec<u8>)
    requires
        n <= old(buffer)@.len(),
    ensures
        front@ == old(buffer)@.take(n as int),
        final(buffer)@ == old(buffer)@.skip(n as int),
{
    let tail = buffer.split_off(n);
    let mut front = tail;
    std::mem::swap(buffer, &mut front);
    front
}

/// A number below 2^32 is made up of four bytes.
pub proof fn lemma_digits(y: int)
    requires
        0 <= y < 0x1_0000_0000,
    ensures
        ((y / 16777216) % 256) * 16777216 + ((y / 65536) % 256) * 65536 + ((y / 256) % 256) * 256
            + y % 256 == y,
{
    assert(y / 65536 == (y / 256) / 256);
    assert(y / 16777216 == (y / 65536) / 256);
}

} // verus!
