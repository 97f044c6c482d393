//! Sequence numbers: 32-bit positions in a byte stream, which wrap around.

use vstd::prelude::*;

verus! {

/// How many sequence numbers there are.
pub const MODULUS: u64 = 0x1_0000_0000;

/// The number of steps from `a` forward to `b`.
pub open spec fn distance(a: u32, b: u32) -> int {
    (b - a) % (MODULUS as int)
}

/// The sequence number `n` steps after `a`.
pub open spec fn advance(a: u32, n: int) -> u32 {
    ((a + n) % (MODULUS as int)) as u32
}

/// The sequence number of the stream position `n`.
pub open spec fn at(n: int) -> u32 {
    (n % (MODULUS as int)) as u32
}

/// `a` comes before `b`: `b` lies in the half circle ahead of `a`.
pub open spec fn before(a: u32, b: u32) -> bool {
    0 < distance(a, b) < 0x8000_0000
}

/// `a` comes before `b`, or is `b`.
pub open spec fn not_after(a: u32, b: u32) -> bool {
    distance(a, b) < 0x8000_0000
}

/// Returns true if `a < b` in TCP sequence-number space.
pub fn seq_lt(a: u32, b: u32) -> (r: bool)
    ensures
        r == before(a, b),
{
    let d: u32 = b.wrapping_sub(a);
    assert(((d as i32) > 0) == (0 < d && d < 0x8000_0000)) by (bit_vector);
    (d as i32) > 0
}

/// Returns true if `a <= b` in TCP sequence-number space.
pub fn seq_lte(a: u32, b: u32) -> (r: bool)
    ensures
        r == not_after(a, b),
{
    let d: u32 = b.wrapping_sub(a);
    assert(((d as i32) >= 0) == (d < 0x8000_0000)) by (bit_vector);
    (d as i32) >= 0
}

/// Steps `a` forward by a number of bytes.
pub fn seq_add(a: u32, n: usize) -> (r: u32)
    ensures
        r == advance(a, n as int),
{
    let wide: u64 = n as u64;
    let low: u32 = (wide % MODULUS) as u32;
    a.wrapping_add(low)
}

/// No sequence number comes before itself, and of two different ones at most
/// one comes before the other.
pub proof fn law_before_is_strict(a: u32, b: u32)
    ensures
        !before(a, a),
        before(a, b) ==> !before(b, a),
        not_after(a, b) <==> before(a, b) || a == b,
{
}

/// The order depends only on the difference: stepping both numbers forward by
/// the same amount, past the wrap or not, changes nothing.
pub proof fn law_order_is_translation_invariant(a: u32, b: u32, n: int)
    ensures
        before(advance(a, n), advance(b, n)) == before(a, b),
        not_after(advance(a, n), advance(b, n)) == not_after(a, b),
{
}

/// Positions of an unbounded stream that are less than half the circle apart
/// are ordered as their sequence numbers are.
pub proof fn law_order_follows_the_stream(x: int, y: int)
    requires
        -0x8000_0000 < y - x < 0x8000_0000,
    ensures
        before(at(x), at(y)) == (x < y),
        not_after(at(x), at(y)) == (x <= y),
        at(x) == at(y) ==> x == y,
{
}

/// Stepping forward adds up.
pub proof fn law_advance_adds(a: u32, m: int, n: int)
    ensures
        advance(advance(a, m), n) == advance(a, m + n),
        advance(a, 0) == a,
{
}

/// The sequence number of a later position is reached by stepping forward.
pub proof fn law_advance_follows_the_stream(x: int, n: int)
    ensures
        advance(at(x), n) == at(x + n),
{
}

} // verus!
