//! The Internet checksum: the one's complement of the one's complement sum of
//! the 16-bit words of some bytes.

use vstd::prelude::*;

verus! {

/// The `i`th 16-bit word; past the end the bytes count as zero.
pub open spec fn word(b: Seq<u8>, i: int) -> int {
    (if 2 * i < b.len() {
        b[2 * i] * 256
    } else {
        0
    }) + (if 2 * i + 1 < b.len() {
        b[2 * i + 1] as int
    } else {
        0
    })
}

/// One's complement addition of 16-bit words: a carry out comes back in.
pub open spec fn ones_add(x: int, y: int) -> int {
    if x + y > 0xffff {
        x + y - 0xffff
    } else {
        x + y
    }
}

/// The one's complement sum of the first `n` words.
pub open spec fn ones_sum(b: Seq<u8>, n: nat) -> int
    decreases n,
{
    if n == 0 {
        0
    } else {
        ones_add(ones_sum(b, (n - 1) as nat), word(b, n - 1))
    }
}

/// How many words the bytes fill, the last one perhaps padded.
pub open spec fn words(b: Seq<u8>) -> nat {
    ((b.len() + 1) / 2) as nat
}

/// The Internet checksum of the bytes.
pub open spec fn internet_checksum(b: Seq<u8>) -> int {
    0xffff - ones_sum(b, words(b))
}

/// The sum of words is a word.
pub proof fn lemma_ones_sum_range(b: Seq<u8>, n: nat)
    ensures
        0 <= ones_sum(b, n) <= 0xffff,
    decreases n,
{
    if n > 0 {
        lemma_ones_sum_range(b, (n - 1) as nat);
    }
}

/// Computes the Internet checksum.
pub fn checksum(b: &[u8]) -> (sum: u16)
    ensures
        sum == internet_checksum(b@),
{
    let mut total: u32 = 0;
    let len: usize = b.len();
    let n: usize = len / 2 + len % 2;
    let mut i: usize = 0;
    while i < n
        invariant
            len == b@.len(),
            n == words(b@),
            i <= n,
            total == ones_sum(b@, i as nat),
            total <= 0xffff,
        decreases n - i,
    {
        let high: u32 = b[2 * i] as u32;
        let low: u32 = if 2 * i + 1 < len {
            b[2 * i + 1] as u32
        } else {
            0
        };
        let sum: u32 = total + high * 256 + low;
        assert(word(b@, i as int) == high * 256 + low);
        total = if sum > 0xffff {
            sum - 0xffff
        } else {
            sum
        };
        i += 1;
    }
    proof {
        lemma_ones_sum_range(b@, words(b@));
    }
    (0xffff - total) as u16
}

/// The plain sum of the first `n` words.
spec fn plain_sum(b: Seq<u8>, n: nat) -> int
    decreases n,
{
    if n == 0 {
        0
    } else {
        plain_sum(b, (n - 1) as nat) + word(b, n - 1)
    }
}

proof fn lemma_ones_sum_is_plain(b: Seq<u8>, n: nat)
    ensures
        0 <= ones_sum(b, n) <= 0xffff,
        ones_sum(b, n) % 0xffff == plain_sum(b, n) % 0xffff,
        0 <= plain_sum(b, n),
        ones_sum(b, n) == 0 <==> plain_sum(b, n) == 0,
    decreases n,
{
    if n > 0 {
        lemma_ones_sum_is_plain(b, (n - 1) as nat);
    }
}

proof fn lemma_plain_sum_with_word(b: Seq<u8>, filled: Seq<u8>, k: int, n: nat)
    requires
        filled.len() == b.len(),
        0 <= k,
        forall|i: int| 0 <= i && i != k ==> #[trigger] word(filled, i) == word(b, i),
        word(b, k) == 0,
    ensures
        plain_sum(filled, n) == plain_sum(b, n) + if k < n {
            word(filled, k)
        } else {
            0
        },
    decreases n,
{
    if n > 0 {
        lemma_plain_sum_with_word(b, filled, k, (n - 1) as nat);
        if n - 1 != k {
            assert(word(filled, n - 1) == word(b, n - 1));
        }
    }
}

proof fn lemma_some_word_counts(b: Seq<u8>, j: int, n: nat)
    requires
        0 <= j < n,
        word(b, j) > 0,
    ensures
        plain_sum(b, n) > 0,
    decreases n,
{
    lemma_ones_sum_is_plain(b, (n - 1) as nat);
    if j < n - 1 {
        lemma_some_word_counts(b, j, (n - 1) as nat);
    }
}

/// A receiver's test: where the checksum of some bytes, taken while its own
/// word was zero, is filled in there, the checksum of the whole is zero,
/// unless all bytes were zero. A checksum of zero may be filled in as all ones.
pub proof fn law_checksum_cancels(b: Seq<u8>, filled: Seq<u8>, k: int, j: int)
    requires
        filled.len() == b.len(),
        0 <= k < words(b),
        forall|i: int| 0 <= i && i != k ==> #[trigger] word(filled, i) == word(b, i),
        word(b, k) == 0,
        word(filled, k) == internet_checksum(b) || (internet_checksum(b) == 0 && word(filled, k)
            == 0xffff),
        0 <= j < words(b),
        word(b, j) > 0,
    ensures
        internet_checksum(filled) == 0,
{
    let n = words(b);
    lemma_ones_sum_is_plain(b, n);
    lemma_ones_sum_is_plain(filled, n);
    lemma_plain_sum_with_word(b, filled, k, n);
    lemma_some_word_counts(b, j, n);
    let s = ones_sum(b, n);
    let p = plain_sum(b, n);
    assert((p + (0xffff - s)) % 0xffff == 0) by (nonlinear_arith)
        requires
            s % 0xffff == p % 0xffff,
    ;
    if word(filled, k) != internet_checksum(b) {
        assert((p + 0xffff) % 0xffff == 0) by (nonlinear_arith)
            requires
                p % 0xffff == 0,
        ;
    }
}

} // verus!
