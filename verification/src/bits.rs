//! LSB-first bit reader over a byte slice, the basis of DEFLATE decoding.
use vstd::prelude::*;

verus! {

/// The bit at bit index `p` of the stream: byte `p / 8`, bit `p % 8`,
/// LSB-first within a byte.
pub open spec fn sbit(s: Seq<u8>, p: int) -> u32
    recommends
        0 <= p,
        p / 8 < s.len(),
{
    ((s[p / 8] as u32) >> ((p % 8) as u32)) & 1
}

/// The value assembled from `n` bits read LSB-first starting at bit index
/// `p`: bit `i` of the result is the `i`-th bit read.
pub open spec fn sbits(s: Seq<u8>, p: int, n: int) -> nat
    decreases n,
{
    if n <= 0 {
        0
    } else {
        (sbit(s, p) + 2 * sbits(s, p + 1, n - 1)) as nat
    }
}

/// A single masked bit is 0 or 1.
pub proof fn lemma_bit01(x: u32)
    by (bit_vector)
    ensures
        (x & 1) < 2,
{
}

/// An `n`-bit value lies below `2^n`; stated for every width DEFLATE reads.
pub proof fn lemma_sbits_bound(s: Seq<u8>, p: int, n: int)
    ensures
        0 <= sbits(s, p, n),
        n <= 0 ==> sbits(s, p, n) < 1,
        n <= 1 ==> sbits(s, p, n) < 2,
        n <= 2 ==> sbits(s, p, n) < 4,
        n <= 3 ==> sbits(s, p, n) < 8,
        n <= 4 ==> sbits(s, p, n) < 16,
        n <= 5 ==> sbits(s, p, n) < 32,
        n <= 6 ==> sbits(s, p, n) < 64,
        n <= 7 ==> sbits(s, p, n) < 128,
        n <= 8 ==> sbits(s, p, n) < 256,
        n <= 9 ==> sbits(s, p, n) < 512,
        n <= 10 ==> sbits(s, p, n) < 1024,
        n <= 11 ==> sbits(s, p, n) < 2048,
        n <= 12 ==> sbits(s, p, n) < 4096,
        n <= 13 ==> sbits(s, p, n) < 8192,
        n <= 14 ==> sbits(s, p, n) < 16384,
        n <= 15 ==> sbits(s, p, n) < 32768,
        n <= 16 ==> sbits(s, p, n) < 65536,
    decreases n,
{
    if n <= 0 {
    } else {
        lemma_bit01((s[p / 8] as u32) >> ((p % 8) as u32));
        lemma_sbits_bound(s, p + 1, n - 1);
    }
}

/// Reads the bit at bit index `bp`.
pub fn read_bit(bitstream: &[u8], bp: usize) -> (r: u8)
    requires
        bp / 8 < bitstream@.len(),
    ensures
        r as u32 == sbit(bitstream@, bp as int),
        r < 2,
{
    let byte = bitstream[bp / 8];
    let r = ((byte as u32) >> ((bp % 8) as u32)) & 1;
    proof {
        lemma_bit01((byte as u32) >> ((bp % 8) as u32));
        assert(bp as int / 8 == (bp / 8) as int);
        assert(bp as int % 8 == (bp % 8) as int);
    }
    r as u8
}

/// Reads `nbits` bits LSB-first starting at bit index `bp` and assembles
/// them into an unsigned integer.
pub fn read_bits(bitstream: &[u8], bp: usize, nbits: usize) -> (r: u32)
    requires
        nbits <= 16,
        bp + nbits <= 8 * bitstream@.len(),
        bitstream@.len() <= usize::MAX / 16,
    ensures
        r as int == sbits(bitstream@, bp as int, nbits as int),
        r < 65536,
    decreases nbits,
{
    proof {
        lemma_sbits_bound(bitstream@, bp as int, nbits as int);
    }
    if nbits == 0 {
        0
    } else {
        let b = read_bit(bitstream, bp);
        let rest = read_bits(bitstream, bp + 1, nbits - 1);
        b as u32 + 2 * rest
    }
}

} // verus!
