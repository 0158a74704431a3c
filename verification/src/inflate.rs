//! The DEFLATE engine and the zlib wrapper (RFC 1951 / RFC 1950): stored
//! blocks, fixed- and dynamic-tree Huffman blocks with LZ77 back-references.
use vstd::prelude::*;
use vstd::slice::slice_subrange;
use crate::bits::{sbit, sbits, lemma_sbits_bound, read_bit, read_bits};
use crate::huffman::{
    huffman_tree, huffman_tree_create_lengths, huffman_decode_symbol, hdecode, build_tree_spec, fixed_lit_lengths, fixed_dist_lengths, fixed_lit_lengths_vec,
    fixed_dist_lengths_vec,
};
use crate::types::upng_error;

verus! {

/// The base lengths represented by codes 257-285.
pub open spec fn length_base(i: int) -> int {
    if i == 0 { 3 } else if i == 1 { 4 } else if i == 2 { 5 } else if i == 3 { 6 }
    else if i == 4 { 7 } else if i == 5 { 8 } else if i == 6 { 9 } else if i == 7 { 10 }
    else if i == 8 { 11 } else if i == 9 { 13 } else if i == 10 { 15 } else if i == 11 { 17 }
    else if i == 12 { 19 } else if i == 13 { 23 } else if i == 14 { 27 } else if i == 15 { 31 }
    else if i == 16 { 35 } else if i == 17 { 43 } else if i == 18 { 51 } else if i == 19 { 59 }
    else if i == 20 { 67 } else if i == 21 { 83 } else if i == 22 { 99 } else if i == 23 { 115 }
    else if i == 24 { 131 } else if i == 25 { 163 } else if i == 26 { 195 } else if i == 27 { 227 }
    else { 258 }
}

/// The extra bits used by codes 257-285, added to the base length.
pub open spec fn length_extra(i: int) -> int {
    if i <= 7 { 0 } else if i <= 11 { 1 } else if i <= 15 { 2 } else if i <= 19 { 3 }
    else if i <= 23 { 4 } else if i <= 27 { 5 } else { 0 }
}

/// The base backwards distances of distance codes 0-29.
pub open spec fn distance_base(i: int) -> int {
    if i == 0 { 1 } else if i == 1 { 2 } else if i == 2 { 3 } else if i == 3 { 4 }
    else if i == 4 { 5 } else if i == 5 { 7 } else if i == 6 { 9 } else if i == 7 { 13 }
    else if i == 8 { 17 } else if i == 9 { 25 } else if i == 10 { 33 } else if i == 11 { 49 }
    else if i == 12 { 65 } else if i == 13 { 97 } else if i == 14 { 129 } else if i == 15 { 193 }
    else if i == 16 { 257 } else if i == 17 { 385 } else if i == 18 { 513 } else if i == 19 { 769 }
    else if i == 20 { 1025 } else if i == 21 { 1537 } else if i == 22 { 2049 }
    else if i == 23 { 3073 } else if i == 24 { 4097 } else if i == 25 { 6145 }
    else if i == 26 { 8193 } else if i == 27 { 12289 } else if i == 28 { 16385 }
    else { 24577 }
}

/// The extra bits of distance codes 0-29, added to the base distance.
pub open spec fn distance_extra(i: int) -> int {
    if i <= 3 { 0 } else if i <= 5 { 1 } else if i <= 7 { 2 } else if i <= 9 { 3 }
    else if i <= 11 { 4 } else if i <= 13 { 5 } else if i <= 15 { 6 } else if i <= 17 { 7 }
    else if i <= 19 { 8 } else if i <= 21 { 9 } else if i <= 23 { 10 } else if i <= 25 { 11 }
    else if i <= 27 { 12 } else { 13 }
}

/// The fixed order in which the code-length code lengths are stored.
pub open spec fn clcl(i: int) -> int {
    if i == 0 { 16 } else if i == 1 { 17 } else if i == 2 { 18 } else if i == 3 { 0 }
    else if i == 4 { 8 } else if i == 5 { 7 } else if i == 6 { 9 } else if i == 7 { 6 }
    else if i == 8 { 10 } else if i == 9 { 5 } else if i == 10 { 11 } else if i == 11 { 4 }
    else if i == 12 { 12 } else if i == 13 { 3 } else if i == 14 { 13 } else if i == 15 { 2 }
    else if i == 16 { 14 } else if i == 17 { 1 } else { 15 }
}

/// Extends `out` by `len` bytes copied byte by byte from `dist` bytes back;
/// a self-overlapping copy repeats the trailing period.
pub open spec fn lz_extend(out: Seq<u8>, dist: int, len: int) -> Seq<u8>
    recommends
        1 <= dist <= out.len(),
    decreases len,
{
    if len <= 0 {
        out
    } else {
        lz_extend(out.push(out[out.len() - dist]), dist, len - 1)
    }
}

/// A stored (uncompressed) block: aligns to the next byte boundary, reads
/// `LEN` and `NLEN`, and copies `LEN` literal bytes to the output.
pub open spec fn stored_spec(s: Seq<u8>, bp: int, out: Seq<u8>, outsize: int) -> Option<(Seq<u8>, int)> {
    let p = (bp + 7) / 8;
    if p + 4 > s.len() {
        Option::None
    } else {
        let len = s[p] as int + 256 * (s[p + 1] as int);
        let nlen = s[p + 2] as int + 256 * (s[p + 3] as int);
        if len + nlen != 65535 {
            Option::None
        } else if out.len() + len > outsize {
            Option::None
        } else if p + 4 + len > s.len() {
            Option::None
        } else {
            Option::Some((out + s.subrange(p + 4, p + 4 + len), 8 * (p + 4 + len)))
        }
    }
}

/// One entry of the code-length code lengths, stored in `clcl` order;
/// entries beyond `hclen` stay 0.
pub open spec fn clc_fold(s: Seq<u8>, bp: int, hclen: int, i: int, acc: Seq<u32>) -> Seq<u32>
    decreases 19 - i,
{
    if i < 0 || i >= 19 {
        acc
    } else {
        let v = if i < hclen { sbits(s, bp + 3 * i, 3) as u32 } else { 0u32 };
        clc_fold(s, bp, hclen, i + 1, acc.update(clcl(i), v))
    }
}

/// Repeats `value` in the next `k` code lengths, first the literal/length
/// table then the distance table.
pub open spec fn rep_fill(bl: Seq<u32>, bld: Seq<u32>, hlit: int, i: int, k: int, value: u32) -> (Seq<
    u32,
>, Seq<u32>)
    decreases k,
{
    if k <= 0 {
        (bl, bld)
    } else if i < hlit {
        rep_fill(bl.update(i, value), bld, hlit, i + 1, k - 1, value)
    } else {
        rep_fill(bl, bld.update(i - hlit, value), hlit, i + 1, k - 1, value)
    }
}

/// Decodes the `hlit + hdist` code lengths of a dynamic block from the
/// meta tree `ct`: symbols 0-15 are lengths, 16 repeats the previous
/// length, 17 and 18 emit runs of zeros.
pub open spec fn dyn_lengths(
    ct: Seq<u32>,
    s: Seq<u8>,
    bp: int,
    hlit: int,
    hdist: int,
    i: int,
    bl: Seq<u32>,
    bld: Seq<u32>,
) -> Option<(Seq<u32>, Seq<u32>, int)>
    decreases hlit + hdist - i,
{
    if i >= hlit + hdist {
        Option::Some((bl, bld, bp))
    } else {
        match hdecode(ct, 19, s, bp, 0) {
            Option::None => Option::None,
            Option::Some(cd) => {
                let code = cd.0;
                let bp2 = cd.1;
                if code <= 15 {
                    if i < hlit {
                        dyn_lengths(ct, s, bp2, hlit, hdist, i + 1, bl.update(i, code as u32), bld)
                    } else {
                        dyn_lengths(ct, s, bp2, hlit, hdist, i + 1, bl, bld.update(i - hlit, code as u32))
                    }
                } else if code == 16 {
                    if i == 0 {
                        Option::None
                    } else if bp2 + 2 > 8 * s.len() {
                        Option::None
                    } else {
                        let rep = 3 + sbits(s, bp2, 2) as int;
                        let value = if i - 1 < hlit { bl[i - 1] } else { bld[i - 1 - hlit] };
                        if i + rep > hlit + hdist {
                            Option::None
                        } else {
                            let nx = rep_fill(bl, bld, hlit, i, rep, value);
                            dyn_lengths(ct, s, bp2 + 2, hlit, hdist, i + rep, nx.0, nx.1)
                        }
                    }
                } else if code == 17 {
                    if bp2 + 3 > 8 * s.len() {
                        Option::None
                    } else {
                        let rep = 3 + sbits(s, bp2, 3) as int;
                        if i + rep > hlit + hdist {
                            Option::None
                        } else {
                            let nx = rep_fill(bl, bld, hlit, i, rep, 0u32);
                            dyn_lengths(ct, s, bp2 + 3, hlit, hdist, i + rep, nx.0, nx.1)
                        }
                    }
                } else if code == 18 {
                    if bp2 + 7 > 8 * s.len() {
                        Option::None
                    } else {
                        let rep = 11 + sbits(s, bp2, 7) as int;
                        if i + rep > hlit + hdist {
                            Option::None
                        } else {
                            let nx = rep_fill(bl, bld, hlit, i, rep, 0u32);
                            dyn_lengths(ct, s, bp2 + 7, hlit, hdist, i + rep, nx.0, nx.1)
                        }
                    }
                } else {
                    Option::None
                }
            },
        }
    }
}

/// Parses the header of a dynamic block: `HLIT`, `HDIST`, `HCLEN`, the
/// code-length code, and the two code-length vectors.  The end-of-block
/// symbol (literal 256) must have a nonzero length.
pub open spec fn parse_dynamic(s: Seq<u8>, bp: int) -> Option<(Seq<u32>, Seq<u32>, int)> {
    if bp < 0 || bp + 14 > 8 * s.len() {
        Option::None
    } else {
        let hlit = sbits(s, bp, 5) as int + 257;
        let hdist = sbits(s, bp + 5, 5) as int + 1;
        let hclen = sbits(s, bp + 10, 4) as int + 4;
        let bp1 = bp + 14;
        if bp1 + 3 * hclen > 8 * s.len() {
            Option::None
        } else {
            let clc = clc_fold(s, bp1, hclen, 0, Seq::new(19, |i: int| 0u32));
            let bp2 = bp1 + 3 * hclen;
            match build_tree_spec(clc, 7) {
                Option::None => Option::None,
                Option::Some(ct) => {
                    match dyn_lengths(
                        ct,
                        s,
                        bp2,
                        hlit,
                        hdist,
                        0,
                        Seq::new(288, |i: int| 0u32),
                        Seq::new(32, |i: int| 0u32),
                    ) {
                        Option::None => Option::None,
                        Option::Some(r) => {
                            if r.0[256] == 0 {
                                Option::None
                            } else {
                                Option::Some(r)
                            }
                        },
                    }
                },
            }
        }
    }
}

/// The two decoding tables of a dynamic block, built from the parsed code
/// lengths.
pub open spec fn dynamic_trees(s: Seq<u8>, bp: int) -> Option<(Seq<u32>, Seq<u32>, int)> {
    match parse_dynamic(s, bp) {
        Option::None => Option::None,
        Option::Some(r) => {
            match build_tree_spec(r.0, 15) {
                Option::None => Option::None,
                Option::Some(lt) => {
                    match build_tree_spec(r.1, 15) {
                        Option::None => Option::None,
                        Option::Some(dt) => Option::Some((lt, dt, r.2)),
                    }
                },
            }
        },
    }
}

/// The body of a Huffman-compressed block: repeatedly decodes a symbol
/// from the literal/length table `lt`; literals are emitted, 256 ends the
/// block, 257-285 copy a back-reference whose distance comes from `dt`.
pub open spec fn run_syms(
    lt: Seq<u32>,
    dt: Seq<u32>,
    s: Seq<u8>,
    bp: int,
    out: Seq<u8>,
    outsize: int,
) -> Option<(Seq<u8>, int)>
    decreases 8 * s.len() - bp,
{
    if bp < 0 {
        Option::None
    } else {
        match hdecode(lt, 288, s, bp, 0) {
            Option::None => Option::None,
            Option::Some(cd) => {
                let code = cd.0;
                let bp2 = cd.1;
                if bp2 <= bp || bp2 > 8 * s.len() {
                    // the decoder always advances within the input; never taken
                    Option::None
                } else if code == 256 {
                    Option::Some((out, bp2))
                } else if code < 256 {
                    if out.len() >= outsize {
                        Option::None
                    } else {
                        run_syms(lt, dt, s, bp2, out.push(code as u8), outsize)
                    }
                } else if code <= 285 {
                    let li = code - 257;
                    let nbits = length_extra(li);
                    if bp2 + nbits > 8 * s.len() {
                        Option::None
                    } else {
                        let length = length_base(li) + sbits(s, bp2, nbits) as int;
                        let bp3 = bp2 + nbits;
                        match hdecode(dt, 32, s, bp3, 0) {
                            Option::None => Option::None,
                            Option::Some(dd) => {
                                let dcode = dd.0;
                                let bp4 = dd.1;
                                if bp4 <= bp3 || bp4 > 8 * s.len() {
                                    Option::None
                                } else if dcode > 29 {
                                    // distances 30 and 31 are never used
                                    Option::None
                                } else {
                                    let dbits = distance_extra(dcode);
                                    if bp4 + dbits > 8 * s.len() {
                                        Option::None
                                    } else {
                                        let dist = distance_base(dcode) + sbits(s, bp4, dbits) as int;
                                        let bp5 = bp4 + dbits;
                                        if dist > out.len() {
                                            Option::None
                                        } else if out.len() + length > outsize {
                                            Option::None
                                        } else {
                                            run_syms(lt, dt, s, bp5, lz_extend(out, dist, length), outsize)
                                        }
                                    }
                                }
                            },
                        }
                    }
                } else {
                    // 286 and 287 are not assigned
                    Option::None
                }
            },
        }
    }
}

/// A whole Huffman block (fixed trees for `btype` 1, dynamic for 2).
pub open spec fn huff_block_spec(s: Seq<u8>, bp: int, out: Seq<u8>, outsize: int, btype: int) -> Option<
    (Seq<u8>, int),
> {
    if btype == 1 {
        match build_tree_spec(fixed_lit_lengths(), 15) {
            Option::None => Option::None,
            Option::Some(lt) => {
                match build_tree_spec(fixed_dist_lengths(), 15) {
                    Option::None => Option::None,
                    Option::Some(dt) => run_syms(lt, dt, s, bp, out, outsize),
                }
            },
        }
    } else {
        match dynamic_trees(s, bp) {
            Option::None => Option::None,
            Option::Some(td) => run_syms(td.0, td.1, s, td.2, out, outsize),
        }
    }
}

/// A DEFLATE stream from bit position `bp`: a sequence of blocks, each
/// prefixed by `BFINAL` and `BTYPE`, ending with the block whose `BFINAL`
/// bit is set.
pub open spec fn run_blocks(s: Seq<u8>, bp: int, out: Seq<u8>, outsize: int) -> Option<Seq<u8>>
    decreases 8 * s.len() - bp,
{
    if bp < 0 || bp + 3 > 8 * s.len() {
        Option::None
    } else {
        let bfinal = sbit(s, bp);
        let btype = sbits(s, bp + 1, 2) as int;
        let bp1 = bp + 3;
        let step = if btype == 3 {
            Option::None
        } else if btype == 0 {
            stored_spec(s, bp1, out, outsize)
        } else {
            huff_block_spec(s, bp1, out, outsize, btype)
        };
        match step {
            Option::None => Option::None,
            Option::Some(st) => {
                if bfinal == 1 {
                    Option::Some(st.0)
                } else if st.1 <= bp || st.1 > 8 * s.len() {
                    // every block advances within the input; never taken
                    Option::None
                } else {
                    run_blocks(s, st.1, st.0, outsize)
                }
            },
        }
    }
}

/// A zlib stream: the two-byte CMF/FLG header (deflate method, window at
/// most 32 KiB, header checksum a multiple of 31) followed by the DEFLATE
/// payload.  The Adler-32 trailer is not validated.
pub open spec fn zlib_spec(comp: Seq<u8>, outsize: int) -> Option<Seq<u8>> {
    if comp.len() < 2 {
        Option::None
    } else if ((comp[0] as int) * 256 + (comp[1] as int)) % 31 != 0 {
        Option::None
    } else if (comp[0] & 15) != 8 || ((comp[0] as u32 >> 4) & 15) > 7 {
        Option::None
    } else {
        run_blocks(comp.skip(2), 0, Seq::empty(), outsize)
    }
}


/// The base length of length code `257 + i`.
pub fn length_base_of(i: u32) -> (r: u32)
    requires
        i <= 28,
    ensures
        r as int == length_base(i as int),
        3 <= r <= 258,
{
    match i {
        0 => 3, 1 => 4, 2 => 5, 3 => 6, 4 => 7, 5 => 8, 6 => 9, 7 => 10,
        8 => 11, 9 => 13, 10 => 15, 11 => 17, 12 => 19, 13 => 23, 14 => 27, 15 => 31,
        16 => 35, 17 => 43, 18 => 51, 19 => 59, 20 => 67, 21 => 83, 22 => 99, 23 => 115,
        24 => 131, 25 => 163, 26 => 195, 27 => 227, _ => 258,
    }
}

/// The number of extra bits of length code `257 + i`.
pub fn length_extra_of(i: u32) -> (r: u32)
    requires
        i <= 28,
    ensures
        r as int == length_extra(i as int),
        r <= 5,
{
    if i <= 7 { 0 } else if i <= 11 { 1 } else if i <= 15 { 2 } else if i <= 19 { 3 }
    else if i <= 23 { 4 } else if i <= 27 { 5 } else { 0 }
}

/// The base distance of distance code `i`.
pub fn distance_base_of(i: u32) -> (r: u32)
    requires
        i <= 29,
    ensures
        r as int == distance_base(i as int),
        1 <= r <= 24577,
{
    match i {
        0 => 1, 1 => 2, 2 => 3, 3 => 4, 4 => 5, 5 => 7, 6 => 9, 7 => 13,
        8 => 17, 9 => 25, 10 => 33, 11 => 49, 12 => 65, 13 => 97, 14 => 129, 15 => 193,
        16 => 257, 17 => 385, 18 => 513, 19 => 769, 20 => 1025, 21 => 1537, 22 => 2049,
        23 => 3073, 24 => 4097, 25 => 6145, 26 => 8193, 27 => 12289, 28 => 16385, _ => 24577,
    }
}

/// The number of extra bits of distance code `i`.
pub fn distance_extra_of(i: u32) -> (r: u32)
    requires
        i <= 29,
    ensures
        r as int == distance_extra(i as int),
        r <= 13,
{
    if i <= 3 { 0 } else if i <= 5 { 1 } else if i <= 7 { 2 } else if i <= 9 { 3 }
    else if i <= 11 { 4 } else if i <= 13 { 5 } else if i <= 15 { 6 } else if i <= 17 { 7 }
    else if i <= 19 { 8 } else if i <= 21 { 9 } else if i <= 23 { 10 } else if i <= 25 { 11 }
    else if i <= 27 { 12 } else { 13 }
}

/// The position of entry `i` in the stored order of the code-length code.
pub fn clcl_of(i: usize) -> (r: usize)
    requires
        i < 19,
    ensures
        r as int == clcl(i as int),
        r < 19,
{
    match i {
        0 => 16, 1 => 17, 2 => 18, 3 => 0, 4 => 8, 5 => 7, 6 => 9, 7 => 6,
        8 => 10, 9 => 5, 10 => 11, 11 => 4, 12 => 12, 13 => 3, 14 => 13, 15 => 2,
        16 => 14, 17 => 1, _ => 15,
    }
}

/// Processes a stored block: aligns the cursor to a byte boundary,
/// validates `LEN`/`NLEN`, and copies the literal bytes to the output.
#[verifier::loop_isolation(false)]
pub fn inflate_uncompressed(inp: &[u8], bp: &mut usize, out: &mut Vec<u8>, outsize: usize) -> (r:
    Result<(), upng_error>)
    requires
        inp@.len() <= usize::MAX / 16,
        *old(bp) <= 8 * inp@.len(),
        old(out)@.len() <= outsize,
        outsize <= usize::MAX / 16,
    ensures
        match r {
            Result::Ok(_) => {
                &&& stored_spec(inp@, *old(bp) as int, old(out)@, outsize as int) == Option::Some(
                    (final(out)@, *final(bp) as int),
                )
                &&& *old(bp) < *final(bp) <= 8 * inp@.len()
                &&& final(out)@.len() <= outsize
            },
            Result::Err(e) => {
                &&& e == upng_error::UPNG_EMALFORMED
                &&& stored_spec(inp@, *old(bp) as int, old(out)@, outsize as int) is None
            },
        },
{
    // go to the first byte boundary
    let p: usize = (*bp + 7) / 8;
    if p + 4 > inp.len() {
        return Result::Err(upng_error::UPNG_EMALFORMED);
    }
    // read LEN (2 bytes) and NLEN (2 bytes), little-endian
    let len: usize = inp[p] as usize + 256 * (inp[p + 1] as usize);
    let nlen: usize = inp[p + 2] as usize + 256 * (inp[p + 3] as usize);
    // check that the 16-bit NLEN is really the one's complement of LEN
    if len + nlen != 65535 {
        return Result::Err(upng_error::UPNG_EMALFORMED);
    }
    if out.len() + len > outsize {
        return Result::Err(upng_error::UPNG_EMALFORMED);
    }
    if p + 4 + len > inp.len() {
        return Result::Err(upng_error::UPNG_EMALFORMED);
    }
    // the literal data: LEN bytes are copied to the out buffer
    let mut k: usize = 0;
    while k < len
        invariant
            k <= len,
            out@ == old(out)@ + inp@.subrange(p + 4, p as int + 4 + k as int),
        decreases len - k,
    {
        out.push(inp[p + 4 + k]);
        proof {
            assert(out@ =~= old(out)@ + inp@.subrange(p + 4, p as int + 4 + (k + 1) as int));
        }
        k += 1;
    }
    *bp = 8 * (p + 4 + len);
    Result::Ok(())
}


/// A vector of `n` zero code lengths.
pub fn zero_u32_vec(n: usize) -> (v: Vec<u32>)
    ensures
        v@ == Seq::new(n as nat, |i: int| 0u32),
{
    let mut v: Vec<u32> = Vec::new();
    let mut k: usize = 0;
    while k < n
        invariant
            k <= n,
            v@ =~= Seq::new(k as nat, |i| 0u32),
        decreases n - k,
    {
        v.push(0);
        k += 1;
    }
    proof {
        assert(v@ =~= Seq::new(n as nat, |i: int| 0u32));
    }
    v
}

/// Writes `value` into the next `rep` code lengths, first the
/// literal/length vector, then the distance vector.
#[verifier::loop_isolation(false)]
fn set_lengths_run(
    bitlen: &mut Vec<u32>,
    bitlen_d: &mut Vec<u32>,
    hlit: u32,
    hdist: u32,
    i: &mut u32,
    rep: u32,
    value: u32,
)
    requires
        257 <= hlit <= 288,
        1 <= hdist <= 32,
        old(bitlen)@.len() == 288,
        old(bitlen_d)@.len() == 32,
        *old(i) + rep <= hlit + hdist,
        value <= 15,
    ensures
        rep_fill(old(bitlen)@, old(bitlen_d)@, hlit as int, *old(i) as int, rep as int, value)
            == (final(bitlen)@, final(bitlen_d)@),
        *final(i) == *old(i) + rep,
        final(bitlen)@.len() == 288,
        final(bitlen_d)@.len() == 32,
        forall|j: int| 0 <= j < 288 ==> final(bitlen)@[j] == value || final(bitlen)@[j] == old(
            bitlen,
        )@[j],
        forall|j: int| 0 <= j < 32 ==> final(bitlen_d)@[j] == value || final(bitlen_d)@[j] == old(
            bitlen_d,
        )@[j],
{
    let mut k: u32 = 0;
    while k < rep
        invariant
            k <= rep,
            *i as int == *old(i) + k,
            bitlen@.len() == 288,
            bitlen_d@.len() == 32,
            forall|j: int| 0 <= j < 288 ==> bitlen@[j] == value || bitlen@[j] == old(bitlen)@[j],
            forall|j: int| 0 <= j < 32 ==> bitlen_d@[j] == value || bitlen_d@[j] == old(bitlen_d)@[j],
            rep_fill(bitlen@, bitlen_d@, hlit as int, *i as int, rep - k, value) == rep_fill(
                old(bitlen)@,
                old(bitlen_d)@,
                hlit as int,
                *old(i) as int,
                rep as int,
                value,
            ),
        decreases rep - k,
    {
        if *i < hlit {
            bitlen.set(*i as usize, value);
        } else {
            bitlen_d.set((*i - hlit) as usize, value);
        }
        *i += 1;
        k += 1;
    }
}

/// Reads the header of a dynamic block and builds its literal/length and
/// distance trees, themselves Huffman-compressed with the code-length code.
#[verifier::loop_isolation(false)]
#[verifier::rlimit(50)]
pub fn get_tree_inflate_dynamic(inp: &[u8], bp: &mut usize) -> (r: Result<
    (huffman_tree, huffman_tree),
    upng_error,
>)
    requires
        inp@.len() <= usize::MAX / 16,
        *old(bp) <= 8 * inp@.len(),
    ensures
        match r {
            Result::Ok(td) => {
                &&& dynamic_trees(inp@, *old(bp) as int) == Option::Some(
                    (td.0.tree2d@, td.1.tree2d@, *final(bp) as int),
                )
                &&& td.0.wf() && td.0.numcodes == 288
                &&& td.1.wf() && td.1.numcodes == 32
                &&& *old(bp) < *final(bp) <= 8 * inp@.len()
            },
            Result::Err(e) => {
                &&& e == upng_error::UPNG_EMALFORMED
                &&& dynamic_trees(inp@, *old(bp) as int) is None
            },
        },
{
    let ghost bp0 = *bp as int;
    if *bp + 14 > 8 * inp.len() {
        return Result::Err(upng_error::UPNG_EMALFORMED);
    }
    proof {
        lemma_sbits_bound(inp@, bp0, 5);
        lemma_sbits_bound(inp@, bp0 + 5, 5);
        lemma_sbits_bound(inp@, bp0 + 10, 4);
    }
    // the counts come with their spec offsets already added
    let hlit: u32 = read_bits(inp, *bp, 5) + 257;
    let hdist: u32 = read_bits(inp, *bp + 5, 5) + 1;
    let hclen: u32 = read_bits(inp, *bp + 10, 4) + 4;
    *bp += 14;
    let ghost bp1 = *bp as int;
    if *bp + 3 * (hclen as usize) > 8 * inp.len() {
        return Result::Err(upng_error::UPNG_EMALFORMED);
    }
    // read the code-length code lengths, in their fixed stored order
    let mut codelengthcode: Vec<u32> = zero_u32_vec(19);
    let ghost clc0 = codelengthcode@;
    let mut i: usize = 0;
    while i < 19
        invariant
            i <= 19,
            codelengthcode@.len() == 19,
            forall|j: int| 0 <= j < 19 ==> codelengthcode@[j] <= 7,
            clc_fold(inp@, bp1, hclen as int, i as int, codelengthcode@) == clc_fold(
                inp@,
                bp1,
                hclen as int,
                0,
                clc0,
            ),
        decreases 19 - i,
    {
        let pos = clcl_of(i);
        if (i as u32) < hclen {
            proof {
                lemma_sbits_bound(inp@, bp1 + 3 * i, 3);
            }
            let v = read_bits(inp, *bp + 3 * i, 3);
            codelengthcode.set(pos, v);
        } else {
            codelengthcode.set(pos, 0);
        }
        i += 1;
    }
    *bp += 3 * (hclen as usize);
    let ghost bp2 = *bp as int;
    proof {
        assert(codelengthcode@ == clc_fold(inp@, bp1, hclen as int, 0, Seq::new(19, |i: int| 0u32)));
    }

    let codelengthcodetree = match huffman_tree_create_lengths(&codelengthcode, 7) {
        Result::Ok(t) => t,
        Result::Err(e) => {
            return Result::Err(e);
        },
    };

    // now use this tree to read the lengths of the two real trees
    let mut bitlen: Vec<u32> = zero_u32_vec(288);
    let mut bitlen_d: Vec<u32> = zero_u32_vec(32);
    let ghost bl0 = bitlen@;
    let ghost bld0 = bitlen_d@;
    let total: u32 = hlit + hdist;
    let ghost ct = codelengthcodetree.tree2d@;
    let mut i: u32 = 0;
    while i < total
        invariant
            i <= total,
            total == hlit + hdist,
            257 <= hlit <= 288,
            1 <= hdist <= 32,
            bitlen@.len() == 288,
            bitlen_d@.len() == 32,
            forall|j: int| 0 <= j < 288 ==> bitlen@[j] <= 15,
            forall|j: int| 0 <= j < 32 ==> bitlen_d@[j] <= 15,
            codelengthcodetree.wf(),
            codelengthcodetree.numcodes == 19,
            ct == codelengthcodetree.tree2d@,
            bp0 + 14 <= *bp as int <= 8 * inp@.len(),
            dyn_lengths(ct, inp@, *bp as int, hlit as int, hdist as int, i as int, bitlen@, bitlen_d@)
                == dyn_lengths(ct, inp@, bp2, hlit as int, hdist as int, 0, bl0, bld0),
        decreases total - i,
    {
        let code = match huffman_decode_symbol(inp, bp, &codelengthcodetree) {
            Result::Ok(c) => c,
            Result::Err(e) => {
                return Result::Err(e);
            },
        };
        if code <= 15 {
            // a literal code length
            if i < hlit {
                bitlen.set(i as usize, code);
            } else {
                bitlen_d.set((i - hlit) as usize, code);
            }
            i += 1;
        } else if code == 16 {
            // repeat the previous length 3 to 6 times
            if i == 0 {
                return Result::Err(upng_error::UPNG_EMALFORMED);
            }
            if *bp + 2 > 8 * inp.len() {
                return Result::Err(upng_error::UPNG_EMALFORMED);
            }
            proof {
                lemma_sbits_bound(inp@, *bp as int, 2);
            }
            let rep: u32 = 3 + read_bits(inp, *bp, 2);
            *bp += 2;
            let value: u32 = if i - 1 < hlit {
                bitlen[(i - 1) as usize]
            } else {
                bitlen_d[(i - 1 - hlit) as usize]
            };
            if i + rep > total {
                return Result::Err(upng_error::UPNG_EMALFORMED);
            }
            set_lengths_run(&mut bitlen, &mut bitlen_d, hlit, hdist, &mut i, rep, value);
        } else if code == 17 {
            // repeat a zero length 3 to 10 times
            if *bp + 3 > 8 * inp.len() {
                return Result::Err(upng_error::UPNG_EMALFORMED);
            }
            proof {
                lemma_sbits_bound(inp@, *bp as int, 3);
            }
            let rep: u32 = 3 + read_bits(inp, *bp, 3);
            *bp += 3;
            if i + rep > total {
                return Result::Err(upng_error::UPNG_EMALFORMED);
            }
            set_lengths_run(&mut bitlen, &mut bitlen_d, hlit, hdist, &mut i, rep, 0);
        } else if code == 18 {
            // repeat a zero length 11 to 138 times
            if *bp + 7 > 8 * inp.len() {
                return Result::Err(upng_error::UPNG_EMALFORMED);
            }
            proof {
                lemma_sbits_bound(inp@, *bp as int, 7);
            }
            let rep: u32 = 11 + read_bits(inp, *bp, 7);
            *bp += 7;
            if i + rep > total {
                return Result::Err(upng_error::UPNG_EMALFORMED);
            }
            set_lengths_run(&mut bitlen, &mut bitlen_d, hlit, hdist, &mut i, rep, 0);
        } else {
            // an unassigned code-length symbol
            return Result::Err(upng_error::UPNG_EMALFORMED);
        }
    }
    proof {
        assert(dyn_lengths(ct, inp@, *bp as int, hlit as int, hdist as int, total as int, bitlen@, bitlen_d@)
            == Option::Some((bitlen@, bitlen_d@, *bp as int)));
    }
    // the length of the end code 256 must be larger than 0
    if bitlen[256] == 0 {
        return Result::Err(upng_error::UPNG_EMALFORMED);
    }
    let codetree = match huffman_tree_create_lengths(&bitlen, 15) {
        Result::Ok(t) => t,
        Result::Err(e) => {
            return Result::Err(e);
        },
    };
    let codetree_d = match huffman_tree_create_lengths(&bitlen_d, 15) {
        Result::Ok(t) => t,
        Result::Err(e) => {
            return Result::Err(e);
        },
    };
    proof {
        assert(parse_dynamic(inp@, bp0) == Option::Some((bitlen@, bitlen_d@, *bp as int)));
        assert(dynamic_trees(inp@, bp0) == Option::Some(
            (codetree.tree2d@, codetree_d.tree2d@, *bp as int),
        ));
    }
    Result::Ok((codetree, codetree_d))
}

/// Inflates one Huffman-compressed block (`btype` 1 for the fixed trees,
/// 2 for dynamic trees), decoding symbols until the end code.
#[verifier::loop_isolation(false)]
pub fn inflate_huffman(
    inp: &[u8],
    bp: &mut usize,
    out: &mut Vec<u8>,
    outsize: usize,
    btype: u32,
) -> (r: Result<(), upng_error>)
    requires
        inp@.len() <= usize::MAX / 16,
        *old(bp) <= 8 * inp@.len(),
        old(out)@.len() <= outsize,
        outsize <= usize::MAX / 16,
        btype == 1 || btype == 2,
    ensures
        match r {
            Result::Ok(_) => {
                &&& huff_block_spec(inp@, *old(bp) as int, old(out)@, outsize as int, btype as int)
                    == Option::Some((final(out)@, *final(bp) as int))
                &&& *old(bp) < *final(bp) <= 8 * inp@.len()
                &&& final(out)@.len() <= outsize
            },
            Result::Err(e) => {
                &&& e == upng_error::UPNG_EMALFORMED
                &&& huff_block_spec(inp@, *old(bp) as int, old(out)@, outsize as int, btype as int)
                    is None
            },
        },
{
    let codetree: huffman_tree;
    let codetree_d: huffman_tree;
    if btype == 1 {
        // the fixed trees
        let ll = fixed_lit_lengths_vec();
        codetree = match huffman_tree_create_lengths(&ll, 15) {
            Result::Ok(t) => t,
            Result::Err(e) => {
                return Result::Err(e);
            },
        };
        let dl = fixed_dist_lengths_vec();
        codetree_d = match huffman_tree_create_lengths(&dl, 15) {
            Result::Ok(t) => t,
            Result::Err(e) => {
                return Result::Err(e);
            },
        };
    } else {
        // dynamic trees
        let td = match get_tree_inflate_dynamic(inp, bp) {
            Result::Ok(td) => td,
            Result::Err(e) => {
                return Result::Err(e);
            },
        };
        codetree = td.0;
        codetree_d = td.1;
    }
    let ghost lt = codetree.tree2d@;
    let ghost dt = codetree_d.tree2d@;
    let ghost bps = *bp as int;
    let ghost outs = out@;
    loop
        invariant
            codetree.wf(),
            codetree.numcodes == 288,
            codetree_d.wf(),
            codetree_d.numcodes == 32,
            lt == codetree.tree2d@,
            dt == codetree_d.tree2d@,
            *old(bp) <= *bp <= 8 * inp@.len(),
            out@.len() <= outsize,
            run_syms(lt, dt, inp@, *bp as int, out@, outsize as int) == run_syms(
                lt,
                dt,
                inp@,
                bps,
                outs,
                outsize as int,
            ),
        decreases 8 * inp@.len() - *bp,
    {
        let code = match huffman_decode_symbol(inp, bp, &codetree) {
            Result::Ok(c) => c,
            Result::Err(e) => {
                return Result::Err(e);
            },
        };
        if code == 256 {
            // the end code
            return Result::Ok(());
        } else if code <= 255 {
            // a literal symbol
            if out.len() >= outsize {
                return Result::Err(upng_error::UPNG_EMALFORMED);
            }
            out.push(code as u8);
        } else if code <= 285 {
            // a length code: base length plus extra bits
            let nbits = length_extra_of(code - 257);
            if *bp + nbits as usize > 8 * inp.len() {
                return Result::Err(upng_error::UPNG_EMALFORMED);
            }
            proof {
                lemma_sbits_bound(inp@, *bp as int, nbits as int);
            }
            let length: u32 = length_base_of(code - 257) + read_bits(inp, *bp, nbits as usize);
            *bp += nbits as usize;
            // the distance code with its own extra bits
            let dcode = match huffman_decode_symbol(inp, bp, &codetree_d) {
                Result::Ok(c) => c,
                Result::Err(e) => {
                    return Result::Err(e);
                },
            };
            if dcode > 29 {
                // distances 30 and 31 are never used
                return Result::Err(upng_error::UPNG_EMALFORMED);
            }
            let dbits = distance_extra_of(dcode);
            if *bp + dbits as usize > 8 * inp.len() {
                return Result::Err(upng_error::UPNG_EMALFORMED);
            }
            proof {
                lemma_sbits_bound(inp@, *bp as int, dbits as int);
            }
            let dist: u32 = distance_base_of(dcode) + read_bits(inp, *bp, dbits as usize);
            *bp += dbits as usize;
            if dist as usize > out.len() {
                // the back-reference would start before the output
                return Result::Err(upng_error::UPNG_EMALFORMED);
            }
            if out.len() + length as usize > outsize {
                return Result::Err(upng_error::UPNG_EMALFORMED);
            }
            // copy byte by byte, so that overlapping runs expand
            let ghost out_e = out@;
            let mut k: u32 = 0;
            while k < length
                invariant
                    k <= length,
                    1 <= dist,
                    dist as int <= out@.len(),
                    out@.len() == out_e.len() + k,
                    out@.len() + (length - k) <= outsize,
                    lz_extend(out@, dist as int, (length - k) as int) == lz_extend(
                        out_e,
                        dist as int,
                        length as int,
                    ),
                decreases length - k,
            {
                let b = out[out.len() - dist as usize];
                out.push(b);
                k += 1;
            }
        } else {
            // 286 and 287 are not assigned
            return Result::Err(upng_error::UPNG_EMALFORMED);
        }
    }
}

/// Inflates a DEFLATE stream: reads block headers and dispatches on the
/// block type until the final block has been processed.
#[verifier::loop_isolation(false)]
#[verifier::rlimit(50)]
pub fn uz_inflate_data(inp: &[u8], outsize: usize) -> (r: Result<Vec<u8>, upng_error>)
    requires
        inp@.len() <= usize::MAX / 16,
        outsize <= usize::MAX / 16,
    ensures
        match r {
            Result::Ok(v) => {
                &&& run_blocks(inp@, 0, Seq::empty(), outsize as int) == Option::Some(v@)
                &&& v@.len() <= outsize
            },
            Result::Err(e) => {
                &&& e == upng_error::UPNG_EMALFORMED
                &&& run_blocks(inp@, 0, Seq::empty(), outsize as int) is None
            },
        },
{
    let mut bp: usize = 0;
    let mut out: Vec<u8> = Vec::new();
    loop
        invariant
            bp <= 8 * inp@.len(),
            out@.len() <= outsize,
            run_blocks(inp@, bp as int, out@, outsize as int) == run_blocks(
                inp@,
                0,
                Seq::empty(),
                outsize as int,
            ),
        decreases 8 * inp@.len() - bp,
    {
        // the three block control bits must lie within the buffer
        if bp + 3 > 8 * inp.len() {
            return Result::Err(upng_error::UPNG_EMALFORMED);
        }
        let done = read_bit(inp, bp);
        let b0 = read_bit(inp, bp + 1);
        let b1 = read_bit(inp, bp + 2);
        let btype: u32 = b0 as u32 + 2 * (b1 as u32);
        proof {
            assert(sbits(inp@, bp + 3, 0) == 0);
            assert(sbits(inp@, bp + 2, 1) == sbit(inp@, bp + 2));
            assert(btype as int == sbits(inp@, bp as int + 1, 2));
        }
        bp += 3;
        if btype == 3 {
            // reserved block type
            return Result::Err(upng_error::UPNG_EMALFORMED);
        } else if btype == 0 {
            // no compression
            match inflate_uncompressed(inp, &mut bp, &mut out, outsize) {
                Result::Ok(_) => {},
                Result::Err(e) => {
                    return Result::Err(e);
                },
            }
        } else {
            match inflate_huffman(inp, &mut bp, &mut out, outsize, btype) {
                Result::Ok(_) => {},
                Result::Err(e) => {
                    return Result::Err(e);
                },
            }
        }
        if done == 1 {
            return Result::Ok(out);
        }
    }
}

/// Validates the two-byte zlib header and inflates the payload.
pub fn uz_inflate(comp: &[u8], outsize: usize) -> (r: Result<Vec<u8>, upng_error>)
    requires
        comp@.len() <= usize::MAX / 16,
        outsize <= usize::MAX / 16,
    ensures
        match r {
            Result::Ok(v) => {
                &&& zlib_spec(comp@, outsize as int) == Option::Some(v@)
                &&& v@.len() <= outsize
            },
            Result::Err(e) => {
                &&& e == upng_error::UPNG_EMALFORMED
                &&& zlib_spec(comp@, outsize as int) is None
            },
        },
{
    // two bytes are required for the zlib data header
    if comp.len() < 2 {
        return Result::Err(upng_error::UPNG_EMALFORMED);
    }
    // 256 * CMF + FLG must be a multiple of 31
    if ((comp[0] as u32) * 256 + (comp[1] as u32)) % 31 != 0 {
        return Result::Err(upng_error::UPNG_EMALFORMED);
    }
    // only compression method 8 with a window of at most 32 KiB is allowed
    if (comp[0] & 15) != 8 || ((comp[0] as u32 >> 4u32) & 15) > 7 {
        return Result::Err(upng_error::UPNG_EMALFORMED);
    }
    let payload = slice_subrange(comp, 2, comp.len());
    proof {
        assert(payload@ =~= comp@.skip(2));
    }
    uz_inflate_data(payload, outsize)
}

/// A stored block whose `LEN` and `NLEN` fields are not one's complements
/// of each other is malformed, whatever else the stream holds.
pub proof fn lemma_stored_mismatch(s: Seq<u8>, bp: int, out: Seq<u8>, outsize: int)
    requires
        ((bp + 7) / 8 + 4) <= s.len(),
        (s[(bp + 7) / 8] as int + 256 * (s[(bp + 7) / 8 + 1] as int)) + (s[(bp + 7) / 8 + 2] as int
            + 256 * (s[(bp + 7) / 8 + 3] as int)) != 65535,
    ensures
        stored_spec(s, bp, out, outsize) is None,
{
}

/// A dynamic block whose parsed code lengths give the end-of-block symbol
/// (literal 256) length zero is malformed: parsing never returns such a
/// vector.
pub proof fn lemma_dynamic_end_code(s: Seq<u8>, bp: int)
    ensures
        parse_dynamic(s, bp) matches Option::Some(r) ==> r.0[256] != 0,
{
}

/// A distance code of 30 or 31 aborts the block as malformed, whatever
/// follows it in the stream.
pub proof fn lemma_distance_code_invalid(
    lt: Seq<u32>,
    dt: Seq<u32>,
    s: Seq<u8>,
    bp: int,
    out: Seq<u8>,
    outsize: int,
)
    requires
        0 <= bp,
        hdecode(lt, 288, s, bp, 0) matches Option::Some(cd) && 257 <= cd.0 <= 285 && bp < cd.1 <= 8
            * s.len() && ({
            let bp3 = cd.1 + length_extra(cd.0 - 257);
            bp3 <= 8 * s.len() && (hdecode(dt, 32, s, bp3, 0) matches Option::Some(dd) && dd.0 > 29
                && bp3 < dd.1 <= 8 * s.len())
        }),
    ensures
        run_syms(lt, dt, s, bp, out, outsize) is None,
{
}

} // verus!
