//! The scanline reconstructor (PNG filter method 0) and the sub-byte
//! unpacker that strips end-of-scanline padding bits.
use vstd::prelude::*;
use vstd::slice::slice_subrange;
use crate::types::upng_error;

verus! {

/// The Paeth predictor of PNG filter type 4: whichever of `a`, `b`, `c`
/// lies closest to `a + b - c`, ties resolved in that order.
pub open spec fn paeth(a: int, b: int, c: int) -> int {
    let p = a + b - c;
    let pa = if p > a { p - a } else { a - p };
    let pb = if p > b { p - b } else { b - p };
    let pc = if p > c { p - c } else { c - p };
    if pa <= pb && pa <= pc {
        a
    } else if pb <= pc {
        b
    } else {
        c
    }
}

/// Byte addition modulo 256.
pub open spec fn add8(x: int, y: int) -> u8 {
    ((x + y) % 256) as u8
}

/// The reconstructed byte at offset `i` of a scanline: the filtered byte
/// plus the predictor of filter type `ft`, where `a` is the reconstructed
/// byte one pixel to the left, `b` the byte above (from `prev`, absent on
/// the first row) and `c` the byte above-left.
pub open spec fn recon_byte(ft: int, scan: Seq<u8>, prev: Option<Seq<u8>>, bw: int, i: int) -> u8
    decreases i,
{
    let a: int = if bw >= 1 && i >= bw {
        recon_byte(ft, scan, prev, bw, i - bw) as int
    } else {
        0
    };
    let b: int = match prev {
        Option::Some(p) => p[i] as int,
        Option::None => 0,
    };
    let c: int = match prev {
        Option::Some(p) => if i >= bw { p[i - bw] as int } else { 0 },
        Option::None => 0,
    };
    if ft == 0 {
        scan[i]
    } else if ft == 1 {
        add8(scan[i] as int, a)
    } else if ft == 2 {
        add8(scan[i] as int, b)
    } else if ft == 3 {
        add8(scan[i] as int, (a + b) / 2)
    } else {
        add8(scan[i] as int, paeth(a, b, c))
    }
}

/// The view of an optional previous scanline.
pub open spec fn opt_view(p: Option<&[u8]>) -> Option<Seq<u8>> {
    match p {
        Option::Some(x) => Option::Some(x@),
        Option::None => Option::None,
    }
}

/// Unfilters rows `y` to `h` of the filtered stream `inp` (one filter-type
/// byte then `lb` scanline bytes per row) onto the accumulator; `None` on
/// an unknown filter type.
pub open spec fn unfilter_rows(inp: Seq<u8>, bw: int, lb: int, h: int, y: int, acc: Seq<u8>) -> Option<
    Seq<u8>,
>
    decreases h - y,
{
    if y >= h {
        Option::Some(acc)
    } else {
        let ft = inp[y * (lb + 1)] as int;
        if ft > 4 {
            Option::None
        } else {
            let scan = inp.subrange(y * (lb + 1) + 1, y * (lb + 1) + 1 + lb);
            let prev: Option<Seq<u8>> = if y == 0 {
                Option::None
            } else {
                Option::Some(acc.subrange((y - 1) * lb, y * lb))
            };
            let row = Seq::new(lb as nat, |i: int| recon_byte(ft, scan, prev, bw, i));
            unfilter_rows(inp, bw, lb, h, y + 1, acc + row)
        }
    }
}

/// The Paeth predictor, used by PNG filter type 4.
pub fn paeth_predictor(a: i32, b: i32, c: i32) -> (r: i32)
    requires
        0 <= a < 256,
        0 <= b < 256,
        0 <= c < 256,
    ensures
        r as int == paeth(a as int, b as int, c as int),
        r == a || r == b || r == c,
        0 <= r < 256,
{
    let p = a + b - c;
    let pa = if p > a { p - a } else { a - p };
    let pb = if p > b { p - b } else { b - p };
    let pc = if p > c { p - c } else { c - p };

    if pa <= pb && pa <= pc {
        a
    } else if pb <= pc {
        b
    } else {
        c
    }
}

/// Unfilters one scanline.  `scanline` holds the filtered bytes (without
/// the filter-type byte, which comes in `filter_type`), `precon` the
/// previous reconstructed scanline, absent on the first row.
#[verifier::loop_isolation(false)]
pub fn unfilter_scanline(
    scanline: &[u8],
    precon: Option<&[u8]>,
    bytewidth: usize,
    filter_type: u8,
) -> (r: Result<Vec<u8>, upng_error>)
    requires
        bytewidth >= 1,
        match precon {
            Option::Some(p) => p@.len() == scanline@.len(),
            Option::None => true,
        },
    ensures
        match r {
            Result::Ok(v) => {
                &&& filter_type <= 4
                &&& v@ == Seq::new(
                    scanline@.len(),
                    |i: int| recon_byte(filter_type as int, scanline@, opt_view(precon), bytewidth as int, i),
                )
            },
            Result::Err(e) => {
                &&& filter_type > 4
                &&& e == upng_error::UPNG_EMALFORMED
            },
        },
{
    if filter_type > 4 {
        return Result::Err(upng_error::UPNG_EMALFORMED);
    }
    let ghost pv = opt_view(precon);
    let mut v: Vec<u8> = Vec::new();
    let mut i: usize = 0;
    while i < scanline.len()
        invariant
            i <= scanline@.len(),
            v@.len() == i,
            forall|j: int| 0 <= j < i ==> v@[j] == recon_byte(
                filter_type as int,
                scanline@,
                pv,
                bytewidth as int,
                j,
            ),
        decreases scanline@.len() - i,
    {
        let a: u16 = if i >= bytewidth {
            v[i - bytewidth] as u16
        } else {
            0
        };
        let b: u16;
        let c: u16;
        match precon {
            Option::Some(p) => {
                b = p[i] as u16;
                c = if i >= bytewidth {
                    p[i - bytewidth] as u16
                } else {
                    0
                };
            },
            Option::None => {
                b = 0;
                c = 0;
            },
        }
        let x = scanline[i];
        let value: u8 = if filter_type == 0 {
            x
        } else if filter_type == 1 {
            ((x as u16 + a) % 256) as u8
        } else if filter_type == 2 {
            ((x as u16 + b) % 256) as u8
        } else if filter_type == 3 {
            ((x as u16 + (a + b) / 2) % 256) as u8
        } else {
            ((x as u16 + paeth_predictor(a as i32, b as i32, c as i32) as u16) % 256) as u8
        };
        v.push(value);
        i += 1;
    }
    proof {
        assert(v@ =~= Seq::new(
            scanline@.len(),
            |i: int| recon_byte(filter_type as int, scanline@, pv, bytewidth as int, i),
        ));
    }
    Result::Ok(v)
}

/// Unfilters a whole image: `inp` holds `h` scanlines, each prefixed by
/// its filter-type byte; each row is reconstructed against the previous
/// reconstructed row.
#[verifier::loop_isolation(false)]
pub fn unfilter(inp: &[u8], bytewidth: usize, linebytes: usize, h: usize) -> (r: Result<
    Vec<u8>,
    upng_error,
>)
    requires
        bytewidth >= 1,
        inp@.len() == h * (linebytes + 1) as int,
        inp@.len() <= usize::MAX / 16,
    ensures
        match r {
            Result::Ok(v) => {
                &&& unfilter_rows(inp@, bytewidth as int, linebytes as int, h as int, 0, Seq::empty())
                    == Option::Some(v@)
                &&& v@.len() == h * linebytes as int
            },
            Result::Err(e) => {
                &&& e == upng_error::UPNG_EMALFORMED
                &&& unfilter_rows(inp@, bytewidth as int, linebytes as int, h as int, 0, Seq::empty())
                    is None
            },
        },
{
    let mut out: Vec<u8> = Vec::new();
    let mut y: usize = 0;
    let mut inpos: usize = 0;
    while y < h
        invariant
            y <= h,
            inpos == y * (linebytes + 1) as int,
            out@.len() == y * linebytes as int,
            unfilter_rows(inp@, bytewidth as int, linebytes as int, h as int, y as int, out@)
                == unfilter_rows(inp@, bytewidth as int, linebytes as int, h as int, 0, Seq::empty()),
        decreases h - y,
    {
        proof {
            assert((y + 1) * (linebytes + 1) as int <= h * (linebytes + 1) as int) by (nonlinear_arith)
                requires
                    y < h,
                    linebytes >= 0,
            ;
            assert((y + 1) * (linebytes + 1) as int == y * (linebytes + 1) as int + linebytes + 1)
                by (nonlinear_arith);
            assert((y + 1) * linebytes as int == y * linebytes as int + linebytes) by (nonlinear_arith);
            assert(y * linebytes as int >= 0 && (y as int - 1) * linebytes as int == y * linebytes as int
                - linebytes) by (nonlinear_arith);
        }
        let filter_type = inp[inpos];
        let scan = slice_subrange(inp, inpos + 1, inpos + 1 + linebytes);
        let row_result = if y == 0 {
            unfilter_scanline(scan, Option::None, bytewidth, filter_type)
        } else {
            let prev = slice_subrange(out.as_slice(), out.len() - linebytes, out.len());
            unfilter_scanline(scan, Option::Some(prev), bytewidth, filter_type)
        };
        let mut row = match row_result {
            Result::Ok(v) => v,
            Result::Err(e) => {
                return Result::Err(e);
            },
        };
        out.append(&mut row);
        inpos += linebytes + 1;
        y += 1;
    }
    Result::Ok(out)
}

/// The bit at MSB-first bit index `p` of the stream.
pub open spec fn pbit(s: Seq<u8>, p: int) -> u32 {
    ((s[p / 8] as u32) >> ((7 - p % 8) as u32)) & 1
}

/// Bit `j` of the tightly packed output stream: bit `j % olb` of row
/// `j / olb`, read from the padded input whose rows are `ilb` bits wide;
/// bits past the image are 0.
pub open spec fn packed_bit(inp: Seq<u8>, olb: int, ilb: int, h: int, j: int) -> u32 {
    if j < h * olb {
        pbit(inp, (j / olb) * ilb + (j % olb))
    } else {
        0
    }
}

/// Byte `k` of the packed output: its eight bits, MSB first.
pub open spec fn packed_byte(inp: Seq<u8>, olb: int, ilb: int, h: int, k: int) -> u8 {
    let j = 8 * k;
    let v0 = packed_bit(inp, olb, ilb, h, j);
    let v1 = v0 * 2 + packed_bit(inp, olb, ilb, h, j + 1);
    let v2 = v1 * 2 + packed_bit(inp, olb, ilb, h, j + 2);
    let v3 = v2 * 2 + packed_bit(inp, olb, ilb, h, j + 3);
    let v4 = v3 * 2 + packed_bit(inp, olb, ilb, h, j + 4);
    let v5 = v4 * 2 + packed_bit(inp, olb, ilb, h, j + 5);
    let v6 = v5 * 2 + packed_bit(inp, olb, ilb, h, j + 6);
    let v7 = v6 * 2 + packed_bit(inp, olb, ilb, h, j + 7);
    v7 as u8
}

/// The packed output: `h * olb` bits without inter-row padding, in
/// `ceil(h * olb / 8)` bytes, the last byte zero-padded.
pub open spec fn packed_bytes(inp: Seq<u8>, olb: int, ilb: int, h: int) -> Seq<u8> {
    Seq::new(((h * olb + 7) / 8) as nat, |k: int| packed_byte(inp, olb, ilb, h, k))
}

/// Reads one packed output bit from the padded input.
fn packed_bit_exec(inp: &[u8], olb: usize, ilb: usize, h: usize, j: usize) -> (r: u32)
    requires
        1 <= olb <= ilb,
        8 * inp@.len() >= h * ilb as int,
        h * ilb as int <= usize::MAX / 2,
    ensures
        r == packed_bit(inp@, olb as int, ilb as int, h as int, j as int),
        r < 2,
{
    proof {
        assert(h * olb as int <= h * ilb as int) by (nonlinear_arith)
            requires
                olb <= ilb,
                h >= 0,
        ;
    }
    if j >= h * olb {
        0
    } else {
        let row = j / olb;
        let col = j % olb;
        proof {
            assert(row as int == j as int / olb as int && col as int == j as int % olb as int);
            assert(row * ilb as int + ilb <= h * ilb as int && col < ilb && row * ilb as int >= 0)
                by (nonlinear_arith)
                requires
                    row as int == j as int / olb as int,
                    col as int == j as int % olb as int,
                    j < h * olb as int,
                    1 <= olb <= ilb,
            ;
        }
        let p = row * ilb + col;
        let b = ((inp[p / 8] as u32) >> ((7 - (p % 8)) as u32)) & 1;
        proof {
            crate::bits::lemma_bit01((inp@[p as int / 8] as u32) >> ((7 - (p as int % 8)) as u32));
        }
        b
    }
}

/// Packs the significant `olinebits` bits of each of the `h` unfiltered
/// rows (each `ilinebits` bits wide, a whole number of bytes) into a tight
/// stream with no inter-row padding.
#[verifier::loop_isolation(false)]
pub fn remove_padding_bits(inp: &[u8], olinebits: usize, ilinebits: usize, h: usize) -> (r: Vec<u8>)
    requires
        1 <= olinebits <= ilinebits,
        8 * inp@.len() >= h * ilinebits as int,
        h * ilinebits as int <= usize::MAX / 2,
    ensures
        r@ == packed_bytes(inp@, olinebits as int, ilinebits as int, h as int),
{
    proof {
        assert(h * olinebits as int <= h * ilinebits as int) by (nonlinear_arith)
            requires
                olinebits <= ilinebits,
                h >= 0,
        ;
    }
    let total: usize = h * olinebits;
    let outlen: usize = (total + 7) / 8;
    let mut out: Vec<u8> = Vec::new();
    let mut k: usize = 0;
    while k < outlen
        invariant
            k <= outlen,
            out@.len() == k,
            forall|j: int| 0 <= j < k ==> out@[j] == packed_byte(
                inp@,
                olinebits as int,
                ilinebits as int,
                h as int,
                j,
            ),
        decreases outlen - k,
    {
        let j = 8 * k;
        let b0 = packed_bit_exec(inp, olinebits, ilinebits, h, j);
        let b1 = packed_bit_exec(inp, olinebits, ilinebits, h, j + 1);
        let b2 = packed_bit_exec(inp, olinebits, ilinebits, h, j + 2);
        let b3 = packed_bit_exec(inp, olinebits, ilinebits, h, j + 3);
        let b4 = packed_bit_exec(inp, olinebits, ilinebits, h, j + 4);
        let b5 = packed_bit_exec(inp, olinebits, ilinebits, h, j + 5);
        let b6 = packed_bit_exec(inp, olinebits, ilinebits, h, j + 6);
        let b7 = packed_bit_exec(inp, olinebits, ilinebits, h, j + 7);
        let v1: u32 = b0 * 2 + b1;
        let v2: u32 = v1 * 2 + b2;
        let v3: u32 = v2 * 2 + b3;
        let v4: u32 = v3 * 2 + b4;
        let v5: u32 = v4 * 2 + b5;
        let v6: u32 = v5 * 2 + b6;
        let cur: u32 = v6 * 2 + b7;
        out.push(cur as u8);
        k += 1;
    }
    proof {
        assert(out@ =~= packed_bytes(inp@, olinebits as int, ilinebits as int, h as int));
    }
    out
}

/// The unfiltered image, and, when the bit depth leaves padding bits at
/// the end of each scanline, the tightly packed pixel grid.
pub open spec fn post_process_spec(inp: Seq<u8>, w: int, h: int, bpp: int) -> Option<Seq<u8>> {
    if bpp == 0 {
        Option::None
    } else {
        let bw = (bpp + 7) / 8;
        let lb = (w * bpp + 7) / 8;
        match unfilter_rows(inp, bw, lb, h, 0, Seq::empty()) {
            Option::None => Option::None,
            Option::Some(u) => {
                if bpp < 8 && w * bpp != lb * 8 {
                    Option::Some(packed_bytes(u, w * bpp, lb * 8, h))
                } else {
                    Option::Some(u)
                }
            },
        }
    }
}

/// Unfilters the scanlines and, for sub-byte depths whose rows are not a
/// whole number of bytes, strips the padding bits in a second pass.
pub fn post_process_scanlines(inp: &[u8], w: u32, h: u32, bpp: u32) -> (r: Result<Vec<u8>, upng_error>)
    requires
        bpp <= 64,
        inp@.len() == h * (((w * bpp) as int + 7) / 8 + 1),
        inp@.len() <= usize::MAX / 16,
    ensures
        match r {
            Result::Ok(v) => post_process_spec(inp@, w as int, h as int, bpp as int) == Option::Some(
                v@,
            ),
            Result::Err(e) => {
                &&& e == upng_error::UPNG_EMALFORMED
                &&& post_process_spec(inp@, w as int, h as int, bpp as int) is None
            },
        },
{
    if bpp == 0 {
        return Result::Err(upng_error::UPNG_EMALFORMED);
    }
    let bw: usize = ((bpp + 7) / 8) as usize;
    proof {
        assert(w as int * bpp as int <= 0xffffffffu64 * 64) by (nonlinear_arith)
            requires
                0 <= w as int <= 0xffffffffu64,
                0 <= bpp as int <= 64,
        ;
    }
    let lbits: u64 = (w as u64) * (bpp as u64);
    let lb64: u64 = (lbits + 7) / 8;
    if h == 0 {
        let empty_out: Vec<u8> = Vec::new();
        proof {
            assert(post_process_spec(inp@, w as int, h as int, bpp as int) == Option::Some(
                Seq::<u8>::empty(),
            ));
            assert(empty_out@ =~= Seq::<u8>::empty());
        }
        return Result::Ok(empty_out);
    }
    proof {
        assert(h * (((w * bpp) as int + 7) / 8 + 1) >= (((w * bpp) as int + 7) / 8 + 1))
            by (nonlinear_arith)
            requires
                h >= 1,
                (((w * bpp) as int + 7) / 8 + 1) >= 0,
        ;
    }
    let lb: usize = lb64 as usize;
    let u = match unfilter(inp, bw, lb, h as usize) {
        Result::Ok(u) => u,
        Result::Err(e) => {
            return Result::Err(e);
        },
    };
    if bpp < 8 && lbits % 8 != 0 {
        proof {
            assert(8 * (h * lb as int) == h * (8 * lb as int)) by (nonlinear_arith);
            assert(h * (8 * lb as int) <= 8 * (h * (lb as int + 1))) by (nonlinear_arith)
                requires
                    h >= 0,
                    lb as int >= 0,
            ;
        }
        let packed = remove_padding_bits(u.as_slice(), lbits as usize, 8 * lb, h as usize);
        Result::Ok(packed)
    } else {
        Result::Ok(u)
    }
}

/// The Paeth predictor always answers with one of its three inputs.
pub proof fn lemma_paeth_in_set(a: int, b: int, c: int)
    ensures
        paeth(a, b, c) == a || paeth(a, b, c) == b || paeth(a, b, c) == c,
{
}

/// A successful reconstruction appends exactly `lb` bytes per remaining
/// row to the accumulator.
pub proof fn lemma_unfilter_rows_len(inp: Seq<u8>, bw: int, lb: int, h: int, y: int, acc: Seq<u8>)
    requires
        unfilter_rows(inp, bw, lb, h, y, acc) is Some,
        0 <= y <= h,
        0 <= lb,
    ensures
        (unfilter_rows(inp, bw, lb, h, y, acc)->0).len() == acc.len() + (h - y) * lb,
    decreases h - y,
{
    if y >= h {
    } else {
        let ft = inp[y * (lb + 1)] as int;
        let scan = inp.subrange(y * (lb + 1) + 1, y * (lb + 1) + 1 + lb);
        let prev: Option<Seq<u8>> = if y == 0 {
            Option::None
        } else {
            Option::Some(acc.subrange((y - 1) * lb, y * lb))
        };
        let row = Seq::new(lb as nat, |i: int| recon_byte(ft, scan, prev, bw, i));
        lemma_unfilter_rows_len(inp, bw, lb, h, y + 1, acc + row);
        assert((acc.len() + lb) + (h - y - 1) * lb == acc.len() + (h - y) * lb) by (nonlinear_arith);
    }
}

/// Round-trip shape: successful post-processing of an image of `h` rows of
/// `w` pixels at `bpp` bits per pixel yields `ceil(w * h * bpp / 8)` bytes.
pub proof fn lemma_post_process_len(inp: Seq<u8>, w: int, h: int, bpp: int)
    requires
        post_process_spec(inp, w, h, bpp) is Some,
        0 <= w,
        0 <= h,
        1 <= bpp <= 64,
        bpp >= 8 ==> bpp % 8 == 0,
    ensures
        (post_process_spec(inp, w, h, bpp)->0).len() == (w * h * bpp + 7) / 8,
{
    let bw = (bpp + 7) / 8;
    let lb = (w * bpp + 7) / 8;
    lemma_unfilter_rows_len(inp, bw, lb, h, 0, Seq::empty());
    if bpp < 8 && w * bpp != lb * 8 {
        // the packed stream: h * (w * bpp) bits, rounded up to bytes
        assert(h * (w * bpp) == w * h * bpp) by (nonlinear_arith);
    } else {
        // every row is a whole number of bytes: w * bpp == lb * 8
        if bpp >= 8 {
            let k = bpp / 8;
            vstd::arithmetic::div_mod::lemma_fundamental_div_mod(bpp, 8);
            assert(w * bpp == (w * k) * 8) by (nonlinear_arith)
                requires
                    bpp == 8 * k,
            ;
            vstd::arithmetic::div_mod::lemma_mod_multiples_basic(w * k, 8);
            vstd::arithmetic::div_mod::lemma_fundamental_div_mod(w * bpp, 8);
        }
        assert(w * bpp == lb * 8);
        assert(h * lb * 8 == w * h * bpp) by (nonlinear_arith)
            requires
                w * bpp == lb * 8,
        ;
        assert((h * lb * 8 + 7) / 8 == h * lb);
    }
}

} // verus!
