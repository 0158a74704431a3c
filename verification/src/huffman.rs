//! Canonical Huffman decoding tables (RFC 1951 §3.2.2): construction from a
//! vector of code lengths, and bit-by-bit symbol decoding.
use vstd::prelude::*;
use crate::bits::{sbit, lemma_bit01};
use crate::types::upng_error;

verus! {

/// Sentinel marking a table cell not yet filled during construction.
pub const TREE2D_UNFILLED: u32 = 32767;

/// A two-row Huffman decoding table: cell `(node, bit)` sits at index
/// `2 * node + bit`.  A cell value below `numcodes` is a terminal symbol; a
/// value at or above it points to interior node `value - numcodes`.
pub struct huffman_tree {
    /// decoding table of `2 * numcodes` cells
    pub tree2d: Vec<u32>,
    /// maximum number of bits a single code can get
    pub maxbitlen: u32,
    /// number of symbols in the alphabet = number of codes
    pub numcodes: u32,
}

impl huffman_tree {
    /// Shape of a usable decoding table.
    pub open spec fn wf(self) -> bool {
        &&& self.tree2d@.len() == 2 * self.numcodes
        &&& 2 <= self.numcodes <= 288
    }
}

/// Assembles a tree from a pre-built cell buffer.
pub fn huffman_tree_init(buffer: Vec<u32>, numcodes: u32, maxbitlen: u32) -> (t: huffman_tree)
    ensures
        t.tree2d == buffer,
        t.numcodes == numcodes,
        t.maxbitlen == maxbitlen,
{
    huffman_tree { tree2d: buffer, maxbitlen, numcodes }
}

/// Step 1 of construction: frequency of each code length among the first
/// `n` symbols, as a 16-entry table.
pub open spec fn blcount_fold(bitlen: Seq<u32>, n: int) -> Seq<u32>
    decreases n,
{
    if n <= 0 {
        Seq::new(16, |i| 0u32)
    } else {
        let prev = blcount_fold(bitlen, n - 1);
        let l = bitlen[n - 1] as int;
        prev.update(l, ((prev[l] as u64 + 1) as u32))
    }
}

/// Step 2 of construction: the first code of each length, seeded with
/// `nextcode[1] == 0` and doubled level by level up to `b`.
pub open spec fn nextcode_fold(blcount: Seq<u32>, b: int) -> Seq<u32>
    decreases b,
{
    if b <= 1 {
        Seq::new(16, |i| 0u32)
    } else {
        let prev = nextcode_fold(blcount, b - 1);
        prev.update(b, ((((prev[b - 1] as u64 + blcount[b - 1] as u64) as u64) << 1u64) as u32))
    }
}

/// Step 3 of construction: assign each symbol with a nonzero length the
/// next code of that length; returns the codes and the updated counters.
pub open spec fn tree1d_fold(bitlen: Seq<u32>, n: int, tree1d: Seq<u32>, nextcode: Seq<u32>) -> (Seq<
    u32,
>, Seq<u32>)
    decreases bitlen.len() - n,
{
    if n < 0 || n >= bitlen.len() {
        (tree1d, nextcode)
    } else {
        let l = bitlen[n] as int;
        if bitlen[n] != 0 {
            tree1d_fold(
                bitlen,
                n + 1,
                tree1d.update(n, nextcode[l]),
                nextcode.update(l, ((nextcode[l] as u64 + 1) as u32)),
            )
        } else {
            tree1d_fold(bitlen, n + 1, tree1d, nextcode)
        }
    }
}

/// Step 4, inner part: descend the table along the bits of symbol `n`'s
/// code (MSB first), allocating interior nodes; `None` on an
/// oversubscribed code.  The state is `(table, treepos, nodefilled)`.
pub open spec fn fill_bits(
    code: u32,
    n: int,
    len: int,
    i: int,
    table: Seq<u32>,
    treepos: u32,
    nodefilled: u32,
    numcodes: u32,
) -> Option<(Seq<u32>, u32, u32)>
    decreases len - i,
{
    if i >= len {
        Some((table, treepos, nodefilled))
    } else if treepos as int > numcodes as int - 2 {
        None
    } else {
        let bit = (code >> ((len - 1 - i) as u32)) & 1;
        let idx = 2 * (treepos as int) + bit as int;
        let cell = table[idx];
        if cell == TREE2D_UNFILLED {
            if i + 1 == len {
                fill_bits(code, n, len, i + 1, table.update(idx, n as u32), 0u32, nodefilled, numcodes)
            } else {
                let nf = (nodefilled as u64 + 1) as u32;
                let ptr = (nf as u64 + numcodes as u64) as u32;
                fill_bits(code, n, len, i + 1, table.update(idx, ptr), nf, nf, numcodes)
            }
        } else if (cell as int) < numcodes as int {
            None
        } else {
            fill_bits(code, n, len, i + 1, table, (cell as int - numcodes as int) as u32, nodefilled, numcodes)
        }
    }
}

/// Step 4, outer part: fill the table with the codes of all symbols from
/// `n` on.
pub open spec fn fill_all(
    bitlen: Seq<u32>,
    tree1d: Seq<u32>,
    n: int,
    table: Seq<u32>,
    treepos: u32,
    nodefilled: u32,
    numcodes: u32,
) -> Option<(Seq<u32>, u32, u32)>
    decreases bitlen.len() - n,
{
    if n < 0 || n >= bitlen.len() {
        Some((table, treepos, nodefilled))
    } else {
        match fill_bits(tree1d[n], n, bitlen[n] as int, 0, table, treepos, nodefilled, numcodes) {
            Option::None => Option::None,
            Option::Some(st) => fill_all(bitlen, tree1d, n + 1, st.0, st.1, st.2, numcodes),
        }
    }
}

/// The final sweep: unfilled cells of the filled table become 0; a failed
/// fill stays a failure.
pub open spec fn sweep_unfilled(g: Option<(Seq<u32>, u32, u32)>, nc: int) -> Option<Seq<u32>> {
    match g {
        Option::None => Option::None,
        Option::Some(st) => Option::Some(
            Seq::new((2 * nc) as nat, |i| if st.0[i] == TREE2D_UNFILLED { 0u32 } else { st.0[i] }),
        ),
    }
}

/// The whole construction: the decoding table built from a vector of code
/// lengths, or `None` if the code is oversubscribed.  Remaining unfilled
/// cells are swept to 0.
pub open spec fn build_tree_spec(bitlen: Seq<u32>, maxbitlen: u32) -> Option<Seq<u32>> {
    let nc = bitlen.len() as int;
    let blcount = blcount_fold(bitlen, nc);
    let nextcode = nextcode_fold(blcount, maxbitlen as int);
    let assigned = tree1d_fold(bitlen, 0, Seq::new(nc as nat, |i| 0u32), nextcode);
    let init = Seq::new((2 * nc) as nat, |i| TREE2D_UNFILLED);
    sweep_unfilled(fill_all(bitlen, assigned.0, 0, init, 0u32, 0u32, nc as u32), nc)
}

/// Builds the decoding table for the given code lengths (0 meaning the
/// symbol is absent), as defined by DEFLATE.
#[verifier::loop_isolation(false)]
pub fn huffman_tree_create_lengths(bitlen: &Vec<u32>, maxbitlen: u32) -> (r: Result<
    huffman_tree,
    upng_error,
>)
    requires
        2 <= bitlen@.len() <= 288,
        forall|i: int| 0 <= i < bitlen@.len() ==> bitlen@[i] <= 15,
        1 <= maxbitlen <= 15,
    ensures
        match r {
            Result::Ok(t) => {
                &&& build_tree_spec(bitlen@, maxbitlen) == Option::Some(t.tree2d@)
                &&& t.numcodes == bitlen@.len()
                &&& t.maxbitlen == maxbitlen
                &&& t.wf()
            },
            Result::Err(e) => {
                &&& build_tree_spec(bitlen@, maxbitlen) is None
                &&& e == upng_error::UPNG_EMALFORMED
            },
        },
{
    let numcodes: u32 = bitlen.len() as u32;

    // step 1: count number of instances of each code length
    let mut blcount: Vec<u32> = Vec::new();
    let mut k: usize = 0;
    while k < 16
        invariant
            k <= 16,
            blcount@ =~= Seq::new(k as nat, |i| 0u32),
        decreases 16 - k,
    {
        blcount.push(0);
        k += 1;
    }
    assert(blcount@ =~= blcount_fold(bitlen@, 0));
    let mut n: usize = 0;
    while n < bitlen.len()
        invariant
            n <= bitlen@.len(),
            forall|i: int| 0 <= i < bitlen@.len() ==> bitlen@[i] <= 15,
            blcount@.len() == 16,
            blcount@ == blcount_fold(bitlen@, n as int),
        decreases bitlen@.len() - n,
    {
        let l = bitlen[n] as usize;
        let v = (blcount[l] as u64 + 1) as u32;
        blcount.set(l, v);
        n += 1;
    }

    // step 2: generate the nextcode values
    let mut nextcode: Vec<u32> = Vec::new();
    let mut k: usize = 0;
    while k < 16
        invariant
            k <= 16,
            nextcode@ =~= Seq::new(k as nat, |i| 0u32),
        decreases 16 - k,
    {
        nextcode.push(0);
        k += 1;
    }
    assert(nextcode@ =~= nextcode_fold(blcount@, 1));
    let mut b: usize = 2;
    while b <= maxbitlen as usize
        invariant
            2 <= b <= maxbitlen + 1,
            maxbitlen <= 15,
            blcount@.len() == 16,
            nextcode@.len() == 16,
            nextcode@ == nextcode_fold(blcount@, b as int - 1),
        decreases maxbitlen as int + 1 - b,
    {
        let v = ((nextcode[b - 1] as u64 + blcount[b - 1] as u64) << 1u64) as u32;
        nextcode.set(b, v);
        b += 1;
    }

    // step 3: generate all the codes
    let mut tree1d: Vec<u32> = Vec::new();
    let mut k: usize = 0;
    while k < bitlen.len()
        invariant
            k <= bitlen@.len(),
            tree1d@ =~= Seq::new(k as nat, |i| 0u32),
        decreases bitlen@.len() - k,
    {
        tree1d.push(0);
        k += 1;
    }
    let ghost nextcode0 = nextcode@;
    let mut n: usize = 0;
    while n < bitlen.len()
        invariant
            n <= bitlen@.len(),
            forall|i: int| 0 <= i < bitlen@.len() ==> bitlen@[i] <= 15,
            tree1d@.len() == bitlen@.len(),
            nextcode@.len() == 16,
            tree1d_fold(bitlen@, n as int, tree1d@, nextcode@) == tree1d_fold(
                bitlen@,
                0,
                Seq::new(bitlen@.len(), |i| 0u32),
                nextcode0,
            ),
        decreases bitlen@.len() - n,
    {
        if bitlen[n] != 0 {
            let l = bitlen[n] as usize;
            let c = nextcode[l];
            tree1d.set(n, c);
            let v = (c as u64 + 1) as u32;
            nextcode.set(l, v);
        }
        n += 1;
    }
    let ghost assigned = tree1d_fold(bitlen@, 0, Seq::new(bitlen@.len(), |i| 0u32), nextcode0);
    assert(tree1d@ == assigned.0 && nextcode@ == assigned.1);

    // convert tree1d[] into the two-row table
    let mut tree2d: Vec<u32> = Vec::new();
    let mut k: usize = 0;
    while k < 2 * numcodes as usize
        invariant
            k <= 2 * numcodes,
            tree2d@ =~= Seq::new(k as nat, |i| TREE2D_UNFILLED),
        decreases 2 * numcodes as int - k,
    {
        tree2d.push(TREE2D_UNFILLED);
        k += 1;
    }
    let ghost init = Seq::new((2 * bitlen@.len() as int) as nat, |i| TREE2D_UNFILLED);
    assert(tree2d@ =~= init);

    let mut treepos: u32 = 0;
    let mut nodefilled: u32 = 0;
    let ghost goal = fill_all(bitlen@, assigned.0, 0, init, 0u32, 0u32, numcodes);
    proof {
        assert(build_tree_spec(bitlen@, maxbitlen) == sweep_unfilled(goal, numcodes as int));
    }
    let mut n: usize = 0;
    while n < bitlen.len()
        invariant
            n <= bitlen@.len(),
            numcodes == bitlen@.len(),
            2 <= numcodes <= 288,
            forall|i: int| 0 <= i < bitlen@.len() ==> bitlen@[i] <= 15,
            tree1d@.len() == bitlen@.len(),
            tree2d@.len() == 2 * numcodes,
            fill_all(bitlen@, tree1d@, n as int, tree2d@, treepos, nodefilled, numcodes) == goal,
        decreases bitlen@.len() - n,
    {
        let len: u32 = bitlen[n];
        let code: u32 = tree1d[n];
        let ghost tbl0 = tree2d@;
        let ghost tp0 = treepos;
        let ghost nf0 = nodefilled;
        proof {
            assert(fill_all(bitlen@, tree1d@, n as int, tbl0, tp0, nf0, numcodes) == goal);
        }
        let mut i: u32 = 0;
        while i < len
            invariant
                i <= len,
                len == bitlen@[n as int],
                len <= 15,
                n < bitlen@.len(),
                code == tree1d@[n as int],
                numcodes == bitlen@.len(),
                2 <= numcodes <= 288,
                tree2d@.len() == 2 * numcodes,
                fill_bits(code, n as int, len as int, i as int, tree2d@, treepos, nodefilled, numcodes)
                    == fill_bits(code, n as int, len as int, 0, tbl0, tp0, nf0, numcodes),
            decreases len - i,
        {
            // check if oversubscribed
            if treepos > numcodes - 2 {
                return Result::Err(upng_error::UPNG_EMALFORMED);
            }
            let bit: u32 = (code >> (len - 1 - i)) & 1;
            proof {
                lemma_bit01(code >> (len - 1 - i));
            }
            let idx: usize = 2 * (treepos as usize) + bit as usize;
            let cell = tree2d[idx];
            if cell == TREE2D_UNFILLED {
                if i + 1 == len {
                    // last bit: put the current code in it
                    tree2d.set(idx, n as u32);
                    treepos = 0;
                } else {
                    // allocate a fresh interior node and follow it
                    let nf = (nodefilled as u64 + 1) as u32;
                    let ptr = (nf as u64 + numcodes as u64) as u32;
                    tree2d.set(idx, ptr);
                    nodefilled = nf;
                    treepos = nf;
                }
            } else if cell < numcodes {
                // a shorter code already ends here: oversubscribed
                return Result::Err(upng_error::UPNG_EMALFORMED);
            } else {
                treepos = cell - numcodes;
            }
            i += 1;
        }
        proof {
            assert(fill_bits(code, n as int, len as int, len as int, tree2d@, treepos, nodefilled, numcodes)
                == Option::Some((tree2d@, treepos, nodefilled)));
        }
        n += 1;
    }
    assert(goal == Option::Some((tree2d@, treepos, nodefilled)));

    // sweep the remaining unfilled cells to 0
    let ghost pre = tree2d@;
    let mut k: usize = 0;
    while k < tree2d.len()
        invariant
            k <= tree2d@.len(),
            tree2d@.len() == pre.len(),
            forall|j: int| 0 <= j < k ==> tree2d@[j] == (if pre[j] == TREE2D_UNFILLED { 0u32 } else {
                pre[j]
            }),
            forall|j: int| k <= j < pre.len() ==> tree2d@[j] == pre[j],
        decreases tree2d@.len() - k,
    {
        if tree2d[k] == TREE2D_UNFILLED {
            tree2d.set(k, 0);
        }
        k += 1;
    }
    proof {
        assert(tree2d@ =~= Seq::new(
            (2 * bitlen@.len() as int) as nat,
            |i| if pre[i] == TREE2D_UNFILLED { 0u32 } else { pre[i] },
        ));
    }
    Result::Ok(huffman_tree_init(tree2d, numcodes, maxbitlen))
}

/// One symbol decoded from the bit stream by walking the table from the
/// root: `None` when the input ends first or a dangling interior index is
/// met; otherwise the symbol and the new bit position.
pub open spec fn hdecode(table: Seq<u32>, numcodes: int, s: Seq<u8>, bp: int, treepos: int) -> Option<
    (int, int),
>
    decreases 8 * s.len() - bp,
{
    if bp < 0 || bp >= 8 * s.len() {
        Option::None
    } else {
        let bit = sbit(s, bp) as int;
        let ct = table[2 * treepos + bit] as int;
        if ct < numcodes {
            Option::Some((ct, bp + 1))
        } else {
            let tp = ct - numcodes;
            if tp >= numcodes {
                Option::None
            } else {
                hdecode(table, numcodes, s, bp + 1, tp)
            }
        }
    }
}

/// Decodes one symbol from the bit stream at `*bp`, following the decoding
/// table until a terminal cell is reached.
#[verifier::loop_isolation(false)]
pub fn huffman_decode_symbol(inp: &[u8], bp: &mut usize, codetree: &huffman_tree) -> (r: Result<
    u32,
    upng_error,
>)
    requires
        codetree.wf(),
        inp@.len() <= usize::MAX / 16,
    ensures
        match r {
            Result::Ok(sym) => {
                &&& hdecode(codetree.tree2d@, codetree.numcodes as int, inp@, *old(bp) as int, 0)
                    == Option::Some((sym as int, *final(bp) as int))
                &&& sym < codetree.numcodes
                &&& *old(bp) < *final(bp) <= 8 * inp@.len()
            },
            Result::Err(e) => {
                &&& e == upng_error::UPNG_EMALFORMED
                &&& hdecode(codetree.tree2d@, codetree.numcodes as int, inp@, *old(bp) as int, 0)
                    is None
            },
        },
{
    let ghost t = codetree.tree2d@;
    let ghost nc = codetree.numcodes as int;
    let ghost bp0 = *bp as int;
    let mut treepos: u32 = 0;
    loop
        invariant
            codetree.wf(),
            t == codetree.tree2d@,
            nc == codetree.numcodes as int,
            inp@.len() <= usize::MAX / 16,
            treepos < codetree.numcodes,
            hdecode(t, nc, inp@, *bp as int, treepos as int) == hdecode(t, nc, inp@, bp0, 0),
            bp0 <= *bp as int,
        decreases 8 * inp@.len() - *bp,
    {
        // error: end of input memory reached without end code
        if *bp >= 8 * inp.len() {
            return Result::Err(upng_error::UPNG_EMALFORMED);
        }
        let bit = crate::bits::read_bit(inp, *bp);
        *bp += 1;
        let idx: usize = 2 * (treepos as usize) + bit as usize;
        let ct = codetree.tree2d[idx];
        if ct < codetree.numcodes {
            return Result::Ok(ct);
        }
        let tp = ct - codetree.numcodes;
        if tp >= codetree.numcodes {
            return Result::Err(upng_error::UPNG_EMALFORMED);
        }
        treepos = tp;
    }
}

/// The code lengths of the fixed literal/length alphabet (RFC 1951 §3.2.6).
pub open spec fn fixed_lit_lengths() -> Seq<u32> {
    Seq::new(288, |i: int| if i < 144 { 8u32 } else if i < 256 { 9u32 } else if i < 280 { 7u32 } else { 8u32 })
}

/// The code lengths of the fixed distance alphabet: five bits for all 32
/// symbols.
pub open spec fn fixed_dist_lengths() -> Seq<u32> {
    Seq::new(32, |i: int| 5u32)
}

/// Builds the code-length vector of the fixed literal/length alphabet.
pub fn fixed_lit_lengths_vec() -> (r: Vec<u32>)
    ensures
        r@ == fixed_lit_lengths(),
{
    let mut v: Vec<u32> = Vec::new();
    let mut k: usize = 0;
    while k < 288
        invariant
            k <= 288,
            v@.len() == k,
            forall|i: int| 0 <= i < k ==> v@[i] == fixed_lit_lengths()[i],
        decreases 288 - k,
    {
        if k < 144 {
            v.push(8);
        } else if k < 256 {
            v.push(9);
        } else if k < 280 {
            v.push(7);
        } else {
            v.push(8);
        }
        k += 1;
    }
    proof {
        assert(v@ =~= fixed_lit_lengths());
    }
    v
}

/// Builds the code-length vector of the fixed distance alphabet.
pub fn fixed_dist_lengths_vec() -> (r: Vec<u32>)
    ensures
        r@ == fixed_dist_lengths(),
{
    let mut v: Vec<u32> = Vec::new();
    let mut k: usize = 0;
    while k < 32
        invariant
            k <= 32,
            v@.len() == k,
            forall|i: int| 0 <= i < k ==> v@[i] == 5u32,
        decreases 32 - k,
    {
        v.push(5);
        k += 1;
    }
    proof {
        assert(v@ =~= fixed_dist_lengths());
    }
    v
}

} // verus!
