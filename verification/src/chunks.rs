//! The PNG chunk scanner: walks the chunk sequence after IHDR, checks its
//! layout, and concatenates the IDAT payloads.
use vstd::prelude::*;
use crate::types::upng_error;

verus! {

/// The chunk type of the IHDR chunk, as a big-endian 32-bit value.
pub const CHUNK_IHDR: u32 = 0x49484452;

/// The chunk type of the IDAT chunk.
pub const CHUNK_IDAT: u32 = 0x49444154;

/// The chunk type of the IEND chunk.
pub const CHUNK_IEND: u32 = 0x49454E44;

/// The largest chunk length the scanner accepts.
pub const CHUNK_LENGTH_MAX: u32 = 0x7FFFFFFF;

/// The big-endian 32-bit value at offset `o`.
pub open spec fn be32(s: Seq<u8>, o: int) -> int {
    (s[o] as int) * 16777216 + (s[o + 1] as int) * 65536 + (s[o + 2] as int) * 256 + (s[o
        + 3] as int)
}

/// Reads the big-endian 32-bit value at offset `o`.
pub fn read_be32(s: &[u8], o: usize) -> (r: u32)
    requires
        o + 4 <= s@.len(),
    ensures
        r as int == be32(s@, o as int),
{
    (s[o] as u32) * 16777216 + (s[o + 1] as u32) * 65536 + (s[o + 2] as u32) * 256 + (s[o
        + 3] as u32)
}

/// Walks the chunks from offset `off`: reads each 4-byte length and type,
/// rejects a length above `CHUNK_LENGTH_MAX` or an extent past the end of
/// the source, concatenates IDAT payloads onto `acc`, stops at IEND or at
/// the end of the source, rejects unknown critical chunks and skips
/// ancillary ones.
pub open spec fn idat_concat(src: Seq<u8>, off: int, acc: Seq<u8>) -> Option<Seq<u8>>
    decreases src.len() - off,
{
    if off >= src.len() {
        Option::Some(acc)
    } else if off + 8 > src.len() {
        Option::None
    } else {
        let length = be32(src, off);
        let ctype = be32(src, off + 4);
        if length > CHUNK_LENGTH_MAX as int {
            Option::None
        } else if off + 12 + length > src.len() {
            Option::None
        } else if ctype == CHUNK_IDAT as int {
            idat_concat(src, off + 12 + length, acc + src.subrange(off + 8, off + 8 + length))
        } else if ctype == CHUNK_IEND as int {
            Option::Some(acc)
        } else if (src[off + 4] & 32) == 0 {
            // an unknown critical chunk
            Option::None
        } else {
            idat_concat(src, off + 12 + length, acc)
        }
    }
}

/// Scans the chunk sequence of a PNG stream, starting at the first chunk
/// after IHDR, and returns the concatenated IDAT payloads.
#[verifier::loop_isolation(false)]
pub fn collect_idat(src: &[u8]) -> (r: Result<Vec<u8>, upng_error>)
    requires
        src@.len() <= usize::MAX / 16,
    ensures
        match r {
            Result::Ok(v) => {
                &&& idat_concat(src@, 33, Seq::empty()) == Option::Some(v@)
                &&& v@.len() <= src@.len()
            },
            Result::Err(e) => {
                &&& e == upng_error::UPNG_EMALFORMED
                &&& idat_concat(src@, 33, Seq::empty()) is None
            },
        },
{
    let mut off: usize = 33;
    let mut compressed: Vec<u8> = Vec::new();
    loop
        invariant
            33 <= off,
            off == 33 || off <= src@.len(),
            compressed@.len() + 33 <= off,
            idat_concat(src@, off as int, compressed@) == idat_concat(src@, 33, Seq::empty()),
        decreases src@.len() - off,
    {
        if off >= src.len() {
            return Result::Ok(compressed);
        }
        if off + 8 > src.len() {
            return Result::Err(upng_error::UPNG_EMALFORMED);
        }
        let length32 = read_be32(src, off);
        let ctype = read_be32(src, off + 4);
        if length32 > CHUNK_LENGTH_MAX {
            return Result::Err(upng_error::UPNG_EMALFORMED);
        }
        // the declared extent (length, type, payload, CRC) must fit
        if off as u64 + 12 + length32 as u64 > src.len() as u64 {
            return Result::Err(upng_error::UPNG_EMALFORMED);
        }
        let length = length32 as usize;
        if ctype == CHUNK_IDAT {
            let ghost pre = compressed@;
            let mut k: usize = 0;
            while k < length
                invariant
                    k <= length,
                    off + 12 + length <= src@.len(),
                    compressed@ == pre + src@.subrange(off + 8, off as int + 8 + k as int),
                decreases length - k,
            {
                compressed.push(src[off + 8 + k]);
                proof {
                    assert(compressed@ =~= pre + src@.subrange(off + 8, off as int + 8 + (k + 1)));
                }
                k += 1;
            }
            off = off + 12 + length;
        } else if ctype == CHUNK_IEND {
            return Result::Ok(compressed);
        } else if (src[off + 4] & 32) == 0 {
            // an unknown critical chunk
            return Result::Err(upng_error::UPNG_EMALFORMED);
        } else {
            // an ancillary chunk: skip it
            off = off + 12 + length;
        }
    }
}

} // verus!
