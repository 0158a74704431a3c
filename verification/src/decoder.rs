//! The decoder façade: the image handle, header parsing, the decode
//! pipeline, and the accessors.
use vstd::prelude::*;
use crate::types::{
    upng_error, upng_format, upng_state, upng_color, color_byte, components_of, bpp_of, format_of,
    color_from_byte, determine_format, upng_get_components_of,
};
use crate::chunks::{be32, idat_concat, collect_idat, read_be32, CHUNK_IHDR};
use crate::inflate::{zlib_spec, uz_inflate};
use crate::filter::{post_process_spec, post_process_scanlines};

verus! {

/// No error has been recorded.
pub const ORIGIN_NONE: u32 = 0;

/// The error was found while parsing the signature or the IHDR chunk.
pub const ORIGIN_HEADER: u32 = 1;

/// The error was found while scanning the chunk sequence.
pub const ORIGIN_CHUNKS: u32 = 2;

/// A buffer larger than the decoder is willing to allocate was required.
pub const ORIGIN_ALLOC: u32 = 3;

/// The error was found while inflating the zlib stream.
pub const ORIGIN_INFLATE: u32 = 4;

/// The error was found while reconstructing the scanlines.
pub const ORIGIN_FILTER: u32 = 5;

/// An image handle: IHDR metadata, the decoded pixel buffer, the sticky
/// error with its origin, the lifecycle state, and the source bytes.
pub struct upng_t {
    pub width: u32,
    pub height: u32,
    pub color_type: upng_color,
    pub color_depth: u32,
    pub format: upng_format,
    pub buffer: Vec<u8>,
    pub error: upng_error,
    pub error_line: u32,
    pub state: upng_state,
    pub source: Vec<u8>,
}

/// The eight-byte PNG signature.
pub open spec fn sig_ok(src: Seq<u8>) -> bool {
    &&& src[0] == 137
    &&& src[1] == 80
    &&& src[2] == 78
    &&& src[3] == 71
    &&& src[4] == 13
    &&& src[5] == 10
    &&& src[6] == 26
    &&& src[7] == 10
}

/// The image width declared in IHDR.
pub open spec fn width_of(src: Seq<u8>) -> int {
    be32(src, 16)
}

/// The image height declared in IHDR.
pub open spec fn height_of(src: Seq<u8>) -> int {
    be32(src, 20)
}

/// The bit depth declared in IHDR.
pub open spec fn depth_of(src: Seq<u8>) -> int {
    src[24] as int
}

/// The color type declared in IHDR.
pub open spec fn ctype_of(src: Seq<u8>) -> int {
    src[25] as int
}

/// The color-type enumeration for a legal wire value; `UPNG_RGBA` is the
/// placeholder for values no legal header carries.
pub open spec fn spec_color(b: int) -> upng_color {
    if b == 0 {
        upng_color::UPNG_LUM
    } else if b == 2 {
        upng_color::UPNG_RGB
    } else if b == 4 {
        upng_color::UPNG_LUMA
    } else {
        upng_color::UPNG_RGBA
    }
}

/// Everything `upng_header` checks: the stream is long enough for the
/// signature and IHDR, carries the signature, opens with IHDR, declares a
/// supported (color type, depth) pair, and uses compression method 0,
/// filter method 0 and interlace method 0.
pub open spec fn header_ok(src: Seq<u8>) -> bool {
    &&& src.len() >= 29
    &&& sig_ok(src)
    &&& be32(src, 12) == CHUNK_IHDR as int
    &&& format_of(ctype_of(src), depth_of(src)) != upng_format::UPNG_BADFORMAT
    &&& src[26] == 0
    &&& src[27] == 0
    &&& src[28] == 0
}

/// What `upng_header` does to a handle: nothing unless the handle is
/// error-free and new; then either the IHDR fields and the `HEADER` state,
/// or the sticky `Malformed` error.
pub open spec fn header_transition(u: upng_t) -> upng_t {
    if u.error != upng_error::UPNG_EOK || u.state != upng_state::UPNG_NEW {
        u
    } else if header_ok(u.source@) {
        (upng_t {
            width: width_of(u.source@) as u32,
            height: height_of(u.source@) as u32,
            color_type: spec_color(ctype_of(u.source@)),
            color_depth: depth_of(u.source@) as u32,
            format: format_of(ctype_of(u.source@), depth_of(u.source@)),
            state: upng_state::UPNG_HEADER,
            ..u
        })
    } else {
        (upng_t { error: upng_error::UPNG_EMALFORMED, error_line: ORIGIN_HEADER, ..u })
    }
}

/// The largest buffer the decoder allocates; beyond it the decode fails
/// with `NoMem` as an allocation would.
pub open spec fn alloc_cap() -> int {
    usize::MAX as int / 16
}

/// The outcome of decoding the stream `src`: the pixel buffer, or the
/// error kind paired with the origin stage it is reported from.
pub open spec fn decode_spec(src: Seq<u8>) -> Result<Seq<u8>, (upng_error, u32)> {
    if !header_ok(src) {
        Result::Err((upng_error::UPNG_EMALFORMED, ORIGIN_HEADER))
    } else {
        let w = width_of(src);
        let h = height_of(src);
        let bpp = bpp_of(ctype_of(src), depth_of(src));
        let lb = (w * bpp + 7) / 8;
        let inflated_size = h * (lb + 1);
        if src.len() > alloc_cap() {
            Result::Err((upng_error::UPNG_ENOMEM, ORIGIN_ALLOC))
        } else {
            match idat_concat(src, 33, Seq::empty()) {
                Option::None => Result::Err((upng_error::UPNG_EMALFORMED, ORIGIN_CHUNKS)),
                Option::Some(comp) => {
                    if inflated_size > alloc_cap() {
                        Result::Err((upng_error::UPNG_ENOMEM, ORIGIN_ALLOC))
                    } else {
                        match zlib_spec(comp, inflated_size) {
                            Option::None => Result::Err(
                                (upng_error::UPNG_EMALFORMED, ORIGIN_INFLATE),
                            ),
                            Option::Some(raw) => {
                                if raw.len() != inflated_size {
                                    Result::Err((upng_error::UPNG_EMALFORMED, ORIGIN_INFLATE))
                                } else {
                                    match post_process_spec(raw, w, h, bpp) {
                                        Option::None => Result::Err(
                                            (upng_error::UPNG_EMALFORMED, ORIGIN_FILTER),
                                        ),
                                        Option::Some(px) => Result::Ok(px),
                                    }
                                }
                            },
                        }
                    }
                },
            }
        }
    }
}

impl upng_t {
    /// Validity of a handle: the depth is bounded, and the metadata of a
    /// handle past the header stage agrees with its source bytes.
    pub open spec fn wf(self) -> bool {
        &&& self.color_depth <= 16
        &&& (self.state == upng_state::UPNG_DECODED && self.error == upng_error::UPNG_EOK
            ==> self.buffer@.len() == (self.width * self.height * bpp_of(
            color_byte(self.color_type),
            self.color_depth as int,
        ) + 7) / 8)
        &&& (self.state == upng_state::UPNG_HEADER && self.error == upng_error::UPNG_EOK ==> {
            &&& header_ok(self.source@)
            &&& self.width as int == width_of(self.source@)
            &&& self.height as int == height_of(self.source@)
            &&& self.color_type == spec_color(ctype_of(self.source@))
            &&& self.color_depth as int == depth_of(self.source@)
            &&& self.format == format_of(ctype_of(self.source@), depth_of(self.source@))
        })
    }
}

/// A fresh handle with no source.
pub fn upng_new() -> (u: upng_t)
    ensures
        u.width == 0 && u.height == 0,
        u.color_type == upng_color::UPNG_RGBA && u.color_depth == 0,
        u.format == upng_format::UPNG_RGB8,
        u.buffer@ == Seq::<u8>::empty(),
        u.error == upng_error::UPNG_EOK && u.error_line == ORIGIN_NONE,
        u.state == upng_state::UPNG_NEW,
        u.source@ == Seq::<u8>::empty(),
        u.wf(),
{
    let buffer: Vec<u8> = Vec::new();
    let source: Vec<u8> = Vec::new();
    proof {
        assert(buffer@ =~= Seq::<u8>::empty());
        assert(source@ =~= Seq::<u8>::empty());
    }
    upng_t {
        width: 0,
        height: 0,
        color_type: upng_color::UPNG_RGBA,
        color_depth: 0,
        format: upng_format::UPNG_RGB8,
        buffer,
        error: upng_error::UPNG_EOK,
        error_line: ORIGIN_NONE,
        state: upng_state::UPNG_NEW,
        source,
    }
}

/// A fresh handle over the given source bytes.
pub fn upng_new_from_bytes(buffer: Vec<u8>) -> (u: upng_t)
    ensures
        u.source == buffer,
        u.buffer@ == Seq::<u8>::empty(),
        u.error == upng_error::UPNG_EOK && u.error_line == ORIGIN_NONE,
        u.state == upng_state::UPNG_NEW,
        u.color_depth == 0,
        u.wf(),
{
    let mut u = upng_new();
    u.source = buffer;
    u
}

/// Releases the source bytes of a handle.
pub fn upng_free_source(upng: &mut upng_t)
    ensures
        final(upng).source@ == Seq::<u8>::empty(),
        final(upng).width == old(upng).width && final(upng).height == old(upng).height,
        final(upng).color_type == old(upng).color_type,
        final(upng).color_depth == old(upng).color_depth,
        final(upng).format == old(upng).format,
        final(upng).buffer == old(upng).buffer,
        final(upng).error == old(upng).error && final(upng).error_line == old(upng).error_line,
        final(upng).state == old(upng).state,
{
    let source: Vec<u8> = Vec::new();
    proof {
        assert(source@ =~= Seq::<u8>::empty());
    }
    upng.source = source;
}

/// Destroys a handle, releasing the pixel buffer and the source bytes.
#[allow(unused_variables)]
pub fn upng_free(upng: upng_t) {
}

/// Reads the information from the IHDR chunk and stores it in the handle:
/// a no-op unless the handle is error-free and new.
pub fn upng_header(upng: &mut upng_t) -> (r: upng_error)
    ensures
        *final(upng) == header_transition(*old(upng)),
        r == final(upng).error,
        old(upng).wf() ==> final(upng).wf(),
{
    // if we have an error state, bail now
    if upng.error != upng_error::UPNG_EOK {
        return upng.error;
    }
    // only a NEW handle is ready to parse the header
    if upng.state != upng_state::UPNG_NEW {
        return upng.error;
    }
    // the minimum length of a stream with a signature and an IHDR chunk
    if upng.source.len() < 29 {
        upng.error = upng_error::UPNG_EMALFORMED;
        upng.error_line = ORIGIN_HEADER;
        return upng.error;
    }
    // check that the signature matches the expected value
    if upng.source[0] != 137 || upng.source[1] != 80 || upng.source[2] != 78 || upng.source[3]
        != 71 || upng.source[4] != 13 || upng.source[5] != 10 || upng.source[6] != 26
        || upng.source[7] != 10 {
        upng.error = upng_error::UPNG_EMALFORMED;
        upng.error_line = ORIGIN_HEADER;
        return upng.error;
    }
    // check that the first chunk is the IHDR chunk
    if read_be32(upng.source.as_slice(), 12) != CHUNK_IHDR {
        upng.error = upng_error::UPNG_EMALFORMED;
        upng.error_line = ORIGIN_HEADER;
        return upng.error;
    }
    // read the values given in the header
    let width = read_be32(upng.source.as_slice(), 16);
    let height = read_be32(upng.source.as_slice(), 20);
    let color_depth = upng.source[24] as u32;
    let color_type = match color_from_byte(upng.source[25]) {
        Option::Some(c) => c,
        Option::None => {
            upng.error = upng_error::UPNG_EMALFORMED;
            upng.error_line = ORIGIN_HEADER;
            return upng.error;
        },
    };
    // determine the color format
    let format = determine_format(color_type, color_depth);
    if format == upng_format::UPNG_BADFORMAT {
        upng.error = upng_error::UPNG_EMALFORMED;
        upng.error_line = ORIGIN_HEADER;
        return upng.error;
    }
    // the compression method (byte 26) must be 0
    if upng.source[26] != 0 {
        upng.error = upng_error::UPNG_EMALFORMED;
        upng.error_line = ORIGIN_HEADER;
        return upng.error;
    }
    // the filter method (byte 27) must be 0
    if upng.source[27] != 0 {
        upng.error = upng_error::UPNG_EMALFORMED;
        upng.error_line = ORIGIN_HEADER;
        return upng.error;
    }
    // the interlace method (byte 28) must be 0: Adam7 is not supported
    if upng.source[28] != 0 {
        upng.error = upng_error::UPNG_EMALFORMED;
        upng.error_line = ORIGIN_HEADER;
        return upng.error;
    }
    upng.width = width;
    upng.height = height;
    upng.color_type = color_type;
    upng.color_depth = color_depth;
    upng.format = format;
    upng.state = upng_state::UPNG_HEADER;
    upng.error
}

/// Decodes the image: parses the header if necessary, scans the chunks,
/// inflates the zlib stream, reconstructs the scanlines and stores the
/// pixel buffer.  A no-op on a handle in an error or already-decoded
/// state; on success the source bytes are released.
pub fn upng_decode(upng: &mut upng_t) -> (r: upng_error)
    requires
        old(upng).wf(),
    ensures
        r == final(upng).error,
        final(upng).wf(),
        old(upng).error != upng_error::UPNG_EOK ==> *final(upng) == *old(upng),
        (old(upng).error == upng_error::UPNG_EOK && old(upng).state != upng_state::UPNG_NEW
            && old(upng).state != upng_state::UPNG_HEADER) ==> *final(upng) == *old(upng),
        (old(upng).error == upng_error::UPNG_EOK && old(upng).state == upng_state::UPNG_NEW
            && !header_ok(old(upng).source@)) ==> *final(upng) == header_transition(*old(upng)),
        (old(upng).error == upng_error::UPNG_EOK && (old(upng).state == upng_state::UPNG_NEW
            && header_ok(old(upng).source@) || old(upng).state == upng_state::UPNG_HEADER)) ==> {
            let hu = header_transition(*old(upng));
            match decode_spec(old(upng).source@) {
                Result::Ok(px) => {
                    &&& final(upng).buffer@ == px
                    &&& final(upng).buffer@.len() == (hu.width * hu.height * bpp_of(
                        color_byte(hu.color_type),
                        hu.color_depth as int,
                    ) + 7) / 8
                    &&& final(upng).state == upng_state::UPNG_DECODED
                    &&& final(upng).error == upng_error::UPNG_EOK
                    &&& final(upng).error_line == hu.error_line
                    &&& final(upng).width == hu.width && final(upng).height == hu.height
                    &&& final(upng).color_type == hu.color_type
                    &&& final(upng).color_depth == hu.color_depth
                    &&& final(upng).format == hu.format
                    &&& final(upng).source@ == Seq::<u8>::empty()
                },
                Result::Err(eo) => {
                    &&& final(upng).error == eo.0
                    &&& final(upng).error_line == eo.1
                    &&& final(upng).state == hu.state
                    &&& final(upng).width == hu.width && final(upng).height == hu.height
                    &&& final(upng).color_type == hu.color_type
                    &&& final(upng).color_depth == hu.color_depth
                    &&& final(upng).format == hu.format
                    &&& final(upng).buffer == hu.buffer
                    &&& final(upng).source == old(upng).source
                },
            }
        },
{
    // if we have an error state, bail now
    if upng.error != upng_error::UPNG_EOK {
        return upng.error;
    }
    // parse the main header, if necessary
    upng_header(upng);
    if upng.error != upng_error::UPNG_EOK {
        return upng.error;
    }
    // proceed only when the handle is ready to decode the image
    if upng.state != upng_state::UPNG_HEADER {
        return upng.error;
    }
    let ghost src = upng.source@;
    let w = upng.width;
    let h = upng.height;
    let comps = upng_get_components_of(upng.color_type);
    let bpp: u32 = upng.color_depth * comps;

    // the size cap stands in for the allocator's limit
    if upng.source.len() > usize::MAX / 16 {
        upng.error = upng_error::UPNG_ENOMEM;
        upng.error_line = ORIGIN_ALLOC;
        return upng.error;
    }
    // scan the chunks, concatenating every IDAT payload
    let compressed = match collect_idat(upng.source.as_slice()) {
        Result::Ok(v) => v,
        Result::Err(e) => {
            upng.error = e;
            upng.error_line = ORIGIN_CHUNKS;
            return upng.error;
        },
    };
    // the inflated data: one filter byte per scanline plus the padded rows
    proof {
        assert(w as int * bpp as int <= 0xffffffffu64 * 64) by (nonlinear_arith)
            requires
                0 <= w as int <= 0xffffffffu64,
                0 <= bpp as int <= 64,
        ;
    }
    let lbits: u64 = (w as u64) * (bpp as u64);
    let lb: u64 = (lbits + 7) / 8;
    proof {
        assert(h as int * (lb as int + 1) <= 0xffffffffu64 * 0x900000001u64) by (nonlinear_arith)
            requires
                0 <= h as int <= 0xffffffffu64,
                0 <= lb as int <= 0x900000000u64,
        ;
    }
    let inflated_size_wide: u128 = (h as u128) * ((lb as u128) + 1);
    if inflated_size_wide > (usize::MAX / 16) as u128 {
        upng.error = upng_error::UPNG_ENOMEM;
        upng.error_line = ORIGIN_ALLOC;
        return upng.error;
    }
    let inflated_size: usize = inflated_size_wide as usize;
    // decompress the image data
    let inflated = match uz_inflate(compressed.as_slice(), inflated_size) {
        Result::Ok(v) => v,
        Result::Err(e) => {
            upng.error = e;
            upng.error_line = ORIGIN_INFLATE;
            return upng.error;
        },
    };
    if inflated.len() != inflated_size {
        upng.error = upng_error::UPNG_EMALFORMED;
        upng.error_line = ORIGIN_INFLATE;
        return upng.error;
    }
    // unfilter the scanlines and strip any padding bits
    let pixels = match post_process_scanlines(inflated.as_slice(), w, h, bpp) {
        Result::Ok(v) => v,
        Result::Err(e) => {
            upng.error = e;
            upng.error_line = ORIGIN_FILTER;
            return upng.error;
        },
    };
    upng.buffer = pixels;
    upng.state = upng_state::UPNG_DECODED;
    proof {
        lemma_decode_size(src);
        crate::types::lemma_format_bpp(ctype_of(src), depth_of(src));
    }
    // we are done with the input buffer
    upng_free_source(upng);
    upng.error
}

/// The last error of the handle.
pub fn upng_get_error(upng: &upng_t) -> (r: upng_error)
    ensures
        r == upng.error,
{
    upng.error
}

/// The origin stage of the last error.
pub fn upng_get_error_line(upng: &upng_t) -> (r: u32)
    ensures
        r == upng.error_line,
{
    upng.error_line
}

/// The image width, meaningful from the header stage on.
pub fn upng_get_width(upng: &upng_t) -> (r: u32)
    ensures
        r == upng.width,
{
    upng.width
}

/// The image height, meaningful from the header stage on.
pub fn upng_get_height(upng: &upng_t) -> (r: u32)
    ensures
        r == upng.height,
{
    upng.height
}

/// The sample bit depth per channel.
pub fn upng_get_bitdepth(upng: &upng_t) -> (r: u32)
    ensures
        r == upng.color_depth,
{
    upng.color_depth
}

/// The number of channels of the color type.
pub fn upng_get_components(upng: &upng_t) -> (r: u32)
    ensures
        r as int == components_of(color_byte(upng.color_type)),
        1 <= r <= 4,
{
    upng_get_components_of(upng.color_type)
}

/// Bits per pixel: the bit depth times the number of channels.
pub fn upng_get_bpp(upng: &upng_t) -> (r: u32)
    requires
        upng.wf(),
    ensures
        r as int == bpp_of(color_byte(upng.color_type), upng.color_depth as int),
        r <= 64,
{
    upng_get_bitdepth(upng) * upng_get_components(upng)
}

/// The size of one pixel, in bytes rounded up.
pub fn upng_get_pixelsize(upng: &upng_t) -> (r: u32)
    requires
        upng.wf(),
    ensures
        r as int == (bpp_of(color_byte(upng.color_type), upng.color_depth as int) + 7) / 8,
{
    (upng_get_bpp(upng) + 7) / 8
}

/// The pixel format resolved from the header.
pub fn upng_get_format(upng: &upng_t) -> (r: upng_format)
    ensures
        r == upng.format,
{
    upng.format
}

/// The decoded pixel buffer, meaningful in the decoded state.
pub fn upng_get_buffer(upng: &upng_t) -> (r: &[u8])
    ensures
        r@ == upng.buffer@,
{
    upng.buffer.as_slice()
}

/// The size of the decoded pixel buffer in bytes.
pub fn upng_get_size(upng: &upng_t) -> (r: usize)
    ensures
        r == upng.buffer@.len(),
{
    upng.buffer.len()
}

/// Round-trip shape: a decode that succeeds yields a pixel buffer of
/// exactly `ceil(width * height * bpp / 8)` bytes, for the dimensions and
/// bits per pixel that the header declares.
pub proof fn lemma_decode_size(src: Seq<u8>)
    ensures
        decode_spec(src) matches Result::Ok(px) ==> px.len() == (width_of(src) * height_of(src)
            * bpp_of(ctype_of(src), depth_of(src)) + 7) / 8,
{
    if decode_spec(src) is Ok {
        let w = width_of(src);
        let h = height_of(src);
        let bpp = bpp_of(ctype_of(src), depth_of(src));
        let lb = (w * bpp + 7) / 8;
        let inflated_size = h * (lb + 1);
        let comp = idat_concat(src, 33, Seq::empty())->0;
        let raw = zlib_spec(comp, inflated_size)->0;
        crate::types::lemma_format_bpp(ctype_of(src), depth_of(src));
        assert(post_process_spec(raw, w, h, bpp) is Some);
        crate::filter::lemma_post_process_len(raw, w, h, bpp);
    }
}

} // verus!
