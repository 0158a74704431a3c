//! Error, state, color-type and pixel-format enumerations, and the mapping
//! from an IHDR (color type, bit depth) pair to a pixel format.
use vstd::prelude::*;

verus! {

/// Error kinds, declared in their stable integer order (`OK` is 0).
#[derive(Clone, Copy, PartialEq, Eq, Structural, Debug)]
pub enum upng_error {
    UPNG_EOK,
    UPNG_ENOMEM,
    UPNG_ENOTFOUND,
    UPNG_ENOTPNG,
    UPNG_EMALFORMED,
    UPNG_EUNSUPPORTED,
    UPNG_EUNINTERLACED,
    UPNG_EUNFORMAT,
    UPNG_EPARAM,
}

/// Pixel formats, declared in their stable integer order (`BADFORMAT` is 0).
#[derive(Clone, Copy, PartialEq, Eq, Structural, Debug)]
pub enum upng_format {
    UPNG_BADFORMAT,
    UPNG_RGB8,
    UPNG_RGB16,
    UPNG_RGBA8,
    UPNG_RGBA16,
    UPNG_LUMINANCE1,
    UPNG_LUMINANCE2,
    UPNG_LUMINANCE4,
    UPNG_LUMINANCE8,
    UPNG_LUMINANCE_ALPHA1,
    UPNG_LUMINANCE_ALPHA2,
    UPNG_LUMINANCE_ALPHA4,
    UPNG_LUMINANCE_ALPHA8,
}

/// Lifecycle states of an image handle.
#[derive(Clone, Copy, PartialEq, Eq, Structural, Debug)]
pub enum upng_state {
    UPNG_ERROR,
    UPNG_DECODED,
    UPNG_HEADER,
    UPNG_NEW,
}

/// Color types of the supported PNG images (wire values 0, 2, 4, 6).
#[derive(Clone, Copy, PartialEq, Eq, Structural, Debug)]
pub enum upng_color {
    UPNG_LUM,
    UPNG_RGB,
    UPNG_LUMA,
    UPNG_RGBA,
}

/// The wire value of a color type in the IHDR chunk.
pub open spec fn color_byte(ct: upng_color) -> int {
    match ct {
        upng_color::UPNG_LUM => 0,
        upng_color::UPNG_RGB => 2,
        upng_color::UPNG_LUMA => 4,
        upng_color::UPNG_RGBA => 6,
    }
}

/// Samples per pixel for a color-type wire value; 0 for unknown values.
pub open spec fn components_of(ct: int) -> int {
    if ct == 0 {
        1
    } else if ct == 2 {
        3
    } else if ct == 4 {
        2
    } else if ct == 6 {
        4
    } else {
        0
    }
}

/// Bits per pixel for a (color type, depth) wire pair.
pub open spec fn bpp_of(ct: int, depth: int) -> int {
    depth * components_of(ct)
}

/// The pixel format for a (color type, depth) wire pair; `BADFORMAT` for
/// every pairing the decoder does not support.
pub open spec fn format_of(ct: int, depth: int) -> upng_format {
    if ct == 0 {
        if depth == 1 {
            upng_format::UPNG_LUMINANCE1
        } else if depth == 2 {
            upng_format::UPNG_LUMINANCE2
        } else if depth == 4 {
            upng_format::UPNG_LUMINANCE4
        } else if depth == 8 {
            upng_format::UPNG_LUMINANCE8
        } else {
            upng_format::UPNG_BADFORMAT
        }
    } else if ct == 2 {
        if depth == 8 {
            upng_format::UPNG_RGB8
        } else if depth == 16 {
            upng_format::UPNG_RGB16
        } else {
            upng_format::UPNG_BADFORMAT
        }
    } else if ct == 4 {
        if depth == 1 {
            upng_format::UPNG_LUMINANCE_ALPHA1
        } else if depth == 2 {
            upng_format::UPNG_LUMINANCE_ALPHA2
        } else if depth == 4 {
            upng_format::UPNG_LUMINANCE_ALPHA4
        } else if depth == 8 {
            upng_format::UPNG_LUMINANCE_ALPHA8
        } else {
            upng_format::UPNG_BADFORMAT
        }
    } else if ct == 6 {
        if depth == 8 {
            upng_format::UPNG_RGBA8
        } else if depth == 16 {
            upng_format::UPNG_RGBA16
        } else {
            upng_format::UPNG_BADFORMAT
        }
    } else {
        upng_format::UPNG_BADFORMAT
    }
}

/// Maps a color-type wire value to the enumeration; `None` for unsupported
/// values (in particular 3, indexed color).
pub fn color_from_byte(b: u8) -> (r: Option<upng_color>)
    ensures
        r is Some <==> (b == 0 || b == 2 || b == 4 || b == 6),
        r is Some ==> color_byte(r->0) == b as int,
{
    if b == 0 {
        Some(upng_color::UPNG_LUM)
    } else if b == 2 {
        Some(upng_color::UPNG_RGB)
    } else if b == 4 {
        Some(upng_color::UPNG_LUMA)
    } else if b == 6 {
        Some(upng_color::UPNG_RGBA)
    } else {
        None
    }
}

/// Samples per pixel of a color type.
pub fn upng_get_components_of(ct: upng_color) -> (r: u32)
    ensures
        r as int == components_of(color_byte(ct)),
        1 <= r <= 4,
{
    match ct {
        upng_color::UPNG_LUM => 1,
        upng_color::UPNG_RGB => 3,
        upng_color::UPNG_LUMA => 2,
        upng_color::UPNG_RGBA => 4,
    }
}

/// Resolves the pixel format of a (color type, depth) pair.
pub fn determine_format(color_type: upng_color, color_depth: u32) -> (f: upng_format)
    ensures
        f == format_of(color_byte(color_type), color_depth as int),
{
    match color_type {
        upng_color::UPNG_LUM => {
            if color_depth == 1 {
                upng_format::UPNG_LUMINANCE1
            } else if color_depth == 2 {
                upng_format::UPNG_LUMINANCE2
            } else if color_depth == 4 {
                upng_format::UPNG_LUMINANCE4
            } else if color_depth == 8 {
                upng_format::UPNG_LUMINANCE8
            } else {
                upng_format::UPNG_BADFORMAT
            }
        },
        upng_color::UPNG_RGB => {
            if color_depth == 8 {
                upng_format::UPNG_RGB8
            } else if color_depth == 16 {
                upng_format::UPNG_RGB16
            } else {
                upng_format::UPNG_BADFORMAT
            }
        },
        upng_color::UPNG_LUMA => {
            if color_depth == 1 {
                upng_format::UPNG_LUMINANCE_ALPHA1
            } else if color_depth == 2 {
                upng_format::UPNG_LUMINANCE_ALPHA2
            } else if color_depth == 4 {
                upng_format::UPNG_LUMINANCE_ALPHA4
            } else if color_depth == 8 {
                upng_format::UPNG_LUMINANCE_ALPHA8
            } else {
                upng_format::UPNG_BADFORMAT
            }
        },
        upng_color::UPNG_RGBA => {
            if color_depth == 8 {
                upng_format::UPNG_RGBA8
            } else if color_depth == 16 {
                upng_format::UPNG_RGBA16
            } else {
                upng_format::UPNG_BADFORMAT
            }
        },
    }
}

/// A supported (color type, depth) pair pins the depth to a legal sample
/// width and the bits per pixel to a byte multiple once a byte or more.
pub proof fn lemma_format_bpp(ct: int, depth: int)
    requires
        format_of(ct, depth) != upng_format::UPNG_BADFORMAT,
    ensures
        1 <= bpp_of(ct, depth) <= 64,
        bpp_of(ct, depth) >= 8 ==> bpp_of(ct, depth) % 8 == 0,
        depth == 1 || depth == 2 || depth == 4 || depth == 8 || depth == 16,
        ct == 0 || ct == 2 || ct == 4 || ct == 6,
{
}

} // verus!
