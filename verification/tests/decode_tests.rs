//! End-to-end decoding scenarios over hand-assembled PNG streams.
use upng::decoder::{
    upng_decode, upng_free, upng_get_bitdepth, upng_get_bpp, upng_get_buffer, upng_get_components,
    upng_get_error, upng_get_error_line, upng_get_format, upng_get_height, upng_get_pixelsize,
    upng_get_size, upng_get_width, upng_header, upng_new_from_bytes, upng_t,
};
use upng::types::{upng_error, upng_format};

fn be32(v: u32) -> [u8; 4] {
    [(v >> 24) as u8, (v >> 16) as u8, (v >> 8) as u8, v as u8]
}

fn chunk(ctype: &[u8; 4], payload: &[u8]) -> Vec<u8> {
    let mut v = Vec::new();
    v.extend_from_slice(&be32(payload.len() as u32));
    v.extend_from_slice(ctype);
    v.extend_from_slice(payload);
    v.extend_from_slice(&[0, 0, 0, 0]); // CRC, not validated by the decoder
    v
}

fn png_of(w: u32, h: u32, depth: u8, ctype: u8, idat: &[u8]) -> Vec<u8> {
    let mut v = vec![137, 80, 78, 71, 13, 10, 26, 10];
    let mut ihdr = Vec::new();
    ihdr.extend_from_slice(&be32(w));
    ihdr.extend_from_slice(&be32(h));
    ihdr.push(depth);
    ihdr.push(ctype);
    ihdr.push(0);
    ihdr.push(0);
    ihdr.push(0);
    v.extend(chunk(b"IHDR", &ihdr));
    v.extend(chunk(b"IDAT", idat));
    v.extend(chunk(b"IEND", &[]));
    v
}

fn zlib_stored(raw: &[u8]) -> Vec<u8> {
    let mut v = vec![0x78, 0x01];
    let len = raw.len() as u16;
    let nlen = !len;
    v.push(1); // BFINAL = 1, BTYPE = 00
    v.push((len & 0xFF) as u8);
    v.push((len >> 8) as u8);
    v.push((nlen & 0xFF) as u8);
    v.push((nlen >> 8) as u8);
    v.extend_from_slice(raw);
    v.extend_from_slice(&[0, 0, 0, 0]); // Adler-32, not validated
    v
}

fn decoded(bytes: Vec<u8>) -> upng_t {
    let mut img = upng_new_from_bytes(bytes);
    upng_decode(&mut img);
    img
}

#[test]
fn rgb8_1x1_black() {
    let bytes = png_of(1, 1, 8, 2, &zlib_stored(&[0, 0, 0, 0]));
    assert_eq!(&bytes[..8], &[0x89, 0x50, 0x4E, 0x47, 0x0D, 0x0A, 0x1A, 0x0A]);
    assert_eq!(&bytes[16..29], &[0, 0, 0, 1, 0, 0, 0, 1, 8, 2, 0, 0, 0]);
    let img = decoded(bytes);
    assert_eq!(upng_get_error(&img), upng_error::UPNG_EOK);
    assert_eq!(upng_get_size(&img), 3);
    assert_eq!(upng_get_buffer(&img), &[0, 0, 0]);
    assert_eq!(upng_get_format(&img), upng_format::UPNG_RGB8);
}

#[test]
fn rgba8_2x2_checker() {
    let mut raw = Vec::new();
    raw.push(0);
    raw.extend_from_slice(&[0, 0, 0, 255, 255, 255, 255, 255]);
    raw.push(0);
    raw.extend_from_slice(&[255, 255, 255, 255, 0, 0, 0, 255]);
    let img = decoded(png_of(2, 2, 8, 6, &zlib_stored(&raw)));
    assert_eq!(upng_get_error(&img), upng_error::UPNG_EOK);
    assert_eq!(upng_get_size(&img), 16);
    let buf = upng_get_buffer(&img);
    assert_eq!(&buf[0..4], &[0, 0, 0, 255]); // pixel (0, 0)
    assert_eq!(&buf[4..8], &[255, 255, 255, 255]); // pixel (1, 0)
    assert_eq!(&buf[8..12], &[255, 255, 255, 255]); // pixel (0, 1)
    assert_eq!(&buf[12..16], &[0, 0, 0, 255]); // pixel (1, 1)
}

#[test]
fn lum1_8x1() {
    let img = decoded(png_of(8, 1, 1, 0, &zlib_stored(&[0, 0xAA])));
    assert_eq!(upng_get_error(&img), upng_error::UPNG_EOK);
    assert_eq!(upng_get_size(&img), 1);
    assert_eq!(upng_get_buffer(&img), &[0xAA]);
    assert_eq!(upng_get_format(&img), upng_format::UPNG_LUMINANCE1);
}

#[test]
fn lum1_3x1_padding() {
    let img = decoded(png_of(3, 1, 1, 0, &zlib_stored(&[0, 0xA0])));
    assert_eq!(upng_get_error(&img), upng_error::UPNG_EOK);
    assert_eq!(upng_get_size(&img), 1);
    assert_eq!(upng_get_buffer(&img), &[0b1010_0000]);
}

#[test]
fn lum1_3x2_padding_packs_rows() {
    let mut raw = Vec::new();
    raw.push(0);
    raw.push(0xA0); // bits 101
    raw.push(0);
    raw.push(0x40); // bits 010
    let img = decoded(png_of(3, 2, 1, 0, &zlib_stored(&raw)));
    assert_eq!(upng_get_error(&img), upng_error::UPNG_EOK);
    assert_eq!(upng_get_size(&img), 1);
    assert_eq!(upng_get_buffer(&img), &[0b1010_1000]);
}

#[test]
fn truncated_idat() {
    let mut bytes = png_of(1, 1, 8, 2, &zlib_stored(&[0, 0, 0, 0]));
    bytes.truncate(bytes.len() - 4);
    let img = decoded(bytes);
    assert_eq!(upng_get_error(&img), upng_error::UPNG_EMALFORMED);
    upng_free(img); // the handle is still freeable
}

#[test]
fn truncated_inside_idat() {
    let full = zlib_stored(&[0, 0, 0, 0]);
    let short = &full[..full.len() - 7]; // cut into the stored payload
    let img = decoded(png_of(1, 1, 8, 2, short));
    assert_eq!(upng_get_error(&img), upng_error::UPNG_EMALFORMED);
}

#[test]
fn palette_rejected() {
    let img = decoded(png_of(1, 1, 8, 3, &zlib_stored(&[0, 0])));
    assert_eq!(upng_get_error(&img), upng_error::UPNG_EMALFORMED);
    assert_eq!(upng_get_size(&img), 0); // no buffer was produced
}

#[test]
fn interlace_rejected() {
    let mut bytes = png_of(1, 1, 8, 2, &zlib_stored(&[0, 0, 0, 0]));
    bytes[28] = 1; // Adam7
    let img = decoded(bytes);
    assert_eq!(upng_get_error(&img), upng_error::UPNG_EMALFORMED);
}

#[test]
fn compression_method_rejected() {
    let mut bytes = png_of(1, 1, 8, 2, &zlib_stored(&[0, 0, 0, 0]));
    bytes[26] = 1;
    let img = decoded(bytes);
    assert_eq!(upng_get_error(&img), upng_error::UPNG_EMALFORMED);
}

#[test]
fn bad_signature_rejected() {
    let mut bytes = png_of(1, 1, 8, 2, &zlib_stored(&[0, 0, 0, 0]));
    bytes[0] = 0x88;
    let img = decoded(bytes);
    assert_eq!(upng_get_error(&img), upng_error::UPNG_EMALFORMED);
}

#[test]
fn illegal_depth_rejected() {
    let img = decoded(png_of(1, 1, 3, 2, &zlib_stored(&[0, 0, 0, 0])));
    assert_eq!(upng_get_error(&img), upng_error::UPNG_EMALFORMED);
}

#[test]
fn sub_filter_row() {
    let mut raw = Vec::new();
    raw.push(1); // Sub
    raw.extend_from_slice(&[10, 20, 30, 5, 5, 5, 1, 2, 3]);
    let img = decoded(png_of(3, 1, 8, 2, &zlib_stored(&raw)));
    assert_eq!(upng_get_error(&img), upng_error::UPNG_EOK);
    assert_eq!(upng_get_buffer(&img), &[10, 20, 30, 15, 25, 35, 16, 27, 38]);
}

#[test]
fn up_filter_row() {
    let mut raw = Vec::new();
    raw.push(0);
    raw.extend_from_slice(&[10, 20, 30]);
    raw.push(2); // Up
    raw.extend_from_slice(&[1, 2, 3]);
    let img = decoded(png_of(1, 2, 8, 2, &zlib_stored(&raw)));
    assert_eq!(upng_get_error(&img), upng_error::UPNG_EOK);
    assert_eq!(upng_get_buffer(&img), &[10, 20, 30, 11, 22, 33]);
}

#[test]
fn average_filter_row() {
    let mut raw = Vec::new();
    raw.push(0);
    raw.extend_from_slice(&[10, 20]);
    raw.push(3); // Average
    raw.extend_from_slice(&[10, 10]);
    let img = decoded(png_of(2, 2, 8, 0, &zlib_stored(&raw)));
    assert_eq!(upng_get_error(&img), upng_error::UPNG_EOK);
    assert_eq!(upng_get_buffer(&img), &[10, 20, 15, 27]);
}

#[test]
fn paeth_filter_row() {
    let mut raw = Vec::new();
    raw.push(0);
    raw.extend_from_slice(&[10, 20]);
    raw.push(4); // Paeth
    raw.extend_from_slice(&[5, 5]);
    let img = decoded(png_of(2, 2, 8, 0, &zlib_stored(&raw)));
    assert_eq!(upng_get_error(&img), upng_error::UPNG_EOK);
    assert_eq!(upng_get_buffer(&img), &[10, 20, 15, 25]);
}

#[test]
fn unknown_filter_type_rejected() {
    let img = decoded(png_of(1, 1, 8, 0, &zlib_stored(&[5, 7])));
    assert_eq!(upng_get_error(&img), upng_error::UPNG_EMALFORMED);
}

#[test]
fn rgb16_passthrough() {
    let mut raw = Vec::new();
    raw.push(0);
    raw.extend_from_slice(&[1, 2, 3, 4, 5, 6]); // network byte order stays
    let img = decoded(png_of(1, 1, 16, 2, &zlib_stored(&raw)));
    assert_eq!(upng_get_error(&img), upng_error::UPNG_EOK);
    assert_eq!(upng_get_size(&img), 6);
    assert_eq!(upng_get_buffer(&img), &[1, 2, 3, 4, 5, 6]);
}

#[test]
fn ancillary_chunk_skipped() {
    let mut v = vec![137, 80, 78, 71, 13, 10, 26, 10];
    let mut ihdr = Vec::new();
    ihdr.extend_from_slice(&be32(1));
    ihdr.extend_from_slice(&be32(1));
    ihdr.extend_from_slice(&[8, 0, 0, 0, 0]);
    v.extend(chunk(b"IHDR", &ihdr));
    v.extend(chunk(b"tEXt", b"comment"));
    v.extend(chunk(b"IDAT", &zlib_stored(&[0, 42])));
    v.extend(chunk(b"IEND", &[]));
    let img = decoded(v);
    assert_eq!(upng_get_error(&img), upng_error::UPNG_EOK);
    assert_eq!(upng_get_buffer(&img), &[42]);
}

#[test]
fn unknown_critical_chunk_rejected() {
    let mut v = vec![137, 80, 78, 71, 13, 10, 26, 10];
    let mut ihdr = Vec::new();
    ihdr.extend_from_slice(&be32(1));
    ihdr.extend_from_slice(&be32(1));
    ihdr.extend_from_slice(&[8, 0, 0, 0, 0]);
    v.extend(chunk(b"IHDR", &ihdr));
    v.extend(chunk(b"ABCD", b"x")); // bit 5 of 'A' is clear: critical
    v.extend(chunk(b"IDAT", &zlib_stored(&[0, 42])));
    v.extend(chunk(b"IEND", &[]));
    let img = decoded(v);
    assert_eq!(upng_get_error(&img), upng_error::UPNG_EMALFORMED);
}

#[test]
fn idat_split_across_chunks() {
    let stream = zlib_stored(&[0, 42]);
    let (first, second) = stream.split_at(4);
    let mut v = vec![137, 80, 78, 71, 13, 10, 26, 10];
    let mut ihdr = Vec::new();
    ihdr.extend_from_slice(&be32(1));
    ihdr.extend_from_slice(&be32(1));
    ihdr.extend_from_slice(&[8, 0, 0, 0, 0]);
    v.extend(chunk(b"IHDR", &ihdr));
    v.extend(chunk(b"IDAT", first));
    v.extend(chunk(b"IDAT", second));
    v.extend(chunk(b"IEND", &[]));
    let img = decoded(v);
    assert_eq!(upng_get_error(&img), upng_error::UPNG_EOK);
    assert_eq!(upng_get_buffer(&img), &[42]);
}

#[test]
fn no_idat_rejected() {
    let mut v = vec![137, 80, 78, 71, 13, 10, 26, 10];
    let mut ihdr = Vec::new();
    ihdr.extend_from_slice(&be32(1));
    ihdr.extend_from_slice(&be32(1));
    ihdr.extend_from_slice(&[8, 0, 0, 0, 0]);
    v.extend(chunk(b"IHDR", &ihdr));
    v.extend(chunk(b"IEND", &[]));
    let img = decoded(v);
    assert_eq!(upng_get_error(&img), upng_error::UPNG_EMALFORMED);
}

#[test]
fn header_idempotent() {
    let mut img = upng_new_from_bytes(png_of(2, 3, 8, 6, &zlib_stored(&[0; 17])));
    assert_eq!(upng_header(&mut img), upng_error::UPNG_EOK);
    let (w1, h1, d1, f1) = (
        upng_get_width(&img),
        upng_get_height(&img),
        upng_get_bitdepth(&img),
        upng_get_format(&img),
    );
    assert_eq!(upng_header(&mut img), upng_error::UPNG_EOK);
    assert_eq!(upng_get_width(&img), w1);
    assert_eq!(upng_get_height(&img), h1);
    assert_eq!(upng_get_bitdepth(&img), d1);
    assert_eq!(upng_get_format(&img), f1);
    assert_eq!((w1, h1, d1, f1), (2, 3, 8, upng_format::UPNG_RGBA8));
}

#[test]
fn decode_after_success_is_noop() {
    let mut img = upng_new_from_bytes(png_of(1, 1, 8, 2, &zlib_stored(&[0, 1, 2, 3])));
    assert_eq!(upng_decode(&mut img), upng_error::UPNG_EOK);
    let first: Vec<u8> = upng_get_buffer(&img).to_vec();
    assert_eq!(upng_decode(&mut img), upng_error::UPNG_EOK);
    assert_eq!(upng_get_buffer(&img), &first[..]);
    assert_eq!(first, vec![1, 2, 3]);
}

#[test]
fn error_is_sticky() {
    let mut img = upng_new_from_bytes(vec![1, 2, 3]);
    assert_eq!(upng_decode(&mut img), upng_error::UPNG_EMALFORMED);
    assert_eq!(upng_header(&mut img), upng_error::UPNG_EMALFORMED);
    assert_eq!(upng_decode(&mut img), upng_error::UPNG_EMALFORMED);
    assert_eq!(upng_get_error(&img), upng_error::UPNG_EMALFORMED);
    assert!(upng_get_error_line(&img) != 0);
}

#[test]
fn header_accessors() {
    let mut img = upng_new_from_bytes(png_of(4, 5, 1, 0, &zlib_stored(&[0; 10])));
    upng_header(&mut img);
    assert_eq!(upng_get_error(&img), upng_error::UPNG_EOK);
    assert_eq!(upng_get_width(&img), 4);
    assert_eq!(upng_get_height(&img), 5);
    assert_eq!(upng_get_bitdepth(&img), 1);
    assert_eq!(upng_get_components(&img), 1);
    assert_eq!(upng_get_bpp(&img), 1);
    assert_eq!(upng_get_pixelsize(&img), 1);
    assert_eq!(upng_get_format(&img), upng_format::UPNG_LUMINANCE1);
}

#[test]
fn lum4_2x2() {
    // depth 4, width 2: each row is exactly one byte, no padding pass
    let mut raw = Vec::new();
    raw.push(0);
    raw.push(0x12);
    raw.push(0);
    raw.push(0x34);
    let img = decoded(png_of(2, 2, 4, 0, &zlib_stored(&raw)));
    assert_eq!(upng_get_error(&img), upng_error::UPNG_EOK);
    assert_eq!(upng_get_size(&img), 2);
    assert_eq!(upng_get_buffer(&img), &[0x12, 0x34]);
}

#[test]
fn truncation_sweep_never_succeeds() {
    // chopping the stream anywhere must give an error, never a crash or
    // an out-of-bounds read
    let bytes = png_of(2, 2, 8, 6, &zlib_stored(&[0, 1, 2, 3, 4, 5, 6, 7, 8, 0, 9, 9, 9, 9, 9, 9, 9, 9]));
    // the one cut that removes the whole IEND chunk leaves a complete
    // image, which the scanner tolerates; everything else must fail
    let complete_without_iend = bytes.len() - 12;
    for cut in 0..bytes.len() {
        let img = decoded(bytes[..cut].to_vec());
        if cut == complete_without_iend {
            assert_eq!(upng_get_error(&img), upng_error::UPNG_EOK);
        } else {
            assert!(upng_get_error(&img) != upng_error::UPNG_EOK, "cut at {cut}");
        }
    }
    let img = decoded(bytes);
    assert_eq!(upng_get_error(&img), upng_error::UPNG_EOK);
}

#[test]
fn oversized_image_reports_no_memory() {
    // the declared dimensions ask for a buffer past the allocation cap
    let img = decoded(png_of(0xFFFF_FFFF, 0xFFFF_FFFF, 16, 6, &zlib_stored(&[0, 0])));
    assert_eq!(upng_get_error(&img), upng_error::UPNG_ENOMEM);
}

#[test]
fn luma8_1x1() {
    let img = decoded(png_of(1, 1, 8, 4, &zlib_stored(&[0, 7, 200])));
    assert_eq!(upng_get_error(&img), upng_error::UPNG_EOK);
    assert_eq!(upng_get_format(&img), upng_format::UPNG_LUMINANCE_ALPHA8);
    assert_eq!(upng_get_buffer(&img), &[7, 200]);
    assert_eq!(upng_get_bpp(&img), 16);
}

#[test]
fn lum2_4x1() {
    // depth 2, width 4: one whole byte per row, four two-bit samples
    let img = decoded(png_of(4, 1, 2, 0, &zlib_stored(&[0, 0b00_01_10_11])));
    assert_eq!(upng_get_error(&img), upng_error::UPNG_EOK);
    assert_eq!(upng_get_buffer(&img), &[0b00_01_10_11]);
    assert_eq!(upng_get_format(&img), upng_format::UPNG_LUMINANCE2);
}

#[test]
fn underfull_idat_rejected() {
    // the stream inflates to fewer bytes than the scanlines need
    let img = decoded(png_of(1, 1, 8, 0, &zlib_stored(&[0])));
    assert_eq!(upng_get_error(&img), upng_error::UPNG_EMALFORMED);
}

#[test]
fn overfull_idat_rejected() {
    // the stream inflates to more bytes than the scanlines need
    let img = decoded(png_of(1, 1, 8, 0, &zlib_stored(&[0, 1, 2])));
    assert_eq!(upng_get_error(&img), upng_error::UPNG_EMALFORMED);
}
