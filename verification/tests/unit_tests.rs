//! Unit tests of the bit reader, the Paeth predictor, the format mapping,
//! the Huffman builder and the sub-byte unpacker.
use upng::bits::{read_bit, read_bits};
use upng::filter::{paeth_predictor, remove_padding_bits, unfilter_scanline};
use upng::huffman::{fixed_dist_lengths_vec, fixed_lit_lengths_vec, huffman_tree_create_lengths};
use upng::types::{determine_format, upng_color, upng_error, upng_format, upng_get_components_of};

#[test]
fn read_single_bits() {
    // 0xB2 = 1011_0010: LSB-first the bits are 0,1,0,0,1,1,0,1
    let s = [0xB2u8];
    let expect = [0u8, 1, 0, 0, 1, 1, 0, 1];
    for (i, e) in expect.iter().enumerate() {
        assert_eq!(read_bit(&s, i), *e);
    }
}

#[test]
fn read_bit_groups() {
    let s = [0xB2u8, 0x01];
    assert_eq!(read_bits(&s, 0, 8), 0xB2);
    assert_eq!(read_bits(&s, 1, 3), 0b001);
    assert_eq!(read_bits(&s, 4, 4), 0b1011);
    assert_eq!(read_bits(&s, 6, 4), 0b0110); // crosses the byte boundary
    assert_eq!(read_bits(&s, 3, 0), 0);
}

#[test]
fn paeth_predictor_values() {
    assert_eq!(paeth_predictor(0, 10, 0), 10);
    assert_eq!(paeth_predictor(10, 20, 10), 20);
    assert_eq!(paeth_predictor(100, 50, 60), 100); // 90 is closest to a
    assert_eq!(paeth_predictor(5, 5, 5), 5);
    assert_eq!(paeth_predictor(255, 0, 255), 0);
}

#[test]
fn paeth_predictor_stays_in_set() {
    // the predictor always answers with one of its inputs
    for a in [0i32, 1, 7, 128, 254, 255] {
        for b in [0i32, 3, 99, 255] {
            for c in [0i32, 5, 200, 255] {
                let r = paeth_predictor(a, b, c);
                assert!(r == a || r == b || r == c);
            }
        }
    }
}

#[test]
fn format_mapping() {
    assert_eq!(determine_format(upng_color::UPNG_RGB, 8), upng_format::UPNG_RGB8);
    assert_eq!(determine_format(upng_color::UPNG_RGB, 16), upng_format::UPNG_RGB16);
    assert_eq!(determine_format(upng_color::UPNG_RGBA, 8), upng_format::UPNG_RGBA8);
    assert_eq!(determine_format(upng_color::UPNG_RGBA, 16), upng_format::UPNG_RGBA16);
    assert_eq!(determine_format(upng_color::UPNG_LUM, 1), upng_format::UPNG_LUMINANCE1);
    assert_eq!(determine_format(upng_color::UPNG_LUM, 2), upng_format::UPNG_LUMINANCE2);
    assert_eq!(determine_format(upng_color::UPNG_LUM, 4), upng_format::UPNG_LUMINANCE4);
    assert_eq!(determine_format(upng_color::UPNG_LUM, 8), upng_format::UPNG_LUMINANCE8);
    assert_eq!(determine_format(upng_color::UPNG_LUMA, 1), upng_format::UPNG_LUMINANCE_ALPHA1);
    assert_eq!(determine_format(upng_color::UPNG_LUMA, 8), upng_format::UPNG_LUMINANCE_ALPHA8);
    assert_eq!(determine_format(upng_color::UPNG_RGB, 1), upng_format::UPNG_BADFORMAT);
    assert_eq!(determine_format(upng_color::UPNG_LUM, 16), upng_format::UPNG_BADFORMAT);
    assert_eq!(determine_format(upng_color::UPNG_RGBA, 4), upng_format::UPNG_BADFORMAT);
}

#[test]
fn component_counts() {
    assert_eq!(upng_get_components_of(upng_color::UPNG_LUM), 1);
    assert_eq!(upng_get_components_of(upng_color::UPNG_LUMA), 2);
    assert_eq!(upng_get_components_of(upng_color::UPNG_RGB), 3);
    assert_eq!(upng_get_components_of(upng_color::UPNG_RGBA), 4);
}

#[test]
fn error_code_order() {
    // the stable integer mapping of the error kinds
    assert_eq!(upng_error::UPNG_EOK as i32, 0);
    assert_eq!(upng_error::UPNG_ENOMEM as i32, 1);
    assert_eq!(upng_error::UPNG_ENOTFOUND as i32, 2);
    assert_eq!(upng_error::UPNG_ENOTPNG as i32, 3);
    assert_eq!(upng_error::UPNG_EMALFORMED as i32, 4);
    assert_eq!(upng_error::UPNG_EUNSUPPORTED as i32, 5);
    assert_eq!(upng_error::UPNG_EUNINTERLACED as i32, 6);
    assert_eq!(upng_error::UPNG_EUNFORMAT as i32, 7);
    assert_eq!(upng_error::UPNG_EPARAM as i32, 8);
}

#[test]
fn format_code_order() {
    // the stable integer mapping of the pixel formats
    assert_eq!(upng_format::UPNG_BADFORMAT as i32, 0);
    assert_eq!(upng_format::UPNG_RGB8 as i32, 1);
    assert_eq!(upng_format::UPNG_RGB16 as i32, 2);
    assert_eq!(upng_format::UPNG_RGBA8 as i32, 3);
    assert_eq!(upng_format::UPNG_RGBA16 as i32, 4);
    assert_eq!(upng_format::UPNG_LUMINANCE1 as i32, 5);
    assert_eq!(upng_format::UPNG_LUMINANCE8 as i32, 8);
    assert_eq!(upng_format::UPNG_LUMINANCE_ALPHA8 as i32, 12);
}

#[test]
fn fixed_trees_build() {
    let ll = fixed_lit_lengths_vec();
    assert_eq!(ll.len(), 288);
    assert_eq!((ll[0], ll[143], ll[144], ll[255], ll[256], ll[279], ll[280], ll[287]), (
        8, 8, 9, 9, 7, 7, 8, 8,
    ));
    let lt = huffman_tree_create_lengths(&ll, 15).expect("the fixed literal tree builds");
    assert_eq!(lt.numcodes, 288);
    assert_eq!(lt.tree2d.len(), 576);
    let dl = fixed_dist_lengths_vec();
    assert_eq!(dl, vec![5u32; 32]);
    let dt = huffman_tree_create_lengths(&dl, 15).expect("the fixed distance tree builds");
    assert_eq!(dt.numcodes, 32);
}

#[test]
fn oversubscribed_lengths_rejected() {
    // three codes of length one cannot coexist
    let bad = vec![1u32, 1, 1];
    assert!(matches!(huffman_tree_create_lengths(&bad, 15), Err(upng_error::UPNG_EMALFORMED)));
}

#[test]
fn unfilter_scanline_sub() {
    let recon = unfilter_scanline(&[10, 20, 30, 5, 5, 5], None, 3, 1).expect("Sub unfilters");
    assert_eq!(recon, vec![10, 20, 30, 15, 25, 35]);
}

#[test]
fn unfilter_scanline_wraps_modulo_256() {
    let recon = unfilter_scanline(&[200, 100], None, 1, 1).expect("Sub unfilters");
    assert_eq!(recon, vec![200, 44]); // 100 + 200 == 300 == 44 mod 256
}

#[test]
fn unfilter_scanline_unknown_type() {
    assert_eq!(unfilter_scanline(&[1, 2], None, 1, 5), Err(upng_error::UPNG_EMALFORMED));
}

#[test]
fn remove_padding_packs_two_rows() {
    // two rows of 3 significant bits each, stored one padded byte per row
    let packed = remove_padding_bits(&[0xA0, 0x40], 3, 8, 2);
    assert_eq!(packed, vec![0b1010_1000]);
}

#[test]
fn remove_padding_whole_bytes() {
    // 12 significant bits per row over 2 bytes of 16
    let packed = remove_padding_bits(&[0xAB, 0xC0, 0x12, 0x30], 12, 16, 2);
    assert_eq!(packed, vec![0xAB, 0xC1, 0x23]);
}
