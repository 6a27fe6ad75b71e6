use imagine::image::Bitmap;
use imagine::netpbm::automatic::{netpbm_pixel_groups, netpbm_rgba_unscaled, pad_with_black};
use imagine::netpbm::pnm::{netpbm_for_each_rgb, netpbm_try_bitmap_rgb, NetpbmRgb};
use imagine::netpbm::{netpbm_parse_header, NetpbmAsciiU8Iter, NetpbmDataFormat, NetpbmError};
use imagine::pixel_formats::RGBA8888;
use imagine::{try_bitmap_rgba, ImagineError};

fn rgba(r: u8, g: u8, b: u8, a: u8) -> RGBA8888 {
    RGBA8888 { r, g, b, a }
}

fn with_data(head: &[u8], data: &[u8]) -> Vec<u8> {
    let mut v = head.to_vec();
    v.extend_from_slice(data);
    v
}

#[test]
fn netpbm_header_formats() {
    let (h, px) = netpbm_parse_header(b"P5\n2 1\n255\n\x07\x09").unwrap();
    assert_eq!((h.width, h.height), (2, 1));
    assert_eq!(h.data_format, NetpbmDataFormat::Binary_Y_U8 { max: 255 });
    assert_eq!(px, &[7, 9]);
    let (h, _) = netpbm_parse_header(b"P3 1 1 # comment\n 4000 1 2 3").unwrap();
    assert_eq!(h.data_format, NetpbmDataFormat::Ascii_RGB_U16 { max: 4000 });
    assert!(netpbm_parse_header(b"Q5 1 1 255 ").is_err());
    assert_eq!(netpbm_parse_header(b"P5 1 1 255").unwrap_err(), NetpbmError::InsufficientBytes);
}

#[test]
fn netpbm_ascii_bits_to_rgba() {
    let (v, w, h) = netpbm_rgba_unscaled(b"P1\n3 1\n1 0 x1").unwrap().unwrap();
    assert_eq!((w, h), (3, 1));
    assert_eq!(v, vec![rgba(0, 0, 0, 255), rgba(255, 255, 255, 255), rgba(0, 0, 0, 255)]);
}

#[test]
fn netpbm_binary_bits_to_rgba() {
    let f = with_data(b"P4\n3 1\n", &[0b1010_0000]);
    let (v, _, _) = netpbm_rgba_unscaled(&f).unwrap().unwrap();
    assert_eq!(v, vec![rgba(0, 0, 0, 255), rgba(255, 255, 255, 255), rgba(0, 0, 0, 255)]);
}

#[test]
fn netpbm_gray_and_color_bytes_to_rgba() {
    let (v, _, _) = netpbm_rgba_unscaled(b"P2 2 2 255 1 999 2 3 4").unwrap().unwrap();
    assert_eq!(v.iter().map(|p| p.r).collect::<Vec<_>>(), vec![1, 2, 3, 4]);
    let f = with_data(b"P5\n2 1\n255\n", &[7, 9, 11]);
    let (v, _, _) = netpbm_rgba_unscaled(&f).unwrap().unwrap();
    assert_eq!(v, vec![rgba(7, 7, 7, 255), rgba(9, 9, 9, 255)]);
    let f = with_data(b"P6\n1 1\n255\n", &[1, 2, 3]);
    let (v, _, _) = netpbm_rgba_unscaled(&f).unwrap().unwrap();
    assert_eq!(v, vec![rgba(1, 2, 3, 255)]);
    let f = with_data(b"P7\nWIDTH 1\nHEIGHT 1\nDEPTH 4\nMAXVAL 255\nTUPLTYPE RGB_ALPHA\nENDHDR\n", &[1, 2, 3, 4]);
    let (v, _, _) = netpbm_rgba_unscaled(&f).unwrap().unwrap();
    assert_eq!(v, vec![rgba(1, 2, 3, 4)]);
}

#[test]
fn netpbm_partial_groups_and_scaled_formats() {
    let f = with_data(b"P6\n2 1\n255\n", &[1, 2, 3, 4]);
    assert_eq!(netpbm_rgba_unscaled(&f), Err(NetpbmError::InsufficientBytes));
    assert_eq!(netpbm_rgba_unscaled(b"P2\n2 1\n15\n1 2"), Ok(None));
    let f = with_data(b"P5\n1 1\n65535\n", &[1, 2]);
    assert_eq!(netpbm_rgba_unscaled(&f), Ok(None));
}

#[test]
fn netpbm_ascii_u8_iter_reports_and_skips() {
    let mut it = NetpbmAsciiU8Iter::new(b" 12 300 x");
    assert_eq!(it.next(), Some(Ok(12)));
    assert_eq!(it.next(), Some(Err(NetpbmError::IntegerExceedsMaxValue)));
    assert_eq!(it.next(), Some(Err(NetpbmError::CouldNotParseUnsigned)));
}

#[test]
fn pnm_pixels_and_bitmaps() {
    let px = netpbm_for_each_rgb(b"P1 2 1 1 0").unwrap();
    assert_eq!(
        px,
        vec![NetpbmRgb { r: 0, g: 0, b: 0, max: 1 }, NetpbmRgb { r: 1, g: 1, b: 1, max: 1 }]
    );
    let bm: Bitmap<NetpbmRgb> = netpbm_try_bitmap_rgb(b"P3 2 1 255 10 20 30\n").unwrap();
    assert_eq!(bm.pixels, vec![NetpbmRgb { r: 10, g: 20, b: 30, max: 255 }, NetpbmRgb { r: 0, g: 0, b: 0, max: 1 }]);
    assert!(netpbm_try_bitmap_rgb(b"P9 1 1").is_err());
}

#[test]
fn automatic_pads_short_data_with_black() {
    let black = rgba(0, 0, 0, 255);
    let (v, w, h) = netpbm_rgba_unscaled(b"P1 3 1\n1 0").unwrap().unwrap();
    assert_eq!((w, h), (3, 1));
    assert_eq!(v, vec![black, rgba(255, 255, 255, 255), black]);
    let f = with_data(b"P5\n2 2\n255\n", &[7]);
    let (v, _, _) = netpbm_rgba_unscaled(&f).unwrap().unwrap();
    assert_eq!(v, vec![rgba(7, 7, 7, 255), black, black, black]);
}

#[test]
fn pnm_p2_stops_at_the_pixel_count() {
    let px = netpbm_for_each_rgb(b"P2 1 1 255 7 9 ").unwrap();
    assert_eq!(px, vec![NetpbmRgb { r: 7, g: 7, b: 7, max: 255 }]);
}

#[test]
fn automatic_bitmap_flips_to_the_requested_origin() {
    let top = try_bitmap_rgba(b"P3 1 2 255 1 2 3 4 5 6 ", true).unwrap();
    assert_eq!(top.pixels[0], NetpbmRgb { r: 1, g: 2, b: 3, max: 255 });
    let bottom = try_bitmap_rgba(b"P3 1 2 255 1 2 3 4 5 6 ", false).unwrap();
    assert_eq!(bottom.pixels, vec![NetpbmRgb { r: 4, g: 5, b: 6, max: 255 }, NetpbmRgb { r: 1, g: 2, b: 3, max: 255 }]);
    assert_eq!(try_bitmap_rgba(b"not an image", true).unwrap_err(), ImagineError::Parse);
    assert_eq!(try_bitmap_rgba(b"P3 20000 1 255 1 2 3", true).unwrap_err(), ImagineError::Parse);
}

#[test]
fn pixel_groups_and_black_padding() {
    assert_eq!(netpbm_pixel_groups::<2>(&[1, 2, 3, 4]), Ok(&[[1u8, 2], [3, 4]][..]));
    assert_eq!(netpbm_pixel_groups::<3>(&[1, 2]), Err(NetpbmError::InsufficientBytes));
    let mut v = vec![rgba(1, 2, 3, 4)];
    pad_with_black(&mut v, 3);
    assert_eq!(v, vec![rgba(1, 2, 3, 4), rgba(0, 0, 0, 255), rgba(0, 0, 0, 255)]);
    pad_with_black(&mut v, 2);
    assert_eq!(v.len(), 3);
}
