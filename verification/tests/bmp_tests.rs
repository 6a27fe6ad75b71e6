use imagine::bmp::iters::bmp_iter_pal_indexes_no_compression;
use imagine::bmp::nice_header::{bmp_get_nice_header, BmpDataFormat};
use imagine::bmp::rle::{bmp_iter_rle4, bmp_iter_rle8, BmpRle4Op, BmpRle8Op};
use imagine::bmp::{bmp_signature_is_correct, bmp_try_bitmap_rgb, bmp_try_bitmap_rgba, padded_bytes_per_line, BmpRgb, BmpRgba};
use imagine::pixel_formats::{RGB888, RGBA8888};
use imagine::ImagineError;

/// A BMP file with a 40-byte info header, a palette and pixel data.
fn bmp_file(width: i32, height: i32, bpp: u16, compression: u32, palette: &[[u8; 4]], data: &[u8]) -> Vec<u8> {
    let offset = 14 + 40 + 4 * palette.len() as u32;
    let size = offset + data.len() as u32;
    let mut f = Vec::new();
    f.extend_from_slice(b"BM");
    f.extend_from_slice(&size.to_le_bytes());
    f.extend_from_slice(&[0, 0, 0, 0]);
    f.extend_from_slice(&offset.to_le_bytes());
    f.extend_from_slice(&40u32.to_le_bytes());
    f.extend_from_slice(&width.to_le_bytes());
    f.extend_from_slice(&height.to_le_bytes());
    f.extend_from_slice(&1u16.to_le_bytes());
    f.extend_from_slice(&bpp.to_le_bytes());
    f.extend_from_slice(&compression.to_le_bytes());
    f.extend_from_slice(&(data.len() as u32).to_le_bytes());
    f.extend_from_slice(&[0; 8]);
    f.extend_from_slice(&(palette.len() as u32).to_le_bytes());
    f.extend_from_slice(&0u32.to_le_bytes());
    for p in palette {
        f.extend_from_slice(p);
    }
    f.extend_from_slice(data);
    f
}

fn opaque(r: u8, g: u8, b: u8) -> BmpRgba {
    BmpRgba::Srgb(RGBA8888 { r, g, b, a: 255 })
}

#[test]
fn bmp_bgr24_decodes_and_flips() {
    let data = [3, 2, 1, 6, 5, 4, 0, 0, 9, 8, 7, 12, 11, 10, 0, 0];
    let f = bmp_file(2, 2, 24, 0, &[], &data);
    assert!(bmp_signature_is_correct(&f));
    let h = bmp_get_nice_header(&f).unwrap();
    assert_eq!((h.width, h.height, h.origin_top_left), (2, 2, false));
    assert_eq!(h.data_format, BmpDataFormat::BGR24);
    let top = bmp_try_bitmap_rgba(&f, true).unwrap();
    assert_eq!(top.pixels, vec![opaque(7, 8, 9), opaque(10, 11, 12), opaque(1, 2, 3), opaque(4, 5, 6)]);
    let bottom = bmp_try_bitmap_rgba(&f, false).unwrap();
    assert_eq!(bottom.pixels, vec![opaque(1, 2, 3), opaque(4, 5, 6), opaque(7, 8, 9), opaque(10, 11, 12)]);
    let rgb = bmp_try_bitmap_rgb(&f, false).unwrap();
    assert_eq!(rgb.pixels[0], BmpRgb::Srgb(RGB888 { r: 1, g: 2, b: 3 }));
}

#[test]
fn bmp_indexed8_uses_the_palette() {
    let pal = [[30, 20, 10, 0], [60, 50, 40, 0]];
    let f = bmp_file(2, 1, 8, 0, &pal, &[1, 0, 0, 0]);
    let bm = bmp_try_bitmap_rgba(&f, false).unwrap();
    assert_eq!(bm.pixels, vec![opaque(40, 50, 60), opaque(10, 20, 30)]);
}

#[test]
fn bmp_indexed_rgb_takes_palette_colors() {
    let pal = [[30, 20, 10, 0], [60, 50, 40, 0]];
    let f = bmp_file(3, 1, 8, 0, &pal, &[1, 0, 7, 0]);
    let bm = bmp_try_bitmap_rgb(&f, false).unwrap();
    let black = BmpRgb::Srgb(RGB888 { r: 0, g: 0, b: 0 });
    assert_eq!(bm.pixels, vec![BmpRgb::Srgb(RGB888 { r: 40, g: 50, b: 60 }), BmpRgb::Srgb(RGB888 { r: 10, g: 20, b: 30 }), black]);
    let f1 = bmp_file(3, 1, 1, 0, &pal, &[0b1010_0000, 0, 0, 0]);
    let bm1 = bmp_try_bitmap_rgb(&f1, false).unwrap();
    assert_eq!(bm1.pixels[0], BmpRgb::Srgb(RGB888 { r: 40, g: 50, b: 60 }));
    assert_eq!(bm1.pixels[1], BmpRgb::Srgb(RGB888 { r: 10, g: 20, b: 30 }));
}

#[test]
fn bmp_rle8_paints_runs() {
    let pal = [[30, 20, 10, 0], [60, 50, 40, 0]];
    let data = [2, 1, 0, 0, 2, 0, 0, 1];
    let f = bmp_file(2, 2, 8, 1, &pal, &data);
    let bm = bmp_try_bitmap_rgba(&f, false).unwrap();
    assert_eq!(bm.pixels, vec![opaque(40, 50, 60), opaque(40, 50, 60), opaque(10, 20, 30), opaque(10, 20, 30)]);
    assert_eq!(bmp_iter_rle8(&[2, 5, 0, 1]), vec![BmpRle8Op::Run { count: 2, index: 5 }, BmpRle8Op::EndOfBmp]);
}

#[test]
fn bmp_refuses_bad_input() {
    assert!(bmp_try_bitmap_rgba(b"not a bmp file at all", true).is_err());
    assert!(!bmp_signature_is_correct(b"BM"));
    let f = bmp_file(20_000, 1, 24, 0, &[], &[0; 8]);
    assert_eq!(bmp_try_bitmap_rgba(&f, true).unwrap_err(), ImagineError::DimensionsTooLarge);
    let z = bmp_file(0, 1, 24, 0, &[], &[0; 4]);
    assert!(bmp_try_bitmap_rgba(&z, true).is_err());
}

#[test]
fn bmp_line_padding_and_index_unpacking() {
    assert_eq!(padded_bytes_per_line(3, 24), Ok(12));
    assert_eq!(padded_bytes_per_line(1, 1), Ok(4));
    assert_eq!(padded_bytes_per_line(5, 8), Ok(8));
    assert_eq!(bmp_iter_pal_indexes_no_compression(&[0b1010_0000, 0, 0, 0], 3, 1), vec![1, 0, 1]);
    assert_eq!(bmp_iter_pal_indexes_no_compression(&[0xAB, 0, 0, 0], 2, 4), vec![0xA, 0xB]);
    assert_eq!(bmp_iter_pal_indexes_no_compression(&[0b01_10_11_00, 0, 0, 0], 3, 2), vec![1, 2, 3]);
}

#[test]
fn bmp_rle4_raw_runs_stop_at_their_count() {
    assert_eq!(bmp_iter_rle4(&[0, 3, 0x12, 0x30]), vec![BmpRle4Op::Raw3 { a: 1, b: 2, c: 3 }]);
    assert_eq!(
        bmp_iter_rle4(&[0, 5, 0x12, 0x34, 0x50, 0, 0, 1]),
        vec![BmpRle4Op::Raw4 { a: 1, b: 2, c: 3, d: 4 }, BmpRle4Op::Raw1 { a: 5 }, BmpRle4Op::EndOfBmp]
    );
    let pal = [[30, 20, 10, 0], [60, 50, 40, 0]];
    let f = bmp_file(4, 1, 4, 2, &pal, &[0, 3, 0x10, 0x10, 0, 1]);
    let bm = bmp_try_bitmap_rgba(&f, false).unwrap();
    let black = BmpRgba::Srgb(RGBA8888 { r: 0, g: 0, b: 0, a: 0 });
    assert_eq!(bm.pixels, vec![opaque(40, 50, 60), opaque(10, 20, 30), opaque(40, 50, 60), black]);
}
