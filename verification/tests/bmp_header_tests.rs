use imagine::ascii_array::AsciiArray;
use imagine::bmp::headers::{
    BmpColorspace, BmpCompression, BmpError, BmpFileHeader, BmpInfoHeader, BmpInfoHeaderCore, BmpInfoHeaderOs22x,
    BmpInfoHeaderV1, BmpInfoHeaderV2, BmpInfoHeaderV3, BmpInfoHeaderV4, BmpInfoHeaderV5, Halftoning, CIEXYZ,
    CIEXYZTRIPLE,
};
use imagine::bmp::bitmap_decode::BmpBitmap;
use imagine::image::{Bitmap, Palmap};
use imagine::pixel_formats::RGBA8888;
use imagine::bmp::span_header::{bmp_get_header, BmpCompression as SpanCompression, BmpHeader};
use imagine::sRGBIntent;
use imagine::ImagineError;

fn v1_sample() -> BmpInfoHeaderV1 {
    BmpInfoHeaderV1 {
        width: 640,
        height: -480,
        bits_per_pixel: 8,
        compression: BmpCompression::RgbRLE8,
        image_byte_size: Some(1234),
        h_ppm: 2835,
        v_ppm: -1,
        palette_len: None,
        important_colors: Some(16),
    }
}

#[test]
fn compression_codes_round_trip() {
    let all = [
        (BmpCompression::RgbNoCompression, 0u32),
        (BmpCompression::RgbRLE8, 1),
        (BmpCompression::RgbRLE4, 2),
        (BmpCompression::Bitfields, 3),
        (BmpCompression::Jpeg, 4),
        (BmpCompression::Png, 5),
        (BmpCompression::AlphaBitfields, 6),
        (BmpCompression::CmykNoCompression, 11),
        (BmpCompression::CmykRLE8, 12),
        (BmpCompression::CmykRLE4, 13),
    ];
    for (c, code) in all {
        assert_eq!(u32::from(c), code);
        assert_eq!(BmpCompression::try_from(code), Ok(c));
    }
    for bad in [7u32, 8, 9, 10, 14, u32::MAX] {
        assert_eq!(BmpCompression::try_from(bad), Err(BmpError::UnknownCompression));
    }
}

#[test]
fn core_header_bytes() {
    let h = BmpInfoHeaderCore { width: -3, height: 300, bits_per_pixel: 4 };
    let a = <[u8; 12]>::from(h);
    assert_eq!(a, [12, 0, 0, 0, 0xFD, 0xFF, 0x2C, 0x01, 1, 0, 4, 0]);
    assert_eq!(BmpInfoHeaderCore::try_from(a), Ok(h));
    let mut wrong = a;
    wrong[0] = 40;
    assert_eq!(BmpInfoHeaderCore::try_from(wrong), Err(BmpError::IncorrectSizeForThisInfoHeaderVersion));
}

#[test]
fn v1_header_round_trip_and_layout() {
    let h = v1_sample();
    let a = <[u8; 40]>::from(h);
    assert_eq!(&a[0..4], &40u32.to_le_bytes());
    assert_eq!(&a[4..8], &640i32.to_le_bytes());
    assert_eq!(&a[8..12], &(-480i32).to_le_bytes());
    assert_eq!(&a[12..14], &1u16.to_le_bytes());
    assert_eq!(&a[16..20], &1u32.to_le_bytes());
    assert_eq!(&a[20..24], &1234u32.to_le_bytes());
    assert_eq!(&a[32..36], &[0, 0, 0, 0]);
    assert_eq!(&a[36..40], &16u32.to_le_bytes());
    assert_eq!(BmpInfoHeaderV1::try_from(a), Ok(h));
}

#[test]
fn v1_header_errors_in_order() {
    let mut a = <[u8; 40]>::from(v1_sample());
    a[16] = 9;
    a[0] = 41;
    // An unknown compression is reported before a wrong size.
    assert_eq!(BmpInfoHeaderV1::try_from(a), Err(BmpError::UnknownCompression));
    a[16] = 0;
    assert_eq!(BmpInfoHeaderV1::try_from(a), Err(BmpError::IncorrectSizeForThisInfoHeaderVersion));
}

#[test]
fn palette_len_is_stored_or_implied() {
    let mut h = v1_sample();
    assert_eq!(h.palette_len(), 256);
    h.bits_per_pixel = 1;
    assert_eq!(h.palette_len(), 2);
    h.bits_per_pixel = 4;
    assert_eq!(h.palette_len(), 16);
    h.bits_per_pixel = 24;
    assert_eq!(h.palette_len(), 0);
    h.palette_len = Some(7);
    assert_eq!(h.palette_len(), 7);
}

#[test]
fn v2_and_v3_headers_round_trip() {
    let v2 = BmpInfoHeaderV2 {
        width: 1,
        height: 2,
        bits_per_pixel: 16,
        compression: BmpCompression::Bitfields,
        image_byte_size: None,
        h_ppm: 0,
        v_ppm: 0,
        palette_len: Some(3),
        important_colors: None,
        red_mask: 0xF800,
        green_mask: 0x07E0,
        blue_mask: 0x001F,
    };
    let a = <[u8; 52]>::from(v2);
    assert_eq!(&a[0..4], &52u32.to_le_bytes());
    assert_eq!(&a[40..44], &0xF800u32.to_le_bytes());
    assert_eq!(&a[48..52], &0x001Fu32.to_le_bytes());
    assert_eq!(BmpInfoHeaderV2::try_from(a), Ok(v2));
    assert_eq!(v2.palette_len(), 3);

    let v3 = BmpInfoHeaderV3 {
        width: -5,
        height: 6,
        bits_per_pixel: 32,
        compression: BmpCompression::AlphaBitfields,
        image_byte_size: Some(120),
        h_ppm: 1,
        v_ppm: 2,
        palette_len: None,
        important_colors: None,
        red_mask: 0x00FF_0000,
        green_mask: 0x0000_FF00,
        blue_mask: 0x0000_00FF,
        alpha_mask: 0xFF00_0000,
    };
    let b = <[u8; 56]>::from(v3);
    assert_eq!(&b[0..4], &56u32.to_le_bytes());
    assert_eq!(&b[52..56], &0xFF00_0000u32.to_le_bytes());
    assert_eq!(BmpInfoHeaderV3::try_from(b), Ok(v3));
    assert_eq!(v3.palette_len(), 0);
}

#[test]
fn halftoning_bytes() {
    let cases = [
        (Halftoning::NoHalftoning, [0u8, 0, 0, 0, 0, 0, 0, 0, 0, 0]),
        (Halftoning::ErrorDiffusion { damping_percentage: 50 }, [1, 0, 50, 0, 0, 0, 0, 0, 0, 0]),
        (Halftoning::Panda { x: 1, y: 0x0102 }, [2, 0, 1, 0, 0, 0, 2, 1, 0, 0]),
        (Halftoning::SuperCircle { x: 9, y: 8 }, [3, 0, 9, 0, 0, 0, 8, 0, 0, 0]),
    ];
    for (h, a) in cases {
        assert_eq!(<[u8; 10]>::from(h), a);
        assert_eq!(Halftoning::from(a), h);
    }
    // Unknown is written as zeros, which read back as no halftoning.
    assert_eq!(<[u8; 10]>::from(Halftoning::Unknown), [0; 10]);
    assert_eq!(Halftoning::from([4, 0, 1, 2, 3, 4, 5, 6, 7, 8]), Halftoning::Unknown);
}

#[test]
fn os22x_header_long_and_short_forms() {
    let h = BmpInfoHeaderOs22x {
        width: 10,
        height: 20,
        bits_per_pixel: 24,
        compression: BmpCompression::Jpeg,
        image_byte_size: Some(600),
        h_ppm: 3,
        v_ppm: 4,
        palette_len: None,
        important_colors: Some(5),
        resolution_units: Some(1),
        pixel_origin: None,
        halftoning: Halftoning::Panda { x: 7, y: 8 },
        color_table_format: Some(9),
    };
    let a = <[u8; 64]>::from(h);
    assert_eq!(&a[0..4], &64u32.to_le_bytes());
    assert_eq!(&a[40..46], &[1, 0, 0, 0, 0, 0]);
    assert_eq!(&a[46..48], &2u16.to_le_bytes());
    assert_eq!(&a[56..64], &[9, 0, 0, 0, 0, 0, 0, 0]);
    assert_eq!(BmpInfoHeaderOs22x::try_from(a), Ok(h));

    let mut short = [0u8; 16];
    short[0..4].copy_from_slice(&16u32.to_le_bytes());
    short[4..8].copy_from_slice(&10i32.to_le_bytes());
    short[8..12].copy_from_slice(&20i32.to_le_bytes());
    short[12..14].copy_from_slice(&1u16.to_le_bytes());
    short[14..16].copy_from_slice(&8u16.to_le_bytes());
    let s = BmpInfoHeaderOs22x::try_from(short).unwrap();
    assert_eq!(s.width, 10);
    assert_eq!(s.height, 20);
    assert_eq!(s.bits_per_pixel, 8);
    assert_eq!(s.compression, BmpCompression::RgbNoCompression);
    assert_eq!(s.image_byte_size, None);
    assert_eq!(s.halftoning, Halftoning::NoHalftoning);
    assert_eq!(s.palette_len(), 256);
    short[0] = 64;
    assert_eq!(BmpInfoHeaderOs22x::try_from(short), Err(BmpError::IncorrectSizeForThisInfoHeaderVersion));
}

#[test]
fn file_header_bytes_and_split() {
    let h = BmpFileHeader { tag: AsciiArray(*b"BM"), total_file_size: 70, pixel_data_offset: 54 };
    let a = <[u8; 14]>::from(h);
    assert_eq!(a, [b'B', b'M', 70, 0, 0, 0, 0, 0, 0, 0, 54, 0, 0, 0]);
    assert_eq!(BmpFileHeader::from(a), h);
    let mut file = a.to_vec();
    file.extend_from_slice(&[1, 2, 3]);
    let (parsed, rest) = BmpFileHeader::try_from_bytes(&file).unwrap();
    assert_eq!(parsed, h);
    assert_eq!(rest, &[1, 2, 3]);
    assert_eq!(BmpFileHeader::try_from_bytes(&file[..13]), Err(BmpError::InsufficientBytes));
}

fn v1_file(width: i32, height: i32, bpp: u16, compression: u32, image_size: u32, pal: u32, masks: &[u32]) -> Vec<u8> {
    let mut f = Vec::new();
    f.extend_from_slice(b"BM");
    f.extend_from_slice(&0u32.to_le_bytes());
    f.extend_from_slice(&[0, 0, 0, 0]);
    f.extend_from_slice(&100u32.to_le_bytes());
    f.extend_from_slice(&40u32.to_le_bytes());
    f.extend_from_slice(&width.to_le_bytes());
    f.extend_from_slice(&height.to_le_bytes());
    f.extend_from_slice(&1u16.to_le_bytes());
    f.extend_from_slice(&bpp.to_le_bytes());
    f.extend_from_slice(&compression.to_le_bytes());
    f.extend_from_slice(&image_size.to_le_bytes());
    f.extend_from_slice(&[0; 8]);
    f.extend_from_slice(&pal.to_le_bytes());
    f.extend_from_slice(&0u32.to_le_bytes());
    for m in masks {
        f.extend_from_slice(&m.to_le_bytes());
    }
    f
}

#[test]
fn span_header_of_a_v1_file() {
    let f = v1_file(3, -2, 4, 0, 0, 0, &[]);
    let h: BmpHeader = bmp_get_header(&f).unwrap();
    assert_eq!((h.width, h.height, h.bits_per_pixel), (3, 2, 4));
    assert!(h.origin_top_left);
    assert_eq!(h.compression, None);
    assert_eq!(h.palette_span, Some((54, 54 + 4 * 16)));
    // 3 pixels of 4 bits take 2 bytes, padded to 4; 2 rows.
    assert_eq!(h.image_span, (100, 108));
    assert!(!h.uses_alpha());
    assert!(h.srgb_intent.is_none());

    let g = v1_file(1, 1, 32, 6, 4, 0, &[1, 2, 3, 4]);
    let h = bmp_get_header(&g).unwrap();
    assert_eq!(h.compression, Some(SpanCompression::AlphaBitfields { red: 1, green: 2, blue: 3, alpha: 4 }));
    assert_eq!(h.palette_span, None);
    assert_eq!(h.image_span, (100, 104));
    assert!(h.uses_alpha());

    let r = v1_file(5, 5, 8, 1, 10, 0, &[]);
    let h = bmp_get_header(&r).unwrap();
    assert_eq!(h.compression, Some(SpanCompression::RunLengthEncoding));
    // At 8 bits per pixel no palette length is implied.
    assert_eq!(h.palette_span, None);
    assert_eq!(h.image_span, (100, 110));
}

#[test]
fn span_header_of_a_v5_file_reads_intent_and_masks() {
    let mut f = Vec::new();
    f.extend_from_slice(b"BM");
    f.extend_from_slice(&[0; 8]);
    f.extend_from_slice(&200u32.to_le_bytes());
    let mut info = [0u8; 124];
    info[0..4].copy_from_slice(&124u32.to_le_bytes());
    info[4..8].copy_from_slice(&2i32.to_le_bytes());
    info[8..12].copy_from_slice(&2i32.to_le_bytes());
    info[14..16].copy_from_slice(&16u16.to_le_bytes());
    info[16..20].copy_from_slice(&3u32.to_le_bytes());
    info[40..44].copy_from_slice(&0xF800u32.to_le_bytes());
    info[44..48].copy_from_slice(&0x07E0u32.to_le_bytes());
    info[48..52].copy_from_slice(&0x001Fu32.to_le_bytes());
    info[108..112].copy_from_slice(&4u32.to_le_bytes());
    f.extend_from_slice(&info);
    let h = bmp_get_header(&f).unwrap();
    assert_eq!(h.compression, Some(SpanCompression::Bitfields { red: 0xF800, green: 0x07E0, blue: 0x001F }));
    assert!(matches!(h.srgb_intent, Some(sRGBIntent::Perceptual)));
    assert!(!h.origin_top_left);
    // 2 pixels of 16 bits are 4 bytes per row; 2 rows.
    assert_eq!(h.image_span, (200, 208));
    let mut whole = f.clone();
    whole.resize(208, 7);
    assert_eq!(h.get_image_bytes(&whole), Some(&whole[200..208]));
    assert_eq!(h.get_image_bytes(&whole[..207]), None);
}

#[test]
fn span_header_refusals() {
    assert!(matches!(bmp_get_header(&[0; 17]), Err(ImagineError::Parse)));
    let mut f = v1_file(1, 1, 24, 0, 0, 0, &[]);
    f[14] = 41;
    assert!(matches!(bmp_get_header(&f), Err(ImagineError::Parse)));
    let short = v1_file(1, 1, 24, 0, 0, 0, &[]);
    assert!(matches!(bmp_get_header(&short[..50]), Err(ImagineError::Parse)));
    let bad_compression = v1_file(1, 1, 24, 9, 0, 0, &[]);
    assert!(matches!(bmp_get_header(&bad_compression), Err(ImagineError::Parse)));
    let masks_cut = v1_file(1, 1, 16, 3, 0, 0, &[1, 2]);
    assert!(matches!(bmp_get_header(&masks_cut), Err(ImagineError::Parse)));
}

fn endpoints() -> CIEXYZTRIPLE {
    CIEXYZTRIPLE {
        red: CIEXYZ { x: 1, y: 2, z: 3 },
        green: CIEXYZ { x: 4, y: 5, z: 6 },
        blue: CIEXYZ { x: 7, y: 8, z: 9 },
    }
}

#[test]
fn colorspace_bytes_round_trip() {
    let all = [
        BmpColorspace::Srgb,
        BmpColorspace::WindowsDefault,
        BmpColorspace::LinkedProfile,
        BmpColorspace::EmbeddedProfile,
        BmpColorspace::Calibrated { endpoints: endpoints(), gamma_red: 10, gamma_green: 11, gamma_blue: 12 },
        BmpColorspace::Unknown { endpoints: endpoints(), gamma_red: 13, gamma_green: 14, gamma_blue: 15 },
    ];
    for c in all {
        let a = <[u8; 52]>::from(c);
        assert_eq!(BmpColorspace::from(a), c);
    }
    let srgb = <[u8; 52]>::from(BmpColorspace::Srgb);
    assert_eq!(&srgb[0..4], b"BGRs");
    assert!(srgb[4..].iter().all(|b| *b == 0));
    let unknown = <[u8; 52]>::from(BmpColorspace::Unknown { endpoints: endpoints(), gamma_red: 0, gamma_green: 0, gamma_blue: 0 });
    assert_eq!(&unknown[0..8], &[0xFE, 0xFF, 0xFF, 0xFF, 1, 0, 0, 0]);
}

fn v5_sample() -> BmpInfoHeaderV5 {
    BmpInfoHeaderV5 {
        width: 4,
        height: -4,
        bits_per_pixel: 32,
        compression: BmpCompression::Bitfields,
        image_byte_size: None,
        h_ppm: 0,
        v_ppm: 0,
        palette_len: None,
        important_colors: None,
        red_mask: 0xFF,
        green_mask: 0xFF00,
        blue_mask: 0xFF_0000,
        alpha_mask: 0xFF00_0000,
        colorspace: BmpColorspace::Srgb,
        srgb_intent: Some(sRGBIntent::RelativeColorimetric),
        profile_data: 5,
        embedded_profile_size: 6,
    }
}

#[test]
fn v4_and_v5_are_written_with_size_40() {
    let v4 = BmpInfoHeaderV4 {
        width: 1,
        height: 1,
        bits_per_pixel: 24,
        compression: BmpCompression::RgbNoCompression,
        image_byte_size: Some(4),
        h_ppm: 0,
        v_ppm: 0,
        palette_len: None,
        important_colors: None,
        red_mask: 1,
        green_mask: 2,
        blue_mask: 3,
        alpha_mask: 4,
        colorspace: BmpColorspace::Calibrated { endpoints: endpoints(), gamma_red: 1, gamma_green: 2, gamma_blue: 3 },
    };
    let mut a = <[u8; 108]>::from(v4);
    assert_eq!(&a[0..4], &40u32.to_le_bytes());
    assert_eq!(BmpInfoHeaderV4::try_from(a), Err(BmpError::IncorrectSizeForThisInfoHeaderVersion));
    a[0..4].copy_from_slice(&108u32.to_le_bytes());
    assert_eq!(BmpInfoHeaderV4::try_from(a), Ok(v4));

    let v5 = v5_sample();
    let mut b = <[u8; 124]>::from(v5);
    assert_eq!(&b[0..4], &40u32.to_le_bytes());
    assert_eq!(&b[108..112], &2u32.to_le_bytes());
    b[0..4].copy_from_slice(&124u32.to_le_bytes());
    assert_eq!(BmpInfoHeaderV5::try_from(b), Ok(v5));
    let mut no_intent = v5;
    no_intent.srgb_intent = None;
    let c = <[u8; 124]>::from(no_intent);
    assert_eq!(&c[108..112], &8u32.to_le_bytes());
}

#[test]
fn info_header_dispatches_on_its_size() {
    let core = BmpInfoHeaderCore { width: 2, height: -3, bits_per_pixel: 4 };
    let mut bytes = <[u8; 12]>::from(core).to_vec();
    bytes.extend_from_slice(&[9, 9]);
    let (h, rest) = BmpInfoHeader::try_from_bytes(&bytes).unwrap();
    assert_eq!(h, BmpInfoHeader::Core(core));
    assert_eq!(rest, &[9, 9]);
    assert_eq!((h.width(), h.height(), h.bits_per_pixel()), (2, -3, 4));
    assert_eq!(h.compression(), BmpCompression::RgbNoCompression);
    assert_eq!(h.palette_len(), 16);
    assert_eq!(h.pixel_data_len(), 6);

    let v1 = v1_sample();
    let v1_bytes = <[u8; 40]>::from(v1);
    let (h, rest) = BmpInfoHeader::try_from_bytes(&v1_bytes).unwrap();
    assert_eq!(h, BmpInfoHeader::V1(v1));
    assert!(rest.is_empty());
    assert_eq!(h.compression(), BmpCompression::RgbRLE8);
    assert_eq!(h.palette_len(), 256);
    assert_eq!(h.pixel_data_len(), 1234);

    let mut v5 = <[u8; 124]>::from(v5_sample());
    v5[0..4].copy_from_slice(&124u32.to_le_bytes());
    let (h, _) = BmpInfoHeader::try_from_bytes(&v5).unwrap();
    assert_eq!(h, BmpInfoHeader::V5(v5_sample()));
    // 4 pixels of 32 bits per row, 4 rows.
    assert_eq!(h.pixel_data_len(), 64);

    let mut short = [0u8; 16];
    short[0..4].copy_from_slice(&16u32.to_le_bytes());
    short[14] = 8;
    let (h, _) = BmpInfoHeader::try_from_bytes(&short).unwrap();
    assert!(matches!(h, BmpInfoHeader::Os22x(_)));
    assert_eq!(h.bits_per_pixel(), 8);

    assert_eq!(BmpInfoHeader::try_from_bytes(&[40, 0, 0]), Err(BmpError::InsufficientBytes));
    assert_eq!(BmpInfoHeader::try_from_bytes(&[40, 0, 0, 0, 1]), Err(BmpError::InsufficientBytes));
    assert_eq!(BmpInfoHeader::try_from_bytes(&[41, 0, 0, 0, 1]), Err(BmpError::UnknownHeaderLength));
}

/// A whole BMP file: file header, a 40 byte info header, palette entries
/// (`[b, g, r, a]`), then the pixel data.
fn typed_bmp(width: i32, height: i32, bpp: u16, compression: u32, palette: &[[u8; 4]], data: &[u8]) -> Vec<u8> {
    let offset = 14 + 40 + 4 * palette.len() as u32;
    let size = offset + data.len() as u32;
    let mut f = Vec::new();
    f.extend_from_slice(b"BM");
    f.extend_from_slice(&size.to_le_bytes());
    f.extend_from_slice(&[0, 0, 0, 0]);
    f.extend_from_slice(&offset.to_le_bytes());
    let info = BmpInfoHeaderV1 {
        width,
        height,
        bits_per_pixel: bpp,
        compression: BmpCompression::try_from(compression).unwrap(),
        image_byte_size: if data.is_empty() { None } else { Some(data.len() as u32) },
        h_ppm: 0,
        v_ppm: 0,
        palette_len: if palette.is_empty() { None } else { Some(palette.len() as u32) },
        important_colors: None,
    };
    f.extend_from_slice(&<[u8; 40]>::from(info));
    for p in palette {
        f.extend_from_slice(p);
    }
    f.extend_from_slice(data);
    f
}

fn rgba(r: u8, g: u8, b: u8, a: u8) -> RGBA8888 {
    RGBA8888 { r, g, b, a }
}

#[test]
fn palmap_from_1bpp_bottom_up_rows() {
    // 3 pixels wide, 2 rows, stored bottom row first.
    let data = [0b0100_0000, 0, 0, 0, 0b1010_0000, 0, 0, 0];
    let f = typed_bmp(3, 2, 1, 0, &[[0, 0, 0, 0], [255, 255, 255, 0]], &data);
    let p: Palmap<u8, RGBA8888> = Palmap::try_from_bmp_bytes(&f).unwrap();
    assert_eq!((p.width, p.height), (3, 2));
    assert_eq!(p.indexes, vec![1, 0, 1, 0, 1, 0]);
    // Every stored alpha is 0, so the palette is taken as opaque.
    assert_eq!(p.palette, vec![rgba(0, 0, 0, 255), rgba(255, 255, 255, 255)]);
}

#[test]
fn palmap_from_8bpp_top_down_keeps_stored_alpha() {
    let data = [1, 2, 0, 0, 3, 4, 0, 0];
    let pal = [[1, 2, 3, 4], [5, 6, 7, 0], [0, 0, 0, 0], [0, 0, 0, 0], [0, 0, 0, 0]];
    let f = typed_bmp(2, -2, 8, 0, &pal, &data);
    let p = Palmap::try_from_bmp_bytes(&f).unwrap();
    assert_eq!(p.indexes, vec![1, 2, 3, 4]);
    assert_eq!(p.palette[0], rgba(3, 2, 1, 4));
    assert_eq!(p.palette[1], rgba(7, 6, 5, 0));
}

#[test]
fn palmap_from_rle8_and_rle4() {
    // RLE8: a run of three 5s on the bottom row (row 1), end of line, raw
    // 7 8 9 (padded) on row 0, end of bitmap.
    let data = [3, 5, 0, 0, 0, 3, 7, 8, 9, 0, 0, 1];
    let f = typed_bmp(3, 2, 8, 1, &[[0, 0, 0, 255]; 10], &data);
    let p = Palmap::try_from_bmp_bytes(&f).unwrap();
    assert_eq!(p.indexes, vec![7, 8, 9, 5, 5, 5]);

    // RLE4: a run count counts pairs of nibbles here, so `1, 0x12` writes 1 then 2.
    let data = [1, 0x12, 0, 0, 0, 3, 0x34, 0x50, 0, 1];
    let f = typed_bmp(3, 2, 4, 2, &[[0, 0, 0, 255]; 16], &data);
    let p = Palmap::try_from_bmp_bytes(&f).unwrap();
    assert_eq!(p.indexes, vec![3, 4, 5, 1, 2, 0]);
}

#[test]
fn palmap_refusals() {
    let good = typed_bmp(1, 1, 8, 0, &[[0, 0, 0, 255]], &[0, 0, 0, 0]);
    let mut wrong_size = good.clone();
    wrong_size[2] = 1;
    assert!(matches!(Palmap::try_from_bmp_bytes(&wrong_size), Err(BmpError::ThisIsProbablyNotABmpFile)));
    let mut wrong_tag = good.clone();
    wrong_tag[0] = b'X';
    assert!(matches!(Palmap::try_from_bmp_bytes(&wrong_tag), Err(BmpError::ThisIsProbablyNotABmpFile)));
    assert!(matches!(Palmap::try_from_bmp_bytes(&good[..10]), Err(BmpError::InsufficientBytes)));
    let rgb = typed_bmp(1, 1, 24, 0, &[], &[1, 2, 3, 0]);
    assert!(matches!(Palmap::try_from_bmp_bytes(&rgb), Err(BmpError::NotAPalettedBmp)));
    let odd = typed_bmp(1, 1, 8, 0, &[[0, 0, 0, 255]], &[0, 0, 0, 0, 0]);
    assert!(matches!(Palmap::try_from_bmp_bytes(&odd), Err(BmpError::PixelDataIllegalLength)));
    let cut_rle = typed_bmp(2, 1, 8, 1, &[[0, 0, 0, 255]], &[0, 2]);
    assert!(matches!(Palmap::try_from_bmp_bytes(&cut_rle), Err(BmpError::PixelDataIllegalRLEContent)));
    let jpeg = typed_bmp(1, 1, 24, 4, &[], &[0, 0]);
    assert!(matches!(Palmap::try_from_bmp_bytes(&jpeg), Err(BmpError::ParserIncomplete)));
}

fn colors(r: Result<BmpBitmap, BmpError>) -> Bitmap<RGBA8888> {
    match r {
        Ok(BmpBitmap::Colors(b)) => b,
        other => panic!("expected colors, got {:?}", other),
    }
}

#[test]
fn bitmap_from_bgr24_and_paletted() {
    // 2x2 BGR, bottom row first: the top row ends up first.
    let data = [1, 2, 3, 4, 5, 6, 0, 0, 7, 8, 9, 10, 11, 12, 0, 0];
    let f = typed_bmp(2, 2, 24, 0, &[], &data);
    let b = colors(Bitmap::try_from_bmp_bytes(&f));
    assert_eq!((b.width, b.height), (2, 2));
    assert_eq!(b.pixels, vec![rgba(9, 8, 7, 255), rgba(12, 11, 10, 255), rgba(3, 2, 1, 255), rgba(6, 5, 4, 255)]);

    // 4 bits per pixel; index 2 is past the 2-entry palette and gives transparent black.
    let data = [0x12, 0, 0, 0];
    let f = typed_bmp(2, 1, 4, 0, &[[1, 2, 3, 0], [4, 5, 6, 9]], &data);
    let b = colors(Bitmap::try_from_bmp_bytes(&f));
    assert_eq!(b.pixels, vec![rgba(6, 5, 4, 9), rgba(0, 0, 0, 0)]);
}

#[test]
fn bitmap_from_rle8_fills_the_buffer() {
    // A run of 4 from the start of the bottom row of a 3 wide image runs on
    // into the next buffer row; the rest keeps the opaque black background.
    let data = [4, 1, 0, 1];
    let f = typed_bmp(3, 2, 8, 1, &[[0, 0, 0, 255], [10, 20, 30, 255]], &data);
    let b = colors(Bitmap::try_from_bmp_bytes(&f));
    let c = rgba(30, 20, 10, 255);
    let k = rgba(0, 0, 0, 255);
    assert_eq!(b.pixels, vec![k, k, k, c, c, c]);
}

#[test]
fn bitmap_from_rle4_alternates_nibble_colors() {
    // At 4 bits a run of 3 fills high, low, high nibble colors.
    let data = [3, 0x01, 0, 1];
    let f = typed_bmp(4, 1, 4, 2, &[[1, 1, 1, 255], [2, 2, 2, 255]], &data);
    let b = colors(Bitmap::try_from_bmp_bytes(&f));
    assert_eq!(b.pixels, vec![rgba(1, 1, 1, 255), rgba(2, 2, 2, 255), rgba(1, 1, 1, 255), rgba(0, 0, 0, 255)]);
}

#[test]
fn bitmap_masked_words() {
    // 16 bits per pixel with default 5-5-5 masks; one row of two pixels.
    let data = [0x1F, 0x00, 0x00, 0x7C];
    let f = typed_bmp(2, 1, 16, 0, &[], &data);
    match Bitmap::try_from_bmp_bytes(&f) {
        Ok(BmpBitmap::Masked { width, height, bits_per_pixel, words, masks, row_pixels, background }) => {
            assert_eq!((width, height, bits_per_pixel, row_pixels), (2, 1, 16, 2));
            assert_eq!(words, vec![0x001F, 0x7C00]);
            assert_eq!(masks, [0x7C00, 0x3E0, 0x1F, 0]);
            assert_eq!(background, rgba(0, 0, 0, 255));
        }
        other => panic!("expected masked words, got {:?}", other),
    }
}

#[test]
fn bitmap_refusals() {
    // Depth 3 implies an 8 entry palette, which must be there first.
    let no_palette = typed_bmp(1, 1, 3, 0, &[], &[0, 0, 0, 0]);
    assert!(matches!(Bitmap::try_from_bmp_bytes(&no_palette), Err(BmpError::InsufficientBytes)));
    let bad_depth = typed_bmp(1, 1, 3, 0, &[[0, 0, 0, 255]; 8], &[0, 0, 0, 0]);
    assert!(matches!(Bitmap::try_from_bmp_bytes(&bad_depth), Err(BmpError::IllegalBitDepth)));
    let short = typed_bmp(2, 2, 24, 0, &[], &[0; 8]);
    assert!(matches!(Bitmap::try_from_bmp_bytes(&short), Err(BmpError::PixelDataIllegalLength)));
    let odd_rle = typed_bmp(1, 1, 8, 1, &[[0, 0, 0, 255]], &[1, 0, 0]);
    assert!(matches!(Bitmap::try_from_bmp_bytes(&odd_rle), Err(BmpError::PixelDataIllegalLength)));
    let png = typed_bmp(1, 1, 24, 5, &[], &[0, 0]);
    assert!(matches!(Bitmap::try_from_bmp_bytes(&png), Err(BmpError::ParserIncomplete)));
}

#[test]
fn span_header_palette_entries() {
    let mut f = v1_file(2, 2, 1, 0, 0, 0, &[]);
    f.extend_from_slice(&[1, 2, 3, 4, 5, 6, 7, 8]);
    let h = bmp_get_header(&f).unwrap();
    assert_eq!(h.palette_span, Some((54, 62)));
    assert_eq!(h.get_palette(&f), Some(&[[1, 2, 3, 4], [5, 6, 7, 8]][..]));
    assert_eq!(h.get_palette(&f[..61]), None);
    let mut odd = h;
    odd.palette_span = Some((54, 61));
    assert_eq!(odd.get_palette(&f), None);
    odd.palette_span = None;
    assert_eq!(odd.get_palette(&f), None);
}

#[test]
fn info_header_srgb() {
    let mut v5 = v5_sample();
    assert!(BmpInfoHeader::V5(v5).is_srgb());
    v5.srgb_intent = None;
    assert!(BmpInfoHeader::V5(v5).is_srgb());
    v5.colorspace = BmpColorspace::LinkedProfile;
    assert!(!BmpInfoHeader::V5(v5).is_srgb());
    assert!(!BmpInfoHeader::V1(v1_sample()).is_srgb());
}

#[test]
fn bitmap_is_palmap_looked_up() {
    let data = [0x21, 0x30, 0, 0, 0x02, 0x10, 0, 0];
    let pal = [[1, 2, 3, 255], [4, 5, 6, 255], [7, 8, 9, 255], [10, 11, 12, 255]];
    let f = typed_bmp(3, 2, 4, 0, &pal, &data);
    let p = Palmap::try_from_bmp_bytes(&f).unwrap();
    let b = colors(Bitmap::try_from_bmp_bytes(&f));
    let looked: Vec<RGBA8888> = p.indexes.iter().map(|i| p.palette.get(*i as usize).copied().unwrap_or(rgba(0, 0, 0, 0))).collect();
    assert_eq!(b.pixels, looked);
    assert_eq!(p.indexes, vec![0, 2, 1, 2, 1, 3]);
}

#[test]
fn header_bytes_read_and_written_back() {
    let mut a = [0u8; 40];
    for (i, b) in a.iter_mut().enumerate() {
        *b = (i * 37 + 11) as u8;
    }
    a[0..4].copy_from_slice(&40u32.to_le_bytes());
    a[12..14].copy_from_slice(&1u16.to_le_bytes());
    a[16..20].copy_from_slice(&2u32.to_le_bytes());
    let h = BmpInfoHeaderV1::try_from(a).unwrap();
    assert_eq!(<[u8; 40]>::from(h), a);

    let mut f = [7u8; 14];
    f[6..10].copy_from_slice(&[0, 0, 0, 0]);
    assert_eq!(<[u8; 14]>::from(BmpFileHeader::from(f)), f);

    let c = [12, 0, 0, 0, 0x80, 0xFF, 3, 0, 1, 0, 8, 0];
    assert_eq!(<[u8; 12]>::from(BmpInfoHeaderCore::try_from(c).unwrap()), c);
}
