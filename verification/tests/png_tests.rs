use imagine::basic_image::Image;
use imagine::pixel_formats::{RGB888, RGBA8888};
use imagine::png::chunks::{
    is_png_header_correct, png_get_header, png_get_idat, png_get_palette, png_get_transparency, tRNS, PngColorType, IHDR,
};
use imagine::png::crc_chunks::{ChunkType, PngChunkIter};
use imagine::png::decode::png_image_from_inflated;
use imagine::png::filtering::reconstruct_in_place;
use imagine::png::inflate::bit_source::BitSource;
use imagine::png::inflate::decompress::decompress_idat_to;
use imagine::png::inflate::huff_symbol::HuffSymbol;
use imagine::png::interlace::{interlaced_pos_to_full_pos, reduced_image_dimensions};
use imagine::png::png_error::PngError;
use imagine::png::unfilter::{filter_chunk_size, UnfilteredPixel};

const SIGNATURE: [u8; 8] = [137, 80, 78, 71, 13, 10, 26, 10];

fn crc32(bytes: &[u8]) -> u32 {
    let mut c: u32 = 0xFFFF_FFFF;
    for &b in bytes {
        c ^= b as u32;
        for _ in 0..8 {
            c = if c & 1 != 0 { 0xEDB8_8320 ^ (c >> 1) } else { c >> 1 };
        }
    }
    c ^ 0xFFFF_FFFF
}

fn chunk(ty: &[u8; 4], data: &[u8]) -> Vec<u8> {
    let mut v = Vec::new();
    v.extend_from_slice(&(data.len() as u32).to_be_bytes());
    v.extend_from_slice(ty);
    v.extend_from_slice(data);
    let mut td = ty.to_vec();
    td.extend_from_slice(data);
    v.extend_from_slice(&crc32(&td).to_be_bytes());
    v
}

fn ihdr_data(w: u32, h: u32, depth: u8, color: u8, interlace: u8) -> Vec<u8> {
    let mut d = Vec::new();
    d.extend_from_slice(&w.to_be_bytes());
    d.extend_from_slice(&h.to_be_bytes());
    d.extend_from_slice(&[depth, color, 0, 0, interlace]);
    d
}

fn zlib(raw: &[u8]) -> Vec<u8> {
    zlib_level(raw, 6)
}

fn zlib_level(raw: &[u8], level: u8) -> Vec<u8> {
    miniz_oxide::deflate::compress_to_vec_zlib(raw, level)
}

/// A PNG file from a header and raw (filtered) scanline data, with extra
/// chunks placed before the image data.
fn png_file(w: u32, h: u32, depth: u8, color: u8, extra: &[Vec<u8>], raw: &[u8]) -> Vec<u8> {
    let mut f = SIGNATURE.to_vec();
    f.extend(chunk(b"IHDR", &ihdr_data(w, h, depth, color, 0)));
    for c in extra {
        f.extend_from_slice(c);
    }
    f.extend(chunk(b"IDAT", &zlib(raw)));
    f.extend(chunk(b"IEND", &[]));
    f
}

fn rgba(r: u8, g: u8, b: u8, a: u8) -> RGBA8888 {
    RGBA8888 { r, g, b, a }
}

#[test]
fn png_rgb8_image_decodes() {
    let raw = [0, 1, 2, 3, 4, 5, 6, 0, 7, 8, 9, 10, 11, 12];
    let f = png_file(2, 2, 8, 2, &[], &raw);
    let img = Image::<RGBA8888>::try_from_png_bytes(&f).unwrap();
    assert_eq!((img.width, img.height), (2, 2));
    assert_eq!(img.pixels, vec![rgba(1, 2, 3, 255), rgba(4, 5, 6, 255), rgba(7, 8, 9, 255), rgba(10, 11, 12, 255)]);
}

#[test]
fn png_rgb8_transparent_color_gets_zero_alpha() {
    let raw = [0, 1, 2, 3, 4, 5, 6];
    let trns = chunk(b"tRNS", &[0, 4, 0, 5, 0, 6]);
    let f = png_file(2, 1, 8, 2, &[trns], &raw);
    let img = Image::<RGBA8888>::try_from_png_bytes(&f).unwrap();
    assert_eq!(img.pixels, vec![rgba(1, 2, 3, 255), rgba(4, 5, 6, 0)]);
}

#[test]
fn png_gray_low_depths_are_replicated() {
    // depth 1: bits 1,0,1,1 -> 255,0,255,255
    let f = png_file(4, 1, 1, 0, &[], &[0, 0b1011_0000]);
    let img = Image::<RGBA8888>::try_from_png_bytes(&f).unwrap();
    let ys: Vec<u8> = img.pixels.iter().map(|p| p.r).collect();
    assert_eq!(ys, vec![255, 0, 255, 255]);
    // depth 2: values 1,2,3,0 -> 85,170,255,0
    let f = png_file(4, 1, 2, 0, &[], &[0, 0b01_10_11_00]);
    let img = Image::<RGBA8888>::try_from_png_bytes(&f).unwrap();
    let ys: Vec<u8> = img.pixels.iter().map(|p| p.g).collect();
    assert_eq!(ys, vec![85, 170, 255, 0]);
    // depth 4: value 0x3 -> 0x33
    let f = png_file(2, 1, 4, 0, &[], &[0, 0x3F]);
    let img = Image::<RGBA8888>::try_from_png_bytes(&f).unwrap();
    assert_eq!(img.pixels, vec![rgba(0x33, 0x33, 0x33, 255), rgba(0xFF, 0xFF, 0xFF, 255)]);
}

#[test]
fn png_gray16_keeps_high_byte_and_transparency() {
    let raw = [0, 0x12, 0x34, 0xAB, 0xCD];
    let trns = chunk(b"tRNS", &[0xAB, 0xCD]);
    let f = png_file(2, 1, 16, 0, &[trns], &raw);
    let img = Image::<RGBA8888>::try_from_png_bytes(&f).unwrap();
    assert_eq!(img.pixels, vec![rgba(0x12, 0x12, 0x12, 255), rgba(0xAB, 0xAB, 0xAB, 0)]);
}

#[test]
fn png_indexed_uses_palette_and_alphas() {
    let plte = chunk(b"PLTE", &[10, 20, 30, 40, 50, 60]);
    let trns = chunk(b"tRNS", &[7]);
    let f = png_file(3, 1, 8, 3, &[plte, trns], &[0, 0, 1, 5]);
    let img = Image::<RGBA8888>::try_from_png_bytes(&f).unwrap();
    assert_eq!(img.pixels, vec![rgba(10, 20, 30, 7), rgba(40, 50, 60, 255), rgba(0, 0, 0, 255)]);
}

#[test]
fn png_rgba16_and_gray_alpha() {
    let raw = [0, 1, 2, 3, 4, 5, 6, 7, 8];
    let f = png_file(1, 1, 16, 6, &[], &raw);
    let img = Image::<RGBA8888>::try_from_png_bytes(&f).unwrap();
    assert_eq!(img.pixels, vec![rgba(1, 3, 5, 7)]);
    let f = png_file(1, 1, 8, 4, &[], &[0, 9, 99]);
    let img = Image::<RGBA8888>::try_from_png_bytes(&f).unwrap();
    assert_eq!(img.pixels, vec![rgba(9, 9, 9, 99)]);
}

#[test]
fn png_without_header_gives_none() {
    let mut f = SIGNATURE.to_vec();
    f.extend(chunk(b"IDAT", &zlib(&[0, 1, 2, 3])));
    assert!(Image::<RGBA8888>::try_from_png_bytes(&f).is_none());
    assert!(Image::<RGBA8888>::try_from_png_bytes(&[]).is_none());
}

#[test]
fn png_bad_zlib_data_still_gives_an_image() {
    let mut f = SIGNATURE.to_vec();
    f.extend(chunk(b"IHDR", &ihdr_data(2, 1, 8, 0, 0)));
    f.extend(chunk(b"IDAT", &[1, 2, 3]));
    let img = Image::<RGBA8888>::try_from_png_bytes(&f).unwrap();
    assert_eq!(img.pixels, vec![rgba(0, 0, 0, 255), rgba(0, 0, 0, 255)]);
}

#[test]
fn png_image_from_inflated_unfilters_sub_lines() {
    let f = png_file(2, 1, 8, 0, &[], &[0, 0, 0]);
    let ihdr = png_get_header(&f).unwrap();
    let mut buf = vec![1, 10, 5];
    let img = png_image_from_inflated(&f, ihdr, &mut buf);
    assert_eq!(img.pixels, vec![rgba(10, 10, 10, 255), rgba(15, 15, 15, 255)]);
    assert_eq!(buf, vec![0, 10, 15]);
}

#[test]
fn png_header_parts() {
    let f = png_file(5, 7, 16, 2, &[], &[0]);
    assert!(is_png_header_correct(&f));
    assert!(!is_png_header_correct(&f[1..]));
    let h = png_get_header(&f).unwrap();
    assert_eq!(
        h,
        IHDR { width: 5, height: 7, bit_depth: 16, color_type: PngColorType::RGB, is_interlaced: false }
    );
    assert_eq!(h.bits_per_pixel(), 48);
    assert_eq!(h.bytes_per_filterline(5), 31);
    assert_eq!(h.get_zlib_decompression_requirement(), 31 * 7);
    let laced = IHDR { width: 8, height: 8, bit_depth: 8, color_type: PngColorType::Y, is_interlaced: true };
    assert_eq!(laced.get_zlib_decompression_requirement(), 2 + 2 + 3 + 6 + 10 + 20 + 36);
    assert_eq!(filter_chunk_size(&h), 6);
    assert_eq!(PngColorType::try_from_u8(3), Some(PngColorType::Index));
    assert_eq!(PngColorType::try_from_u8(1), None);
    assert_eq!(PngColorType::RGBA.channel_count(), 4);
    assert!(IHDR::try_from_bytes(&ihdr_data(1, 1, 3, 2, 0)).is_none());
    assert!(IHDR::try_from_bytes(&ihdr_data(1, 1, 8, 2, 2)).is_none());
    assert_eq!(png_get_idat(&f).len(), 1);
}

#[test]
fn png_palette_and_transparency_chunks() {
    let plte = chunk(b"PLTE", &[1, 2, 3, 4, 5, 6]);
    let trns = chunk(b"tRNS", &[0, 1, 0, 2, 0, 3]);
    let f = png_file(1, 1, 8, 3, &[plte, trns], &[0, 0]);
    assert_eq!(png_get_palette(&f).unwrap(), vec![RGB888 { r: 1, g: 2, b: 3 }, RGB888 { r: 4, g: 5, b: 6 }]);
    let t = png_get_transparency(&f).unwrap();
    assert_eq!(t.try_to_rgb(), Some([1, 2, 3]));
    assert_eq!(t.try_to_grayscale(), None);
    assert_eq!(t.to_alphas(), &[0, 1, 0, 2, 0, 3]);
    assert_eq!(tRNS::from_bytes(&[1, 2]).try_to_grayscale(), Some(0x0102));
}

fn inflate_via_idat(z: &[u8], split: bool, out_len: usize) -> (Result<usize, PngError>, Vec<u8>) {
    let mut f = SIGNATURE.to_vec();
    f.extend(chunk(b"IHDR", &ihdr_data(1, 1, 8, 0, 0)));
    if split {
        let (a, b) = z.split_at(z.len() / 2);
        f.extend(chunk(b"IDAT", a));
        f.extend(chunk(b"IDAT", &[]));
        f.extend(chunk(b"IDAT", b));
    } else {
        f.extend(chunk(b"IDAT", z));
    }
    let mut out = vec![0u8; out_len];
    let r = decompress_idat_to(&mut out, &f);
    (r, out)
}

#[test]
fn decompress_idat_matches_uncompressed_data() {
    let counting: Vec<u8> = (0..200u32).map(|i| (i * 7 % 13) as u8).collect();
    let inputs: [&[u8]; 4] = [b"a", b"aaaaaaaaaaaaaaaaaaaa", b"hello hello hello hello", &counting];
    for raw in inputs {
        for level in [0u8, 1, 6, 9] {
            for split in [false, true] {
                let z = zlib_level(raw, level);
                let (r, out) = inflate_via_idat(&z, split, raw.len() + 8);
                assert_eq!(r, Ok(raw.len()), "level {} split {} len {}", level, split, raw.len());
                assert_eq!(&out[..raw.len()], raw);
            }
        }
    }
    // a buffer one byte short overflows
    let z = zlib_level(&counting, 6);
    assert_eq!(inflate_via_idat(&z, false, counting.len() - 1).0, Err(PngError::OutputOverflow));
}

#[test]
fn decompress_idat_stored_block_and_errors() {
    // zlib header, one final stored block of 3 bytes.
    let stream = [0x78, 0x01, 0b0000_0001, 3, 0, 0xFC, 0xFF, 9, 8, 7];
    let mut f = SIGNATURE.to_vec();
    f.extend(chunk(b"IDAT", &stream));
    let mut out = [0u8; 4];
    assert_eq!(decompress_idat_to(&mut out, &f), Ok(3));
    assert_eq!(out, [9, 8, 7, 0]);
    let mut marked = [0xAAu8; 6];
    assert_eq!(decompress_idat_to(&mut marked, &f), Ok(3));
    assert_eq!(marked, [9, 8, 7, 0xAA, 0xAA, 0xAA]);
    let mut small = [0u8; 2];
    assert_eq!(decompress_idat_to(&mut small, &f), Err(PngError::OutputOverflow));
    // wrong NLEN
    let bad = [0x78, 0x01, 0b0000_0001, 3, 0, 3, 0, 9, 8, 7];
    let mut g = SIGNATURE.to_vec();
    g.extend(chunk(b"IDAT", &bad));
    assert_eq!(decompress_idat_to(&mut out, &g), Err(PngError::LenAndNLenDidNotMatch));
    // not deflate
    let mut h = SIGNATURE.to_vec();
    h.extend(chunk(b"IDAT", &[0x79, 0x01, 0, 0]));
    assert_eq!(decompress_idat_to(&mut out, &h), Err(PngError::IllegalCompressionMethod));
    // not a PNG
    assert_eq!(decompress_idat_to(&mut out, &[0u8; 10]), Err(PngError::NoPngSignature));
}

#[test]
fn chunk_iter_and_crc() {
    let f = png_file(1, 1, 8, 0, &[], &[0, 0]);
    let mut it = PngChunkIter::from_png_bytes(&f).unwrap();
    let first = it.next().unwrap();
    assert_eq!(first.chunk_type, ChunkType(*b"IHDR"));
    assert_eq!(first.get_actual_crc(), first.declared_crc);
    // each test reads bit 5 of its type byte (set for lowercase letters)
    assert!(!first.chunk_type.is_critical());
    assert!(!first.chunk_type.is_public());
    assert!(!first.chunk_type.is_not_reserved());
    assert!(!first.chunk_type.is_trouble_to_copy());
    assert_eq!(it.next().unwrap().chunk_type, ChunkType::idat());
    assert!(ChunkType(*b"tEXt").is_critical());
    assert!(ChunkType(*b"IHDr").is_trouble_to_copy());
    // the CRC of "IEND" with no data
    assert_eq!(it.next().unwrap().get_actual_crc(), 0xAE42_6082);
    assert!(it.next().is_none());
    assert!(PngChunkIter::from_png_bytes(&f[..5]).is_err());
}

#[test]
fn reconstruct_filters_in_place() {
    let h = IHDR { width: 2, height: 2, bit_depth: 8, color_type: PngColorType::Y, is_interlaced: false };
    // sub line, then up line
    let mut buf = [1, 10, 5, 2, 1, 1];
    assert_eq!(reconstruct_in_place(&mut buf, h), Ok(()));
    assert_eq!(buf, [1, 10, 15, 2, 11, 16]);
    // average then paeth
    let mut buf = [3, 10, 10, 4, 1, 1];
    assert_eq!(reconstruct_in_place(&mut buf, h), Ok(()));
    assert_eq!(buf, [3, 10, 15, 4, 11, 16]);
    let mut bad = [5, 0, 0, 0, 0, 0];
    assert_eq!(reconstruct_in_place(&mut bad, h), Err(PngError::IllegalAdaptiveFilterType));
    let mut short = [0, 0, 0];
    assert_eq!(reconstruct_in_place(&mut short, h), Err(PngError::TempMemoryWrongSizeForHeader));
    let hi = IHDR { is_interlaced: true, ..h };
    assert_eq!(reconstruct_in_place(&mut buf, hi), Err(PngError::InterlaceNotSupported));
    // the average filter halves the full sum of left and up
    let mut avg = [0, 201, 201, 3, 101, 0];
    assert_eq!(reconstruct_in_place(&mut avg, h), Ok(()));
    assert_eq!(avg, [0, 201, 201, 3, 201, 201]);
}

#[test]
fn bit_source_hands_out_bytes_one_slice_at_a_time() {
    let more: [&[u8]; 1] = [&[4, 5]];
    let mut bs = BitSource::new(&[1, 2, 3], &more);
    assert_eq!(bs.next_up_to_n_bytes(2), Ok(&[1u8, 2][..]));
    assert_eq!(bs.next_up_to_n_bytes(5), Ok(&[3u8][..]));
    assert_eq!(bs.next_up_to_n_bytes(5), Ok(&[4u8, 5][..]));
    assert_eq!(bs.next_up_to_n_bytes(5), Err(PngError::UnexpectedEndOfInput));
}

#[test]
fn unfilter_hands_out_each_interlaced_pixel_once() {
    let h = IHDR { width: 8, height: 8, bit_depth: 8, color_type: PngColorType::Y, is_interlaced: true };
    let mut buf = vec![0u8; h.get_zlib_decompression_requirement()];
    let mut ps: Vec<UnfilteredPixel> = Vec::new();
    assert_eq!(h.unfilter_decompressed_data(&mut buf, &mut ps), Ok(()));
    assert_eq!(ps.len(), 64);
    let mut seen = [[false; 8]; 8];
    for p in &ps {
        assert!(!seen[p.y as usize][p.x as usize]);
        seen[p.y as usize][p.x as usize] = true;
        assert_eq!(p.data, vec![0]);
    }
    let mut short = vec![0u8; 3];
    let mut ps2: Vec<UnfilteredPixel> = Vec::new();
    assert_eq!(h.unfilter_decompressed_data(&mut short, &mut ps2), Err(()));
}

#[test]
fn adam7_passes_cover_the_image() {
    let dims = reduced_image_dimensions(5, 3);
    let mut count = [[0u32; 5]; 3];
    for level in 1..=7usize {
        let (w, h) = dims[level];
        for ry in 0..h {
            for rx in 0..w {
                let (x, y) = interlaced_pos_to_full_pos(level, rx, ry);
                count[y as usize][x as usize] += 1;
            }
        }
    }
    assert!(count.iter().all(|row| row.iter().all(|&c| c == 1)));
    assert_eq!(interlaced_pos_to_full_pos(0, 9, 4), (9, 4));
    assert_eq!(interlaced_pos_to_full_pos(3, 1, 2), (4, 20));
}

#[test]
fn huff_symbol_round_trips() {
    let s = HuffSymbol::back_ref(258, 32_768);
    assert_eq!(s.get_back_ref(), (258, 32_768));
    assert_eq!(HuffSymbol::back_ref(3, 1).get_back_ref(), (3, 1));
    assert_eq!(HuffSymbol::literal(200).get_literal(), Some(200));
    assert!(HuffSymbol::end_of_block().is_end_of_block());
    assert_eq!(HuffSymbol::end_of_block().get_literal(), None);
}

#[test]
fn bit_source_reads_in_deflate_order() {
    let first = [0b1011_0101u8, 0xFF];
    let more: [&[u8]; 1] = [&[0x34, 0x12, 0xCB, 0xED]];
    let mut bs = BitSource::new(&first, &more);
    assert_eq!(bs.next_bfinal(), Ok(true));
    assert_eq!(bs.next_btype(), Ok(2));
    assert_eq!(bs.next_bits_lsb(3), Ok(0b110));
    assert_eq!(bs.next_one_bit(), Ok(false));
    assert_eq!(bs.next_bits_msb(2), Ok(0b11));
    bs.flush_spare_bits();
    assert_eq!(bs.next_len_nlen(), Ok((0x3412, 0xCBED)));
    assert_eq!(bs.next_bits_lsb(1), Err(PngError::UnexpectedEndOfInput));
}
