//! Decoding BMP files.
use vstd::prelude::*;
use crate::error::ImagineError;
use crate::bmp::raw_headers::{le32, read_u32_le};
use crate::bmp::nice_header::{BmpNiceHeader, BmpDataFormat, spec_nice_header, bmp_get_nice_header};
use crate::bmp::iters::{
    LinearRgb, LinearRgba, lines_items, line_len, pal_indexes, bitmask16_rgb_pixel, bitmask16_rgba_pixel,
    bitmask32_linear_rgb_pixel, bitmask32_linear_rgba_pixel, bitmask32_srgb_pixel, bitmask32_srgba_pixel,
    bmp_iter_pal_indexes_no_compression, bmp_iter_bgr24, bmp_iter_bitmask16_rgb, bmp_iter_bitmask16_rgba,
    bmp_iter_bitmask32_linear_rgb, bmp_iter_bitmask32_linear_rgba, bmp_iter_bitmask32_srgb, bmp_iter_bitmask32_srgba,
};
use crate::bmp::rle::{rle8_ops, rle4_ops, bmp_iter_rle8, bmp_iter_rle4};
use crate::bmp::paint::{paint_rle8_spec, paint_rle4_spec, resized, resize_to, map_palette, paint_rle8, paint_rle4};
use crate::image::{Bitmap, is_vertical_flip, lemma_full_grid_flip_fits};
use crate::pixel_formats::{RGB888, RGBA8888};

pub mod bitmap_decode;
pub mod header_decode;
pub mod headers;
pub mod iters;
pub mod nice_header;
pub mod paint;
pub mod raw_headers;
pub mod rle;
pub mod span_header;

verus! {

/// The padded length of a line: `bits_per_pixel * width` bits rounded up to
/// whole bytes, then to whole 4-byte words.
pub open spec fn spec_padded_bytes_per_line(width: u32, bits_per_pixel: u16) -> Result<usize, ImagineError> {
    let bits = bits_per_pixel as int * width as int;
    if bits > usize::MAX {
        Err(ImagineError::CheckedMath)
    } else {
        let bytes = bits / 8 + if bits % 8 != 0 { 1int } else { 0int };
        let dwords = bytes / 4 + if bytes % 4 != 0 { 1int } else { 0int };
        if dwords * 4 > usize::MAX {
            Err(ImagineError::CheckedMath)
        } else {
            Ok((dwords * 4) as usize)
        }
    }
}

/// Computes the number of bytes per line when padding is applied.
///
/// BMP scanlines within the image data are padded to a multiple of 4 bytes
/// (except when the image is RLE encoded).
pub fn padded_bytes_per_line(width: u32, bits_per_pixel: u16) -> (r: Result<usize, ImagineError>)
    ensures
        r == spec_padded_bytes_per_line(width, bits_per_pixel),
{
    let width = width as usize;
    let bits_per_pixel = bits_per_pixel as usize;
    let bits_per_line = match bits_per_pixel.checked_mul(width) {
        Some(b) => b,
        None => {
            return Err(ImagineError::CheckedMath);
        },
    };
    let bytes_per_line = bits_per_line / 8 + if bits_per_line % 8 != 0 { 1 } else { 0 };
    let dwords_per_line = bytes_per_line / 4 + if bytes_per_line % 4 != 0 { 1 } else { 0 };
    match dwords_per_line.checked_mul(4) {
        Some(n) => Ok(n),
        None => Err(ImagineError::CheckedMath),
    }
}

/// A correct BMP start: "BM", a file size equal to the length of the bytes,
/// and a pixel data offset within them.
pub open spec fn spec_signature_is_correct(b: Seq<u8>) -> bool {
    &&& b.len() >= 14
    &&& b[0] == 66u8 && b[1] == 77u8
    &&& le32(b, 2) == b.len()
    &&& le32(b, 10) <= b.len()
}

/// Checks if a BMP's initial 14 bytes are correct.
pub fn bmp_signature_is_correct(bytes: &[u8]) -> (ok: bool)
    ensures
        ok == spec_signature_is_correct(bytes@),
{
    if bytes.len() < 14 {
        return false;
    }
    bytes[0] == 66 && bytes[1] == 77 && read_u32_le(bytes, 2) as usize == bytes.len()
        && read_u32_le(bytes, 10) as usize <= bytes.len()
}

/// A pixel of a BMP decoded for an RGB image: 8-bit sRGB values, or linear
/// fractions.
#[derive(Debug, Clone, Copy, PartialEq, Eq, Structural)]
pub enum BmpRgb {
    Srgb(RGB888),
    Linear(LinearRgb),
}

/// A pixel of a BMP decoded for an RGBA image: 8-bit sRGB values (alpha
/// linear), linear fractions with alpha 1, or linear fractions with alpha.
#[derive(Debug, Clone, Copy, PartialEq, Eq, Structural)]
pub enum BmpRgba {
    Srgb(RGBA8888),
    LinearRgb(LinearRgb),
    LinearRgba(LinearRgba),
}

/// The number of bits set in `x`.
pub open spec fn ones(x: u32) -> nat
    decreases x,
{
    if x == 0 { 0 } else { (x % 2) as nat + ones(x / 2) }
}

proof fn lemma_ones_bound(x: u32, k: nat)
    requires
        x < vstd::arithmetic::power2::pow2(k),
    ensures
        ones(x) <= k,
    decreases k,
{
    if x != 0 {
        if k == 0 {
            vstd::arithmetic::power2::lemma2_to64();
        } else {
            vstd::arithmetic::power2::lemma_pow2_unfold(k);
            lemma_ones_bound(x / 2, (k - 1) as nat);
        }
    }
}

fn count_ones(x: u32) -> (n: u32)
    ensures
        n == ones(x),
{
    proof {
        vstd::arithmetic::power2::lemma2_to64();
        lemma_ones_bound(x, 32);
    }
    let mut v = x;
    let mut n: u32 = 0;
    while v != 0
        invariant
            n + ones(v) == ones(x),
            ones(x) <= 32,
        decreases v,
    {
        n = n + v % 2;
        v = v / 2;
    }
    n
}

/// The RGBA palette of a file: its first entries (4 bytes each: blue,
/// green, red and one unused) as opaque colors, up to 256; the rest
/// transparent black.
pub open spec fn palette_rgba(pal: Seq<u8>) -> Seq<BmpRgba> {
    Seq::new(256, |i: int| if i < pal.len() / 4 { srgba_opaque(pal[4 * i + 2], pal[4 * i + 1], pal[4 * i]) } else { transparent_black() })
}

/// The RGB palette of a file: its first entries, up to 256; the rest black.
pub open spec fn palette_rgb(pal: Seq<u8>) -> Seq<BmpRgb> {
    Seq::new(256, |i: int| if i < pal.len() / 4 { srgb_color(pal[4 * i + 2], pal[4 * i + 1], pal[4 * i]) } else { black() })
}

fn build_palette_rgba(pal: &[u8]) -> (v: Vec<BmpRgba>)
    ensures
        v@ == palette_rgba(pal@),
{
    let mut v: Vec<BmpRgba> = Vec::new();
    let n = pal.len() / 4;
    let mut i: usize = 0;
    while i < 256
        invariant
            n == pal@.len() / 4,
            i <= 256,
            v@ == palette_rgba(pal@).take(i as int),
        decreases 256 - i,
    {
        if i < n {
            v.push(BmpRgba::Srgb(RGBA8888 { r: pal[4 * i + 2], g: pal[4 * i + 1], b: pal[4 * i], a: 255 }));
        } else {
            v.push(BmpRgba::Srgb(RGBA8888 { r: 0, g: 0, b: 0, a: 0 }));
        }
        i = i + 1;
        assert(v@ =~= palette_rgba(pal@).take(i as int));
    }
    assert(v@ =~= palette_rgba(pal@));
    v
}

fn build_palette_rgb(pal: &[u8]) -> (v: Vec<BmpRgb>)
    ensures
        v@ == palette_rgb(pal@),
{
    let mut v: Vec<BmpRgb> = Vec::new();
    let n = pal.len() / 4;
    let mut i: usize = 0;
    while i < 256
        invariant
            n == pal@.len() / 4,
            i <= 256,
            v@ == palette_rgb(pal@).take(i as int),
        decreases 256 - i,
    {
        if i < n {
            v.push(BmpRgb::Srgb(RGB888 { r: pal[4 * i + 2], g: pal[4 * i + 1], b: pal[4 * i] }));
        } else {
            v.push(BmpRgb::Srgb(RGB888 { r: 0, g: 0, b: 0 }));
        }
        i = i + 1;
        assert(v@ =~= palette_rgb(pal@).take(i as int));
    }
    assert(v@ =~= palette_rgb(pal@));
    v
}

/// An opaque sRGB color for RGBA decoding.
pub open spec fn srgba_opaque(r: u8, g: u8, b: u8) -> BmpRgba {
    BmpRgba::Srgb(RGBA8888 { r, g, b, a: 255 })
}

/// An sRGB color for RGB decoding.
pub open spec fn srgb_color(r: u8, g: u8, b: u8) -> BmpRgb {
    BmpRgb::Srgb(RGB888 { r, g, b })
}

/// Transparent black, the fill of RGBA decoding.
pub open spec fn transparent_black() -> BmpRgba {
    BmpRgba::Srgb(RGBA8888 { r: 0, g: 0, b: 0, a: 0 })
}

/// Black, the fill of RGB decoding.
pub open spec fn black() -> BmpRgb {
    BmpRgb::Srgb(RGB888 { r: 0, g: 0, b: 0 })
}

/// The bits per pixel of an indexed format.
pub open spec fn index_bits(f: BmpDataFormat) -> u16 {
    match f {
        BmpDataFormat::Indexed1 { .. } => 1,
        BmpDataFormat::Indexed4 { .. } => 4,
        _ => 8,
    }
}

/// The palette span of an indexed format.
pub open spec fn palette_span(f: BmpDataFormat) -> Option<(usize, usize)> {
    match f {
        BmpDataFormat::Indexed1 { palette_span } => Some(palette_span),
        BmpDataFormat::Indexed4 { palette_span } => Some(palette_span),
        BmpDataFormat::Indexed4Rle { palette_span } => Some(palette_span),
        BmpDataFormat::Indexed8 { palette_span } => Some(palette_span),
        BmpDataFormat::Indexed8Rle { palette_span } => Some(palette_span),
        _ => None,
    }
}

/// A span that lies within `len` bytes.
pub open spec fn span_ok(span: (usize, usize), len: nat) -> bool {
    span.0 <= span.1 <= len
}

/// The pixels of directly colored (not paletted) image data, for RGBA
/// output.
pub open spec fn rgba_direct(image: Seq<u8>, f: BmpDataFormat, w: u32) -> Seq<BmpRgba> {
    match f {
        BmpDataFormat::BGR24 => lines_items(image, line_len(w, 24) as nat, 3, w as nat, false).map_values(
            |p: Seq<u8>| srgba_opaque(p[2], p[1], p[0])),
        BmpDataFormat::Bitmask16RGB { r_mask, g_mask, b_mask } => lines_items(image, line_len(w, 16) as nat, 2, w as nat, true).map_values(
            |p: Seq<u8>| BmpRgba::LinearRgb(bitmask16_rgb_pixel(p, r_mask, g_mask, b_mask))),
        BmpDataFormat::Bitmask32RGB { r_mask, g_mask, b_mask } => if ones(r_mask) == 8 && ones(g_mask) == 8 && ones(b_mask) == 8 {
            lines_items(image, line_len(w, 32) as nat, 4, w as nat, true).map_values(
                |p: Seq<u8>| { let c = bitmask32_srgb_pixel(p, r_mask, g_mask, b_mask); srgba_opaque(c.r, c.g, c.b) })
        } else {
            lines_items(image, line_len(w, 32) as nat, 4, w as nat, true).map_values(
                |p: Seq<u8>| BmpRgba::LinearRgb(bitmask32_linear_rgb_pixel(p, r_mask, g_mask, b_mask)))
        },
        BmpDataFormat::Bitmask16RGBA { r_mask, g_mask, b_mask, a_mask } => lines_items(image, line_len(w, 16) as nat, 2, w as nat, true).map_values(
            |p: Seq<u8>| BmpRgba::LinearRgba(bitmask16_rgba_pixel(p, r_mask, g_mask, b_mask, a_mask))),
        BmpDataFormat::Bitmask32RGBA { r_mask, g_mask, b_mask, a_mask } => if ones(r_mask) == 8 && ones(g_mask) == 8 && ones(b_mask) == 8 {
            lines_items(image, line_len(w, 32) as nat, 4, w as nat, true).map_values(
                |p: Seq<u8>| BmpRgba::Srgb(bitmask32_srgba_pixel(p, r_mask, g_mask, b_mask, a_mask)))
        } else {
            lines_items(image, line_len(w, 32) as nat, 4, w as nat, true).map_values(
                |p: Seq<u8>| BmpRgba::LinearRgba(bitmask32_linear_rgba_pixel(p, r_mask, g_mask, b_mask, a_mask)))
        },
        _ => Seq::empty(),
    }
}

/// The pixels an RGBA decode of `bytes` (whose header is `hd`) produces,
/// before any flip.
pub open spec fn spec_rgba_pixels(bytes: Seq<u8>, hd: BmpNiceHeader) -> Result<Seq<BmpRgba>, ImagineError> {
    let n = (hd.width * hd.height) as nat;
    let w = hd.width;
    let tb = transparent_black();
    if !span_ok(hd.data_span, bytes.len()) {
        Err(ImagineError::Parse)
    } else {
        let image = bytes.subrange(hd.data_span.0 as int, hd.data_span.1 as int);
        match palette_span(hd.data_format) {
            Some(span) => if !span_ok(span, bytes.len()) {
                Err(ImagineError::Parse)
            } else {
                let pal = palette_rgba(bytes.subrange(span.0 as int, span.1 as int));
                if hd.data_format is Indexed4Rle {
                    Ok(resized(paint_rle4_spec(rle4_ops(image, 0, 0), pal, w, hd.height, 0, 0, resized(Seq::empty(), n, tb)), n, tb))
                } else if hd.data_format is Indexed8Rle {
                    Ok(resized(paint_rle8_spec(rle8_ops(image, 0, 0), pal, w, hd.height, 0, 0, resized(Seq::empty(), n, tb)), n, tb))
                } else {
                    let bpp = index_bits(hd.data_format);
                    Ok(resized(pal_indexes(image, line_len(w, bpp) as nat, bpp as nat, w as nat).map_values(|i: u8| pal[i as int]), n, tb))
                }
            },
            None => Ok(resized(rgba_direct(image, hd.data_format, w), n, tb)),
        }
    }
}

fn rgba_direct_exec(image_bytes: &[u8], format: BmpDataFormat, w: u32) -> (pixels: Vec<BmpRgba>)
    requires
        w > 0,
    ensures
        pixels@ == rgba_direct(image_bytes@, format, w),
{
    let mut pixels: Vec<BmpRgba> = Vec::new();
    match format {
        BmpDataFormat::BGR24 => {
            let px = bmp_iter_bgr24(image_bytes, w);
            let mut j: usize = 0;
            while j < px.len()
                invariant
                    j <= px@.len(),
                    pixels@ == px@.take(j as int).map_values(|p: [u8; 3]| srgba_opaque(p@[2], p@[1], p@[0])),
                decreases px@.len() - j,
            {
                let p = px[j];
                pixels.push(BmpRgba::Srgb(RGBA8888 { r: p[2], g: p[1], b: p[0], a: 255 }));
                j = j + 1;
                assert(pixels@ =~= px@.take(j as int).map_values(|p: [u8; 3]| srgba_opaque(p@[2], p@[1], p@[0])));
            }
            proof {
                let items = lines_items(image_bytes@, line_len(w, 24) as nat, 3, w as nat, false);
                assert(px@.take(px@.len() as int) =~= px@);
                assert(pixels@ =~= items.map_values(|p: Seq<u8>| srgba_opaque(p[2], p[1], p[0]))) by {
                    assert forall|t: int| 0 <= t < pixels@.len() implies pixels@[t] == srgba_opaque(items[t][2], items[t][1], items[t][0]) by {
                        assert(px@[t]@ == items[t]);
                    }
                }
            }
        },
        BmpDataFormat::Bitmask16RGB { r_mask, g_mask, b_mask } => {
            let px = bmp_iter_bitmask16_rgb(image_bytes, r_mask, g_mask, b_mask, w);
            let mut j: usize = 0;
            while j < px.len()
                invariant
                    j <= px@.len(),
                    pixels@ == px@.take(j as int).map_values(|p: LinearRgb| BmpRgba::LinearRgb(p)),
                decreases px@.len() - j,
            {
                pixels.push(BmpRgba::LinearRgb(px[j]));
                j = j + 1;
                assert(pixels@ =~= px@.take(j as int).map_values(|p: LinearRgb| BmpRgba::LinearRgb(p)));
            }
            assert(px@.take(px@.len() as int) =~= px@);
            assert(pixels@ =~= lines_items(image_bytes@, line_len(w, 16) as nat, 2, w as nat, true).map_values(
                |p: Seq<u8>| BmpRgba::LinearRgb(bitmask16_rgb_pixel(p, r_mask, g_mask, b_mask))));
        },
        BmpDataFormat::Bitmask32RGB { r_mask, g_mask, b_mask } => {
            if count_ones(r_mask) == 8 && count_ones(g_mask) == 8 && count_ones(b_mask) == 8 {
                let px = bmp_iter_bitmask32_srgb(image_bytes, r_mask, g_mask, b_mask, w);
                let mut j: usize = 0;
                while j < px.len()
                    invariant
                        j <= px@.len(),
                        pixels@ == px@.take(j as int).map_values(|p: RGB888| srgba_opaque(p.r, p.g, p.b)),
                    decreases px@.len() - j,
                {
                    let p = px[j];
                    pixels.push(BmpRgba::Srgb(RGBA8888 { r: p.r, g: p.g, b: p.b, a: 255 }));
                    j = j + 1;
                    assert(pixels@ =~= px@.take(j as int).map_values(|p: RGB888| srgba_opaque(p.r, p.g, p.b)));
                }
                assert(px@.take(px@.len() as int) =~= px@);
                assert(pixels@ =~= lines_items(image_bytes@, line_len(w, 32) as nat, 4, w as nat, true).map_values(
                    |p: Seq<u8>| { let c = bitmask32_srgb_pixel(p, r_mask, g_mask, b_mask); srgba_opaque(c.r, c.g, c.b) }));
            } else {
                let px = bmp_iter_bitmask32_linear_rgb(image_bytes, r_mask, g_mask, b_mask, w);
                let mut j: usize = 0;
                while j < px.len()
                    invariant
                        j <= px@.len(),
                        pixels@ == px@.take(j as int).map_values(|p: LinearRgb| BmpRgba::LinearRgb(p)),
                    decreases px@.len() - j,
                {
                    pixels.push(BmpRgba::LinearRgb(px[j]));
                    j = j + 1;
                    assert(pixels@ =~= px@.take(j as int).map_values(|p: LinearRgb| BmpRgba::LinearRgb(p)));
                }
                assert(px@.take(px@.len() as int) =~= px@);
                assert(pixels@ =~= lines_items(image_bytes@, line_len(w, 32) as nat, 4, w as nat, true).map_values(
                    |p: Seq<u8>| BmpRgba::LinearRgb(bitmask32_linear_rgb_pixel(p, r_mask, g_mask, b_mask))));
            }
        },
        BmpDataFormat::Bitmask16RGBA { r_mask, g_mask, b_mask, a_mask } => {
            let px = bmp_iter_bitmask16_rgba(image_bytes, r_mask, g_mask, b_mask, a_mask, w);
            let mut j: usize = 0;
            while j < px.len()
                invariant
                    j <= px@.len(),
                    pixels@ == px@.take(j as int).map_values(|p: LinearRgba| BmpRgba::LinearRgba(p)),
                decreases px@.len() - j,
            {
                pixels.push(BmpRgba::LinearRgba(px[j]));
                j = j + 1;
                assert(pixels@ =~= px@.take(j as int).map_values(|p: LinearRgba| BmpRgba::LinearRgba(p)));
            }
            assert(px@.take(px@.len() as int) =~= px@);
            assert(pixels@ =~= lines_items(image_bytes@, line_len(w, 16) as nat, 2, w as nat, true).map_values(
                |p: Seq<u8>| BmpRgba::LinearRgba(bitmask16_rgba_pixel(p, r_mask, g_mask, b_mask, a_mask))));
        },
        BmpDataFormat::Bitmask32RGBA { r_mask, g_mask, b_mask, a_mask } => {
            if count_ones(r_mask) == 8 && count_ones(g_mask) == 8 && count_ones(b_mask) == 8 {
                let px = bmp_iter_bitmask32_srgba(image_bytes, r_mask, g_mask, b_mask, a_mask, w);
                let mut j: usize = 0;
                while j < px.len()
                    invariant
                        j <= px@.len(),
                        pixels@ == px@.take(j as int).map_values(|p: RGBA8888| BmpRgba::Srgb(p)),
                    decreases px@.len() - j,
                {
                    pixels.push(BmpRgba::Srgb(px[j]));
                    j = j + 1;
                    assert(pixels@ =~= px@.take(j as int).map_values(|p: RGBA8888| BmpRgba::Srgb(p)));
                }
                assert(px@.take(px@.len() as int) =~= px@);
                assert(pixels@ =~= lines_items(image_bytes@, line_len(w, 32) as nat, 4, w as nat, true).map_values(
                    |p: Seq<u8>| BmpRgba::Srgb(bitmask32_srgba_pixel(p, r_mask, g_mask, b_mask, a_mask))));
            } else {
                let px = bmp_iter_bitmask32_linear_rgba(image_bytes, r_mask, g_mask, b_mask, a_mask, w);
                let mut j: usize = 0;
                while j < px.len()
                    invariant
                        j <= px@.len(),
                        pixels@ == px@.take(j as int).map_values(|p: LinearRgba| BmpRgba::LinearRgba(p)),
                    decreases px@.len() - j,
                {
                    pixels.push(BmpRgba::LinearRgba(px[j]));
                    j = j + 1;
                    assert(pixels@ =~= px@.take(j as int).map_values(|p: LinearRgba| BmpRgba::LinearRgba(p)));
                }
                assert(px@.take(px@.len() as int) =~= px@);
                assert(pixels@ =~= lines_items(image_bytes@, line_len(w, 32) as nat, 4, w as nat, true).map_values(
                    |p: Seq<u8>| BmpRgba::LinearRgba(bitmask32_linear_rgba_pixel(p, r_mask, g_mask, b_mask, a_mask))));
            }
        },
        _ => {},
    }
    pixels
}

/// The image size limit of the automatic RGBA decoder.
pub open spec fn too_large(hd: BmpNiceHeader) -> bool {
    hd.width > 17_000 || hd.height > 17_000
}

/// Decodes a BMP into an RGBA [Bitmap](crate::image::Bitmap).
///
/// * Paletted images get each color from the palette (indexes past its end
///   are transparent black).
/// * RGB images, with or without compression, get an alpha of 1.0.
/// * RGBA images, with or without compression, are processed.
///
/// Images wider or taller than 17,000 pixels are refused. The output is
/// flipped as needed so that its origin is the top left when
/// `origin_top_left` is set (the bottom left otherwise).
pub fn bmp_try_bitmap_rgba(bytes: &[u8], origin_top_left: bool) -> (r: Result<Bitmap<BmpRgba>, ImagineError>)
    ensures
        match spec_nice_header(bytes@) {
            Err(e) => r == Err::<Bitmap<BmpRgba>, ImagineError>(e),
            Ok(hd) => if too_large(hd) {
                r == Err::<Bitmap<BmpRgba>, ImagineError>(ImagineError::DimensionsTooLarge)
            } else {
                match spec_rgba_pixels(bytes@, hd) {
                    Err(e) => r == Err::<Bitmap<BmpRgba>, ImagineError>(e),
                    Ok(px) => r matches Ok(bm) && bm.width == hd.width && bm.height == hd.height && if hd.origin_top_left != origin_top_left {
                        is_vertical_flip(px, bm.pixels@, hd.width, hd.height)
                    } else {
                        bm.pixels@ == px
                    },
                }
            },
        },
{
    let header = match bmp_get_nice_header(bytes) {
        Ok(h) => h,
        Err(e) => {
            return Err(e);
        },
    };
    if header.width > 17_000 || header.height > 17_000 {
        return Err(ImagineError::DimensionsTooLarge);
    }
    let w = header.width;
    let h = header.height;
    assert(w * h <= 289_000_000) by (nonlinear_arith)
        requires
            w <= 17_000,
            h <= 17_000,
    ;
    let target: usize = (w * h) as usize;
    let tb = BmpRgba::Srgb(RGBA8888 { r: 0, g: 0, b: 0, a: 0 });
    let (ds, de) = header.data_span;
    if !(ds <= de && de <= bytes.len()) {
        return Err(ImagineError::Parse);
    }
    let image_bytes = vstd::slice::slice_subrange(bytes, ds, de);
    let mut pixels: Vec<BmpRgba> = Vec::new();
    let ghost n = (w * h) as nat;
    assert(target == n);
    match header.data_format {
        BmpDataFormat::Indexed1 { palette_span } | BmpDataFormat::Indexed4 { palette_span }
        | BmpDataFormat::Indexed4Rle { palette_span } | BmpDataFormat::Indexed8 { palette_span }
        | BmpDataFormat::Indexed8Rle { palette_span } => {
            let (ps, pe) = palette_span;
            if !(ps <= pe && pe <= bytes.len()) {
                return Err(ImagineError::Parse);
            }
            let pal_bytes = vstd::slice::slice_subrange(bytes, ps, pe);
            let palette = build_palette_rgba(pal_bytes);
            match header.data_format {
                BmpDataFormat::Indexed4Rle { .. } => {
                    resize_to(&mut pixels, target, tb);
                    let ops = bmp_iter_rle4(image_bytes);
                    paint_rle4(&ops, &palette, w, h, &mut pixels);
                },
                BmpDataFormat::Indexed8Rle { .. } => {
                    resize_to(&mut pixels, target, tb);
                    let ops = bmp_iter_rle8(image_bytes);
                    paint_rle8(&ops, &palette, w, h, &mut pixels);
                },
                other => {
                    let bits_per_pixel: u16 = match other {
                        BmpDataFormat::Indexed1 { .. } => 1,
                        BmpDataFormat::Indexed4 { .. } => 4,
                        _ => 8,
                    };
                    let indexes = bmp_iter_pal_indexes_no_compression(image_bytes, w, bits_per_pixel);
                    pixels = map_palette(&indexes, &palette);
                },
            }
        },
        _ => {
            pixels = rgba_direct_exec(image_bytes, header.data_format, w);
        },
    }
    resize_to(&mut pixels, target, tb);
    assert(spec_rgba_pixels(bytes@, header) == Ok::<Seq<BmpRgba>, ImagineError>(pixels@));
    let mut bitmap = Bitmap { width: w, height: h, pixels };
    if header.origin_top_left != origin_top_left {
        proof {
            lemma_full_grid_flip_fits(w, h);
        }
        bitmap.vertical_flip();
    }
    Ok(bitmap)
}

/// The pixels of directly colored image data for RGB output; `None` for the
/// formats with alpha.
pub open spec fn rgb_direct(image: Seq<u8>, f: BmpDataFormat, w: u32) -> Option<Seq<BmpRgb>> {
    match f {
        BmpDataFormat::BGR24 => Some(lines_items(image, line_len(w, 24) as nat, 3, w as nat, false).map_values(
            |p: Seq<u8>| srgb_color(p[2], p[1], p[0]))),
        BmpDataFormat::Bitmask16RGB { r_mask, g_mask, b_mask } => Some(lines_items(image, line_len(w, 16) as nat, 2, w as nat, true).map_values(
            |p: Seq<u8>| BmpRgb::Linear(bitmask16_rgb_pixel(p, r_mask, g_mask, b_mask)))),
        BmpDataFormat::Bitmask32RGB { r_mask, g_mask, b_mask } => if ones(r_mask) == 8 && ones(g_mask) == 8 && ones(b_mask) == 8 {
            Some(lines_items(image, line_len(w, 32) as nat, 4, w as nat, true).map_values(
                |p: Seq<u8>| BmpRgb::Srgb(bitmask32_srgb_pixel(p, r_mask, g_mask, b_mask))))
        } else {
            Some(lines_items(image, line_len(w, 32) as nat, 4, w as nat, true).map_values(
                |p: Seq<u8>| BmpRgb::Linear(bitmask32_linear_rgb_pixel(p, r_mask, g_mask, b_mask))))
        },
        _ => None,
    }
}

/// The pixels an RGB decode of `bytes` (whose header is `hd`) produces,
/// before any flip. RLE data is painted onto a black canvas; other data gives
/// one pixel per decoded item, cut or padded with black to the image's size.
pub open spec fn spec_rgb_pixels(bytes: Seq<u8>, hd: BmpNiceHeader) -> Result<Seq<BmpRgb>, ImagineError> {
    let n = (hd.width as int * hd.height as int) as nat;
    let w = hd.width;
    let bk = black();
    if !span_ok(hd.data_span, bytes.len()) {
        Err(ImagineError::Parse)
    } else {
        let image = bytes.subrange(hd.data_span.0 as int, hd.data_span.1 as int);
        match palette_span(hd.data_format) {
            Some(span) => if !span_ok(span, bytes.len()) {
                Err(ImagineError::Parse)
            } else {
                let pal = palette_rgb(bytes.subrange(span.0 as int, span.1 as int));
                let base = resized(Seq::empty(), n, bk);
                if hd.data_format is Indexed4Rle {
                    Ok(resized(paint_rle4_spec(rle4_ops(image, 0, 0), pal, w, hd.height, 0, 0, base), n, bk))
                } else if hd.data_format is Indexed8Rle {
                    Ok(resized(paint_rle8_spec(rle8_ops(image, 0, 0), pal, w, hd.height, 0, 0, base), n, bk))
                } else {
                    let bpp = index_bits(hd.data_format);
                    Ok(resized(pal_indexes(image, line_len(w, bpp) as nat, bpp as nat, w as nat).map_values(|i: u8| pal[i as int]), n, bk))
                }
            },
            None => match rgb_direct(image, hd.data_format, w) {
                Some(px) => Ok(resized(px, n, bk)),
                None => Err(ImagineError::Parse),
            },
        }
    }
}

fn rgb_direct_exec(image_bytes: &[u8], format: BmpDataFormat, w: u32) -> (r: Option<Vec<BmpRgb>>)
    requires
        w > 0,
    ensures
        match rgb_direct(image_bytes@, format, w) {
            Some(px) => r matches Some(v) && v@ == px,
            None => r is None,
        },
{
    let mut pixels: Vec<BmpRgb> = Vec::new();
    match format {
        BmpDataFormat::BGR24 => {
            let px = bmp_iter_bgr24(image_bytes, w);
            let mut j: usize = 0;
            while j < px.len()
                invariant
                    j <= px@.len(),
                    pixels@ == px@.take(j as int).map_values(|p: [u8; 3]| srgb_color(p@[2], p@[1], p@[0])),
                decreases px@.len() - j,
            {
                let p = px[j];
                pixels.push(BmpRgb::Srgb(RGB888 { r: p[2], g: p[1], b: p[0] }));
                j = j + 1;
                assert(pixels@ =~= px@.take(j as int).map_values(|p: [u8; 3]| srgb_color(p@[2], p@[1], p@[0])));
            }
            proof {
                let items = lines_items(image_bytes@, line_len(w, 24) as nat, 3, w as nat, false);
                assert(px@.take(px@.len() as int) =~= px@);
                assert(pixels@ =~= items.map_values(|p: Seq<u8>| srgb_color(p[2], p[1], p[0]))) by {
                    assert forall|t: int| 0 <= t < pixels@.len() implies pixels@[t] == srgb_color(items[t][2], items[t][1], items[t][0]) by {
                        assert(px@[t]@ == items[t]);
                    }
                }
            }
        },
        BmpDataFormat::Bitmask16RGB { r_mask, g_mask, b_mask } => {
            let px = bmp_iter_bitmask16_rgb(image_bytes, r_mask, g_mask, b_mask, w);
            let mut j: usize = 0;
            while j < px.len()
                invariant
                    j <= px@.len(),
                    pixels@ == px@.take(j as int).map_values(|p: LinearRgb| BmpRgb::Linear(p)),
                decreases px@.len() - j,
            {
                pixels.push(BmpRgb::Linear(px[j]));
                j = j + 1;
                assert(pixels@ =~= px@.take(j as int).map_values(|p: LinearRgb| BmpRgb::Linear(p)));
            }
            assert(px@.take(px@.len() as int) =~= px@);
            assert(pixels@ =~= lines_items(image_bytes@, line_len(w, 16) as nat, 2, w as nat, true).map_values(
                |p: Seq<u8>| BmpRgb::Linear(bitmask16_rgb_pixel(p, r_mask, g_mask, b_mask))));
        },
        BmpDataFormat::Bitmask32RGB { r_mask, g_mask, b_mask } => {
            if count_ones(r_mask) == 8 && count_ones(g_mask) == 8 && count_ones(b_mask) == 8 {
                let px = bmp_iter_bitmask32_srgb(image_bytes, r_mask, g_mask, b_mask, w);
                let mut j: usize = 0;
                while j < px.len()
                    invariant
                        j <= px@.len(),
                        pixels@ == px@.take(j as int).map_values(|p: RGB888| BmpRgb::Srgb(p)),
                    decreases px@.len() - j,
                {
                    pixels.push(BmpRgb::Srgb(px[j]));
                    j = j + 1;
                    assert(pixels@ =~= px@.take(j as int).map_values(|p: RGB888| BmpRgb::Srgb(p)));
                }
                assert(px@.take(px@.len() as int) =~= px@);
                assert(pixels@ =~= lines_items(image_bytes@, line_len(w, 32) as nat, 4, w as nat, true).map_values(
                    |p: Seq<u8>| BmpRgb::Srgb(bitmask32_srgb_pixel(p, r_mask, g_mask, b_mask))));
            } else {
                let px = bmp_iter_bitmask32_linear_rgb(image_bytes, r_mask, g_mask, b_mask, w);
                let mut j: usize = 0;
                while j < px.len()
                    invariant
                        j <= px@.len(),
                        pixels@ == px@.take(j as int).map_values(|p: LinearRgb| BmpRgb::Linear(p)),
                    decreases px@.len() - j,
                {
                    pixels.push(BmpRgb::Linear(px[j]));
                    j = j + 1;
                    assert(pixels@ =~= px@.take(j as int).map_values(|p: LinearRgb| BmpRgb::Linear(p)));
                }
                assert(px@.take(px@.len() as int) =~= px@);
                assert(pixels@ =~= lines_items(image_bytes@, line_len(w, 32) as nat, 4, w as nat, true).map_values(
                    |p: Seq<u8>| BmpRgb::Linear(bitmask32_linear_rgb_pixel(p, r_mask, g_mask, b_mask))));
            }
        },
        _ => {
            return None;
        },
    }
    Some(pixels)
}

/// Decodes a BMP into an RGB [Bitmap](crate::image::Bitmap).
///
/// * Paletted images take their colors from the palette (indexes past its
///   end are black).
/// * RGB images with or without compression are processed.
/// * RGBA images fail with `Parse`.
///
/// The output is flipped as needed so that its origin is the top left when
/// `origin_top_left` is set (the bottom left otherwise).
pub fn bmp_try_bitmap_rgb(bytes: &[u8], origin_top_left: bool) -> (r: Result<Bitmap<BmpRgb>, ImagineError>)
    ensures
        match spec_nice_header(bytes@) {
            Err(e) => r == Err::<Bitmap<BmpRgb>, ImagineError>(e),
            Ok(hd) => if hd.width as int * hd.height as int > u32::MAX {
                r == Err::<Bitmap<BmpRgb>, ImagineError>(ImagineError::CheckedMath)
            } else {
                match spec_rgb_pixels(bytes@, hd) {
                    Err(e) => r == Err::<Bitmap<BmpRgb>, ImagineError>(e),
                    Ok(px) => r matches Ok(bm) && bm.width == hd.width && bm.height == hd.height && if hd.origin_top_left != origin_top_left {
                        is_vertical_flip(px, bm.pixels@, hd.width, hd.height)
                    } else {
                        bm.pixels@ == px
                    },
                }
            },
        },
{
    let header = match bmp_get_nice_header(bytes) {
        Ok(h) => h,
        Err(e) => {
            return Err(e);
        },
    };
    let w = header.width;
    let h = header.height;
    let count = match w.checked_mul(h) {
        Some(c) => c,
        None => {
            return Err(ImagineError::CheckedMath);
        },
    };
    let target: usize = count as usize;
    let bk = BmpRgb::Srgb(RGB888 { r: 0, g: 0, b: 0 });
    let (ds, de) = header.data_span;
    if !(ds <= de && de <= bytes.len()) {
        return Err(ImagineError::Parse);
    }
    let image_bytes = vstd::slice::slice_subrange(bytes, ds, de);
    let mut pixels: Vec<BmpRgb> = Vec::new();
    match header.data_format {
        BmpDataFormat::Indexed1 { palette_span } | BmpDataFormat::Indexed4 { palette_span }
        | BmpDataFormat::Indexed4Rle { palette_span } | BmpDataFormat::Indexed8 { palette_span }
        | BmpDataFormat::Indexed8Rle { palette_span } => {
            let (ps, pe) = palette_span;
            if !(ps <= pe && pe <= bytes.len()) {
                return Err(ImagineError::Parse);
            }
            let pal_bytes = vstd::slice::slice_subrange(bytes, ps, pe);
            let palette = build_palette_rgb(pal_bytes);
            match header.data_format {
                BmpDataFormat::Indexed4Rle { .. } => {
                    resize_to(&mut pixels, target, bk);
                    let ops = bmp_iter_rle4(image_bytes);
                    paint_rle4(&ops, &palette, w, h, &mut pixels);
                },
                BmpDataFormat::Indexed8Rle { .. } => {
                    resize_to(&mut pixels, target, bk);
                    let ops = bmp_iter_rle8(image_bytes);
                    paint_rle8(&ops, &palette, w, h, &mut pixels);
                },
                other => {
                    let bits_per_pixel: u16 = match other {
                        BmpDataFormat::Indexed1 { .. } => 1,
                        BmpDataFormat::Indexed4 { .. } => 4,
                        _ => 8,
                    };
                    let indexes = bmp_iter_pal_indexes_no_compression(image_bytes, w, bits_per_pixel);
                    pixels = map_palette(&indexes, &palette);
                },
            }
        },
        _ => {
            match rgb_direct_exec(image_bytes, header.data_format, w) {
                Some(v) => {
                    pixels = v;
                },
                None => {
                    return Err(ImagineError::Parse);
                },
            }
        },
    }
    resize_to(&mut pixels, target, bk);
    assert(spec_rgb_pixels(bytes@, header) == Ok::<Seq<BmpRgb>, ImagineError>(pixels@));
    let mut bitmap = Bitmap { width: w, height: h, pixels };
    if header.origin_top_left != origin_top_left {
        proof {
            lemma_full_grid_flip_fits(w, h);
        }
        bitmap.vertical_flip();
    }
    Ok(bitmap)
}

} // verus!
