//! Decoding a whole PNG file into an RGBA image.
use vstd::prelude::*;
use crate::basic_image::Image;
use crate::int_endian::{be16, u16_from_be};
use crate::pixel_formats::{RGB888, RGBA8888};
use super::chunks::{
    IHDR, PngColorType, ChunkModel, spec_bits_per_pixel, spec_chunks, after_signature, spec_first_ihdr,
    spec_first_trns, spec_first_plte, spec_idats, spec_palette_entries, png_get_header, png_get_transparency,
    png_get_palette, png_get_idat,
};
use super::interlace::spec_zlib_requirement;
use super::unfilter::{
    PixelModel, UnfilteredPixel, spec_unfilter, spec_filter_chunk_size, filter_chunk_size, unit_data_len, zeros,
    pixels_view, lemma_unfilter_pixels_sized,
};

verus! {

/// A byte filled with copies of the low `count` bits of `u`, for the counts
/// that PNG bit depths use (1, 2, 4 and 8): the value scaled from its depth to
/// the full 8-bit range.
pub open spec fn spec_replicate_bits(count: u32, u: u8) -> u8 {
    if count == 1 {
        ((u % 2) * 255) as u8
    } else if count == 2 {
        ((u % 4) * 85) as u8
    } else if count == 4 {
        ((u % 16) * 17) as u8
    } else {
        u
    }
}

/// Calls `bitfrob::u8_replicate_bits`, which shifts the low `count` bits of
/// `u` to the top of the byte and then copies them downwards until the byte
/// is full; for the counts 1, 2, 4 and 8 that is [spec_replicate_bits]. The
/// function asserts `0 < count <= 8`.
#[verifier::external_body]
fn replicate_bits(count: u32, u: u8) -> (r: u8)
    requires
        count == 1 || count == 2 || count == 4 || count == 8,
    ensures
        r == spec_replicate_bits(count, u),
{
    bitfrob::u8_replicate_bits(count, u)
}

/// What `miniz_oxide::inflate::decompress_slice_iter_to_slice` leaves in its
/// output buffer, given the buffer's bytes before the call and the input
/// slices, with a zlib header expected and the Adler-32 checksum ignored.
pub uninterp spec fn zlib_inflated(out: Seq<u8>, input: Seq<Seq<u8>>) -> Seq<u8>;

/// Calls `miniz_oxide::inflate::decompress_slice_iter_to_slice(out, input,
/// true, true)`, which inflates the zlib stream held by the input slices into
/// `out`. The buffer afterwards is named [zlib_inflated]; its length is that
/// of the slice. The call's status (bytes written, or why it stopped) is
/// dropped: the decoder carries on with whatever is in the buffer.
#[verifier::external_body]
fn inflate_into(out: &mut [u8], input: &[&[u8]])
    ensures
        final(out)@.len() == old(out)@.len(),
        final(out)@ == zlib_inflated(old(out)@, input@.map_values(|s: &[u8]| s@)),
{
    let _ = miniz_oxide::inflate::decompress_slice_iter_to_slice(out, input.iter().copied(), true, true);
}

/// The palette used while decoding: the entries of the first whole `PLTE`
/// chunk for indexed images, none for other color types.
pub open spec fn png_palette(h: IHDR, cs: Seq<ChunkModel>) -> Seq<RGB888> {
    if h.color_type is Index {
        match spec_first_plte(cs) {
            Some(d) => spec_palette_entries(d),
            None => Seq::empty(),
        }
    } else {
        Seq::empty()
    }
}

/// The RGBA value of one unfiltered pixel's `data` (see
/// [UnfilteredPixel]), given the palette and the `tRNS` chunk's data.
///
/// 16-bit channels keep their high byte; gray values below 8 bits are scaled
/// up by bit replication. A gray or RGB pixel is fully transparent when its
/// full-depth value equals the one the `tRNS` chunk names (2 bytes for gray,
/// 6 for RGB), opaque otherwise. An index past the palette gives black, and
/// its alpha comes from the `tRNS` byte at that index (255 past its end or
/// without the chunk).
pub open spec fn png_rgba(h: IHDR, data: Seq<u8>, plte: Seq<RGB888>, trns: Option<Seq<u8>>) -> RGBA8888 {
    let wide = h.bit_depth == 16;
    match h.color_type {
        PngColorType::RGB => {
            let full: (int, int, int) = if wide {
                (be16(data[0], data[1]), be16(data[2], data[3]), be16(data[4], data[5]))
            } else {
                (data[0] as int, data[1] as int, data[2] as int)
            };
            let clear = (trns matches Some(t) && t.len() == 6 && full == (
                be16(t[0], t[1]),
                be16(t[2], t[3]),
                be16(t[4], t[5]),
            ));
            RGBA8888 {
                r: data[0],
                g: if wide { data[2] } else { data[1] },
                b: if wide { data[4] } else { data[2] },
                a: if clear { 0 } else { 255 },
            }
        },
        PngColorType::RGBA => RGBA8888 {
            r: data[0],
            g: if wide { data[2] } else { data[1] },
            b: if wide { data[4] } else { data[2] },
            a: if wide { data[6] } else { data[3] },
        },
        PngColorType::YA => {
            let y = data[0];
            RGBA8888 { r: y, g: y, b: y, a: if wide { data[2] } else { data[1] } }
        },
        PngColorType::Y => {
            let y = if wide { data[0] } else { spec_replicate_bits(h.bit_depth as u32, data[0]) };
            let full = if wide { be16(data[0], data[1]) } else { data[0] as int };
            let clear = (trns matches Some(t) && t.len() == 2 && be16(t[0], t[1]) == full);
            RGBA8888 { r: y, g: y, b: y, a: if clear { 0 } else { 255 } }
        },
        PngColorType::Index => {
            let i = data[0] as int;
            let c = if i < plte.len() { plte[i] } else { RGB888 { r: 0, g: 0, b: 0 } };
            let a = match trns {
                Some(t) => if i < t.len() { t[i] } else { 255u8 },
                None => 255u8,
            };
            RGBA8888 { r: c.r, g: c.g, b: c.b, a }
        },
    }
}

/// Sample `k` of a pixel's bytes at bit depth 8 or 16 (two bytes,
/// big-endian).
pub open spec fn png_sample(depth: u8, data: Seq<u8>, k: int) -> int {
    if depth == 16 { data[2 * k] as int * 256 + data[2 * k + 1] as int } else { data[k] as int }
}

/// Sample `k` brought to 8 bits: a 16-bit sample keeps its high byte.
pub open spec fn png_sample_8(depth: u8, data: Seq<u8>, k: int) -> int {
    if depth == 16 { png_sample(depth, data, k) / 256 } else { png_sample(depth, data, k) }
}

/// The 16-bit value stored big-endian at sample `k` of a `tRNS` chunk.
pub open spec fn trns_sample(t: Seq<u8>, k: int) -> int {
    t[2 * k] as int * 256 + t[2 * k + 1] as int
}

/// How the channels of a direct-color pixel (depth 8 or 16) become RGBA8:
/// every channel, alpha included, is its sample brought to 8 bits (the high
/// byte of a 16-bit sample); gray fills red, green and blue. Without an alpha
/// sample the pixel is transparent exactly when its samples equal the
/// color stored in `tRNS`, and opaque otherwise.
pub proof fn lemma_png_direct_color_channels(h: IHDR, data: Seq<u8>, plte: Seq<RGB888>, trns: Option<Seq<u8>>)
    requires
        h.bit_depth == 8 || h.bit_depth == 16,
        data.len() >= (h.bit_depth / 8) as int * match h.color_type {
            PngColorType::RGBA => 4int,
            PngColorType::RGB => 3,
            PngColorType::YA => 2,
            _ => 1,
        },
    ensures
        ({
            let d = h.bit_depth;
            let px = png_rgba(h, data, plte, trns);
            &&& h.color_type is RGBA ==> px.r == png_sample_8(d, data, 0) && px.g == png_sample_8(d, data, 1)
                && px.b == png_sample_8(d, data, 2) && px.a == png_sample_8(d, data, 3)
            &&& h.color_type is YA ==> px.r == png_sample_8(d, data, 0) && px.g == px.r && px.b == px.r
                && px.a == png_sample_8(d, data, 1)
            &&& h.color_type is RGB ==> px.r == png_sample_8(d, data, 0) && px.g == png_sample_8(d, data, 1)
                && px.b == png_sample_8(d, data, 2) && (px.a == 0 || px.a == 255) && (px.a == 0 <==> (trns matches Some(
                t) && t.len() == 6 && png_sample(d, data, 0) == trns_sample(t, 0) && png_sample(d, data, 1)
                == trns_sample(t, 1) && png_sample(d, data, 2) == trns_sample(t, 2)))
            &&& h.color_type is Y ==> px.r == png_sample_8(d, data, 0) && px.g == px.r && px.b == px.r
                && (px.a == 0 || px.a == 255) && (px.a == 0 <==> (trns matches Some(t) && t.len() == 2
                && png_sample(d, data, 0) == trns_sample(t, 0)))
        }),
{
    let d = h.bit_depth;
    if d == 16 {
        assert forall|k: int| 0 <= k && 2 * k + 1 < data.len() implies png_sample_8(d, data, k) == data[2 * k] by {
            let hi = data[2 * k] as int;
            let lo = data[2 * k + 1] as int;
            vstd::arithmetic::div_mod::lemma_fundamental_div_mod_converse(hi * 256 + lo, 256, hi, lo);
        }
        assert(png_sample_8(d, data, 0) == data[0]);
        assert(png_sample_8(d, data, 1) == data[2]);
        assert(png_sample_8(d, data, 2) == data[4]);
        assert(png_sample_8(d, data, 3) == data[6]);
    }
}

/// Low-depth gray (1, 2 or 4 bits) is scaled to the full 8-bit range: the
/// result is the same fraction of 255 that the sample is of its largest
/// value.
pub proof fn lemma_png_low_depth_gray(h: IHDR, data: Seq<u8>, plte: Seq<RGB888>, trns: Option<Seq<u8>>)
    requires
        h.color_type is Y,
        h.bit_depth == 1 || h.bit_depth == 2 || h.bit_depth == 4,
        data.len() >= 1,
    ensures
        ({
            let px = png_rgba(h, data, plte, trns);
            let top = vstd::arithmetic::power2::pow2(h.bit_depth as nat) - 1;
            &&& px.g == px.r && px.b == px.r
            &&& px.r as int * top == (data[0] as int % (top + 1)) * 255
        }),
{
    vstd::arithmetic::power2::lemma2_to64();
    let u = data[0] as int;
    if h.bit_depth == 1 {
        assert((u % 2) * 255 < 256 && (u % 2) * 255 >= 0) by (nonlinear_arith)
            requires
                0 <= u % 2 < 2,
        ;
    } else if h.bit_depth == 2 {
        assert((u % 4) * 85 < 256 && (u % 4) * 85 * 3 == (u % 4) * 255) by (nonlinear_arith)
            requires
                0 <= u % 4 < 4,
        ;
    } else {
        assert((u % 16) * 17 < 256 && (u % 16) * 17 * 15 == (u % 16) * 255) by (nonlinear_arith)
            requires
                0 <= u % 16 < 16,
        ;
    }
}

/// A paletted pixel takes its color from the palette entry it names (black
/// past the palette's end) and its alpha from the `tRNS` byte at that index
/// (opaque past its end or without the chunk).
pub proof fn lemma_png_indexed_color(h: IHDR, data: Seq<u8>, plte: Seq<RGB888>, trns: Option<Seq<u8>>)
    requires
        h.color_type is Index,
        data.len() >= 1,
    ensures
        ({
            let px = png_rgba(h, data, plte, trns);
            let i = data[0] as int;
            &&& i < plte.len() ==> px.r == plte[i].r && px.g == plte[i].g && px.b == plte[i].b
            &&& i >= plte.len() ==> px.r == 0 && px.g == 0 && px.b == 0
            &&& px.a == match trns {
                Some(t) => if i < t.len() { t[i] } else { 255u8 },
                None => 255u8,
            }
        }),
{
}

/// `px` after writing each pixel of `ps` in turn (at `y * width + x`),
/// skipping those outside the `width` by `height` image.
pub open spec fn paint_png(
    px: Seq<RGBA8888>,
    h: IHDR,
    ps: Seq<PixelModel>,
    plte: Seq<RGB888>,
    trns: Option<Seq<u8>>,
) -> Seq<RGBA8888>
    decreases ps.len(),
{
    if ps.len() == 0 {
        px
    } else {
        let before = paint_png(px, h, ps.drop_last(), plte, trns);
        let p = ps.last();
        if p.0 < h.width && p.1 < h.height {
            before.update(p.1 * h.width + p.0, png_rgba(h, p.2, plte, trns))
        } else {
            before
        }
    }
}

/// The pixels decoded from PNG `bytes` with header `h`, given the inflated
/// image data: every pixel starts as all zeros, then each pixel that
/// unfiltering hands out is converted and written in turn.
pub open spec fn spec_png_pixels(bytes: Seq<u8>, h: IHDR, inflated: Seq<u8>) -> Seq<RGBA8888> {
    let cs = spec_chunks(after_signature(bytes));
    paint_png(
        Seq::new((h.width * h.height) as nat, |i: int| RGBA8888 { r: 0, g: 0, b: 0, a: 0 }),
        h,
        spec_unfilter(h, inflated).1,
        png_palette(h, cs),
        spec_first_trns(cs),
    )
}

/// Converts one unfiltered pixel to RGBA.
fn png_pixel_rgba(h: &IHDR, data: &[u8], plte: &[RGB888], trns: Option<&[u8]>) -> (p: RGBA8888)
    requires
        spec_filter_chunk_size(*h) is Some,
        data@.len() == unit_data_len(*h, spec_filter_chunk_size(*h)->0),
    ensures
        p == png_rgba(
            *h,
            data@,
            plte@,
            match trns {
                Some(t) => Some(t@),
                None => None,
            },
        ),
{
    let wide = h.bit_depth == 16;
    match h.color_type {
        PngColorType::RGB => {
            let full: [u16; 3] = if wide {
                [u16_from_be(data[0], data[1]), u16_from_be(data[2], data[3]), u16_from_be(data[4], data[5])]
            } else {
                [data[0] as u16, data[1] as u16, data[2] as u16]
            };
            let clear = match trns {
                Some(t) => t.len() == 6 && u16_from_be(t[0], t[1]) == full[0] && u16_from_be(t[2], t[3])
                    == full[1] && u16_from_be(t[4], t[5]) == full[2],
                None => false,
            };
            RGBA8888 {
                r: data[0],
                g: if wide { data[2] } else { data[1] },
                b: if wide { data[4] } else { data[2] },
                a: if clear { 0 } else { 255 },
            }
        },
        PngColorType::RGBA => RGBA8888 {
            r: data[0],
            g: if wide { data[2] } else { data[1] },
            b: if wide { data[4] } else { data[2] },
            a: if wide { data[6] } else { data[3] },
        },
        PngColorType::YA => {
            let y = data[0];
            RGBA8888 { r: y, g: y, b: y, a: if wide { data[2] } else { data[1] } }
        },
        PngColorType::Y => {
            let y = if wide { data[0] } else { replicate_bits(h.bit_depth as u32, data[0]) };
            let full: u16 = if wide { u16_from_be(data[0], data[1]) } else { data[0] as u16 };
            let clear = match trns {
                Some(t) => t.len() == 2 && u16_from_be(t[0], t[1]) == full,
                None => false,
            };
            RGBA8888 { r: y, g: y, b: y, a: if clear { 0 } else { 255 } }
        },
        PngColorType::Index => {
            let i = data[0] as usize;
            let c = if i < plte.len() { plte[i] } else { RGB888 { r: 0, g: 0, b: 0 } };
            let a = match trns {
                Some(t) => if i < t.len() { t[i] } else { 255u8 },
                None => 255u8,
            };
            RGBA8888 { r: c.r, g: c.g, b: c.b, a }
        },
    }
}

/// Builds the RGBA image of PNG `bytes` with header `ihdr` from the
/// zlib-inflated image data in `inflated`, which is unfiltered in place.
///
/// The image has the header's size and starts all zeros; palette and
/// transparency come from the first `PLTE` (indexed images only) and `tRNS`
/// chunks. A failure part way through unfiltering keeps the pixels written
/// before it.
pub fn png_image_from_inflated(bytes: &[u8], ihdr: IHDR, inflated: &mut [u8]) -> (img: Image<RGBA8888>)
    requires
        ihdr.width * ihdr.height <= u32::MAX,
        spec_bits_per_pixel(ihdr) * ihdr.width + 8 <= usize::MAX,
        old(inflated)@.len() < usize::MAX,
    ensures
        img.width == ihdr.width,
        img.height == ihdr.height,
        img.pixels@ == spec_png_pixels(bytes@, ihdr, old(inflated)@),
        final(inflated)@ == spec_unfilter(ihdr, old(inflated)@).2,
{
    let ghost cs = spec_chunks(after_signature(bytes@));
    let ghost start = inflated@;
    let n: usize = (ihdr.width as usize) * (ihdr.height as usize);
    let zero = RGBA8888 { r: 0, g: 0, b: 0, a: 0 };
    let ghost init = Seq::new((ihdr.width * ihdr.height) as nat, |i: int| RGBA8888 { r: 0, g: 0, b: 0, a: 0 });
    let mut pixels: Vec<RGBA8888> = Vec::new();
    while pixels.len() < n
        invariant
            n == ihdr.width * ihdr.height,
            pixels@.len() <= n,
            forall|i: int| 0 <= i < pixels@.len() ==> #[trigger] pixels@[i] == zero,
            zero == (RGBA8888 { r: 0, g: 0, b: 0, a: 0 }),
        decreases n - pixels@.len(),
    {
        pixels.push(zero);
    }
    assert(pixels@ =~= init);
    let plte: Vec<RGB888> = match ihdr.color_type {
        PngColorType::Index => match png_get_palette(bytes) {
            Some(v) => v,
            None => Vec::new(),
        },
        _ => Vec::new(),
    };
    assert(plte@ =~= png_palette(ihdr, cs));
    let trns: Option<&[u8]> = match png_get_transparency(bytes) {
        Some(t) => Some(t.to_alphas()),
        None => None,
    };
    let ghost trns_model: Option<Seq<u8>> = match trns {
        Some(t) => Some(t@),
        None => None,
    };
    assert(trns_model == spec_first_trns(cs));
    let mut ps: Vec<UnfilteredPixel> = Vec::new();
    let _ = ihdr.unfilter_decompressed_data(inflated, &mut ps);
    let ghost out = spec_unfilter(ihdr, start).1;
    assert(pixels_view(ps@) =~= out);
    proof {
        if spec_filter_chunk_size(ihdr) is Some {
            lemma_unfilter_pixels_sized(ihdr, start);
        }
    }
    let mut k: usize = 0;
    while k < ps.len()
        invariant
            k <= ps@.len(),
            n == ihdr.width * ihdr.height,
            ihdr.width * ihdr.height <= u32::MAX,
            pixels@.len() == n,
            pixels_view(ps@) == out,
            out == spec_unfilter(ihdr, start).1,
            out.len() > 0 ==> spec_filter_chunk_size(ihdr) is Some,
            spec_filter_chunk_size(ihdr) is Some ==> forall|i: int| 0 <= i < out.len() ==> #[trigger] out[i].2.len()
                == unit_data_len(ihdr, spec_filter_chunk_size(ihdr)->0),
            trns_model == match trns {
                Some(t) => Some(t@),
                None => None::<Seq<u8>>,
            },
            pixels@ == paint_png(init, ihdr, out.take(k as int), plte@, trns_model),
        decreases ps@.len() - k,
    {
        let p = &ps[k];
        assert(out[k as int] == p.view());
        assert(out.take(k + 1).drop_last() =~= out.take(k as int));
        assert(out.take(k + 1).last() == p.view());
        assert(spec_filter_chunk_size(ihdr) is Some);
        assert(out[k as int].2.len() == unit_data_len(ihdr, spec_filter_chunk_size(ihdr)->0));
        assert(p.data@ == out[k as int].2);
        if p.x < ihdr.width && p.y < ihdr.height {
            assert(p.y * ihdr.width + p.x < ihdr.width * ihdr.height) by (nonlinear_arith)
                requires
                    p.x < ihdr.width,
                    p.y < ihdr.height,
            ;
            let i = (p.y as usize) * (ihdr.width as usize) + (p.x as usize);
            let c = png_pixel_rgba(&ihdr, p.data.as_slice(), plte.as_slice(), trns);
            pixels.set(i, c);
        }
        k = k + 1;
    }
    assert(out.take(out.len() as int) =~= out);
    Image { width: ihdr.width, height: ihdr.height, pixels }
}

/// Whether the buffers for decoding an image with header `h` can be had:
/// the inflate buffer and the pixel buffer (4 bytes a pixel) stay within
/// `isize::MAX` bytes, and a line's bit count fits in a `usize`.
pub open spec fn png_buffers_fit(h: IHDR) -> bool {
    &&& spec_zlib_requirement(h) <= isize::MAX
    &&& h.width * h.height * 4 <= isize::MAX
    &&& spec_bits_per_pixel(h) * h.width + 8 <= usize::MAX
}

impl Image<RGBA8888> {
    /// Attempts to make an image from PNG bytes.
    ///
    /// The header is the first legal `IHDR` chunk; the image data of all
    /// `IDAT` chunks is inflated into a zeroed buffer of
    /// [IHDR::get_zlib_decompression_requirement] bytes, then unfiltered and
    /// converted by [png_image_from_inflated], whatever the inflating
    /// reported. `None` when there is no header, or when the buffers cannot be
    /// had ([png_buffers_fit]).
    pub fn try_from_png_bytes(bytes: &[u8]) -> (r: Option<Self>)
        requires
            spec_first_ihdr(spec_chunks(after_signature(bytes@))) matches Some(h) ==> h.width * h.height
                <= u32::MAX,
        ensures
            match spec_first_ihdr(spec_chunks(after_signature(bytes@))) {
                None => r is None,
                Some(h) => if png_buffers_fit(h) {
                    r matches Some(img) && img.width == h.width && img.height == h.height && img.pixels@
                        == spec_png_pixels(
                        bytes@,
                        h,
                        zlib_inflated(
                            zeros(spec_zlib_requirement(h)),
                            spec_idats(spec_chunks(after_signature(bytes@))),
                        ),
                    )
                } else {
                    r is None
                },
            },
    {
        let ihdr = match png_get_header(bytes) {
            Some(h) => h,
            None => {
                return None;
            },
        };
        let zlib_len = ihdr.get_zlib_decompression_requirement();
        if zlib_len > isize::MAX as usize {
            return None;
        }
        let pixel_count: usize = (ihdr.width as usize) * (ihdr.height as usize);
        if pixel_count > (isize::MAX as usize) / 4 {
            return None;
        }
        let bpp = ihdr.bits_per_pixel();
        match bpp.checked_mul(ihdr.width as usize) {
            Some(line_bits) => {
                if line_bits > usize::MAX - 8 {
                    return None;
                }
            },
            None => {
                return None;
            },
        }
        let mut zlib_buffer: Vec<u8> = vec![0u8; zlib_len];
        assert(zlib_buffer@ =~= zeros(zlib_len as int));
        let idats = png_get_idat(bytes);
        inflate_into(zlib_buffer.as_mut_slice(), idats.as_slice());
        let image = png_image_from_inflated(bytes, ihdr, zlib_buffer.as_mut_slice());
        Some(image)
    }
}

} // verus!
