//! A compact summary of a BMP file's header: dimensions, bit depth,
//! compression, and where in the file the palette and the pixel data lie.
//! It reads the 40 byte (V1) and 124 byte (V5) info headers.
use vstd::prelude::*;
use crate::error::ImagineError;
use crate::sRGBIntent;
use crate::bmp::raw_headers::{le16, le32, read_u16_le, read_u32_le};
use crate::byte_groups::cast_to_groups;

verus! {

/// Compression of the pixel data, as this summary sees it.
#[derive(Debug, Clone, Copy, PartialEq, Eq, Structural)]
pub enum BmpCompression {
    /// Run-length encoding (4 or 8 bits per pixel).
    RunLengthEncoding,
    /// RGB bit fields.
    Bitfields { red: u32, green: u32, blue: u32 },
    /// RGBA bit fields.
    AlphaBitfields { red: u32, green: u32, blue: u32, alpha: u32 },
}

/// Header data of a bitmap file in one consistent form.
///
/// **Alpha:** when the image uses alpha (alpha bit fields, or 32 bits per
/// pixel with no compression), color and alpha are expected to be
/// premultiplied, though some files have straight alpha anyway.
#[derive(Debug, Clone, Copy, Default)]
pub struct BmpHeader {
    /// Image width in pixels.
    pub width: u32,
    /// Image height in pixels.
    pub height: u32,
    /// Bits per pixel: 1, 2, 4 or 8 paletted (possibly RLE), 16 or 32 bit
    /// masked, 24 `[b,g,r]`.
    pub bits_per_pixel: usize,
    /// Byte span of the palette, if any.
    pub palette_span: Option<(usize, usize)>,
    /// Byte span of the image data.
    pub image_span: (usize, usize),
    /// The compression scheme, if any.
    pub compression: Option<BmpCompression>,
    /// The sRGB intent of the image, if any.
    pub srgb_intent: Option<sRGBIntent>,
    /// Whether the origin is the top left (otherwise the bottom left).
    pub origin_top_left: bool,
}

/// Whether a header's image uses the alpha channel.
pub open spec fn spec_uses_alpha(h: BmpHeader) -> bool {
    h.bits_per_pixel == 32 || h.compression matches Some(BmpCompression::AlphaBitfields { .. })
}

impl BmpHeader {
    /// Whether the image uses the alpha channel: 32 bits per pixel, or alpha
    /// bit fields.
    pub fn uses_alpha(&self) -> (b: bool)
        ensures
            b == spec_uses_alpha(*self),
    {
        self.bits_per_pixel == 32 || matches!(self.compression, Some(BmpCompression::AlphaBitfields { .. }))
    }

    /// The palette entries, `[b, g, r, _]` (or `[b, g, r, a]` when the image
    /// uses alpha): the palette span of `bytes` read as 4 byte entries, when
    /// there is a span, it is a non-empty range within the bytes, and its
    /// length is a multiple of 4; `None` otherwise.
    pub fn get_palette<'b>(&self, bytes: &'b [u8]) -> (r: Option<&'b [[u8; 4]]>)
        ensures
            match self.palette_span {
                Some((low, high)) => if low < high && high <= bytes@.len() && (high - low) % 4 == 0 {
                    r is Some && r->0@.len() == (high - low) / 4 && forall|i: int|
                        0 <= i < r->0@.len() ==> #[trigger] r->0@[i]@ == bytes@.subrange(low + 4 * i, low + 4 * i + 4)
                } else {
                    r is None
                },
                None => r is None,
            },
    {
        match self.palette_span {
            Some((low, high)) => {
                if low < high && high <= bytes.len() {
                    let s = vstd::slice::slice_subrange(bytes, low, high);
                    let r = cast_to_groups::<4>(s);
                    proof {
                        if let Some(q) = r {
                            assert forall|i: int| 0 <= i < q@.len() implies #[trigger] q@[i]@ == bytes@.subrange(
                                low + 4 * i,
                                low + 4 * i + 4,
                            ) by {
                                assert(q@[i]@ == s@.subrange(4 * i, 4 * i + 4));
                                assert(s@.subrange(4 * i, 4 * i + 4) =~= bytes@.subrange(low + 4 * i, low + 4 * i + 4));
                            }
                        }
                    }
                    r
                } else {
                    None
                }
            },
            None => None,
        }
    }

    /// The bytes of the image data: the image span of `bytes` when it is a
    /// non-empty range within them, `None` otherwise.
    pub fn get_image_bytes<'b>(&self, bytes: &'b [u8]) -> (r: Option<&'b [u8]>)
        ensures
            ({
                let (low, high) = self.image_span;
                &&& (low < high && high <= bytes@.len()) ==> r is Some && r->0@ == bytes@.subrange(
                    low as int,
                    high as int,
                )
                &&& !(low < high && high <= bytes@.len()) ==> r is None
            }),
    {
        let (low, high) = self.image_span;
        if low < high && high <= bytes.len() {
            Some(vstd::slice::slice_subrange(bytes, low, high))
        } else {
            None
        }
    }
}

/// `x`, or `usize::MAX` when it is larger.
pub open spec fn saturate(x: int) -> int {
    if x > usize::MAX {
        usize::MAX as int
    } else {
        x
    }
}

pub(crate) fn saturating_mul(x: usize, y: usize) -> (r: usize)
    ensures
        r == saturate(x * y),
{
    match x.checked_mul(y) {
        Some(v) => v,
        None => usize::MAX,
    }
}

/// `x / d` rounded up.
pub open spec fn div_ceil(x: int, d: int) -> int {
    x / d + if x % d != 0 {
        1int
    } else {
        0int
    }
}

/// The image data length that dimensions imply: rows padded to 4 bytes, each
/// product saturating at `usize::MAX`.
pub open spec fn implied_image_len(width: u32, height: u32, bits_per_pixel: usize) -> int {
    let bits_per_line = saturate(width * bits_per_pixel);
    let bytes_per_line = div_ceil(bits_per_line, 8);
    let padded = saturate(4 * div_ceil(bytes_per_line, 4));
    saturate(height * padded)
}

pub(crate) fn implied_image_len_exec(width: u32, height: u32, bits_per_pixel: usize) -> (n: usize)
    ensures
        n == implied_image_len(width, height, bits_per_pixel),
{
    let bits_per_line = saturating_mul(width as usize, bits_per_pixel);
    let bytes_per_line = bits_per_line / 8 + if bits_per_line % 8 != 0 {
        1usize
    } else {
        0usize
    };
    let dwords = bytes_per_line / 4 + if bytes_per_line % 4 != 0 {
        1usize
    } else {
        0usize
    };
    let padded = saturating_mul(dwords, 4);
    saturating_mul(height as usize, padded)
}

/// The magnitude of `v`.
pub open spec fn magnitude(v: i32) -> u32 {
    if v < 0 {
        (-(v as int)) as u32
    } else {
        v as u32
    }
}

pub(crate) fn unsigned_abs(v: i32) -> (r: u32)
    ensures
        r == magnitude(v),
{
    if v < 0 {
        (0i64 - v as i64) as u32
    } else {
        v as u32
    }
}

/// The compression a code gives, with its masks read from `m` when it needs
/// them; `Parse` for an unknown code or masks cut short.
pub open spec fn compression_from(code: u32, m: Seq<u8>) -> Result<Option<BmpCompression>, ImagineError> {
    if code == 0 {
        Ok(None)
    } else if code == 1 || code == 2 {
        Ok(Some(BmpCompression::RunLengthEncoding))
    } else if code == 3 {
        if m.len() < 12 {
            Err(ImagineError::Parse)
        } else {
            Ok(Some(BmpCompression::Bitfields { red: le32(m, 0), green: le32(m, 4), blue: le32(m, 8) }))
        }
    } else if code == 6 {
        if m.len() < 16 {
            Err(ImagineError::Parse)
        } else {
            Ok(
                Some(
                    BmpCompression::AlphaBitfields {
                        red: le32(m, 0),
                        green: le32(m, 4),
                        blue: le32(m, 8),
                        alpha: le32(m, 12),
                    },
                ),
            )
        }
    } else {
        Err(ImagineError::Parse)
    }
}

fn compression_exec(code: u32, m: &[u8]) -> (r: Result<Option<BmpCompression>, ImagineError>)
    ensures
        r == compression_from(code, m@),
{
    if code == 0 {
        Ok(None)
    } else if code == 1 || code == 2 {
        Ok(Some(BmpCompression::RunLengthEncoding))
    } else if code == 3 {
        if m.len() < 12 {
            Err(ImagineError::Parse)
        } else {
            Ok(
                Some(
                    BmpCompression::Bitfields {
                        red: read_u32_le(m, 0),
                        green: read_u32_le(m, 4),
                        blue: read_u32_le(m, 8),
                    },
                ),
            )
        }
    } else if code == 6 {
        if m.len() < 16 {
            Err(ImagineError::Parse)
        } else {
            Ok(
                Some(
                    BmpCompression::AlphaBitfields {
                        red: read_u32_le(m, 0),
                        green: read_u32_le(m, 4),
                        blue: read_u32_le(m, 8),
                        alpha: read_u32_le(m, 12),
                    },
                ),
            )
        }
    } else {
        Err(ImagineError::Parse)
    }
}

/// The number of palette entries: the stored count, or when it is 0,
/// `2**bits_per_pixel` below 8 bits per pixel and 0 otherwise.
pub open spec fn palette_entries(stored: u32, bits_per_pixel: usize) -> int {
    if stored != 0 {
        stored as int
    } else if bits_per_pixel < 8 {
        vstd::arithmetic::power2::pow2(bits_per_pixel as nat) as int
    } else {
        0
    }
}

/// The bytes of masks that follow the 40 byte info header.
pub open spec fn masks_len(c: Option<BmpCompression>) -> int {
    match c {
        Some(BmpCompression::Bitfields { .. }) => 12,
        Some(BmpCompression::AlphaBitfields { .. }) => 16,
        _ => 0,
    }
}

/// Where the palette starts: after the file header, the 40 byte info header
/// and its masks.
pub open spec fn palette_start(c: Option<BmpCompression>) -> int {
    14 + 40 + masks_len(c)
}

/// The image data length: the stored size, or the one the dimensions imply
/// when it is 0.
pub open spec fn image_len(stored: u32, width: u32, height: u32, bits_per_pixel: usize) -> int {
    if stored != 0 {
        stored as int
    } else {
        implied_image_len(width, height, bits_per_pixel)
    }
}

/// The spans of a header end within `usize` (the ends are plain sums).
pub open spec fn spans_fit(pixel_offset: u32, a: Seq<u8>, c: Option<BmpCompression>) -> bool {
    let bpp = le16(a, 14) as usize;
    let n = palette_entries(le32(a, 32), bpp);
    &&& n > 0 ==> palette_start(c) + 4 * n <= usize::MAX
    &&& pixel_offset + image_len(
        le32(a, 20),
        magnitude(le32(a, 4) as i32),
        magnitude(le32(a, 8) as i32),
        bpp,
    ) <= usize::MAX
}

/// The summary of an info header `a` (40 or 124 bytes) with compression `c`.
pub open spec fn summary(
    pixel_offset: u32,
    a: Seq<u8>,
    c: Option<BmpCompression>,
    srgb_intent: Option<sRGBIntent>,
) -> BmpHeader {
    let width = magnitude(le32(a, 4) as i32);
    let height = magnitude(le32(a, 8) as i32);
    let bpp = le16(a, 14) as usize;
    let n = palette_entries(le32(a, 32), bpp);
    BmpHeader {
        width,
        height,
        bits_per_pixel: bpp,
        palette_span: if n > 0 {
            Some((palette_start(c) as usize, (palette_start(c) + 4 * n) as usize))
        } else {
            None
        },
        image_span: (
            pixel_offset as usize,
            (pixel_offset + image_len(le32(a, 20), width, height, bpp)) as usize,
        ),
        compression: c,
        srgb_intent,
        origin_top_left: (le32(a, 8) as i32) < 0,
    }
}

/// The sRGB intent a V5 header stores.
pub open spec fn intent_of_code(v: u32) -> Option<sRGBIntent> {
    if v == 8 {
        Some(sRGBIntent::AbsoluteColorimetric)
    } else if v == 1 {
        Some(sRGBIntent::Saturation)
    } else if v == 2 {
        Some(sRGBIntent::RelativeColorimetric)
    } else if v == 4 {
        Some(sRGBIntent::Perceptual)
    } else {
        None
    }
}

/// What a 40 byte (V1) info header at the start of `rest` summarizes to:
/// `Parse` when it is cut short or its compression is unknown or its masks
/// (which follow it) are cut short.
pub open spec fn header_v1(pixel_offset: u32, rest: Seq<u8>) -> Result<BmpHeader, ImagineError> {
    if rest.len() < 40 {
        Err(ImagineError::Parse)
    } else {
        let a = rest.subrange(0, 40);
        match compression_from(le32(a, 16), rest.subrange(40, rest.len() as int)) {
            Err(e) => Err(e),
            Ok(c) => Ok(summary(pixel_offset, a, c, None)),
        }
    }
}

/// What a 124 byte (V5) info header at the start of `rest` summarizes to:
/// `Parse` when it is cut short or its compression is unknown; its masks
/// and sRGB intent are inside it.
pub open spec fn header_v5(pixel_offset: u32, rest: Seq<u8>) -> Result<BmpHeader, ImagineError> {
    if rest.len() < 124 {
        Err(ImagineError::Parse)
    } else {
        let a = rest.subrange(0, 124);
        match compression_from(le32(a, 16), a.subrange(40, 56)) {
            Err(e) => Err(e),
            Ok(c) => Ok(summary(pixel_offset, a, c, intent_of_code(le32(a, 108)))),
        }
    }
}

/// The info header bytes after the file header.
pub open spec fn info_bytes(b: Seq<u8>) -> Seq<u8> {
    b.subrange(14, b.len() as int)
}

/// What a file's header summarizes to: `Parse` for a file too short for the
/// info header size, an info header size other than 40 or 124, an info
/// header cut short, or an unknown compression (or its masks cut short). A V1
/// header's masks follow it; a V5 header holds its own.
pub open spec fn spec_span_header(b: Seq<u8>) -> Result<BmpHeader, ImagineError> {
    if b.len() < 18 {
        Err(ImagineError::Parse)
    } else {
        let rest = info_bytes(b);
        let size = le32(b, 14);
        let pixel_offset = le32(b, 10);
        if size == 40 {
            header_v1(pixel_offset, rest)
        } else if size == 124 {
            header_v5(pixel_offset, rest)
        } else {
            Err(ImagineError::Parse)
        }
    }
}

/// The spans of the header a file summarizes to end within `usize`.
pub open spec fn span_header_fits(b: Seq<u8>) -> bool {
    match spec_span_header(b) {
        Ok(_) => {
            let rest = info_bytes(b);
            let a = if le32(b, 14) == 40 {
                rest.subrange(0, 40)
            } else {
                rest.subrange(0, 124)
            };
            let m = if le32(b, 14) == 40 {
                rest.subrange(40, rest.len() as int)
            } else {
                a.subrange(40, 56)
            };
            spans_fit(le32(b, 10), a, compression_from(le32(a, 16), m)->Ok_0)
        },
        Err(_) => true,
    }
}

fn summarize(pixel_offset: u32, a: &[u8], c: Option<BmpCompression>, srgb_intent: Option<sRGBIntent>) -> (h: BmpHeader)
    requires
        40 <= a@.len(),
        spans_fit(pixel_offset, a@, c),
    ensures
        h == summary(pixel_offset, a@, c, srgb_intent),
{
    let w = read_u32_le(a, 4) as i32;
    let t = read_u32_le(a, 8) as i32;
    let width = unsigned_abs(w);
    let height = unsigned_abs(t);
    let bits_per_pixel = read_u16_le(a, 14) as usize;
    let stored_entries = read_u32_le(a, 32);
    let n: usize = if stored_entries != 0 {
        stored_entries as usize
    } else if bits_per_pixel < 8 {
        proof {
            vstd::arithmetic::power2::lemma2_to64();
            vstd::arithmetic::power2::lemma_pow2_strictly_increases(bits_per_pixel as nat, 8);
            vstd::bits::lemma_usize_shl_is_mul(1, bits_per_pixel);
        }
        1usize << bits_per_pixel
    } else {
        0
    };
    let masks: usize = match c {
        Some(BmpCompression::Bitfields { .. }) => 12,
        Some(BmpCompression::AlphaBitfields { .. }) => 16,
        _ => 0,
    };
    let palette_span = if n > 0 {
        let low = 14 + 40 + masks;
        Some((low, low + 4 * n))
    } else {
        None
    };
    let stored_size = read_u32_le(a, 20);
    let len: usize = if stored_size != 0 {
        stored_size as usize
    } else {
        implied_image_len_exec(width, height, bits_per_pixel)
    };
    let start = pixel_offset as usize;
    BmpHeader {
        width,
        height,
        bits_per_pixel,
        palette_span,
        image_span: (start, start + len),
        compression: c,
        srgb_intent,
        origin_top_left: t < 0,
    }
}

fn intent_exec(v: u32) -> (r: Option<sRGBIntent>)
    ensures
        r == intent_of_code(v),
{
    if v == 8 {
        Some(sRGBIntent::AbsoluteColorimetric)
    } else if v == 1 {
        Some(sRGBIntent::Saturation)
    } else if v == 2 {
        Some(sRGBIntent::RelativeColorimetric)
    } else if v == 4 {
        Some(sRGBIntent::Perceptual)
    } else {
        None
    }
}

fn try_header_v1(pixel_offset: u32, rest: &[u8]) -> (r: Result<BmpHeader, ImagineError>)
    requires
        header_v1(pixel_offset, rest@) is Ok ==> spans_fit(
            pixel_offset,
            rest@.subrange(0, 40),
            compression_from(le32(rest@, 16), rest@.subrange(40, rest@.len() as int))->Ok_0,
        ),
    ensures
        r == header_v1(pixel_offset, rest@),
{
    if rest.len() < 40 {
        return Err(ImagineError::Parse);
    }
    let a = vstd::slice::slice_subrange(rest, 0, 40);
    let after = vstd::slice::slice_subrange(rest, 40, rest.len());
    let c = compression_exec(read_u32_le(a, 16), after)?;
    Ok(summarize(pixel_offset, a, c, None))
}

fn try_header_v5(pixel_offset: u32, rest: &[u8]) -> (r: Result<BmpHeader, ImagineError>)
    requires
        header_v5(pixel_offset, rest@) is Ok ==> spans_fit(
            pixel_offset,
            rest@.subrange(0, 124),
            compression_from(le32(rest@, 16), rest@.subrange(40, 56))->Ok_0,
        ),
    ensures
        r == header_v5(pixel_offset, rest@),
{
    if rest.len() < 124 {
        return Err(ImagineError::Parse);
    }
    let a = vstd::slice::slice_subrange(rest, 0, 124);
    let m = vstd::slice::slice_subrange(a, 40, 56);
    let c = compression_exec(read_u32_le(a, 16), m)?;
    let intent = intent_exec(read_u32_le(a, 108));
    Ok(summarize(pixel_offset, a, c, intent))
}

/// Summarizes the header of a BMP file (see `spec_span_header` for when it
/// fails).
pub fn bmp_get_header(bytes: &[u8]) -> (r: Result<BmpHeader, ImagineError>)
    requires
        span_header_fits(bytes@),
    ensures
        r == spec_span_header(bytes@),
{
    if bytes.len() < 18 {
        return Err(ImagineError::Parse);
    }
    let rest = vstd::slice::slice_subrange(bytes, 14, bytes.len());
    assert(rest@ == info_bytes(bytes@));
    let size = read_u32_le(bytes, 14);
    let pixel_offset = read_u32_le(bytes, 10);
    assert(le32(rest@, 0) == size);
    if size == 40 {
        try_header_v1(pixel_offset, rest)
    } else if size == 124 {
        try_header_v5(pixel_offset, rest)
    } else {
        Err(ImagineError::Parse)
    }
}

} // verus!
