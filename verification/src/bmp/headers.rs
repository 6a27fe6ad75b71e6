//! Typed BMP headers: the file header and the info header versions up to V3,
//! each with its exact byte layout in both directions.
use vstd::prelude::*;
use crate::bmp::raw_headers::{le16, le32, read_u16_le, read_u32_le};
use crate::ascii_array::AsciiArray;
use crate::sRGBIntent;
use crate::bmp::span_header::{intent_of_code, implied_image_len, implied_image_len_exec, magnitude, unsigned_abs};

verus! {

/// Errors of the typed BMP header parsers.
#[derive(Debug, Clone, Copy, PartialEq, Eq, Structural)]
pub enum BmpError {
    ThisIsProbablyNotABmpFile,
    InsufficientBytes,
    IncorrectSizeForThisInfoHeaderVersion,
    UnknownCompression,
    UnknownHeaderLength,
    IllegalBitDepth,
    AllocError,
    PixelDataIllegalLength,
    PixelDataIllegalRLEContent,
    NotAPalettedBmp,
    /// The file might be valid, but this library cannot parse it.
    ParserIncomplete,
}

/// Compression styles of BMP pixel data.
///
/// * Indexed color images *can* use 4 bit RLE, 8 bit RLE, or Huffman 1D.
/// * `BmpInfoHeaderOs22x` *can* use 24 bit RLE.
/// * 16bpp and 32bpp images are *always* stored uncompressed.
/// * Any other image can also be stored uncompressed.
#[derive(Debug, Clone, Copy, PartialEq, Eq, Structural)]
pub enum BmpCompression {
    /// RGB, no compression (code 0).
    RgbNoCompression,
    /// RGB, run-length encoded, 8bpp (code 1).
    RgbRLE8,
    /// RGB, run-length encoded, 4bpp (code 2).
    RgbRLE4,
    /// Huffman 1D for OS/2 2.x; otherwise three `u32` channel masks follow the
    /// header (code 3).
    Bitfields,
    /// RLE24 for OS/2 2.x; a JPEG image for info header V4+ (code 4).
    Jpeg,
    /// A PNG image, info header V4+ (code 5).
    Png,
    /// Four `u32` channel masks, alpha included, follow the header (code 6).
    AlphaBitfields,
    /// CMYK, no compression (code 11).
    CmykNoCompression,
    /// CMYK, run-length encoded, 8bpp (code 12).
    CmykRLE8,
    /// CMYK, run-length encoded, 4bpp (code 13).
    CmykRLE4,
}

/// The code that a compression style is stored as.
pub open spec fn compression_code(c: BmpCompression) -> u32 {
    match c {
        BmpCompression::RgbNoCompression => 0,
        BmpCompression::RgbRLE8 => 1,
        BmpCompression::RgbRLE4 => 2,
        BmpCompression::Bitfields => 3,
        BmpCompression::Jpeg => 4,
        BmpCompression::Png => 5,
        BmpCompression::AlphaBitfields => 6,
        BmpCompression::CmykNoCompression => 11,
        BmpCompression::CmykRLE8 => 12,
        BmpCompression::CmykRLE4 => 13,
    }
}

/// The compression style stored as `v`, if `v` is a known code.
pub open spec fn compression_of_code(v: u32) -> Result<BmpCompression, BmpError> {
    if v == 0 {
        Ok(BmpCompression::RgbNoCompression)
    } else if v == 1 {
        Ok(BmpCompression::RgbRLE8)
    } else if v == 2 {
        Ok(BmpCompression::RgbRLE4)
    } else if v == 3 {
        Ok(BmpCompression::Bitfields)
    } else if v == 4 {
        Ok(BmpCompression::Jpeg)
    } else if v == 5 {
        Ok(BmpCompression::Png)
    } else if v == 6 {
        Ok(BmpCompression::AlphaBitfields)
    } else if v == 11 {
        Ok(BmpCompression::CmykNoCompression)
    } else if v == 12 {
        Ok(BmpCompression::CmykRLE8)
    } else if v == 13 {
        Ok(BmpCompression::CmykRLE4)
    } else {
        Err(BmpError::UnknownCompression)
    }
}

impl BmpCompression {
    /// The code this compression style is stored as.
    pub fn to_u32(self) -> (v: u32)
        ensures
            v == compression_code(self),
    {
        match self {
            BmpCompression::RgbNoCompression => 0,
            BmpCompression::RgbRLE8 => 1,
            BmpCompression::RgbRLE4 => 2,
            BmpCompression::Bitfields => 3,
            BmpCompression::Jpeg => 4,
            BmpCompression::Png => 5,
            BmpCompression::AlphaBitfields => 6,
            BmpCompression::CmykNoCompression => 11,
            BmpCompression::CmykRLE8 => 12,
            BmpCompression::CmykRLE4 => 13,
        }
    }

    /// The compression style stored as `value`; `UnknownCompression` for any
    /// other code.
    pub fn try_from_u32(value: u32) -> (r: Result<BmpCompression, BmpError>)
        ensures
            r == compression_of_code(value),
    {
        match value {
            0 => Ok(BmpCompression::RgbNoCompression),
            1 => Ok(BmpCompression::RgbRLE8),
            2 => Ok(BmpCompression::RgbRLE4),
            3 => Ok(BmpCompression::Bitfields),
            4 => Ok(BmpCompression::Jpeg),
            5 => Ok(BmpCompression::Png),
            6 => Ok(BmpCompression::AlphaBitfields),
            11 => Ok(BmpCompression::CmykNoCompression),
            12 => Ok(BmpCompression::CmykRLE8),
            13 => Ok(BmpCompression::CmykRLE4),
            _ => Err(BmpError::UnknownCompression),
        }
    }
}

impl TryFrom<u32> for BmpCompression {
    type Error = BmpError;

    fn try_from(value: u32) -> (r: Result<BmpCompression, BmpError>) {
        BmpCompression::try_from_u32(value)
    }
}

impl vstd::std_specs::convert::TryFromSpecImpl<u32> for BmpCompression {
    open spec fn obeys_try_from_spec() -> bool {
        true
    }

    open spec fn try_from_spec(value: u32) -> Result<BmpCompression, BmpError> {
        compression_of_code(value)
    }
}

impl From<BmpCompression> for u32 {
    fn from(c: BmpCompression) -> (v: u32) {
        c.to_u32()
    }
}

impl vstd::std_specs::convert::FromSpecImpl<BmpCompression> for u32 {
    open spec fn obeys_from_spec() -> bool {
        true
    }

    open spec fn from_spec(c: BmpCompression) -> u32 {
        compression_code(c)
    }
}

/// A stored compression code reads back as the style it was written from,
/// and a code that reads as a style is the code that style is written as.
pub proof fn lemma_compression_code_round_trip(c: BmpCompression, v: u32)
    ensures
        compression_of_code(compression_code(c)) == Ok::<BmpCompression, BmpError>(c),
        compression_of_code(v) is Ok ==> compression_code(compression_of_code(v)->Ok_0) == v,
{
}

/// The two little-endian bytes of `v`.
pub open spec fn le16_bytes(v: u16) -> Seq<u8> {
    seq![(v & 0xff) as u8, (v >> 8) as u8]
}

/// The four little-endian bytes of `v`.
pub open spec fn le32_bytes(v: u32) -> Seq<u8> {
    seq![(v & 0xff) as u8, ((v >> 8) & 0xff) as u8, ((v >> 16) & 0xff) as u8, (v >> 24) as u8]
}

/// The little-endian `i16` at `i`.
pub open spec fn le16_signed(s: Seq<u8>, i: int) -> i16 {
    le16(s, i) as i16
}

/// The little-endian `i32` at `i`.
pub open spec fn le32_signed(s: Seq<u8>, i: int) -> i32 {
    le32(s, i) as i32
}

/// Reading back the bytes of a `u16` gives the `u16`.
pub proof fn lemma_le16_read_back(s: Seq<u8>, k: int, v: u16)
    requires
        0 <= k,
        k + 2 <= s.len(),
        s.subrange(k, k + 2) == le16_bytes(v),
    ensures
        le16(s, k) == v,
{
    assert(s[k] == le16_bytes(v)[0] && s[k + 1] == le16_bytes(v)[1]) by {
        assert(s.subrange(k, k + 2)[0] == s[k]);
        assert(s.subrange(k, k + 2)[1] == s[k + 1]);
    }
    let b0: u8 = (v & 0xff) as u8;
    let b1: u8 = (v >> 8) as u8;
    assert(b0 + 256 * b1 == v) by (bit_vector)
        requires
            b0 == (v & 0xff) as u8,
            b1 == (v >> 8) as u8,
    ;
}

/// Reading back the bytes of a `u32` gives the `u32`.
pub proof fn lemma_le32_read_back(s: Seq<u8>, k: int, v: u32)
    requires
        0 <= k,
        k + 4 <= s.len(),
        s.subrange(k, k + 4) == le32_bytes(v),
    ensures
        le32(s, k) == v,
{
    assert(s[k] == le32_bytes(v)[0] && s[k + 1] == le32_bytes(v)[1] && s[k + 2] == le32_bytes(v)[2]
        && s[k + 3] == le32_bytes(v)[3]) by {
        assert(s.subrange(k, k + 4)[0] == s[k]);
        assert(s.subrange(k, k + 4)[1] == s[k + 1]);
        assert(s.subrange(k, k + 4)[2] == s[k + 2]);
        assert(s.subrange(k, k + 4)[3] == s[k + 3]);
    }
    let b0: u8 = (v & 0xff) as u8;
    let b1: u8 = ((v >> 8) & 0xff) as u8;
    let b2: u8 = ((v >> 16) & 0xff) as u8;
    let b3: u8 = (v >> 24) as u8;
    assert(b0 + 256 * b1 + 0x1_0000 * b2 + 0x100_0000 * b3 == v) by (bit_vector)
        requires
            b0 == (v & 0xff) as u8,
            b1 == ((v >> 8) & 0xff) as u8,
            b2 == ((v >> 16) & 0xff) as u8,
            b3 == (v >> 24) as u8,
    ;
}

/// The bytes of an `i16` read back as a signed value give the `i16`.
pub proof fn lemma_i16_round_trip(v: i16)
    ensures
        (v as u16) as i16 == v,
{
    assert((v as u16) as i16 == v) by (bit_vector);
}

/// The bytes of an `i32` read back as a signed value give the `i32`.
pub proof fn lemma_i32_round_trip(v: i32)
    ensures
        (v as u32) as i32 == v,
{
    assert((v as u32) as i32 == v) by (bit_vector);
}

/// Writing back the `u16` read at `k` gives the bytes it was read from.
proof fn lemma_le16_write_back(s: Seq<u8>, k: int)
    requires
        0 <= k,
        k + 2 <= s.len(),
    ensures
        le16_bytes(le16(s, k)) == s.subrange(k, k + 2),
{
    let b0 = s[k];
    let b1 = s[k + 1];
    let v = le16(s, k);
    assert(b0 + 256 * b1 <= 0xFFFF);
    assert(v == b0 + 256 * b1);
    assert((v & 0xff) as u8 == b0 && (v >> 8) as u8 == b1) by (bit_vector)
        requires
            v == b0 + 256 * b1,
    ;
    assert(le16_bytes(v) =~= s.subrange(k, k + 2));
}

/// Writing back the `u32` read at `k` gives the bytes it was read from.
proof fn lemma_le32_write_back(s: Seq<u8>, k: int)
    requires
        0 <= k,
        k + 4 <= s.len(),
    ensures
        le32_bytes(le32(s, k)) == s.subrange(k, k + 4),
{
    let b0 = s[k];
    let b1 = s[k + 1];
    let b2 = s[k + 2];
    let b3 = s[k + 3];
    let v = le32(s, k);
    assert(b0 + 256 * b1 + 0x1_0000 * b2 + 0x100_0000 * b3 <= 0xFFFF_FFFF);
    assert(v == b0 + 256 * b1 + 0x1_0000 * b2 + 0x100_0000 * b3);
    assert((v & 0xff) as u8 == b0 && ((v >> 8) & 0xff) as u8 == b1 && ((v >> 16) & 0xff) as u8 == b2 && (v
        >> 24) as u8 == b3) by (bit_vector)
        requires
            v == b0 + 256 * b1 + 0x1_0000 * b2 + 0x100_0000 * b3,
    ;
    assert(le32_bytes(v) =~= s.subrange(k, k + 4));
}

/// Reading an unsigned value as signed and back changes nothing.
proof fn lemma_unsigned_round_trip(a: u16, b: u32)
    ensures
        (a as i16) as u16 == a,
        (b as i32) as u32 == b,
{
    assert((a as i16) as u16 == a && (b as i32) as u32 == b) by (bit_vector);
}

/// The little-endian bytes of `v`.
fn u16_le_bytes(v: u16) -> (r: [u8; 2])
    ensures
        r@ == le16_bytes(v),
{
    let r = [(v & 0xff) as u8, (v >> 8) as u8];
    assert(r@ =~= le16_bytes(v));
    r
}

/// The little-endian bytes of `v`.
fn u32_le_bytes(v: u32) -> (r: [u8; 4])
    ensures
        r@ == le32_bytes(v),
{
    let r = [(v & 0xff) as u8, ((v >> 8) & 0xff) as u8, ((v >> 16) & 0xff) as u8, (v >> 24) as u8];
    assert(r@ =~= le32_bytes(v));
    r
}

/// Header for Windows 2.0 and OS/2 1.x images (the 12 byte
/// `BITMAPCOREHEADER`).
#[derive(Debug, Clone, Copy, PartialEq, Eq, Structural)]
pub struct BmpInfoHeaderCore {
    /// Width in pixels.
    pub width: i16,
    /// Height in pixels; a negative height means the origin is the top left.
    pub height: i16,
    /// Bits per palette index (8 or less).
    pub bits_per_pixel: u16,
}

/// What the 12 bytes `a` parse to: the header, unless the size field is not 12.
pub open spec fn core_from_bytes(a: Seq<u8>) -> Result<BmpInfoHeaderCore, BmpError> {
    if le32(a, 0) != 12 {
        Err(BmpError::IncorrectSizeForThisInfoHeaderVersion)
    } else {
        Ok(BmpInfoHeaderCore { width: le16_signed(a, 4), height: le16_signed(a, 6), bits_per_pixel: le16(a, 10) })
    }
}

/// The 12 bytes a core header is written as (one color plane).
pub open spec fn core_to_bytes(h: BmpInfoHeaderCore) -> Seq<u8> {
    le32_bytes(12) + le16_bytes(h.width as u16) + le16_bytes(h.height as u16) + le16_bytes(1) + le16_bytes(
        h.bits_per_pixel,
    )
}

impl TryFrom<[u8; 12]> for BmpInfoHeaderCore {
    type Error = BmpError;

    fn try_from(a: [u8; 12]) -> (r: Result<BmpInfoHeaderCore, BmpError>) {
        let b = a.as_slice();
        let size = read_u32_le(b, 0);
        let width = read_u16_le(b, 4) as i16;
        let height = read_u16_le(b, 6) as i16;
        let bits_per_pixel = read_u16_le(b, 10);
        if size != 12 {
            Err(BmpError::IncorrectSizeForThisInfoHeaderVersion)
        } else {
            Ok(BmpInfoHeaderCore { width, height, bits_per_pixel })
        }
    }
}

impl vstd::std_specs::convert::TryFromSpecImpl<[u8; 12]> for BmpInfoHeaderCore {
    open spec fn obeys_try_from_spec() -> bool {
        true
    }

    open spec fn try_from_spec(a: [u8; 12]) -> Result<BmpInfoHeaderCore, BmpError> {
        core_from_bytes(a@)
    }
}

impl From<BmpInfoHeaderCore> for [u8; 12] {
    fn from(h: BmpInfoHeaderCore) -> (a: [u8; 12])
        ensures
            a@ == core_to_bytes(h),
    {
        let s = u32_le_bytes(12);
        let w = u16_le_bytes(h.width as u16);
        let t = u16_le_bytes(h.height as u16);
        let p = u16_le_bytes(1);
        let b = u16_le_bytes(h.bits_per_pixel);
        let a = [s[0], s[1], s[2], s[3], w[0], w[1], t[0], t[1], p[0], p[1], b[0], b[1]];
        assert(a@ =~= core_to_bytes(h));
        a
    }
}

impl vstd::std_specs::convert::FromSpecImpl<BmpInfoHeaderCore> for [u8; 12] {
    open spec fn obeys_from_spec() -> bool {
        true
    }

    open spec fn from_spec(h: BmpInfoHeaderCore) -> [u8; 12] {
        choose|a: [u8; 12]| a@ == core_to_bytes(h)
    }
}

/// A core header written to bytes parses back to itself.
pub proof fn lemma_core_round_trip(h: BmpInfoHeaderCore)
    ensures
        core_from_bytes(core_to_bytes(h)) == Ok::<BmpInfoHeaderCore, BmpError>(h),
{
    let s = core_to_bytes(h);
    assert(s.subrange(0, 4) =~= le32_bytes(12));
    assert(s.subrange(4, 6) =~= le16_bytes(h.width as u16));
    assert(s.subrange(6, 8) =~= le16_bytes(h.height as u16));
    assert(s.subrange(10, 12) =~= le16_bytes(h.bits_per_pixel));
    lemma_le32_read_back(s, 0, 12);
    lemma_le16_read_back(s, 4, h.width as u16);
    lemma_le16_read_back(s, 6, h.height as u16);
    lemma_le16_read_back(s, 10, h.bits_per_pixel);
    lemma_i16_round_trip(h.width);
    lemma_i16_round_trip(h.height);
}

/// A stored `u32` where 0 means "not given".
pub open spec fn nonzero_u32(v: u32) -> Option<u32> {
    if v == 0 {
        None
    } else {
        Some(v)
    }
}

/// A stored `u16` where 0 means "not given".
pub open spec fn nonzero_u16(v: u16) -> Option<u16> {
    if v == 0 {
        None
    } else {
        Some(v)
    }
}

/// The `u32` an optional field is stored as (0 when not given).
pub open spec fn stored_u32(o: Option<u32>) -> u32 {
    match o {
        Some(v) => v,
        None => 0,
    }
}

/// The `u16` an optional field is stored as (0 when not given).
pub open spec fn stored_u16(o: Option<u16>) -> u16 {
    match o {
        Some(v) => v,
        None => 0,
    }
}

/// An optional field that is given is not 0 (0 is how "not given" is stored).
pub open spec fn given_nonzero_u32(o: Option<u32>) -> bool {
    o is Some ==> o->0 != 0
}

/// An optional field that is given is not 0 (0 is how "not given" is stored).
pub open spec fn given_nonzero_u16(o: Option<u16>) -> bool {
    o is Some ==> o->0 != 0
}

fn read_nonzero_u32(b: &[u8], i: usize) -> (r: Option<u32>)
    requires
        i + 4 <= b@.len(),
    ensures
        r == nonzero_u32(le32(b@, i as int)),
{
    let v = read_u32_le(b, i);
    if v == 0 {
        None
    } else {
        Some(v)
    }
}

fn read_nonzero_u16(b: &[u8], i: usize) -> (r: Option<u16>)
    requires
        i + 2 <= b@.len(),
    ensures
        r == nonzero_u16(le16(b@, i as int)),
{
    let v = read_u16_le(b, i);
    if v == 0 {
        None
    } else {
        Some(v)
    }
}

fn stored_u32_exec(o: Option<u32>) -> (v: u32)
    ensures
        v == stored_u32(o),
{
    match o {
        Some(v) => v,
        None => 0,
    }
}

fn stored_u16_exec(o: Option<u16>) -> (v: u16)
    ensures
        v == stored_u16(o),
{
    match o {
        Some(v) => v,
        None => 0,
    }
}

/// The first 40 bytes that the V1, V2, V3 and OS/2 2.x info headers share.
pub open spec fn common_prefix_bytes(
    size: u32,
    width: i32,
    height: i32,
    bits_per_pixel: u16,
    compression: BmpCompression,
    image_byte_size: Option<u32>,
    h_ppm: i32,
    v_ppm: i32,
    palette_len: Option<u32>,
    important_colors: Option<u32>,
) -> Seq<u8> {
    le32_bytes(size) + le32_bytes(width as u32) + le32_bytes(height as u32) + le16_bytes(1) + le16_bytes(
        bits_per_pixel,
    ) + le32_bytes(compression_code(compression)) + le32_bytes(stored_u32(image_byte_size)) + le32_bytes(
        h_ppm as u32,
    ) + le32_bytes(v_ppm as u32) + le32_bytes(stored_u32(palette_len)) + le32_bytes(
        stored_u32(important_colors),
    )
}

/// Reading the shared fields back from bytes that start with their prefix.
pub proof fn lemma_common_prefix_read_back(
    s: Seq<u8>,
    size: u32,
    width: i32,
    height: i32,
    bits_per_pixel: u16,
    compression: BmpCompression,
    image_byte_size: Option<u32>,
    h_ppm: i32,
    v_ppm: i32,
    palette_len: Option<u32>,
    important_colors: Option<u32>,
)
    requires
        40 <= s.len(),
        s.subrange(0, 40) == common_prefix_bytes(
            size,
            width,
            height,
            bits_per_pixel,
            compression,
            image_byte_size,
            h_ppm,
            v_ppm,
            palette_len,
            important_colors,
        ),
        given_nonzero_u32(image_byte_size),
        given_nonzero_u32(palette_len),
        given_nonzero_u32(important_colors),
    ensures
        le32(s, 0) == size,
        le32_signed(s, 4) == width,
        le32_signed(s, 8) == height,
        le16(s, 14) == bits_per_pixel,
        compression_of_code(le32(s, 16)) == Ok::<BmpCompression, BmpError>(compression),
        nonzero_u32(le32(s, 20)) == image_byte_size,
        le32_signed(s, 24) == h_ppm,
        le32_signed(s, 28) == v_ppm,
        nonzero_u32(le32(s, 32)) == palette_len,
        nonzero_u32(le32(s, 36)) == important_colors,
{
    let p = common_prefix_bytes(
        size,
        width,
        height,
        bits_per_pixel,
        compression,
        image_byte_size,
        h_ppm,
        v_ppm,
        palette_len,
        important_colors,
    );
    assert(s.subrange(0, 4) =~= le32_bytes(size)) by {
        assert(s.subrange(0, 4) =~= p.subrange(0, 4));
    }
    assert(s.subrange(4, 8) =~= le32_bytes(width as u32)) by {
        assert(s.subrange(4, 8) =~= p.subrange(4, 8));
    }
    assert(s.subrange(8, 12) =~= le32_bytes(height as u32)) by {
        assert(s.subrange(8, 12) =~= p.subrange(8, 12));
    }
    assert(s.subrange(14, 16) =~= le16_bytes(bits_per_pixel)) by {
        assert(s.subrange(14, 16) =~= p.subrange(14, 16));
    }
    assert(s.subrange(16, 20) =~= le32_bytes(compression_code(compression))) by {
        assert(s.subrange(16, 20) =~= p.subrange(16, 20));
    }
    assert(s.subrange(20, 24) =~= le32_bytes(stored_u32(image_byte_size))) by {
        assert(s.subrange(20, 24) =~= p.subrange(20, 24));
    }
    assert(s.subrange(24, 28) =~= le32_bytes(h_ppm as u32)) by {
        assert(s.subrange(24, 28) =~= p.subrange(24, 28));
    }
    assert(s.subrange(28, 32) =~= le32_bytes(v_ppm as u32)) by {
        assert(s.subrange(28, 32) =~= p.subrange(28, 32));
    }
    assert(s.subrange(32, 36) =~= le32_bytes(stored_u32(palette_len))) by {
        assert(s.subrange(32, 36) =~= p.subrange(32, 36));
    }
    assert(s.subrange(36, 40) =~= le32_bytes(stored_u32(important_colors))) by {
        assert(s.subrange(36, 40) =~= p.subrange(36, 40));
    }
    lemma_le32_read_back(s, 0, size);
    lemma_le32_read_back(s, 4, width as u32);
    lemma_le32_read_back(s, 8, height as u32);
    lemma_le16_read_back(s, 14, bits_per_pixel);
    lemma_le32_read_back(s, 16, compression_code(compression));
    lemma_le32_read_back(s, 20, stored_u32(image_byte_size));
    lemma_le32_read_back(s, 24, h_ppm as u32);
    lemma_le32_read_back(s, 28, v_ppm as u32);
    lemma_le32_read_back(s, 32, stored_u32(palette_len));
    lemma_le32_read_back(s, 36, stored_u32(important_colors));
    lemma_i32_round_trip(width);
    lemma_i32_round_trip(height);
    lemma_i32_round_trip(h_ppm);
    lemma_i32_round_trip(v_ppm);
}

/// The palette length a header implies: the stored length when given,
/// otherwise `2**bits_per_pixel` for 8 bits per pixel or less, and 0 above.
pub open spec fn implied_palette_len(palette_len: Option<u32>, bits_per_pixel: u16) -> nat {
    match palette_len {
        Some(n) => n as nat,
        None => if bits_per_pixel <= 8 {
            vstd::arithmetic::power2::pow2(bits_per_pixel as nat)
        } else {
            0
        },
    }
}

fn implied_palette_len_exec(palette_len: Option<u32>, bits_per_pixel: u16) -> (n: usize)
    ensures
        n == implied_palette_len(palette_len, bits_per_pixel),
{
    match palette_len {
        Some(n) => n as usize,
        None => {
            if bits_per_pixel <= 8 {
                let shift = bits_per_pixel as usize;
                proof {
                    vstd::arithmetic::power2::lemma2_to64();
                    vstd::arithmetic::power2::lemma_pow2_strictly_increases(shift as nat, 9);
                    vstd::bits::lemma_usize_shl_is_mul(1, shift);
                }
                1usize << shift
            } else {
                0
            }
        },
    }
}

/// The little-endian bytes of a list of `u32` words, one after another.
pub open spec fn u32s_bytes(m: Seq<u32>) -> Seq<u8> {
    Seq::new(4 * m.len(), |i: int| le32_bytes(m[i / 4])[i % 4])
}

/// Reading back `u32` words stored one after another from byte `off` on.
proof fn lemma_u32s_read_back(s: Seq<u8>, off: int, m: Seq<u32>)
    requires
        0 <= off,
        off + 4 * m.len() <= s.len(),
        s.subrange(off, off + 4 * m.len()) == u32s_bytes(m),
    ensures
        forall|k: int| 0 <= k < m.len() ==> le32(s, off + 4 * k) == #[trigger] m[k],
{
    assert forall|k: int| 0 <= k < m.len() implies le32(s, off + 4 * k) == #[trigger] m[k] by {
        let w = u32s_bytes(m);
        assert forall|j: int| 0 <= j < 4 implies #[trigger] s[off + 4 * k + j] == le32_bytes(m[k])[j] by {
            assert((4 * k + j) / 4 == k && (4 * k + j) % 4 == j) by (nonlinear_arith)
                requires
                    0 <= j < 4,
                    0 <= k,
            ;
            assert(s.subrange(off, off + 4 * m.len())[4 * k + j] == s[off + 4 * k + j]);
            assert(w[4 * k + j] == le32_bytes(m[k])[j]);
        }
        assert(s.subrange(off + 4 * k, off + 4 * k + 4) =~= le32_bytes(m[k])) by {
            assert(s[off + 4 * k + 0] == le32_bytes(m[k])[0]);
            assert(s[off + 4 * k + 1] == le32_bytes(m[k])[1]);
            assert(s[off + 4 * k + 2] == le32_bytes(m[k])[2]);
            assert(s[off + 4 * k + 3] == le32_bytes(m[k])[3]);
        }
        lemma_le32_read_back(s, off + 4 * k, m[k]);
    }
}

/// A prefix with another size field is the same bytes after the size field.
proof fn lemma_prefix_size_swap(
    s: Seq<u8>,
    size1: u32,
    size2: u32,
    width: i32,
    height: i32,
    bits_per_pixel: u16,
    compression: BmpCompression,
    image_byte_size: Option<u32>,
    h_ppm: i32,
    v_ppm: i32,
    palette_len: Option<u32>,
    important_colors: Option<u32>,
)
    requires
        40 <= s.len(),
        s.subrange(0, 40) == common_prefix_bytes(
            size1,
            width,
            height,
            bits_per_pixel,
            compression,
            image_byte_size,
            h_ppm,
            v_ppm,
            palette_len,
            important_colors,
        ),
    ensures
        (le32_bytes(size2) + s.subrange(4, s.len() as int)).subrange(0, 40) == common_prefix_bytes(
            size2,
            width,
            height,
            bits_per_pixel,
            compression,
            image_byte_size,
            h_ppm,
            v_ppm,
            palette_len,
            important_colors,
        ),
{
    let f = le32_bytes(width as u32) + le32_bytes(height as u32) + le16_bytes(1) + le16_bytes(bits_per_pixel)
        + le32_bytes(compression_code(compression)) + le32_bytes(stored_u32(image_byte_size)) + le32_bytes(
        h_ppm as u32,
    ) + le32_bytes(v_ppm as u32) + le32_bytes(stored_u32(palette_len)) + le32_bytes(
        stored_u32(important_colors),
    );
    assert(common_prefix_bytes(
        size1,
        width,
        height,
        bits_per_pixel,
        compression,
        image_byte_size,
        h_ppm,
        v_ppm,
        palette_len,
        important_colors,
    ) =~= le32_bytes(size1) + f);
    assert(common_prefix_bytes(
        size2,
        width,
        height,
        bits_per_pixel,
        compression,
        image_byte_size,
        h_ppm,
        v_ppm,
        palette_len,
        important_colors,
    ) =~= le32_bytes(size2) + f);
    assert(s.subrange(4, 40) =~= f) by {
        assert(s.subrange(4, 40) =~= (le32_bytes(size1) + f).subrange(4, 40));
    }
    assert((le32_bytes(size2) + s.subrange(4, s.len() as int)).subrange(0, 40) =~= le32_bytes(size2) + f);
}

fn common_prefix_array(
    size: u32, width: i32, height: i32, bits_per_pixel: u16, compression: BmpCompression, image_byte_size: Option<u32>, h_ppm: i32, v_ppm: i32, palette_len: Option<u32>, important_colors: Option<u32>,
) -> (a: [u8; 40])
    ensures
        a@ == common_prefix_bytes(size, width, height, bits_per_pixel, compression, image_byte_size, h_ppm, v_ppm, palette_len, important_colors),
{
    let s = u32_le_bytes(size);
    let w = u32_le_bytes(width as u32);
    let t = u32_le_bytes(height as u32);
    let o = u16_le_bytes(1);
    let b = u16_le_bytes(bits_per_pixel);
    let c = u32_le_bytes(compression.to_u32());
    let i = u32_le_bytes(stored_u32_exec(image_byte_size));
    let x = u32_le_bytes(h_ppm as u32);
    let y = u32_le_bytes(v_ppm as u32);
    let l = u32_le_bytes(stored_u32_exec(palette_len));
    let m = u32_le_bytes(stored_u32_exec(important_colors));
    let a = [s[0], s[1], s[2], s[3], w[0], w[1], w[2], w[3], t[0], t[1], t[2], t[3], o[0], o[1], b[0], b[1], c[0], c[1], c[2], c[3], i[0], i[1], i[2], i[3], x[0], x[1], x[2], x[3], y[0], y[1], y[2], y[3], l[0], l[1], l[2], l[3], m[0], m[1], m[2], m[3]];
    assert(a@ =~= common_prefix_bytes(size, width, height, bits_per_pixel, compression, image_byte_size, h_ppm, v_ppm, palette_len, important_colors));
    a
}

/// Header for Windows 3.1 or later, the most common one (the 40 byte
/// `BITMAPINFOHEADER`).
#[derive(Debug, Clone, Copy, PartialEq, Eq, Structural)]
pub struct BmpInfoHeaderV1 {
    /// Image pixel width.
    pub width: i32,
    /// Image pixel height; positive means the origin is the bottom left,
    /// negative the top left.
    pub height: i32,
    /// Should be 1, 4, 8, 16, 24, or 32.
    pub bits_per_pixel: u16,
    /// The compression style of the image data.
    pub compression: BmpCompression,
    /// The number of bytes in the raw bitmap data (may be left out when the
    /// data is not compressed).
    pub image_byte_size: Option<u32>,
    /// Horizontal pixels per meter.
    pub h_ppm: i32,
    /// Vertical pixels per meter.
    pub v_ppm: i32,
    /// Palette length; when left out the full `2**N` palette is used (`N` the
    /// bit depth).
    pub palette_len: Option<u32>,
    /// The number of "important" colors; when left out, all are.
    pub important_colors: Option<u32>,
}

impl BmpInfoHeaderV1 {
    /// The optional fields that are given are not 0, as a stored header
    /// always reads.
    pub open spec fn fields_given_nonzero(self) -> bool {
        &&& given_nonzero_u32(self.image_byte_size)
        &&& given_nonzero_u32(self.palette_len)
        &&& given_nonzero_u32(self.important_colors)
    }

    /// Length of the palette: the stored length, or the length it implies
    /// when left out.
    pub fn palette_len(self) -> (n: usize)
        ensures
            n == implied_palette_len(self.palette_len, self.bits_per_pixel),
    {
        implied_palette_len_exec(self.palette_len, self.bits_per_pixel)
    }
}

/// What the 40 bytes `a` parse to: an unknown compression code is
/// refused first, then a size field other than 40.
pub open spec fn v1_from_bytes(a: Seq<u8>) -> Result<BmpInfoHeaderV1, BmpError> {
    match compression_of_code(le32(a, 16)) {
        Err(e) => Err(e),
        Ok(compression) => if le32(a, 0) != 40 {
            Err(BmpError::IncorrectSizeForThisInfoHeaderVersion)
        } else {
            Ok(BmpInfoHeaderV1 {
                width: le32_signed(a, 4),
                height: le32_signed(a, 8),
                bits_per_pixel: le16(a, 14),
                compression,
                image_byte_size: nonzero_u32(le32(a, 20)),
                h_ppm: le32_signed(a, 24),
                v_ppm: le32_signed(a, 28),
                palette_len: nonzero_u32(le32(a, 32)),
                important_colors: nonzero_u32(le32(a, 36)),
            })
        },
    }
}

/// The 40 bytes a header is written as (one color plane).
pub open spec fn v1_to_bytes(h: BmpInfoHeaderV1) -> Seq<u8> {
    common_prefix_bytes(
        40,
        h.width,
        h.height,
        h.bits_per_pixel,
        h.compression,
        h.image_byte_size,
        h.h_ppm,
        h.v_ppm,
        h.palette_len,
        h.important_colors,
    )
}

impl TryFrom<[u8; 40]> for BmpInfoHeaderV1 {
    type Error = BmpError;

    fn try_from(a: [u8; 40]) -> (r: Result<BmpInfoHeaderV1, BmpError>) {
        let b = a.as_slice();
        let size = read_u32_le(b, 0);
        let width = read_u32_le(b, 4) as i32;
        let height = read_u32_le(b, 8) as i32;
        let bits_per_pixel = read_u16_le(b, 14);
        let compression = BmpCompression::try_from_u32(read_u32_le(b, 16))?;
        let image_byte_size = read_nonzero_u32(b, 20);
        let h_ppm = read_u32_le(b, 24) as i32;
        let v_ppm = read_u32_le(b, 28) as i32;
        let palette_len = read_nonzero_u32(b, 32);
        let important_colors = read_nonzero_u32(b, 36);
        if size != 40 {
            Err(BmpError::IncorrectSizeForThisInfoHeaderVersion)
        } else {
            Ok(BmpInfoHeaderV1 {
                width,
                height,
                bits_per_pixel,
                compression,
                image_byte_size,
                h_ppm,
                v_ppm,
                palette_len,
                important_colors,
            })
        }
    }
}

impl vstd::std_specs::convert::TryFromSpecImpl<[u8; 40]> for BmpInfoHeaderV1 {
    open spec fn obeys_try_from_spec() -> bool {
        true
    }

    open spec fn try_from_spec(a: [u8; 40]) -> Result<BmpInfoHeaderV1, BmpError> {
        v1_from_bytes(a@)
    }
}

impl From<BmpInfoHeaderV1> for [u8; 40] {
    fn from(h: BmpInfoHeaderV1) -> (a: [u8; 40])
        ensures
            a@ == v1_to_bytes(h),
    {
        let p = common_prefix_array(
            40,
            h.width,
            h.height,
            h.bits_per_pixel,
            h.compression,
            h.image_byte_size,
            h.h_ppm,
            h.v_ppm,
            h.palette_len,
            h.important_colors,
        );
        let a = [p[0], p[1], p[2], p[3], p[4], p[5], p[6], p[7], p[8], p[9], p[10], p[11], p[12], p[13], p[14], p[15], p[16], p[17], p[18], p[19], p[20], p[21], p[22], p[23], p[24], p[25], p[26], p[27], p[28], p[29], p[30], p[31], p[32], p[33], p[34], p[35], p[36], p[37], p[38], p[39]];
        assert(a@ =~= v1_to_bytes(h));
        a
    }
}

impl vstd::std_specs::convert::FromSpecImpl<BmpInfoHeaderV1> for [u8; 40] {
    open spec fn obeys_from_spec() -> bool {
        true
    }

    open spec fn from_spec(h: BmpInfoHeaderV1) -> [u8; 40] {
        choose|a: [u8; 40]| a@ == v1_to_bytes(h)
    }
}

/// A header whose given optional fields are not 0, written to bytes, parses
/// back to itself.
#[verifier::rlimit(30)]
#[verifier::spinoff_prover]
pub proof fn lemma_v1_round_trip(h: BmpInfoHeaderV1)
    requires
        h.fields_given_nonzero(),
    ensures
        v1_from_bytes(v1_to_bytes(h)) == Ok::<BmpInfoHeaderV1, BmpError>(h),
{
    let s = v1_to_bytes(h);
    assert(s.subrange(0, 40) =~= common_prefix_bytes(
        40,
        h.width,
        h.height,
        h.bits_per_pixel,
        h.compression,
        h.image_byte_size,
        h.h_ppm,
        h.v_ppm,
        h.palette_len,
        h.important_colors,
    ));
    lemma_common_prefix_read_back(
        s,
        40,
        h.width,
        h.height,
        h.bits_per_pixel,
        h.compression,
        h.image_byte_size,
        h.h_ppm,
        h.v_ppm,
        h.palette_len,
        h.important_colors,
    );
}

/// Info header version 2 (the 52 byte `BITMAPV2INFOHEADER`): V1 with RGB bit
/// masks.
#[derive(Debug, Clone, Copy, PartialEq, Eq, Structural)]
pub struct BmpInfoHeaderV2 {
    /// Image pixel width.
    pub width: i32,
    /// Image pixel height; positive means the origin is the bottom left,
    /// negative the top left.
    pub height: i32,
    /// Should be 1, 4, 8, 16, 24, or 32.
    pub bits_per_pixel: u16,
    /// The compression style of the image data.
    pub compression: BmpCompression,
    /// The number of bytes in the raw bitmap data (may be left out when the
    /// data is not compressed).
    pub image_byte_size: Option<u32>,
    /// Horizontal pixels per meter.
    pub h_ppm: i32,
    /// Vertical pixels per meter.
    pub v_ppm: i32,
    /// Palette length; when left out the full `2**N` palette is used (`N` the
    /// bit depth).
    pub palette_len: Option<u32>,
    /// The number of "important" colors; when left out, all are.
    pub important_colors: Option<u32>,
    /// Bit mask of where the red bits are located.
    pub red_mask: u32,
    /// Bit mask of where the green bits are located.
    pub green_mask: u32,
    /// Bit mask of where the blue bits are located.
    pub blue_mask: u32,
}

impl BmpInfoHeaderV2 {
    /// The optional fields that are given are not 0, as a stored header
    /// always reads.
    pub open spec fn fields_given_nonzero(self) -> bool {
        &&& given_nonzero_u32(self.image_byte_size)
        &&& given_nonzero_u32(self.palette_len)
        &&& given_nonzero_u32(self.important_colors)
    }

    /// Length of the palette: the stored length, or the length it implies
    /// when left out.
    pub fn palette_len(self) -> (n: usize)
        ensures
            n == implied_palette_len(self.palette_len, self.bits_per_pixel),
    {
        implied_palette_len_exec(self.palette_len, self.bits_per_pixel)
    }
}

/// What the 52 bytes `a` parse to: an unknown compression code is
/// refused first, then a size field other than 52.
pub open spec fn v2_from_bytes(a: Seq<u8>) -> Result<BmpInfoHeaderV2, BmpError> {
    match compression_of_code(le32(a, 16)) {
        Err(e) => Err(e),
        Ok(compression) => if le32(a, 0) != 52 {
            Err(BmpError::IncorrectSizeForThisInfoHeaderVersion)
        } else {
            Ok(BmpInfoHeaderV2 {
                width: le32_signed(a, 4),
                height: le32_signed(a, 8),
                bits_per_pixel: le16(a, 14),
                compression,
                image_byte_size: nonzero_u32(le32(a, 20)),
                h_ppm: le32_signed(a, 24),
                v_ppm: le32_signed(a, 28),
                palette_len: nonzero_u32(le32(a, 32)),
                important_colors: nonzero_u32(le32(a, 36)), red_mask: le32(a, 40), green_mask: le32(a, 44), blue_mask: le32(a, 48),
            })
        },
    }
}

/// The 52 bytes a header is written as (one color plane).
pub open spec fn v2_to_bytes(h: BmpInfoHeaderV2) -> Seq<u8> {
    common_prefix_bytes(
        52,
        h.width,
        h.height,
        h.bits_per_pixel,
        h.compression,
        h.image_byte_size,
        h.h_ppm,
        h.v_ppm,
        h.palette_len,
        h.important_colors,
    ) + u32s_bytes(seq![h.red_mask, h.green_mask, h.blue_mask])
}

impl TryFrom<[u8; 52]> for BmpInfoHeaderV2 {
    type Error = BmpError;

    fn try_from(a: [u8; 52]) -> (r: Result<BmpInfoHeaderV2, BmpError>) {
        let b = a.as_slice();
        let size = read_u32_le(b, 0);
        let width = read_u32_le(b, 4) as i32;
        let height = read_u32_le(b, 8) as i32;
        let bits_per_pixel = read_u16_le(b, 14);
        let compression = BmpCompression::try_from_u32(read_u32_le(b, 16))?;
        let image_byte_size = read_nonzero_u32(b, 20);
        let h_ppm = read_u32_le(b, 24) as i32;
        let v_ppm = read_u32_le(b, 28) as i32;
        let palette_len = read_nonzero_u32(b, 32);
        let important_colors = read_nonzero_u32(b, 36);
        let red_mask = read_u32_le(b, 40);
        let green_mask = read_u32_le(b, 44);
        let blue_mask = read_u32_le(b, 48);
        if size != 52 {
            Err(BmpError::IncorrectSizeForThisInfoHeaderVersion)
        } else {
            Ok(BmpInfoHeaderV2 {
                width,
                height,
                bits_per_pixel,
                compression,
                image_byte_size,
                h_ppm,
                v_ppm,
                palette_len,
                important_colors, red_mask, green_mask, blue_mask,
            })
        }
    }
}

impl vstd::std_specs::convert::TryFromSpecImpl<[u8; 52]> for BmpInfoHeaderV2 {
    open spec fn obeys_try_from_spec() -> bool {
        true
    }

    open spec fn try_from_spec(a: [u8; 52]) -> Result<BmpInfoHeaderV2, BmpError> {
        v2_from_bytes(a@)
    }
}

impl From<BmpInfoHeaderV2> for [u8; 52] {
    #[verifier::rlimit(30)]
    #[verifier::spinoff_prover]
    fn from(h: BmpInfoHeaderV2) -> (a: [u8; 52])
        ensures
            a@ == v2_to_bytes(h),
    {
        let p = common_prefix_array(
            52,
            h.width,
            h.height,
            h.bits_per_pixel,
            h.compression,
            h.image_byte_size,
            h.h_ppm,
            h.v_ppm,
            h.palette_len,
            h.important_colors,
        );
        let k0 = u32_le_bytes(h.red_mask);
        let k1 = u32_le_bytes(h.green_mask);
        let k2 = u32_le_bytes(h.blue_mask);
        let a = [p[0], p[1], p[2], p[3], p[4], p[5], p[6], p[7], p[8], p[9], p[10], p[11], p[12], p[13], p[14], p[15], p[16], p[17], p[18], p[19], p[20], p[21], p[22], p[23], p[24], p[25], p[26], p[27], p[28], p[29], p[30], p[31], p[32], p[33], p[34], p[35], p[36], p[37], p[38], p[39], k0[0], k0[1], k0[2], k0[3], k1[0], k1[1], k1[2], k1[3], k2[0], k2[1], k2[2], k2[3]];
        assert(a@ =~= v2_to_bytes(h));
        a
    }
}

impl vstd::std_specs::convert::FromSpecImpl<BmpInfoHeaderV2> for [u8; 52] {
    open spec fn obeys_from_spec() -> bool {
        true
    }

    open spec fn from_spec(h: BmpInfoHeaderV2) -> [u8; 52] {
        choose|a: [u8; 52]| a@ == v2_to_bytes(h)
    }
}

/// A header whose given optional fields are not 0, written to bytes, parses
/// back to itself.
#[verifier::rlimit(30)]
#[verifier::spinoff_prover]
pub proof fn lemma_v2_round_trip(h: BmpInfoHeaderV2)
    requires
        h.fields_given_nonzero(),
    ensures
        v2_from_bytes(v2_to_bytes(h)) == Ok::<BmpInfoHeaderV2, BmpError>(h),
{
    let s = v2_to_bytes(h);
    let p = common_prefix_bytes(
        52,
        h.width,
        h.height,
        h.bits_per_pixel,
        h.compression,
        h.image_byte_size,
        h.h_ppm,
        h.v_ppm,
        h.palette_len,
        h.important_colors,
    );
    let m = seq![h.red_mask, h.green_mask, h.blue_mask];
    let q = u32s_bytes(m);
    assert(p.len() == 40);
    assert(s == p + q);
    assert(s.subrange(0, 40) =~= p);
    assert(s.subrange(40, s.len() as int) =~= q);
    lemma_common_prefix_read_back(
        s,
        52,
        h.width,
        h.height,
        h.bits_per_pixel,
        h.compression,
        h.image_byte_size,
        h.h_ppm,
        h.v_ppm,
        h.palette_len,
        h.important_colors,
    );
    lemma_u32s_read_back(s, 40, m);
    assert(le32(s, 40) == m[0]);
    assert(le32(s, 44) == m[1]);
    assert(le32(s, 48) == m[2]);
}

/// Info header version 3 (the 56 byte `BITMAPV3INFOHEADER`): V2 with an alpha
/// bit mask.
#[derive(Debug, Clone, Copy, PartialEq, Eq, Structural)]
pub struct BmpInfoHeaderV3 {
    /// Image pixel width.
    pub width: i32,
    /// Image pixel height; positive means the origin is the bottom left,
    /// negative the top left.
    pub height: i32,
    /// Should be 1, 4, 8, 16, 24, or 32.
    pub bits_per_pixel: u16,
    /// The compression style of the image data.
    pub compression: BmpCompression,
    /// The number of bytes in the raw bitmap data (may be left out when the
    /// data is not compressed).
    pub image_byte_size: Option<u32>,
    /// Horizontal pixels per meter.
    pub h_ppm: i32,
    /// Vertical pixels per meter.
    pub v_ppm: i32,
    /// Palette length; when left out the full `2**N` palette is used (`N` the
    /// bit depth).
    pub palette_len: Option<u32>,
    /// The number of "important" colors; when left out, all are.
    pub important_colors: Option<u32>,
    /// Bit mask of where the red bits are located.
    pub red_mask: u32,
    /// Bit mask of where the green bits are located.
    pub green_mask: u32,
    /// Bit mask of where the blue bits are located.
    pub blue_mask: u32,
    /// Bit mask of where the alpha bits are located.
    pub alpha_mask: u32,
}

impl BmpInfoHeaderV3 {
    /// The optional fields that are given are not 0, as a stored header
    /// always reads.
    pub open spec fn fields_given_nonzero(self) -> bool {
        &&& given_nonzero_u32(self.image_byte_size)
        &&& given_nonzero_u32(self.palette_len)
        &&& given_nonzero_u32(self.important_colors)
    }

    /// Length of the palette: the stored length, or the length it implies
    /// when left out.
    pub fn palette_len(self) -> (n: usize)
        ensures
            n == implied_palette_len(self.palette_len, self.bits_per_pixel),
    {
        implied_palette_len_exec(self.palette_len, self.bits_per_pixel)
    }
}

/// What the 56 bytes `a` parse to: an unknown compression code is
/// refused first, then a size field other than 56.
pub open spec fn v3_from_bytes(a: Seq<u8>) -> Result<BmpInfoHeaderV3, BmpError> {
    match compression_of_code(le32(a, 16)) {
        Err(e) => Err(e),
        Ok(compression) => if le32(a, 0) != 56 {
            Err(BmpError::IncorrectSizeForThisInfoHeaderVersion)
        } else {
            Ok(BmpInfoHeaderV3 {
                width: le32_signed(a, 4),
                height: le32_signed(a, 8),
                bits_per_pixel: le16(a, 14),
                compression,
                image_byte_size: nonzero_u32(le32(a, 20)),
                h_ppm: le32_signed(a, 24),
                v_ppm: le32_signed(a, 28),
                palette_len: nonzero_u32(le32(a, 32)),
                important_colors: nonzero_u32(le32(a, 36)), red_mask: le32(a, 40), green_mask: le32(a, 44), blue_mask: le32(a, 48), alpha_mask: le32(a, 52),
            })
        },
    }
}

/// The 56 bytes a header is written as (one color plane).
pub open spec fn v3_to_bytes(h: BmpInfoHeaderV3) -> Seq<u8> {
    common_prefix_bytes(
        56,
        h.width,
        h.height,
        h.bits_per_pixel,
        h.compression,
        h.image_byte_size,
        h.h_ppm,
        h.v_ppm,
        h.palette_len,
        h.important_colors,
    ) + u32s_bytes(seq![h.red_mask, h.green_mask, h.blue_mask, h.alpha_mask])
}

impl TryFrom<[u8; 56]> for BmpInfoHeaderV3 {
    type Error = BmpError;

    fn try_from(a: [u8; 56]) -> (r: Result<BmpInfoHeaderV3, BmpError>) {
        let b = a.as_slice();
        let size = read_u32_le(b, 0);
        let width = read_u32_le(b, 4) as i32;
        let height = read_u32_le(b, 8) as i32;
        let bits_per_pixel = read_u16_le(b, 14);
        let compression = BmpCompression::try_from_u32(read_u32_le(b, 16))?;
        let image_byte_size = read_nonzero_u32(b, 20);
        let h_ppm = read_u32_le(b, 24) as i32;
        let v_ppm = read_u32_le(b, 28) as i32;
        let palette_len = read_nonzero_u32(b, 32);
        let important_colors = read_nonzero_u32(b, 36);
        let red_mask = read_u32_le(b, 40);
        let green_mask = read_u32_le(b, 44);
        let blue_mask = read_u32_le(b, 48);
        let alpha_mask = read_u32_le(b, 52);
        if size != 56 {
            Err(BmpError::IncorrectSizeForThisInfoHeaderVersion)
        } else {
            Ok(BmpInfoHeaderV3 {
                width,
                height,
                bits_per_pixel,
                compression,
                image_byte_size,
                h_ppm,
                v_ppm,
                palette_len,
                important_colors, red_mask, green_mask, blue_mask, alpha_mask,
            })
        }
    }
}

impl vstd::std_specs::convert::TryFromSpecImpl<[u8; 56]> for BmpInfoHeaderV3 {
    open spec fn obeys_try_from_spec() -> bool {
        true
    }

    open spec fn try_from_spec(a: [u8; 56]) -> Result<BmpInfoHeaderV3, BmpError> {
        v3_from_bytes(a@)
    }
}

impl From<BmpInfoHeaderV3> for [u8; 56] {
    #[verifier::rlimit(30)]
    #[verifier::spinoff_prover]
    fn from(h: BmpInfoHeaderV3) -> (a: [u8; 56])
        ensures
            a@ == v3_to_bytes(h),
    {
        let p = common_prefix_array(
            56,
            h.width,
            h.height,
            h.bits_per_pixel,
            h.compression,
            h.image_byte_size,
            h.h_ppm,
            h.v_ppm,
            h.palette_len,
            h.important_colors,
        );
        let k0 = u32_le_bytes(h.red_mask);
        let k1 = u32_le_bytes(h.green_mask);
        let k2 = u32_le_bytes(h.blue_mask);
        let k3 = u32_le_bytes(h.alpha_mask);
        let a = [p[0], p[1], p[2], p[3], p[4], p[5], p[6], p[7], p[8], p[9], p[10], p[11], p[12], p[13], p[14], p[15], p[16], p[17], p[18], p[19], p[20], p[21], p[22], p[23], p[24], p[25], p[26], p[27], p[28], p[29], p[30], p[31], p[32], p[33], p[34], p[35], p[36], p[37], p[38], p[39], k0[0], k0[1], k0[2], k0[3], k1[0], k1[1], k1[2], k1[3], k2[0], k2[1], k2[2], k2[3], k3[0], k3[1], k3[2], k3[3]];
        assert(a@ =~= v3_to_bytes(h));
        a
    }
}

impl vstd::std_specs::convert::FromSpecImpl<BmpInfoHeaderV3> for [u8; 56] {
    open spec fn obeys_from_spec() -> bool {
        true
    }

    open spec fn from_spec(h: BmpInfoHeaderV3) -> [u8; 56] {
        choose|a: [u8; 56]| a@ == v3_to_bytes(h)
    }
}

/// A header whose given optional fields are not 0, written to bytes, parses
/// back to itself.
#[verifier::rlimit(30)]
#[verifier::spinoff_prover]
pub proof fn lemma_v3_round_trip(h: BmpInfoHeaderV3)
    requires
        h.fields_given_nonzero(),
    ensures
        v3_from_bytes(v3_to_bytes(h)) == Ok::<BmpInfoHeaderV3, BmpError>(h),
{
    let s = v3_to_bytes(h);
    let p = common_prefix_bytes(
        56,
        h.width,
        h.height,
        h.bits_per_pixel,
        h.compression,
        h.image_byte_size,
        h.h_ppm,
        h.v_ppm,
        h.palette_len,
        h.important_colors,
    );
    let m = seq![h.red_mask, h.green_mask, h.blue_mask, h.alpha_mask];
    let q = u32s_bytes(m);
    assert(p.len() == 40);
    assert(s == p + q);
    assert(s.subrange(0, 40) =~= p);
    assert(s.subrange(40, s.len() as int) =~= q);
    lemma_common_prefix_read_back(
        s,
        56,
        h.width,
        h.height,
        h.bits_per_pixel,
        h.compression,
        h.image_byte_size,
        h.h_ppm,
        h.v_ppm,
        h.palette_len,
        h.important_colors,
    );
    lemma_u32s_read_back(s, 40, m);
    assert(le32(s, 40) == m[0]);
    assert(le32(s, 44) == m[1]);
    assert(le32(s, 48) == m[2]);
    assert(le32(s, 52) == m[3]);
}

/// The halftoning algorithm of OS/2 2.x image data.
#[derive(Debug, Clone, Copy, PartialEq, Eq, Structural)]
pub enum Halftoning {
    /// No halftoning, the most common style.
    NoHalftoning,
    /// Error diffusion; a damping of 0 means the error is not diffused.
    ErrorDiffusion { damping_percentage: u32 },
    /// PANDA: Processing Algorithm for Noncoded Document Acquisition.
    Panda { x: u32, y: u32 },
    /// Super-circle halftoning.
    SuperCircle { x: u32, y: u32 },
    /// An algorithm code this library does not know.
    Unknown,
}

/// What 10 stored halftoning bytes mean: a `u16` algorithm code, then up to
/// two `u32` parameters.
pub open spec fn halftoning_from_bytes(a: Seq<u8>) -> Halftoning {
    let code = le16(a, 0);
    if code == 0 {
        Halftoning::NoHalftoning
    } else if code == 1 {
        Halftoning::ErrorDiffusion { damping_percentage: le32(a, 2) }
    } else if code == 2 {
        Halftoning::Panda { x: le32(a, 2), y: le32(a, 6) }
    } else if code == 3 {
        Halftoning::SuperCircle { x: le32(a, 2), y: le32(a, 6) }
    } else {
        Halftoning::Unknown
    }
}

/// The 10 bytes a halftoning is stored as (all zero for `NoHalftoning` and
/// `Unknown`).
pub open spec fn halftoning_to_bytes(h: Halftoning) -> Seq<u8> {
    match h {
        Halftoning::NoHalftoning | Halftoning::Unknown => le16_bytes(0) + le32_bytes(0) + le32_bytes(0),
        Halftoning::ErrorDiffusion { damping_percentage } => le16_bytes(1) + le32_bytes(damping_percentage)
            + le32_bytes(0),
        Halftoning::Panda { x, y } => le16_bytes(2) + le32_bytes(x) + le32_bytes(y),
        Halftoning::SuperCircle { x, y } => le16_bytes(3) + le32_bytes(x) + le32_bytes(y),
    }
}

fn halftoning_parse(b: &[u8], at: usize) -> (h: Halftoning)
    requires
        at + 10 <= b@.len(),
        at <= 64,
    ensures
        h == halftoning_from_bytes(b@.subrange(at as int, at + 10)),
{
    let ghost a = b@.subrange(at as int, at + 10);
    let code = read_u16_le(b, at);
    assert(le16(a, 0) == code);
    if code == 0 {
        Halftoning::NoHalftoning
    } else if code == 1 {
        let d = read_u32_le(b, at + 2);
        assert(le32(a, 2) == d);
        Halftoning::ErrorDiffusion { damping_percentage: d }
    } else if code == 2 || code == 3 {
        let x = read_u32_le(b, at + 2);
        let y = read_u32_le(b, at + 6);
        assert(le32(a, 2) == x);
        assert(le32(a, 6) == y);
        if code == 2 {
            Halftoning::Panda { x, y }
        } else {
            Halftoning::SuperCircle { x, y }
        }
    } else {
        Halftoning::Unknown
    }
}

fn halftoning_array(h: Halftoning) -> (a: [u8; 10])
    ensures
        a@ == halftoning_to_bytes(h),
{
    let (code, p, q): (u16, u32, u32) = match h {
        Halftoning::NoHalftoning | Halftoning::Unknown => (0, 0, 0),
        Halftoning::ErrorDiffusion { damping_percentage } => (1, damping_percentage, 0),
        Halftoning::Panda { x, y } => (2, x, y),
        Halftoning::SuperCircle { x, y } => (3, x, y),
    };
    let c = u16_le_bytes(code);
    let x = u32_le_bytes(p);
    let y = u32_le_bytes(q);
    let a = [c[0], c[1], x[0], x[1], x[2], x[3], y[0], y[1], y[2], y[3]];
    assert(a@ =~= halftoning_to_bytes(h));
    a
}

impl From<[u8; 10]> for Halftoning {
    fn from(a: [u8; 10]) -> (h: Halftoning)
        ensures
            h == halftoning_from_bytes(a@),
    {
        let h = halftoning_parse(a.as_slice(), 0);
        assert(a@.subrange(0, 10) =~= a@);
        h
    }
}

impl vstd::std_specs::convert::FromSpecImpl<[u8; 10]> for Halftoning {
    open spec fn obeys_from_spec() -> bool {
        true
    }

    open spec fn from_spec(a: [u8; 10]) -> Halftoning {
        halftoning_from_bytes(a@)
    }
}

impl From<Halftoning> for [u8; 10] {
    fn from(h: Halftoning) -> (a: [u8; 10])
        ensures
            a@ == halftoning_to_bytes(h),
    {
        halftoning_array(h)
    }
}

impl vstd::std_specs::convert::FromSpecImpl<Halftoning> for [u8; 10] {
    open spec fn obeys_from_spec() -> bool {
        true
    }

    open spec fn from_spec(h: Halftoning) -> [u8; 10] {
        choose|a: [u8; 10]| a@ == halftoning_to_bytes(h)
    }
}

/// A halftoning other than `Unknown`, written to bytes, reads back as itself;
/// `Unknown` is written as zeros and reads back as `NoHalftoning`.
pub proof fn lemma_halftoning_round_trip(h: Halftoning)
    ensures
        h != Halftoning::Unknown ==> halftoning_from_bytes(halftoning_to_bytes(h)) == h,
        h == Halftoning::Unknown ==> halftoning_from_bytes(halftoning_to_bytes(h)) == Halftoning::NoHalftoning,
{
    let s = halftoning_to_bytes(h);
    let (code, p, q): (u16, u32, u32) = match h {
        Halftoning::NoHalftoning | Halftoning::Unknown => (0, 0, 0),
        Halftoning::ErrorDiffusion { damping_percentage } => (1, damping_percentage, 0),
        Halftoning::Panda { x, y } => (2, x, y),
        Halftoning::SuperCircle { x, y } => (3, x, y),
    };
    assert(s == le16_bytes(code) + le32_bytes(p) + le32_bytes(q));
    assert(s.subrange(0, 2) =~= le16_bytes(code));
    assert(s.subrange(2, 6) =~= le32_bytes(p));
    assert(s.subrange(6, 10) =~= le32_bytes(q));
    lemma_le16_read_back(s, 0, code);
    lemma_le32_read_back(s, 2, p);
    lemma_le32_read_back(s, 6, q);
}

/// Header for OS/2 2.x and later (the `OS22XBITMAPHEADER`): V1 with some
/// more fields. It is stored as 64 bytes, or as its first 16 bytes with the
/// rest taken as zeros.
#[derive(Debug, Clone, Copy, PartialEq, Eq, Structural)]
pub struct BmpInfoHeaderOs22x {
    /// Image pixel width.
    pub width: i32,
    /// Image pixel height; positive means the origin is the bottom left,
    /// negative the top left.
    pub height: i32,
    /// Should be 1, 4, 8, 16, 24, or 32.
    pub bits_per_pixel: u16,
    /// The compression style of the image data.
    pub compression: BmpCompression,
    /// The number of bytes in the raw bitmap data (may be left out when the
    /// data is not compressed).
    pub image_byte_size: Option<u32>,
    /// Horizontal pixels per meter.
    pub h_ppm: i32,
    /// Vertical pixels per meter.
    pub v_ppm: i32,
    /// Palette length; when left out the full `2**N` palette is used (`N` the
    /// bit depth).
    pub palette_len: Option<u32>,
    /// The number of "important" colors; when left out, all are.
    pub important_colors: Option<u32>,
    /// When given, the pixels per meter are in some other (never defined)
    /// units.
    pub resolution_units: Option<u16>,
    /// When given, the origin is somewhere other than the lower left (no other
    /// place was ever defined).
    pub pixel_origin: Option<u16>,
    /// The halftoning algorithm of the image data.
    pub halftoning: Halftoning,
    /// When given, the color table entries are something other than RGB (none
    /// is officially defined).
    pub color_table_format: Option<u32>,
}

impl BmpInfoHeaderOs22x {
    /// The optional fields that are given are not 0, as a stored header
    /// always reads.
    pub open spec fn fields_given_nonzero(self) -> bool {
        &&& given_nonzero_u32(self.image_byte_size)
        &&& given_nonzero_u32(self.palette_len)
        &&& given_nonzero_u32(self.important_colors)
        &&& given_nonzero_u16(self.resolution_units)
        &&& given_nonzero_u16(self.pixel_origin)
        &&& given_nonzero_u32(self.color_table_format)
    }

    /// Length of the palette: the stored length, or the length it implies
    /// when left out.
    pub fn palette_len(self) -> (n: usize)
        ensures
            n == implied_palette_len(self.palette_len, self.bits_per_pixel),
    {
        implied_palette_len_exec(self.palette_len, self.bits_per_pixel)
    }
}

/// What the 64 bytes `a` parse to: an unknown compression code is refused
/// first, then a size field other than 64.
pub open spec fn os22x_from_bytes(a: Seq<u8>) -> Result<BmpInfoHeaderOs22x, BmpError> {
    match compression_of_code(le32(a, 16)) {
        Err(e) => Err(e),
        Ok(compression) => if le32(a, 0) != 64 {
            Err(BmpError::IncorrectSizeForThisInfoHeaderVersion)
        } else {
            Ok(BmpInfoHeaderOs22x {
                width: le32_signed(a, 4),
                height: le32_signed(a, 8),
                bits_per_pixel: le16(a, 14),
                compression,
                image_byte_size: nonzero_u32(le32(a, 20)),
                h_ppm: le32_signed(a, 24),
                v_ppm: le32_signed(a, 28),
                palette_len: nonzero_u32(le32(a, 32)),
                important_colors: nonzero_u32(le32(a, 36)),
                resolution_units: nonzero_u16(le16(a, 40)),
                pixel_origin: nonzero_u16(le16(a, 44)),
                halftoning: halftoning_from_bytes(a.subrange(46, 56)),
                color_table_format: nonzero_u32(le32(a, 56)),
            })
        },
    }
}

/// The 64 bytes a stored 16 byte header stands for: size 64, its bytes 4 to
/// 16, then zeros.
pub open spec fn os22x_expanded(a: Seq<u8>) -> Seq<u8> {
    le32_bytes(64) + a.subrange(4, 16) + Seq::new(48, |i: int| 0u8)
}

/// What the 16 bytes `a` parse to: a size field other than 16 is refused,
/// otherwise they parse as the 64 bytes they stand for.
pub open spec fn os22x_short_from_bytes(a: Seq<u8>) -> Result<BmpInfoHeaderOs22x, BmpError> {
    if le32(a, 0) != 16 {
        Err(BmpError::IncorrectSizeForThisInfoHeaderVersion)
    } else {
        os22x_from_bytes(os22x_expanded(a))
    }
}

/// The last 24 of the 64 bytes an OS/2 2.x header is written as (padding is
/// zero).
pub open spec fn os22x_tail_bytes(
    resolution_units: Option<u16>,
    pixel_origin: Option<u16>,
    halftoning: Halftoning,
    color_table_format: Option<u32>,
) -> Seq<u8> {
    le16_bytes(stored_u16(resolution_units)) + le16_bytes(0) + le16_bytes(stored_u16(pixel_origin))
        + halftoning_to_bytes(halftoning) + le32_bytes(stored_u32(color_table_format)) + le32_bytes(0)
}

/// The 64 bytes a header is written as (one color plane).
pub open spec fn os22x_to_bytes(h: BmpInfoHeaderOs22x) -> Seq<u8> {
    common_prefix_bytes(
        64,
        h.width,
        h.height,
        h.bits_per_pixel,
        h.compression,
        h.image_byte_size,
        h.h_ppm,
        h.v_ppm,
        h.palette_len,
        h.important_colors,
    ) + os22x_tail_bytes(h.resolution_units, h.pixel_origin, h.halftoning, h.color_table_format)
}

fn os22x_parse(a: [u8; 64]) -> (r: Result<BmpInfoHeaderOs22x, BmpError>)
    ensures
        r == os22x_from_bytes(a@),
{
    let b = a.as_slice();
    let size = read_u32_le(b, 0);
    let width = read_u32_le(b, 4) as i32;
    let height = read_u32_le(b, 8) as i32;
    let bits_per_pixel = read_u16_le(b, 14);
    let compression = BmpCompression::try_from_u32(read_u32_le(b, 16))?;
    let image_byte_size = read_nonzero_u32(b, 20);
    let h_ppm = read_u32_le(b, 24) as i32;
    let v_ppm = read_u32_le(b, 28) as i32;
    let palette_len = read_nonzero_u32(b, 32);
    let important_colors = read_nonzero_u32(b, 36);
    let resolution_units = read_nonzero_u16(b, 40);
    let pixel_origin = read_nonzero_u16(b, 44);
    let halftoning = halftoning_parse(b, 46);
    let color_table_format = read_nonzero_u32(b, 56);
    if size != 64 {
        Err(BmpError::IncorrectSizeForThisInfoHeaderVersion)
    } else {
        Ok(BmpInfoHeaderOs22x {
            width,
            height,
            bits_per_pixel,
            compression,
            image_byte_size,
            h_ppm,
            v_ppm,
            palette_len,
            important_colors,
            resolution_units,
            pixel_origin,
            halftoning,
            color_table_format,
        })
    }
}

impl TryFrom<[u8; 64]> for BmpInfoHeaderOs22x {
    type Error = BmpError;

    fn try_from(a: [u8; 64]) -> (r: Result<BmpInfoHeaderOs22x, BmpError>) {
        os22x_parse(a)
    }
}

impl vstd::std_specs::convert::TryFromSpecImpl<[u8; 64]> for BmpInfoHeaderOs22x {
    open spec fn obeys_try_from_spec() -> bool {
        true
    }

    open spec fn try_from_spec(a: [u8; 64]) -> Result<BmpInfoHeaderOs22x, BmpError> {
        os22x_from_bytes(a@)
    }
}

impl TryFrom<[u8; 16]> for BmpInfoHeaderOs22x {
    type Error = BmpError;

    /// The 16 byte version is the 64 byte version with all later bytes zero.
    fn try_from(a: [u8; 16]) -> (r: Result<BmpInfoHeaderOs22x, BmpError>) {
        if read_u32_le(a.as_slice(), 0) != 16 {
            Err(BmpError::IncorrectSizeForThisInfoHeaderVersion)
        } else {
            let s = u32_le_bytes(64);
            let full = [
                s[0], s[1], s[2], s[3], a[4], a[5], a[6], a[7], a[8], a[9], a[10], a[11], a[12], a[13], a[14], a[15],
                0, 0, 0, 0, 0, 0, 0, 0, 0, 0, 0, 0, 0, 0, 0, 0,
                0, 0, 0, 0, 0, 0, 0, 0, 0, 0, 0, 0, 0, 0, 0, 0,
                0, 0, 0, 0, 0, 0, 0, 0, 0, 0, 0, 0, 0, 0, 0, 0,
            ];
            assert(full@ =~= os22x_expanded(a@));
            os22x_parse(full)
        }
    }
}

impl vstd::std_specs::convert::TryFromSpecImpl<[u8; 16]> for BmpInfoHeaderOs22x {
    open spec fn obeys_try_from_spec() -> bool {
        true
    }

    open spec fn try_from_spec(a: [u8; 16]) -> Result<BmpInfoHeaderOs22x, BmpError> {
        os22x_short_from_bytes(a@)
    }
}

impl From<BmpInfoHeaderOs22x> for [u8; 64] {
    #[verifier::rlimit(30)]
    #[verifier::spinoff_prover]
    fn from(h: BmpInfoHeaderOs22x) -> (a: [u8; 64])
        ensures
            a@ == os22x_to_bytes(h),
    {
        let p = common_prefix_array(
            64,
            h.width,
            h.height,
            h.bits_per_pixel,
            h.compression,
            h.image_byte_size,
            h.h_ppm,
            h.v_ppm,
            h.palette_len,
            h.important_colors,
        );
        let r = u16_le_bytes(stored_u16_exec(h.resolution_units));
        let o = u16_le_bytes(stored_u16_exec(h.pixel_origin));
        let t = halftoning_array(h.halftoning);
        let c = u32_le_bytes(stored_u32_exec(h.color_table_format));
        let z = u16_le_bytes(0);
        let y = u32_le_bytes(0);
        let a = [
            p[0], p[1], p[2], p[3], p[4], p[5], p[6], p[7], p[8], p[9], p[10], p[11], p[12], p[13], p[14], p[15], p[16], p[17], p[18], p[19], p[20], p[21], p[22], p[23], p[24], p[25], p[26], p[27], p[28], p[29], p[30], p[31], p[32], p[33], p[34], p[35], p[36], p[37], p[38], p[39],
            r[0], r[1], z[0], z[1], o[0], o[1], t[0], t[1], t[2], t[3], t[4], t[5], t[6], t[7], t[8], t[9],
            c[0], c[1], c[2], c[3], y[0], y[1], y[2], y[3],
        ];
        assert(a@ =~= os22x_to_bytes(h));
        a
    }
}

impl vstd::std_specs::convert::FromSpecImpl<BmpInfoHeaderOs22x> for [u8; 64] {
    open spec fn obeys_from_spec() -> bool {
        true
    }

    open spec fn from_spec(h: BmpInfoHeaderOs22x) -> [u8; 64] {
        choose|a: [u8; 64]| a@ == os22x_to_bytes(h)
    }
}

proof fn lemma_os22x_tail_read_back(
    s: Seq<u8>,
    resolution_units: Option<u16>,
    pixel_origin: Option<u16>,
    halftoning: Halftoning,
    color_table_format: Option<u32>,
)
    requires
        s.len() == 64,
        s.subrange(40, 64) == os22x_tail_bytes(resolution_units, pixel_origin, halftoning, color_table_format),
        given_nonzero_u16(resolution_units),
        given_nonzero_u16(pixel_origin),
        given_nonzero_u32(color_table_format),
    ensures
        nonzero_u16(le16(s, 40)) == resolution_units,
        nonzero_u16(le16(s, 44)) == pixel_origin,
        s.subrange(46, 56) == halftoning_to_bytes(halftoning),
        nonzero_u32(le32(s, 56)) == color_table_format,
{
    let t = os22x_tail_bytes(resolution_units, pixel_origin, halftoning, color_table_format);
    assert(s.subrange(40, 42) =~= le16_bytes(stored_u16(resolution_units))) by {
        assert(s.subrange(40, 42) =~= t.subrange(0, 2));
    }
    assert(s.subrange(44, 46) =~= le16_bytes(stored_u16(pixel_origin))) by {
        assert(s.subrange(44, 46) =~= t.subrange(4, 6));
    }
    assert(s.subrange(46, 56) =~= halftoning_to_bytes(halftoning)) by {
        assert(s.subrange(46, 56) =~= t.subrange(6, 16));
    }
    assert(s.subrange(56, 60) =~= le32_bytes(stored_u32(color_table_format))) by {
        assert(s.subrange(56, 60) =~= t.subrange(16, 20));
    }
    lemma_le16_read_back(s, 40, stored_u16(resolution_units));
    lemma_le16_read_back(s, 44, stored_u16(pixel_origin));
    lemma_le32_read_back(s, 56, stored_u32(color_table_format));
}

/// The two parts of a concatenation are its subranges.
proof fn lemma_concat_parts(p: Seq<u8>, t: Seq<u8>)
    ensures
        (p + t).subrange(0, p.len() as int) == p,
        (p + t).subrange(p.len() as int, (p.len() + t.len()) as int) == t,
        (p + t).len() == p.len() + t.len(),
{
    assert((p + t).subrange(0, p.len() as int) =~= p);
    assert((p + t).subrange(p.len() as int, (p.len() + t.len()) as int) =~= t);
}

/// A header whose given optional fields are not 0 and whose halftoning is a
/// known one, written to bytes, parses back to itself.
#[verifier::rlimit(30)]
#[verifier::spinoff_prover]
pub proof fn lemma_os22x_round_trip(h: BmpInfoHeaderOs22x)
    requires
        h.fields_given_nonzero(),
        h.halftoning != Halftoning::Unknown,
    ensures
        os22x_from_bytes(os22x_to_bytes(h)) == Ok::<BmpInfoHeaderOs22x, BmpError>(h),
{
    let s = os22x_to_bytes(h);
    let p = common_prefix_bytes(
        64,
        h.width,
        h.height,
        h.bits_per_pixel,
        h.compression,
        h.image_byte_size,
        h.h_ppm,
        h.v_ppm,
        h.palette_len,
        h.important_colors,
    );
    let t = os22x_tail_bytes(h.resolution_units, h.pixel_origin, h.halftoning, h.color_table_format);
    assert(p.len() == 40);
    assert(t.len() == 24);
    lemma_concat_parts(p, t);
    lemma_common_prefix_read_back(
        s,
        64,
        h.width,
        h.height,
        h.bits_per_pixel,
        h.compression,
        h.image_byte_size,
        h.h_ppm,
        h.v_ppm,
        h.palette_len,
        h.important_colors,
    );
    lemma_os22x_tail_read_back(s, h.resolution_units, h.pixel_origin, h.halftoning, h.color_table_format);
    lemma_halftoning_round_trip(h.halftoning);
    lemma_os22x_fields(s, h);
}

proof fn lemma_os22x_fields(s: Seq<u8>, h: BmpInfoHeaderOs22x)
    requires
        le32(s, 0) == 64,
        le32_signed(s, 4) == h.width,
        le32_signed(s, 8) == h.height,
        le16(s, 14) == h.bits_per_pixel,
        compression_of_code(le32(s, 16)) == Ok::<BmpCompression, BmpError>(h.compression),
        nonzero_u32(le32(s, 20)) == h.image_byte_size,
        le32_signed(s, 24) == h.h_ppm,
        le32_signed(s, 28) == h.v_ppm,
        nonzero_u32(le32(s, 32)) == h.palette_len,
        nonzero_u32(le32(s, 36)) == h.important_colors,
        nonzero_u16(le16(s, 40)) == h.resolution_units,
        nonzero_u16(le16(s, 44)) == h.pixel_origin,
        halftoning_from_bytes(s.subrange(46, 56)) == h.halftoning,
        nonzero_u32(le32(s, 56)) == h.color_table_format,
    ensures
        os22x_from_bytes(s) == Ok::<BmpInfoHeaderOs22x, BmpError>(h),
{
}

/// The 14 byte header at the start of all BMP files.
#[derive(Debug, Clone, Copy, PartialEq, Eq)]
pub struct BmpFileHeader {
    /// Expected to be one of `BM` (Windows 3.1 or later), `BA` (OS/2 bitmap
    /// array), `CI` (OS/2 color icon), `CP` (OS/2 color pointer), `IC` (OS/2
    /// icon) or `PT` (OS/2 pointer).
    pub tag: AsciiArray<2>,
    /// The total size of the file; if it does not match the actual size, data
    /// may have been lost or corrupted.
    pub total_file_size: u32,
    /// The byte index within the file where the bitmap data starts.
    pub pixel_data_offset: u32,
}

/// What 14 stored bytes mean: the tag, the file size, 4 skipped bytes, then
/// the pixel data offset.
pub open spec fn file_header_from_bytes(a: Seq<u8>) -> BmpFileHeader {
    BmpFileHeader {
        tag: AsciiArray(choose|t: [u8; 2]| t@ == a.subrange(0, 2)),
        total_file_size: le32(a, 2),
        pixel_data_offset: le32(a, 10),
    }
}

/// The 14 bytes a file header is written as (the skipped bytes are zero).
pub open spec fn file_header_to_bytes(h: BmpFileHeader) -> Seq<u8> {
    h.tag.0@ + le32_bytes(h.total_file_size) + le32_bytes(0) + le32_bytes(h.pixel_data_offset)
}

fn file_header_parse(b: &[u8]) -> (h: BmpFileHeader)
    requires
        14 <= b@.len(),
    ensures
        h == file_header_from_bytes(b@.subrange(0, 14)),
        h.tag.0@ == b@.subrange(0, 2),
{
    let ghost a = b@.subrange(0, 14);
    let tag = [b[0], b[1]];
    assert(tag@ =~= a.subrange(0, 2));
    proof {
        let t = choose|t: [u8; 2]| t@ == a.subrange(0, 2);
        assert(t@ == a.subrange(0, 2));
        assert(t =~= tag);
    }
    let total_file_size = read_u32_le(b, 2);
    let pixel_data_offset = read_u32_le(b, 10);
    assert(le32(a, 2) == total_file_size);
    assert(le32(a, 10) == pixel_data_offset);
    BmpFileHeader { tag: AsciiArray(tag), total_file_size, pixel_data_offset }
}

impl From<[u8; 14]> for BmpFileHeader {
    fn from(a: [u8; 14]) -> (h: BmpFileHeader)
        ensures
            h == file_header_from_bytes(a@),
    {
        let h = file_header_parse(a.as_slice());
        assert(a@.subrange(0, 14) =~= a@);
        h
    }
}

impl vstd::std_specs::convert::FromSpecImpl<[u8; 14]> for BmpFileHeader {
    open spec fn obeys_from_spec() -> bool {
        true
    }

    open spec fn from_spec(a: [u8; 14]) -> BmpFileHeader {
        file_header_from_bytes(a@)
    }
}

impl From<BmpFileHeader> for [u8; 14] {
    fn from(h: BmpFileHeader) -> (a: [u8; 14])
        ensures
            a@ == file_header_to_bytes(h),
    {
        let t = h.tag.0;
        let s = u32_le_bytes(h.total_file_size);
        let z = u32_le_bytes(0);
        let p = u32_le_bytes(h.pixel_data_offset);
        let a = [t[0], t[1], s[0], s[1], s[2], s[3], z[0], z[1], z[2], z[3], p[0], p[1], p[2], p[3]];
        assert(a@ =~= file_header_to_bytes(h));
        a
    }
}

impl vstd::std_specs::convert::FromSpecImpl<BmpFileHeader> for [u8; 14] {
    open spec fn obeys_from_spec() -> bool {
        true
    }

    open spec fn from_spec(h: BmpFileHeader) -> [u8; 14] {
        choose|a: [u8; 14]| a@ == file_header_to_bytes(h)
    }
}

impl BmpFileHeader {
    /// Splits the file header off the front of `bytes`: the header and the
    /// bytes after it, or `InsufficientBytes` when there are fewer than 14.
    pub fn try_from_bytes(bytes: &[u8]) -> (r: Result<(BmpFileHeader, &[u8]), BmpError>)
        ensures
            bytes@.len() < 14 ==> r == Err::<(BmpFileHeader, &[u8]), BmpError>(BmpError::InsufficientBytes),
            bytes@.len() >= 14 ==> r is Ok && r->Ok_0.0 == file_header_from_bytes(bytes@.subrange(0, 14))
                && r->Ok_0.1@ == bytes@.subrange(14, bytes@.len() as int),
    {
        if bytes.len() < 14 {
            Err(BmpError::InsufficientBytes)
        } else {
            let h = file_header_parse(bytes);
            Ok((h, vstd::slice::slice_subrange(bytes, 14, bytes.len())))
        }
    }
}

/// A file header written to bytes reads back as itself.
pub proof fn lemma_file_header_round_trip(h: BmpFileHeader)
    ensures
        file_header_from_bytes(file_header_to_bytes(h)) == h,
{
    let s = file_header_to_bytes(h);
    assert(s.subrange(0, 2) =~= h.tag.0@);
    assert(s.subrange(2, 6) =~= le32_bytes(h.total_file_size));
    assert(s.subrange(10, 14) =~= le32_bytes(h.pixel_data_offset));
    lemma_le32_read_back(s, 2, h.total_file_size);
    lemma_le32_read_back(s, 10, h.pixel_data_offset);
    let t = choose|t: [u8; 2]| t@ == s.subrange(0, 2);
    assert(t@ == s.subrange(0, 2));
    assert(t =~= h.tag.0);
}

/// A CIE XYZ color coordinate (2.30 fixed point values).
#[derive(Debug, Clone, Copy, PartialEq, Eq, Structural)]
pub struct CIEXYZ {
    pub x: u32,
    pub y: u32,
    pub z: u32,
}

/// The CIE XYZ coordinates of the red, green and blue endpoints.
#[derive(Debug, Clone, Copy, PartialEq, Eq, Structural)]
pub struct CIEXYZTRIPLE {
    pub red: CIEXYZ,
    pub green: CIEXYZ,
    pub blue: CIEXYZ,
}

/// The color space of a V4 or V5 info header.
#[derive(Debug, Clone, Copy, PartialEq, Eq, Structural)]
pub enum BmpColorspace {
    /// sRGB (`sRGB` tag).
    Srgb,
    /// The Windows default color space (`Win ` tag).
    WindowsDefault,
    /// A color profile linked by file name (`LINK` tag).
    LinkedProfile,
    /// A color profile embedded in the file (`MBED` tag).
    EmbeddedProfile,
    /// Calibrated RGB with the given endpoints and gammas (tag 0).
    Calibrated { endpoints: CIEXYZTRIPLE, gamma_red: u32, gamma_green: u32, gamma_blue: u32 },
    /// A tag this library does not know, with the endpoints and gammas stored.
    Unknown { endpoints: CIEXYZTRIPLE, gamma_red: u32, gamma_green: u32, gamma_blue: u32 },
}

/// Calibrated RGB.
pub const LCS_CALIBRATED_RGB: u32 = 0x0000_0000;
/// sRGB.
pub const LCS_SRGB: u32 = 0x7352_4742;
/// The Windows default color space.
pub const LCS_WINDOWS_COLOR_SPACE: u32 = 0x5769_6E20;
/// A linked profile.
pub const PROFILE_LINKED: u32 = 0x4C49_4E4B;
/// An embedded profile.
pub const PROFILE_EMBEDDED: u32 = 0x4D42_4544;
/// The tag written for a color space this library does not know (not one of
/// the defined tags).
pub const UNKNOWN_COLORSPACE_TAG: u32 = 0xFFFF_FFFE;

/// The endpoints stored as the 9 words from `off` on.
pub open spec fn endpoints_at(a: Seq<u8>, off: int) -> CIEXYZTRIPLE {
    CIEXYZTRIPLE {
        red: CIEXYZ { x: le32(a, off), y: le32(a, off + 4), z: le32(a, off + 8) },
        green: CIEXYZ { x: le32(a, off + 12), y: le32(a, off + 16), z: le32(a, off + 20) },
        blue: CIEXYZ { x: le32(a, off + 24), y: le32(a, off + 28), z: le32(a, off + 32) },
    }
}

/// The 9 words the endpoints are stored as.
pub open spec fn endpoint_words(e: CIEXYZTRIPLE) -> Seq<u32> {
    seq![e.red.x, e.red.y, e.red.z, e.green.x, e.green.y, e.green.z, e.blue.x, e.blue.y, e.blue.z]
}

/// What 52 stored color space bytes mean: a tag word, 9 endpoint words and 3
/// gamma words (the last 12 only kept for calibrated and unknown tags).
pub open spec fn colorspace_from_bytes(a: Seq<u8>) -> BmpColorspace {
    let tag = le32(a, 0);
    if tag == LCS_CALIBRATED_RGB {
        BmpColorspace::Calibrated {
            endpoints: endpoints_at(a, 4),
            gamma_red: le32(a, 40),
            gamma_green: le32(a, 44),
            gamma_blue: le32(a, 48),
        }
    } else if tag == LCS_SRGB {
        BmpColorspace::Srgb
    } else if tag == LCS_WINDOWS_COLOR_SPACE {
        BmpColorspace::WindowsDefault
    } else if tag == PROFILE_LINKED {
        BmpColorspace::LinkedProfile
    } else if tag == PROFILE_EMBEDDED {
        BmpColorspace::EmbeddedProfile
    } else {
        BmpColorspace::Unknown {
            endpoints: endpoints_at(a, 4),
            gamma_red: le32(a, 40),
            gamma_green: le32(a, 44),
            gamma_blue: le32(a, 48),
        }
    }
}

/// The 13 words a color space is written as (zeros after the tag for the
/// named ones).
pub open spec fn colorspace_words(c: BmpColorspace) -> Seq<u32> {
    match c {
        BmpColorspace::Srgb => seq![LCS_SRGB] + Seq::new(12, |i: int| 0u32),
        BmpColorspace::WindowsDefault => seq![LCS_WINDOWS_COLOR_SPACE] + Seq::new(12, |i: int| 0u32),
        BmpColorspace::LinkedProfile => seq![PROFILE_LINKED] + Seq::new(12, |i: int| 0u32),
        BmpColorspace::EmbeddedProfile => seq![PROFILE_EMBEDDED] + Seq::new(12, |i: int| 0u32),
        BmpColorspace::Calibrated { endpoints, gamma_red, gamma_green, gamma_blue } => seq![LCS_CALIBRATED_RGB]
            + endpoint_words(endpoints) + seq![gamma_red, gamma_green, gamma_blue],
        BmpColorspace::Unknown { endpoints, gamma_red, gamma_green, gamma_blue } => seq![UNKNOWN_COLORSPACE_TAG]
            + endpoint_words(endpoints) + seq![gamma_red, gamma_green, gamma_blue],
    }
}

fn endpoints_parse(b: &[u8], off: usize) -> (e: CIEXYZTRIPLE)
    requires
        off + 36 <= b@.len(),
        off <= 128,
    ensures
        e == endpoints_at(b@, off as int),
{
    CIEXYZTRIPLE {
        red: CIEXYZ { x: read_u32_le(b, off), y: read_u32_le(b, off + 4), z: read_u32_le(b, off + 8) },
        green: CIEXYZ { x: read_u32_le(b, off + 12), y: read_u32_le(b, off + 16), z: read_u32_le(b, off + 20) },
        blue: CIEXYZ { x: read_u32_le(b, off + 24), y: read_u32_le(b, off + 28), z: read_u32_le(b, off + 32) },
    }
}

fn colorspace_parse(b: &[u8], off: usize) -> (c: BmpColorspace)
    requires
        off + 52 <= b@.len(),
        off <= 64,
    ensures
        c == colorspace_from_bytes(b@.subrange(off as int, off + 52)),
{
    let ghost a = b@.subrange(off as int, off + 52);
    let tag = read_u32_le(b, off);
    let endpoints = endpoints_parse(b, off + 4);
    let gamma_red = read_u32_le(b, off + 40);
    let gamma_green = read_u32_le(b, off + 44);
    let gamma_blue = read_u32_le(b, off + 48);
    assert(le32(a, 0) == tag);
    assert(endpoints_at(a, 4) == endpoints);
    assert(le32(a, 40) == gamma_red && le32(a, 44) == gamma_green && le32(a, 48) == gamma_blue);
    if tag == LCS_CALIBRATED_RGB {
        BmpColorspace::Calibrated { endpoints, gamma_red, gamma_green, gamma_blue }
    } else if tag == LCS_SRGB {
        BmpColorspace::Srgb
    } else if tag == LCS_WINDOWS_COLOR_SPACE {
        BmpColorspace::WindowsDefault
    } else if tag == PROFILE_LINKED {
        BmpColorspace::LinkedProfile
    } else if tag == PROFILE_EMBEDDED {
        BmpColorspace::EmbeddedProfile
    } else {
        BmpColorspace::Unknown { endpoints, gamma_red, gamma_green, gamma_blue }
    }
}

fn colorspace_words_exec(c: BmpColorspace) -> (w: [u32; 13])
    ensures
        w@ == colorspace_words(c),
{
    let (tag, e, gr, gg, gb): (u32, CIEXYZTRIPLE, u32, u32, u32) = match c {
        BmpColorspace::Srgb => (LCS_SRGB, CIEXYZTRIPLE { red: CIEXYZ { x: 0, y: 0, z: 0 }, green: CIEXYZ { x: 0, y: 0, z: 0 }, blue: CIEXYZ { x: 0, y: 0, z: 0 } }, 0, 0, 0),
        BmpColorspace::WindowsDefault => (LCS_WINDOWS_COLOR_SPACE, CIEXYZTRIPLE { red: CIEXYZ { x: 0, y: 0, z: 0 }, green: CIEXYZ { x: 0, y: 0, z: 0 }, blue: CIEXYZ { x: 0, y: 0, z: 0 } }, 0, 0, 0),
        BmpColorspace::LinkedProfile => (PROFILE_LINKED, CIEXYZTRIPLE { red: CIEXYZ { x: 0, y: 0, z: 0 }, green: CIEXYZ { x: 0, y: 0, z: 0 }, blue: CIEXYZ { x: 0, y: 0, z: 0 } }, 0, 0, 0),
        BmpColorspace::EmbeddedProfile => (PROFILE_EMBEDDED, CIEXYZTRIPLE { red: CIEXYZ { x: 0, y: 0, z: 0 }, green: CIEXYZ { x: 0, y: 0, z: 0 }, blue: CIEXYZ { x: 0, y: 0, z: 0 } }, 0, 0, 0),
        BmpColorspace::Calibrated { endpoints, gamma_red, gamma_green, gamma_blue } => (LCS_CALIBRATED_RGB, endpoints, gamma_red, gamma_green, gamma_blue),
        BmpColorspace::Unknown { endpoints, gamma_red, gamma_green, gamma_blue } => (UNKNOWN_COLORSPACE_TAG, endpoints, gamma_red, gamma_green, gamma_blue),
    };
    let w = [tag, e.red.x, e.red.y, e.red.z, e.green.x, e.green.y, e.green.z, e.blue.x, e.blue.y, e.blue.z, gr, gg, gb];
    assert(w@ =~= colorspace_words(c));
    w
}

fn u32s_array_13(w: [u32; 13]) -> (a: [u8; 52])
    ensures
        a@ == u32s_bytes(w@),
{
    let b0 = u32_le_bytes(w[0]);
    let b1 = u32_le_bytes(w[1]);
    let b2 = u32_le_bytes(w[2]);
    let b3 = u32_le_bytes(w[3]);
    let b4 = u32_le_bytes(w[4]);
    let b5 = u32_le_bytes(w[5]);
    let b6 = u32_le_bytes(w[6]);
    let b7 = u32_le_bytes(w[7]);
    let b8 = u32_le_bytes(w[8]);
    let b9 = u32_le_bytes(w[9]);
    let b10 = u32_le_bytes(w[10]);
    let b11 = u32_le_bytes(w[11]);
    let b12 = u32_le_bytes(w[12]);
    let a = [b0[0], b0[1], b0[2], b0[3], b1[0], b1[1], b1[2], b1[3], b2[0], b2[1], b2[2], b2[3], b3[0], b3[1], b3[2], b3[3], b4[0], b4[1], b4[2], b4[3], b5[0], b5[1], b5[2], b5[3], b6[0], b6[1], b6[2], b6[3], b7[0], b7[1], b7[2], b7[3], b8[0], b8[1], b8[2], b8[3], b9[0], b9[1], b9[2], b9[3], b10[0], b10[1], b10[2], b10[3], b11[0], b11[1], b11[2], b11[3], b12[0], b12[1], b12[2], b12[3]];
    assert(a@ =~= u32s_bytes(w@));
    a
}

impl From<[u8; 52]> for BmpColorspace {
    fn from(a: [u8; 52]) -> (c: BmpColorspace)
        ensures
            c == colorspace_from_bytes(a@),
    {
        let c = colorspace_parse(a.as_slice(), 0);
        assert(a@.subrange(0, 52) =~= a@);
        c
    }
}

impl vstd::std_specs::convert::FromSpecImpl<[u8; 52]> for BmpColorspace {
    open spec fn obeys_from_spec() -> bool {
        true
    }

    open spec fn from_spec(a: [u8; 52]) -> BmpColorspace {
        colorspace_from_bytes(a@)
    }
}

impl From<BmpColorspace> for [u8; 52] {
    fn from(c: BmpColorspace) -> (a: [u8; 52])
        ensures
            a@ == u32s_bytes(colorspace_words(c)),
    {
        u32s_array_13(colorspace_words_exec(c))
    }
}

impl vstd::std_specs::convert::FromSpecImpl<BmpColorspace> for [u8; 52] {
    open spec fn obeys_from_spec() -> bool {
        true
    }

    open spec fn from_spec(c: BmpColorspace) -> [u8; 52] {
        choose|a: [u8; 52]| a@ == u32s_bytes(colorspace_words(c))
    }
}

/// A color space written to bytes reads back as itself (an unknown one keeps
/// its endpoints and gammas under a tag that is not a known one).
pub proof fn lemma_colorspace_round_trip(c: BmpColorspace)
    ensures
        colorspace_from_bytes(u32s_bytes(colorspace_words(c))) == c,
{
    let w = colorspace_words(c);
    let s = u32s_bytes(w);
    assert(w.len() == 13);
    assert(s.subrange(0, 52) =~= s);
    lemma_u32s_read_back(s, 0, w);
    assert(le32(s, 0) == w[0]);
    assert(le32(s, 4) == w[1] && le32(s, 8) == w[2] && le32(s, 12) == w[3]);
    assert(le32(s, 16) == w[4] && le32(s, 20) == w[5] && le32(s, 24) == w[6]);
    assert(le32(s, 28) == w[7] && le32(s, 32) == w[8] && le32(s, 36) == w[9]);
    assert(le32(s, 40) == w[10] && le32(s, 44) == w[11] && le32(s, 48) == w[12]);
    lemma_colorspace_from_words(s, c);
}

proof fn lemma_colorspace_from_words(s: Seq<u8>, c: BmpColorspace)
    requires
        forall|k: int| 0 <= k < 13 ==> le32(s, 4 * k) == #[trigger] colorspace_words(c)[k],
    ensures
        colorspace_from_bytes(s) == c,
{
    let w = colorspace_words(c);
    assert(le32(s, 0) == w[0]);
    match c {
        BmpColorspace::Calibrated { endpoints, .. } | BmpColorspace::Unknown { endpoints, .. } => {
            assert(le32(s, 4 * 1int) == w[1] && le32(s, 4 * 2int) == w[2] && le32(s, 4 * 3int) == w[3]);
            assert(le32(s, 4 * 4int) == w[4] && le32(s, 4 * 5int) == w[5] && le32(s, 4 * 6int) == w[6]);
            assert(le32(s, 4 * 7int) == w[7] && le32(s, 4 * 8int) == w[8] && le32(s, 4 * 9int) == w[9]);
            assert(le32(s, 4 * 10int) == w[10] && le32(s, 4 * 11int) == w[11] && le32(s, 4 * 12int) == w[12]);
            assert(endpoints_at(s, 4) == endpoints);
        },
        _ => {},
    }
}

/// Info header version 4 (the 108 byte `BITMAPV4HEADER`): V3 with a color
/// space.
#[derive(Debug, Clone, Copy, PartialEq, Eq, Structural)]
pub struct BmpInfoHeaderV4 {
    /// Image pixel width.
    pub width: i32,
    /// Image pixel height; positive means the origin is the bottom left,
    /// negative the top left.
    pub height: i32,
    /// Should be 1, 4, 8, 16, 24, or 32.
    pub bits_per_pixel: u16,
    /// The compression style of the image data.
    pub compression: BmpCompression,
    /// The number of bytes in the raw bitmap data (may be left out when the
    /// data is not compressed).
    pub image_byte_size: Option<u32>,
    /// Horizontal pixels per meter.
    pub h_ppm: i32,
    /// Vertical pixels per meter.
    pub v_ppm: i32,
    /// Palette length; when left out the full `2**N` palette is used (`N` the
    /// bit depth).
    pub palette_len: Option<u32>,
    /// The number of "important" colors; when left out, all are.
    pub important_colors: Option<u32>,
    /// Bit mask of where the red bits are located.
    pub red_mask: u32,
    /// Bit mask of where the green bits are located.
    pub green_mask: u32,
    /// Bit mask of where the blue bits are located.
    pub blue_mask: u32,
    /// Bit mask of where the alpha bits are located.
    pub alpha_mask: u32,
    /// The color space of the image.
    pub colorspace: BmpColorspace,
}

impl BmpInfoHeaderV4 {
    /// The optional fields that are given are not 0, as a stored header
    /// always reads.
    pub open spec fn fields_given_nonzero(self) -> bool {
        &&& given_nonzero_u32(self.image_byte_size)
        &&& given_nonzero_u32(self.palette_len)
        &&& given_nonzero_u32(self.important_colors)
    }

    /// Length of the palette: the stored length, or the length it implies
    /// when left out.
    pub fn palette_len(self) -> (n: usize)
        ensures
            n == implied_palette_len(self.palette_len, self.bits_per_pixel),
    {
        implied_palette_len_exec(self.palette_len, self.bits_per_pixel)
    }
}

/// What the 108 bytes `a` parse to: an unknown compression code is
/// refused first, then a size field other than 108.
pub open spec fn v4_from_bytes(a: Seq<u8>) -> Result<BmpInfoHeaderV4, BmpError> {
    match compression_of_code(le32(a, 16)) {
        Err(e) => Err(e),
        Ok(compression) => if le32(a, 0) != 108 {
            Err(BmpError::IncorrectSizeForThisInfoHeaderVersion)
        } else {
            Ok(BmpInfoHeaderV4 {
                width: le32_signed(a, 4),
                height: le32_signed(a, 8),
                bits_per_pixel: le16(a, 14),
                compression,
                image_byte_size: nonzero_u32(le32(a, 20)),
                h_ppm: le32_signed(a, 24),
                v_ppm: le32_signed(a, 28),
                palette_len: nonzero_u32(le32(a, 32)),
                important_colors: nonzero_u32(le32(a, 36)),
                red_mask: le32(a, 40),
                green_mask: le32(a, 44),
                blue_mask: le32(a, 48),
                alpha_mask: le32(a, 52),
                colorspace: colorspace_from_bytes(a.subrange(56, 108)),
            })
        },
    }
}

/// The words from byte 40 on that a header is written as.
pub open spec fn v4_tail_words(h: BmpInfoHeaderV4) -> Seq<u32> {
    seq![h.red_mask, h.green_mask, h.blue_mask, h.alpha_mask] + colorspace_words(h.colorspace)
}

/// The 108 bytes a header is written as: one color plane, and 40 in the
/// size field (the size of a V1 header).
pub open spec fn v4_to_bytes(h: BmpInfoHeaderV4) -> Seq<u8> {
    common_prefix_bytes(
        40,
        h.width,
        h.height,
        h.bits_per_pixel,
        h.compression,
        h.image_byte_size,
        h.h_ppm,
        h.v_ppm,
        h.palette_len,
        h.important_colors,
    ) + u32s_bytes(v4_tail_words(h))
}

impl TryFrom<[u8; 108]> for BmpInfoHeaderV4 {
    type Error = BmpError;

    fn try_from(a: [u8; 108]) -> (r: Result<BmpInfoHeaderV4, BmpError>) {
        let b = a.as_slice();
        let size = read_u32_le(b, 0);
        let width = read_u32_le(b, 4) as i32;
        let height = read_u32_le(b, 8) as i32;
        let bits_per_pixel = read_u16_le(b, 14);
        let compression = BmpCompression::try_from_u32(read_u32_le(b, 16))?;
        let image_byte_size = read_nonzero_u32(b, 20);
        let h_ppm = read_u32_le(b, 24) as i32;
        let v_ppm = read_u32_le(b, 28) as i32;
        let palette_len = read_nonzero_u32(b, 32);
        let important_colors = read_nonzero_u32(b, 36);
        let red_mask = read_u32_le(b, 40);
        let green_mask = read_u32_le(b, 44);
        let blue_mask = read_u32_le(b, 48);
        let alpha_mask = read_u32_le(b, 52);
        let colorspace = colorspace_parse(b, 56);
        if size != 108 {
            Err(BmpError::IncorrectSizeForThisInfoHeaderVersion)
        } else {
            Ok(BmpInfoHeaderV4 {
                width,
                height,
                bits_per_pixel,
                compression,
                image_byte_size,
                h_ppm,
                v_ppm,
                palette_len,
                important_colors,
                red_mask,
                green_mask,
                blue_mask,
                alpha_mask,
                colorspace,
            })
        }
    }
}

impl vstd::std_specs::convert::TryFromSpecImpl<[u8; 108]> for BmpInfoHeaderV4 {
    open spec fn obeys_try_from_spec() -> bool {
        true
    }

    open spec fn try_from_spec(a: [u8; 108]) -> Result<BmpInfoHeaderV4, BmpError> {
        v4_from_bytes(a@)
    }
}

fn u32s_array_17(w: [u32; 17]) -> (a: [u8; 68])
    ensures
        a@ == u32s_bytes(w@),
{
    let b0 = u32_le_bytes(w[0]);
    let b1 = u32_le_bytes(w[1]);
    let b2 = u32_le_bytes(w[2]);
    let b3 = u32_le_bytes(w[3]);
    let b4 = u32_le_bytes(w[4]);
    let b5 = u32_le_bytes(w[5]);
    let b6 = u32_le_bytes(w[6]);
    let b7 = u32_le_bytes(w[7]);
    let b8 = u32_le_bytes(w[8]);
    let b9 = u32_le_bytes(w[9]);
    let b10 = u32_le_bytes(w[10]);
    let b11 = u32_le_bytes(w[11]);
    let b12 = u32_le_bytes(w[12]);
    let b13 = u32_le_bytes(w[13]);
    let b14 = u32_le_bytes(w[14]);
    let b15 = u32_le_bytes(w[15]);
    let b16 = u32_le_bytes(w[16]);
    let a = [b0[0], b0[1], b0[2], b0[3], b1[0], b1[1], b1[2], b1[3], b2[0], b2[1], b2[2], b2[3], b3[0], b3[1], b3[2], b3[3], b4[0], b4[1], b4[2], b4[3], b5[0], b5[1], b5[2], b5[3], b6[0], b6[1], b6[2], b6[3], b7[0], b7[1], b7[2], b7[3], b8[0], b8[1], b8[2], b8[3], b9[0], b9[1], b9[2], b9[3], b10[0], b10[1], b10[2], b10[3], b11[0], b11[1], b11[2], b11[3], b12[0], b12[1], b12[2], b12[3], b13[0], b13[1], b13[2], b13[3], b14[0], b14[1], b14[2], b14[3], b15[0], b15[1], b15[2], b15[3], b16[0], b16[1], b16[2], b16[3]];
    assert(a@ =~= u32s_bytes(w@));
    a
}

impl From<BmpInfoHeaderV4> for [u8; 108] {
    #[verifier::rlimit(30)]
    #[verifier::spinoff_prover]
    fn from(h: BmpInfoHeaderV4) -> (a: [u8; 108])
        ensures
            a@ == v4_to_bytes(h),
    {
        let p = common_prefix_array(
        40,
            h.width,
            h.height,
            h.bits_per_pixel,
            h.compression,
            h.image_byte_size,
            h.h_ppm,
            h.v_ppm,
            h.palette_len,
            h.important_colors,
        );
        let c = colorspace_words_exec(h.colorspace);
        let w = [h.red_mask, h.green_mask, h.blue_mask, h.alpha_mask, c[0], c[1], c[2], c[3], c[4], c[5], c[6], c[7], c[8], c[9], c[10], c[11], c[12]];
        assert(w@ =~= v4_tail_words(h));
        let t = u32s_array_17(w);
        let a = [p[0], p[1], p[2], p[3], p[4], p[5], p[6], p[7], p[8], p[9], p[10], p[11], p[12], p[13], p[14], p[15], p[16], p[17], p[18], p[19], p[20], p[21], p[22], p[23], p[24], p[25], p[26], p[27], p[28], p[29], p[30], p[31], p[32], p[33], p[34], p[35], p[36], p[37], p[38], p[39], t[0], t[1], t[2], t[3], t[4], t[5], t[6], t[7], t[8], t[9], t[10], t[11], t[12], t[13], t[14], t[15], t[16], t[17], t[18], t[19], t[20], t[21], t[22], t[23], t[24], t[25], t[26], t[27], t[28], t[29], t[30], t[31], t[32], t[33], t[34], t[35], t[36], t[37], t[38], t[39], t[40], t[41], t[42], t[43], t[44], t[45], t[46], t[47], t[48], t[49], t[50], t[51], t[52], t[53], t[54], t[55], t[56], t[57], t[58], t[59], t[60], t[61], t[62], t[63], t[64], t[65], t[66], t[67]];
        assert(a@ =~= v4_to_bytes(h));
        a
    }
}

impl vstd::std_specs::convert::FromSpecImpl<BmpInfoHeaderV4> for [u8; 108] {
    open spec fn obeys_from_spec() -> bool {
        true
    }

    open spec fn from_spec(h: BmpInfoHeaderV4) -> [u8; 108] {
        choose|a: [u8; 108]| a@ == v4_to_bytes(h)
    }
}

/// Everything but the size field written for a V4 header parses back to the
/// header; the size field itself is written as 40, so a written header is only
/// read back once its size field says 108.
#[verifier::rlimit(50)]
#[verifier::spinoff_prover]
pub proof fn lemma_v4_round_trip(h: BmpInfoHeaderV4)
    requires
        h.fields_given_nonzero(),
    ensures
        le32(v4_to_bytes(h), 0) == 40,
        v4_from_bytes(le32_bytes(108) + v4_to_bytes(h).subrange(4, 108)) == Ok::<BmpInfoHeaderV4, BmpError>(h),
{
    let s = v4_to_bytes(h);
    let p = common_prefix_bytes(
        40,
        h.width,
        h.height,
        h.bits_per_pixel,
        h.compression,
        h.image_byte_size,
        h.h_ppm,
        h.v_ppm,
        h.palette_len,
        h.important_colors,
    );
    let m = v4_tail_words(h);
    let q = u32s_bytes(m);
    assert(p.len() == 40);
    assert(q.len() == 68);
    lemma_concat_parts(p, q);
    lemma_common_prefix_read_back(
        s,
        40,
        h.width,
        h.height,
        h.bits_per_pixel,
        h.compression,
        h.image_byte_size,
        h.h_ppm,
        h.v_ppm,
        h.palette_len,
        h.important_colors,
    );
    let s2 = le32_bytes(108) + s.subrange(4, 108);
    lemma_prefix_size_swap(
        s,
        40,
        108,
        h.width,
        h.height,
        h.bits_per_pixel,
        h.compression,
        h.image_byte_size,
        h.h_ppm,
        h.v_ppm,
        h.palette_len,
        h.important_colors,
    );
    lemma_common_prefix_read_back(
        s2,
        108,
        h.width,
        h.height,
        h.bits_per_pixel,
        h.compression,
        h.image_byte_size,
        h.h_ppm,
        h.v_ppm,
        h.palette_len,
        h.important_colors,
    );
    assert forall|k: int| 0 <= k < m.len() implies le32(s2, 40 + 4 * k) == #[trigger] m[k] by {
        assert(s2.subrange(40, 108) =~= q);
        lemma_u32s_read_back(s2, 40, m);
    }
    let cs = s2.subrange(56, 108);
    assert(colorspace_from_bytes(cs) == h.colorspace) by {
        assert forall|k: int| 0 <= k < 13 implies le32(cs, 4 * k) == #[trigger] colorspace_words(h.colorspace)[k] by {
            assert(le32(s2, 40 + 4 * (k + 4)) == m[k + 4]);
            assert(cs[4 * k] == s2[56 + 4 * k] && cs[4 * k + 1] == s2[56 + 4 * k + 1]);
            assert(cs[4 * k + 2] == s2[56 + 4 * k + 2] && cs[4 * k + 3] == s2[56 + 4 * k + 3]);
        }
        lemma_colorspace_from_words(cs, h.colorspace);
    }
    v4_fields(s2, h);
}

/// Info header version 5 (the 124 byte `BITMAPV5HEADER`): V4 with an sRGB
/// intent and color profile data.
#[derive(Debug, Clone, Copy, PartialEq, Eq, Structural)]
pub struct BmpInfoHeaderV5 {
    /// Image pixel width.
    pub width: i32,
    /// Image pixel height; positive means the origin is the bottom left,
    /// negative the top left.
    pub height: i32,
    /// Should be 1, 4, 8, 16, 24, or 32.
    pub bits_per_pixel: u16,
    /// The compression style of the image data.
    pub compression: BmpCompression,
    /// The number of bytes in the raw bitmap data (may be left out when the
    /// data is not compressed).
    pub image_byte_size: Option<u32>,
    /// Horizontal pixels per meter.
    pub h_ppm: i32,
    /// Vertical pixels per meter.
    pub v_ppm: i32,
    /// Palette length; when left out the full `2**N` palette is used (`N` the
    /// bit depth).
    pub palette_len: Option<u32>,
    /// The number of "important" colors; when left out, all are.
    pub important_colors: Option<u32>,
    /// Bit mask of where the red bits are located.
    pub red_mask: u32,
    /// Bit mask of where the green bits are located.
    pub green_mask: u32,
    /// Bit mask of where the blue bits are located.
    pub blue_mask: u32,
    /// Bit mask of where the alpha bits are located.
    pub alpha_mask: u32,
    /// The color space of the image.
    pub colorspace: BmpColorspace,
    /// The sRGB intent, if any.
    pub srgb_intent: Option<sRGBIntent>,
    /// Offset of the color profile data.
    pub profile_data: u32,
    /// Size of the embedded color profile.
    pub embedded_profile_size: u32,
}

impl BmpInfoHeaderV5 {
    /// The optional fields that are given are not 0, as a stored header
    /// always reads.
    pub open spec fn fields_given_nonzero(self) -> bool {
        &&& given_nonzero_u32(self.image_byte_size)
        &&& given_nonzero_u32(self.palette_len)
        &&& given_nonzero_u32(self.important_colors)
    }

    /// Length of the palette: the stored length, or the length it implies
    /// when left out.
    pub fn palette_len(self) -> (n: usize)
        ensures
            n == implied_palette_len(self.palette_len, self.bits_per_pixel),
    {
        implied_palette_len_exec(self.palette_len, self.bits_per_pixel)
    }
}

/// What the 124 bytes `a` parse to: an unknown compression code is
/// refused first, then a size field other than 124.
pub open spec fn v5_from_bytes(a: Seq<u8>) -> Result<BmpInfoHeaderV5, BmpError> {
    match compression_of_code(le32(a, 16)) {
        Err(e) => Err(e),
        Ok(compression) => if le32(a, 0) != 124 {
            Err(BmpError::IncorrectSizeForThisInfoHeaderVersion)
        } else {
            Ok(BmpInfoHeaderV5 {
                width: le32_signed(a, 4),
                height: le32_signed(a, 8),
                bits_per_pixel: le16(a, 14),
                compression,
                image_byte_size: nonzero_u32(le32(a, 20)),
                h_ppm: le32_signed(a, 24),
                v_ppm: le32_signed(a, 28),
                palette_len: nonzero_u32(le32(a, 32)),
                important_colors: nonzero_u32(le32(a, 36)),
                red_mask: le32(a, 40),
                green_mask: le32(a, 44),
                blue_mask: le32(a, 48),
                alpha_mask: le32(a, 52),
                colorspace: colorspace_from_bytes(a.subrange(56, 108)),
                srgb_intent: intent_of_code(le32(a, 108)),
                profile_data: le32(a, 112),
                embedded_profile_size: le32(a, 116),
            })
        },
    }
}

/// The words from byte 40 on that a header is written as.
pub open spec fn v5_tail_words(h: BmpInfoHeaderV5) -> Seq<u32> {
    seq![h.red_mask, h.green_mask, h.blue_mask, h.alpha_mask] + colorspace_words(h.colorspace) + seq![intent_word(h.srgb_intent), h.profile_data, h.embedded_profile_size, 0]
}

/// The 124 bytes a header is written as: one color plane, and 40 in the
/// size field (the size of a V1 header).
pub open spec fn v5_to_bytes(h: BmpInfoHeaderV5) -> Seq<u8> {
    common_prefix_bytes(
        40,
        h.width,
        h.height,
        h.bits_per_pixel,
        h.compression,
        h.image_byte_size,
        h.h_ppm,
        h.v_ppm,
        h.palette_len,
        h.important_colors,
    ) + u32s_bytes(v5_tail_words(h))
}

impl TryFrom<[u8; 124]> for BmpInfoHeaderV5 {
    type Error = BmpError;

    fn try_from(a: [u8; 124]) -> (r: Result<BmpInfoHeaderV5, BmpError>) {
        let b = a.as_slice();
        let size = read_u32_le(b, 0);
        let width = read_u32_le(b, 4) as i32;
        let height = read_u32_le(b, 8) as i32;
        let bits_per_pixel = read_u16_le(b, 14);
        let compression = BmpCompression::try_from_u32(read_u32_le(b, 16))?;
        let image_byte_size = read_nonzero_u32(b, 20);
        let h_ppm = read_u32_le(b, 24) as i32;
        let v_ppm = read_u32_le(b, 28) as i32;
        let palette_len = read_nonzero_u32(b, 32);
        let important_colors = read_nonzero_u32(b, 36);
        let red_mask = read_u32_le(b, 40);
        let green_mask = read_u32_le(b, 44);
        let blue_mask = read_u32_le(b, 48);
        let alpha_mask = read_u32_le(b, 52);
        let colorspace = colorspace_parse(b, 56);
        let srgb_intent = intent_exec(read_u32_le(b, 108));
        let profile_data = read_u32_le(b, 112);
        let embedded_profile_size = read_u32_le(b, 116);
        if size != 124 {
            Err(BmpError::IncorrectSizeForThisInfoHeaderVersion)
        } else {
            Ok(BmpInfoHeaderV5 {
                width,
                height,
                bits_per_pixel,
                compression,
                image_byte_size,
                h_ppm,
                v_ppm,
                palette_len,
                important_colors,
                red_mask,
                green_mask,
                blue_mask,
                alpha_mask,
                colorspace,
                srgb_intent,
                profile_data,
                embedded_profile_size,
            })
        }
    }
}

impl vstd::std_specs::convert::TryFromSpecImpl<[u8; 124]> for BmpInfoHeaderV5 {
    open spec fn obeys_try_from_spec() -> bool {
        true
    }

    open spec fn try_from_spec(a: [u8; 124]) -> Result<BmpInfoHeaderV5, BmpError> {
        v5_from_bytes(a@)
    }
}

fn u32s_array_21(w: [u32; 21]) -> (a: [u8; 84])
    ensures
        a@ == u32s_bytes(w@),
{
    let b0 = u32_le_bytes(w[0]);
    let b1 = u32_le_bytes(w[1]);
    let b2 = u32_le_bytes(w[2]);
    let b3 = u32_le_bytes(w[3]);
    let b4 = u32_le_bytes(w[4]);
    let b5 = u32_le_bytes(w[5]);
    let b6 = u32_le_bytes(w[6]);
    let b7 = u32_le_bytes(w[7]);
    let b8 = u32_le_bytes(w[8]);
    let b9 = u32_le_bytes(w[9]);
    let b10 = u32_le_bytes(w[10]);
    let b11 = u32_le_bytes(w[11]);
    let b12 = u32_le_bytes(w[12]);
    let b13 = u32_le_bytes(w[13]);
    let b14 = u32_le_bytes(w[14]);
    let b15 = u32_le_bytes(w[15]);
    let b16 = u32_le_bytes(w[16]);
    let b17 = u32_le_bytes(w[17]);
    let b18 = u32_le_bytes(w[18]);
    let b19 = u32_le_bytes(w[19]);
    let b20 = u32_le_bytes(w[20]);
    let a = [b0[0], b0[1], b0[2], b0[3], b1[0], b1[1], b1[2], b1[3], b2[0], b2[1], b2[2], b2[3], b3[0], b3[1], b3[2], b3[3], b4[0], b4[1], b4[2], b4[3], b5[0], b5[1], b5[2], b5[3], b6[0], b6[1], b6[2], b6[3], b7[0], b7[1], b7[2], b7[3], b8[0], b8[1], b8[2], b8[3], b9[0], b9[1], b9[2], b9[3], b10[0], b10[1], b10[2], b10[3], b11[0], b11[1], b11[2], b11[3], b12[0], b12[1], b12[2], b12[3], b13[0], b13[1], b13[2], b13[3], b14[0], b14[1], b14[2], b14[3], b15[0], b15[1], b15[2], b15[3], b16[0], b16[1], b16[2], b16[3], b17[0], b17[1], b17[2], b17[3], b18[0], b18[1], b18[2], b18[3], b19[0], b19[1], b19[2], b19[3], b20[0], b20[1], b20[2], b20[3]];
    assert(a@ =~= u32s_bytes(w@));
    a
}

impl From<BmpInfoHeaderV5> for [u8; 124] {
    #[verifier::rlimit(30)]
    #[verifier::spinoff_prover]
    fn from(h: BmpInfoHeaderV5) -> (a: [u8; 124])
        ensures
            a@ == v5_to_bytes(h),
    {
        let p = common_prefix_array(
        40,
            h.width,
            h.height,
            h.bits_per_pixel,
            h.compression,
            h.image_byte_size,
            h.h_ppm,
            h.v_ppm,
            h.palette_len,
            h.important_colors,
        );
        let c = colorspace_words_exec(h.colorspace);
        let w = [h.red_mask, h.green_mask, h.blue_mask, h.alpha_mask, c[0], c[1], c[2], c[3], c[4], c[5], c[6], c[7], c[8], c[9], c[10], c[11], c[12], intent_word_exec(h.srgb_intent), h.profile_data, h.embedded_profile_size, 0];
        assert(w@ =~= v5_tail_words(h));
        let t = u32s_array_21(w);
        let a = [p[0], p[1], p[2], p[3], p[4], p[5], p[6], p[7], p[8], p[9], p[10], p[11], p[12], p[13], p[14], p[15], p[16], p[17], p[18], p[19], p[20], p[21], p[22], p[23], p[24], p[25], p[26], p[27], p[28], p[29], p[30], p[31], p[32], p[33], p[34], p[35], p[36], p[37], p[38], p[39], t[0], t[1], t[2], t[3], t[4], t[5], t[6], t[7], t[8], t[9], t[10], t[11], t[12], t[13], t[14], t[15], t[16], t[17], t[18], t[19], t[20], t[21], t[22], t[23], t[24], t[25], t[26], t[27], t[28], t[29], t[30], t[31], t[32], t[33], t[34], t[35], t[36], t[37], t[38], t[39], t[40], t[41], t[42], t[43], t[44], t[45], t[46], t[47], t[48], t[49], t[50], t[51], t[52], t[53], t[54], t[55], t[56], t[57], t[58], t[59], t[60], t[61], t[62], t[63], t[64], t[65], t[66], t[67], t[68], t[69], t[70], t[71], t[72], t[73], t[74], t[75], t[76], t[77], t[78], t[79], t[80], t[81], t[82], t[83]];
        assert(a@ =~= v5_to_bytes(h));
        a
    }
}

impl vstd::std_specs::convert::FromSpecImpl<BmpInfoHeaderV5> for [u8; 124] {
    open spec fn obeys_from_spec() -> bool {
        true
    }

    open spec fn from_spec(h: BmpInfoHeaderV5) -> [u8; 124] {
        choose|a: [u8; 124]| a@ == v5_to_bytes(h)
    }
}

/// Everything but the size field written for a V5 header with an sRGB intent
/// parses back to the header; the size field itself is written as 40, so a
/// written header is only read back once its size field says 124 (a header
/// without an intent is written with the absolute colorimetric one).
#[verifier::rlimit(50)]
#[verifier::spinoff_prover]
pub proof fn lemma_v5_round_trip(h: BmpInfoHeaderV5)
    requires
        h.fields_given_nonzero(),
        h.srgb_intent is Some,
    ensures
        le32(v5_to_bytes(h), 0) == 40,
        v5_from_bytes(le32_bytes(124) + v5_to_bytes(h).subrange(4, 124)) == Ok::<BmpInfoHeaderV5, BmpError>(h),
{
    let s = v5_to_bytes(h);
    let p = common_prefix_bytes(
        40,
        h.width,
        h.height,
        h.bits_per_pixel,
        h.compression,
        h.image_byte_size,
        h.h_ppm,
        h.v_ppm,
        h.palette_len,
        h.important_colors,
    );
    let m = v5_tail_words(h);
    let q = u32s_bytes(m);
    assert(p.len() == 40);
    assert(q.len() == 84);
    lemma_concat_parts(p, q);
    lemma_common_prefix_read_back(
        s,
        40,
        h.width,
        h.height,
        h.bits_per_pixel,
        h.compression,
        h.image_byte_size,
        h.h_ppm,
        h.v_ppm,
        h.palette_len,
        h.important_colors,
    );
    let s2 = le32_bytes(124) + s.subrange(4, 124);
    lemma_prefix_size_swap(
        s,
        40,
        124,
        h.width,
        h.height,
        h.bits_per_pixel,
        h.compression,
        h.image_byte_size,
        h.h_ppm,
        h.v_ppm,
        h.palette_len,
        h.important_colors,
    );
    lemma_common_prefix_read_back(
        s2,
        124,
        h.width,
        h.height,
        h.bits_per_pixel,
        h.compression,
        h.image_byte_size,
        h.h_ppm,
        h.v_ppm,
        h.palette_len,
        h.important_colors,
    );
    assert forall|k: int| 0 <= k < m.len() implies le32(s2, 40 + 4 * k) == #[trigger] m[k] by {
        assert(s2.subrange(40, 124) =~= q);
        lemma_u32s_read_back(s2, 40, m);
    }
    let cs = s2.subrange(56, 108);
    assert(colorspace_from_bytes(cs) == h.colorspace) by {
        assert forall|k: int| 0 <= k < 13 implies le32(cs, 4 * k) == #[trigger] colorspace_words(h.colorspace)[k] by {
            assert(le32(s2, 40 + 4 * (k + 4)) == m[k + 4]);
            assert(cs[4 * k] == s2[56 + 4 * k] && cs[4 * k + 1] == s2[56 + 4 * k + 1]);
            assert(cs[4 * k + 2] == s2[56 + 4 * k + 2] && cs[4 * k + 3] == s2[56 + 4 * k + 3]);
        }
        lemma_colorspace_from_words(cs, h.colorspace);
    }
    v5_fields(s2, h);
}

proof fn v4_fields(s: Seq<u8>, h: BmpInfoHeaderV4)
    requires
        s.len() == 108,
        le32(s, 0) == 108,
        le32_signed(s, 4) == h.width,
        le32_signed(s, 8) == h.height,
        le16(s, 14) == h.bits_per_pixel,
        compression_of_code(le32(s, 16)) == Ok::<BmpCompression, BmpError>(h.compression),
        nonzero_u32(le32(s, 20)) == h.image_byte_size,
        le32_signed(s, 24) == h.h_ppm,
        le32_signed(s, 28) == h.v_ppm,
        nonzero_u32(le32(s, 32)) == h.palette_len,
        nonzero_u32(le32(s, 36)) == h.important_colors,
        forall|k: int| 0 <= k < v4_tail_words(h).len() ==> le32(s, 40 + 4 * k) == #[trigger] v4_tail_words(h)[k],
        colorspace_from_bytes(s.subrange(56, 108)) == h.colorspace,
    ensures
        v4_from_bytes(s) == Ok::<BmpInfoHeaderV4, BmpError>(h),
{
    let m = v4_tail_words(h);
    assert(le32(s, 40 + 4 * 0int) == m[0] && le32(s, 40 + 4 * 1int) == m[1]);
    assert(le32(s, 40 + 4 * 2int) == m[2] && le32(s, 40 + 4 * 3int) == m[3]);
}

proof fn v5_fields(s: Seq<u8>, h: BmpInfoHeaderV5)
    requires
        s.len() == 124,
        le32(s, 0) == 124,
        le32_signed(s, 4) == h.width,
        le32_signed(s, 8) == h.height,
        le16(s, 14) == h.bits_per_pixel,
        compression_of_code(le32(s, 16)) == Ok::<BmpCompression, BmpError>(h.compression),
        nonzero_u32(le32(s, 20)) == h.image_byte_size,
        le32_signed(s, 24) == h.h_ppm,
        le32_signed(s, 28) == h.v_ppm,
        nonzero_u32(le32(s, 32)) == h.palette_len,
        nonzero_u32(le32(s, 36)) == h.important_colors,
        forall|k: int| 0 <= k < v5_tail_words(h).len() ==> le32(s, 40 + 4 * k) == #[trigger] v5_tail_words(h)[k],
        colorspace_from_bytes(s.subrange(56, 108)) == h.colorspace,
        h.srgb_intent is Some,
    ensures
        v5_from_bytes(s) == Ok::<BmpInfoHeaderV5, BmpError>(h),
{
    let m = v5_tail_words(h);
    assert(le32(s, 40 + 4 * 0int) == m[0] && le32(s, 40 + 4 * 1int) == m[1]);
    assert(le32(s, 40 + 4 * 2int) == m[2] && le32(s, 40 + 4 * 3int) == m[3]);
    assert(le32(s, 40 + 4 * 17int) == m[17] && le32(s, 40 + 4 * 18int) == m[18]);
    assert(le32(s, 40 + 4 * 19int) == m[19]);
    assert(intent_of_code(intent_word(h.srgb_intent)) == h.srgb_intent);
}

/// The word an sRGB intent is written as (the absolute colorimetric one when
/// there is none).
pub open spec fn intent_word(i: Option<sRGBIntent>) -> u32 {
    match i {
        Some(sRGBIntent::AbsoluteColorimetric) => 8,
        Some(sRGBIntent::Perceptual) => 4,
        Some(sRGBIntent::RelativeColorimetric) => 2,
        Some(sRGBIntent::Saturation) => 1,
        None => 8,
    }
}

fn intent_word_exec(i: Option<sRGBIntent>) -> (v: u32)
    ensures
        v == intent_word(i),
{
    match i {
        Some(sRGBIntent::AbsoluteColorimetric) => 8,
        Some(sRGBIntent::Perceptual) => 4,
        Some(sRGBIntent::RelativeColorimetric) => 2,
        Some(sRGBIntent::Saturation) => 1,
        None => 8,
    }
}

fn intent_exec(v: u32) -> (r: Option<sRGBIntent>)
    ensures
        r == intent_of_code(v),
{
    if v == 8 {
        Some(sRGBIntent::AbsoluteColorimetric)
    } else if v == 1 {
        Some(sRGBIntent::Saturation)
    } else if v == 2 {
        Some(sRGBIntent::RelativeColorimetric)
    } else if v == 4 {
        Some(sRGBIntent::Perceptual)
    } else {
        None
    }
}

fn take_array_12(b: &[u8]) -> (a: [u8; 12])
    requires
        12 <= b@.len(),
    ensures
        a@ == b@.subrange(0, 12),
{
    let a = [b[0], b[1], b[2], b[3], b[4], b[5], b[6], b[7], b[8], b[9], b[10], b[11]];
    assert(a@ =~= b@.subrange(0, 12));
    a
}

fn take_array_16(b: &[u8]) -> (a: [u8; 16])
    requires
        16 <= b@.len(),
    ensures
        a@ == b@.subrange(0, 16),
{
    let a = [b[0], b[1], b[2], b[3], b[4], b[5], b[6], b[7], b[8], b[9], b[10], b[11], b[12], b[13], b[14], b[15]];
    assert(a@ =~= b@.subrange(0, 16));
    a
}

fn take_array_64(b: &[u8]) -> (a: [u8; 64])
    requires
        64 <= b@.len(),
    ensures
        a@ == b@.subrange(0, 64),
{
    let a = [b[0], b[1], b[2], b[3], b[4], b[5], b[6], b[7], b[8], b[9], b[10], b[11], b[12], b[13], b[14], b[15], b[16], b[17], b[18], b[19], b[20], b[21], b[22], b[23], b[24], b[25], b[26], b[27], b[28], b[29], b[30], b[31], b[32], b[33], b[34], b[35], b[36], b[37], b[38], b[39], b[40], b[41], b[42], b[43], b[44], b[45], b[46], b[47], b[48], b[49], b[50], b[51], b[52], b[53], b[54], b[55], b[56], b[57], b[58], b[59], b[60], b[61], b[62], b[63]];
    assert(a@ =~= b@.subrange(0, 64));
    a
}

fn take_array_40(b: &[u8]) -> (a: [u8; 40])
    requires
        40 <= b@.len(),
    ensures
        a@ == b@.subrange(0, 40),
{
    let a = [b[0], b[1], b[2], b[3], b[4], b[5], b[6], b[7], b[8], b[9], b[10], b[11], b[12], b[13], b[14], b[15], b[16], b[17], b[18], b[19], b[20], b[21], b[22], b[23], b[24], b[25], b[26], b[27], b[28], b[29], b[30], b[31], b[32], b[33], b[34], b[35], b[36], b[37], b[38], b[39]];
    assert(a@ =~= b@.subrange(0, 40));
    a
}

fn take_array_52(b: &[u8]) -> (a: [u8; 52])
    requires
        52 <= b@.len(),
    ensures
        a@ == b@.subrange(0, 52),
{
    let a = [b[0], b[1], b[2], b[3], b[4], b[5], b[6], b[7], b[8], b[9], b[10], b[11], b[12], b[13], b[14], b[15], b[16], b[17], b[18], b[19], b[20], b[21], b[22], b[23], b[24], b[25], b[26], b[27], b[28], b[29], b[30], b[31], b[32], b[33], b[34], b[35], b[36], b[37], b[38], b[39], b[40], b[41], b[42], b[43], b[44], b[45], b[46], b[47], b[48], b[49], b[50], b[51]];
    assert(a@ =~= b@.subrange(0, 52));
    a
}

fn take_array_56(b: &[u8]) -> (a: [u8; 56])
    requires
        56 <= b@.len(),
    ensures
        a@ == b@.subrange(0, 56),
{
    let a = [b[0], b[1], b[2], b[3], b[4], b[5], b[6], b[7], b[8], b[9], b[10], b[11], b[12], b[13], b[14], b[15], b[16], b[17], b[18], b[19], b[20], b[21], b[22], b[23], b[24], b[25], b[26], b[27], b[28], b[29], b[30], b[31], b[32], b[33], b[34], b[35], b[36], b[37], b[38], b[39], b[40], b[41], b[42], b[43], b[44], b[45], b[46], b[47], b[48], b[49], b[50], b[51], b[52], b[53], b[54], b[55]];
    assert(a@ =~= b@.subrange(0, 56));
    a
}

fn take_array_108(b: &[u8]) -> (a: [u8; 108])
    requires
        108 <= b@.len(),
    ensures
        a@ == b@.subrange(0, 108),
{
    let a = [b[0], b[1], b[2], b[3], b[4], b[5], b[6], b[7], b[8], b[9], b[10], b[11], b[12], b[13], b[14], b[15], b[16], b[17], b[18], b[19], b[20], b[21], b[22], b[23], b[24], b[25], b[26], b[27], b[28], b[29], b[30], b[31], b[32], b[33], b[34], b[35], b[36], b[37], b[38], b[39], b[40], b[41], b[42], b[43], b[44], b[45], b[46], b[47], b[48], b[49], b[50], b[51], b[52], b[53], b[54], b[55], b[56], b[57], b[58], b[59], b[60], b[61], b[62], b[63], b[64], b[65], b[66], b[67], b[68], b[69], b[70], b[71], b[72], b[73], b[74], b[75], b[76], b[77], b[78], b[79], b[80], b[81], b[82], b[83], b[84], b[85], b[86], b[87], b[88], b[89], b[90], b[91], b[92], b[93], b[94], b[95], b[96], b[97], b[98], b[99], b[100], b[101], b[102], b[103], b[104], b[105], b[106], b[107]];
    assert(a@ =~= b@.subrange(0, 108));
    a
}

fn take_array_124(b: &[u8]) -> (a: [u8; 124])
    requires
        124 <= b@.len(),
    ensures
        a@ == b@.subrange(0, 124),
{
    let a = [b[0], b[1], b[2], b[3], b[4], b[5], b[6], b[7], b[8], b[9], b[10], b[11], b[12], b[13], b[14], b[15], b[16], b[17], b[18], b[19], b[20], b[21], b[22], b[23], b[24], b[25], b[26], b[27], b[28], b[29], b[30], b[31], b[32], b[33], b[34], b[35], b[36], b[37], b[38], b[39], b[40], b[41], b[42], b[43], b[44], b[45], b[46], b[47], b[48], b[49], b[50], b[51], b[52], b[53], b[54], b[55], b[56], b[57], b[58], b[59], b[60], b[61], b[62], b[63], b[64], b[65], b[66], b[67], b[68], b[69], b[70], b[71], b[72], b[73], b[74], b[75], b[76], b[77], b[78], b[79], b[80], b[81], b[82], b[83], b[84], b[85], b[86], b[87], b[88], b[89], b[90], b[91], b[92], b[93], b[94], b[95], b[96], b[97], b[98], b[99], b[100], b[101], b[102], b[103], b[104], b[105], b[106], b[107], b[108], b[109], b[110], b[111], b[112], b[113], b[114], b[115], b[116], b[117], b[118], b[119], b[120], b[121], b[122], b[123]];
    assert(a@ =~= b@.subrange(0, 124));
    a
}

/// An info header of any version.
#[derive(Debug, Clone, Copy, PartialEq, Eq, Structural)]
pub enum BmpInfoHeader {
    Core(BmpInfoHeaderCore),
    Os22x(BmpInfoHeaderOs22x),
    V1(BmpInfoHeaderV1),
    V2(BmpInfoHeaderV2),
    V3(BmpInfoHeaderV3),
    V4(BmpInfoHeaderV4),
    V5(BmpInfoHeaderV5),
}

/// What the bytes `b` start with: the info header its size field names and
/// the number of bytes it takes. `InsufficientBytes` when fewer bytes remain
/// than the size field (or the field itself) needs, `UnknownHeaderLength` for
/// a size of no known version, otherwise what that version's parser says.
pub open spec fn info_header_from_bytes(b: Seq<u8>) -> Result<(BmpInfoHeader, int), BmpError> {
    if b.len() < 4 {
        Err(BmpError::InsufficientBytes)
    } else {
        let size = le32(b, 0);
        if size == 12 {
            if b.len() < 12 {
                Err(BmpError::InsufficientBytes)
            } else {
                match core_from_bytes(b.subrange(0, 12)) {
                    Ok(h) => Ok((BmpInfoHeader::Core(h), 12int)),
                    Err(e) => Err(e),
                }
            }
        } else if size == 16 {
            if b.len() < 16 {
                Err(BmpError::InsufficientBytes)
            } else {
                match os22x_short_from_bytes(b.subrange(0, 16)) {
                    Ok(h) => Ok((BmpInfoHeader::Os22x(h), 16int)),
                    Err(e) => Err(e),
                }
            }
        } else if size == 64 {
            if b.len() < 64 {
                Err(BmpError::InsufficientBytes)
            } else {
                match os22x_from_bytes(b.subrange(0, 64)) {
                    Ok(h) => Ok((BmpInfoHeader::Os22x(h), 64int)),
                    Err(e) => Err(e),
                }
            }
        } else if size == 40 {
            if b.len() < 40 {
                Err(BmpError::InsufficientBytes)
            } else {
                match v1_from_bytes(b.subrange(0, 40)) {
                    Ok(h) => Ok((BmpInfoHeader::V1(h), 40int)),
                    Err(e) => Err(e),
                }
            }
        } else if size == 52 {
            if b.len() < 52 {
                Err(BmpError::InsufficientBytes)
            } else {
                match v2_from_bytes(b.subrange(0, 52)) {
                    Ok(h) => Ok((BmpInfoHeader::V2(h), 52int)),
                    Err(e) => Err(e),
                }
            }
        } else if size == 56 {
            if b.len() < 56 {
                Err(BmpError::InsufficientBytes)
            } else {
                match v3_from_bytes(b.subrange(0, 56)) {
                    Ok(h) => Ok((BmpInfoHeader::V3(h), 56int)),
                    Err(e) => Err(e),
                }
            }
        } else if size == 108 {
            if b.len() < 108 {
                Err(BmpError::InsufficientBytes)
            } else {
                match v4_from_bytes(b.subrange(0, 108)) {
                    Ok(h) => Ok((BmpInfoHeader::V4(h), 108int)),
                    Err(e) => Err(e),
                }
            }
        } else if size == 124 {
            if b.len() < 124 {
                Err(BmpError::InsufficientBytes)
            } else {
                match v5_from_bytes(b.subrange(0, 124)) {
                    Ok(h) => Ok((BmpInfoHeader::V5(h), 124int)),
                    Err(e) => Err(e),
                }
            }
        } else {
            Err(BmpError::UnknownHeaderLength)
        }
    }
}

impl BmpInfoHeader {
    /// Splits an info header off the front of `bytes`: the header and the
    /// bytes after it (see `info_header_from_bytes`).
    pub fn try_from_bytes(bytes: &[u8]) -> (r: Result<(BmpInfoHeader, &[u8]), BmpError>)
        ensures
            match info_header_from_bytes(bytes@) {
                Ok((h, n)) => r is Ok && r->Ok_0.0 == h && r->Ok_0.1@ == bytes@.subrange(n, bytes@.len() as int),
                Err(e) => r == Err::<(BmpInfoHeader, &[u8]), BmpError>(e),
            },
    {
        if bytes.len() < 4 {
            return Err(BmpError::InsufficientBytes);
        }
        let size = read_u32_le(bytes, 0);
        if size == 12 {
            if bytes.len() < 12 {
                return Err(BmpError::InsufficientBytes);
            }
            let a = take_array_12(bytes);
            match BmpInfoHeaderCore::try_from(a) {
                Ok(h) => Ok((BmpInfoHeader::Core(h), vstd::slice::slice_subrange(bytes, 12, bytes.len()))),
                Err(e) => Err(e),
            }
        } else if size == 16 {
            if bytes.len() < 16 {
                return Err(BmpError::InsufficientBytes);
            }
            let a = take_array_16(bytes);
            match BmpInfoHeaderOs22x::try_from(a) {
                Ok(h) => Ok((BmpInfoHeader::Os22x(h), vstd::slice::slice_subrange(bytes, 16, bytes.len()))),
                Err(e) => Err(e),
            }
        } else if size == 64 {
            if bytes.len() < 64 {
                return Err(BmpError::InsufficientBytes);
            }
            let a = take_array_64(bytes);
            match BmpInfoHeaderOs22x::try_from(a) {
                Ok(h) => Ok((BmpInfoHeader::Os22x(h), vstd::slice::slice_subrange(bytes, 64, bytes.len()))),
                Err(e) => Err(e),
            }
        } else if size == 40 {
            if bytes.len() < 40 {
                return Err(BmpError::InsufficientBytes);
            }
            let a = take_array_40(bytes);
            match BmpInfoHeaderV1::try_from(a) {
                Ok(h) => Ok((BmpInfoHeader::V1(h), vstd::slice::slice_subrange(bytes, 40, bytes.len()))),
                Err(e) => Err(e),
            }
        } else if size == 52 {
            if bytes.len() < 52 {
                return Err(BmpError::InsufficientBytes);
            }
            let a = take_array_52(bytes);
            match BmpInfoHeaderV2::try_from(a) {
                Ok(h) => Ok((BmpInfoHeader::V2(h), vstd::slice::slice_subrange(bytes, 52, bytes.len()))),
                Err(e) => Err(e),
            }
        } else if size == 56 {
            if bytes.len() < 56 {
                return Err(BmpError::InsufficientBytes);
            }
            let a = take_array_56(bytes);
            match BmpInfoHeaderV3::try_from(a) {
                Ok(h) => Ok((BmpInfoHeader::V3(h), vstd::slice::slice_subrange(bytes, 56, bytes.len()))),
                Err(e) => Err(e),
            }
        } else if size == 108 {
            if bytes.len() < 108 {
                return Err(BmpError::InsufficientBytes);
            }
            let a = take_array_108(bytes);
            match BmpInfoHeaderV4::try_from(a) {
                Ok(h) => Ok((BmpInfoHeader::V4(h), vstd::slice::slice_subrange(bytes, 108, bytes.len()))),
                Err(e) => Err(e),
            }
        } else if size == 124 {
            if bytes.len() < 124 {
                return Err(BmpError::InsufficientBytes);
            }
            let a = take_array_124(bytes);
            match BmpInfoHeaderV5::try_from(a) {
                Ok(h) => Ok((BmpInfoHeader::V5(h), vstd::slice::slice_subrange(bytes, 124, bytes.len()))),
                Err(e) => Err(e),
            }
        } else {
            Err(BmpError::UnknownHeaderLength)
        }
    }

    /// The image width.
    pub open spec fn spec_width(self) -> i32 {
        match self {
            BmpInfoHeader::Core(h) => h.width as i32,
            BmpInfoHeader::Os22x(h) => h.width,
            BmpInfoHeader::V1(h) => h.width,
            BmpInfoHeader::V2(h) => h.width,
            BmpInfoHeader::V3(h) => h.width,
            BmpInfoHeader::V4(h) => h.width,
            BmpInfoHeader::V5(h) => h.width,
        }
    }

    /// The image height.
    pub open spec fn spec_height(self) -> i32 {
        match self {
            BmpInfoHeader::Core(h) => h.height as i32,
            BmpInfoHeader::Os22x(h) => h.height,
            BmpInfoHeader::V1(h) => h.height,
            BmpInfoHeader::V2(h) => h.height,
            BmpInfoHeader::V3(h) => h.height,
            BmpInfoHeader::V4(h) => h.height,
            BmpInfoHeader::V5(h) => h.height,
        }
    }

    /// The bits per pixel.
    pub open spec fn spec_bits_per_pixel(self) -> u16 {
        match self {
            BmpInfoHeader::Core(h) => h.bits_per_pixel,
            BmpInfoHeader::Os22x(h) => h.bits_per_pixel,
            BmpInfoHeader::V1(h) => h.bits_per_pixel,
            BmpInfoHeader::V2(h) => h.bits_per_pixel,
            BmpInfoHeader::V3(h) => h.bits_per_pixel,
            BmpInfoHeader::V4(h) => h.bits_per_pixel,
            BmpInfoHeader::V5(h) => h.bits_per_pixel,
        }
    }

    /// The compression (a core header is never compressed).
    pub open spec fn spec_compression(self) -> BmpCompression {
        match self {
            BmpInfoHeader::Core(h) => BmpCompression::RgbNoCompression,
            BmpInfoHeader::Os22x(h) => h.compression,
            BmpInfoHeader::V1(h) => h.compression,
            BmpInfoHeader::V2(h) => h.compression,
            BmpInfoHeader::V3(h) => h.compression,
            BmpInfoHeader::V4(h) => h.compression,
            BmpInfoHeader::V5(h) => h.compression,
        }
    }

    /// The image width.
    pub fn width(self) -> (w: i32)
        ensures
            w == self.spec_width(),
    {
        match self {
            BmpInfoHeader::Core(h) => h.width as i32,
            BmpInfoHeader::Os22x(h) => h.width,
            BmpInfoHeader::V1(h) => h.width,
            BmpInfoHeader::V2(h) => h.width,
            BmpInfoHeader::V3(h) => h.width,
            BmpInfoHeader::V4(h) => h.width,
            BmpInfoHeader::V5(h) => h.width,
        }
    }

    /// The image height.
    pub fn height(self) -> (v: i32)
        ensures
            v == self.spec_height(),
    {
        match self {
            BmpInfoHeader::Core(h) => h.height as i32,
            BmpInfoHeader::Os22x(h) => h.height,
            BmpInfoHeader::V1(h) => h.height,
            BmpInfoHeader::V2(h) => h.height,
            BmpInfoHeader::V3(h) => h.height,
            BmpInfoHeader::V4(h) => h.height,
            BmpInfoHeader::V5(h) => h.height,
        }
    }

    /// The bits per pixel.
    pub fn bits_per_pixel(self) -> (v: u16)
        ensures
            v == self.spec_bits_per_pixel(),
    {
        match self {
            BmpInfoHeader::Core(h) => h.bits_per_pixel,
            BmpInfoHeader::Os22x(h) => h.bits_per_pixel,
            BmpInfoHeader::V1(h) => h.bits_per_pixel,
            BmpInfoHeader::V2(h) => h.bits_per_pixel,
            BmpInfoHeader::V3(h) => h.bits_per_pixel,
            BmpInfoHeader::V4(h) => h.bits_per_pixel,
            BmpInfoHeader::V5(h) => h.bits_per_pixel,
        }
    }

    /// The compression (a core header is never compressed).
    pub fn compression(self) -> (c: BmpCompression)
        ensures
            c == self.spec_compression(),
    {
        match self {
            BmpInfoHeader::Core(h) => BmpCompression::RgbNoCompression,
            BmpInfoHeader::Os22x(h) => h.compression,
            BmpInfoHeader::V1(h) => h.compression,
            BmpInfoHeader::V2(h) => h.compression,
            BmpInfoHeader::V3(h) => h.compression,
            BmpInfoHeader::V4(h) => h.compression,
            BmpInfoHeader::V5(h) => h.compression,
        }
    }

    /// Whether the image is meant to be sRGB: a V4 header with the sRGB or
    /// Windows default color space, or a V5 header with one of those or with
    /// an sRGB intent.
    pub open spec fn spec_is_srgb(self) -> bool {
        match self {
            BmpInfoHeader::V4(h) => h.colorspace == BmpColorspace::Srgb || h.colorspace
                == BmpColorspace::WindowsDefault,
            BmpInfoHeader::V5(h) => h.srgb_intent is Some || h.colorspace == BmpColorspace::Srgb || h.colorspace
                == BmpColorspace::WindowsDefault,
            _ => false,
        }
    }

    /// Whether the image is meant to be sRGB (see `spec_is_srgb`).
    pub fn is_srgb(self) -> (b: bool)
        ensures
            b == self.spec_is_srgb(),
    {
        match self {
            BmpInfoHeader::V4(h) => matches!(h.colorspace, BmpColorspace::Srgb | BmpColorspace::WindowsDefault),
            BmpInfoHeader::V5(h) => h.srgb_intent.is_some() || matches!(
                h.colorspace,
                BmpColorspace::Srgb | BmpColorspace::WindowsDefault
            ),
            _ => false,
        }
    }

    /// The stored image data size, if the header has the field and gives it.
    pub open spec fn stored_image_byte_size(self) -> Option<u32> {
        match self {
            BmpInfoHeader::Core(h) => None,
            BmpInfoHeader::Os22x(h) => h.image_byte_size,
            BmpInfoHeader::V1(h) => h.image_byte_size,
            BmpInfoHeader::V2(h) => h.image_byte_size,
            BmpInfoHeader::V3(h) => h.image_byte_size,
            BmpInfoHeader::V4(h) => h.image_byte_size,
            BmpInfoHeader::V5(h) => h.image_byte_size,
        }
    }

    /// The palette length: `2**bits_per_pixel` for a core header, otherwise
    /// the stored length or the one it implies.
    pub open spec fn spec_palette_len(self) -> nat {
        match self {
            BmpInfoHeader::Core(h) => vstd::arithmetic::power2::pow2(h.bits_per_pixel as nat),
            BmpInfoHeader::Os22x(h) => implied_palette_len(h.palette_len, h.bits_per_pixel),
            BmpInfoHeader::V1(h) => implied_palette_len(h.palette_len, h.bits_per_pixel),
            BmpInfoHeader::V2(h) => implied_palette_len(h.palette_len, h.bits_per_pixel),
            BmpInfoHeader::V3(h) => implied_palette_len(h.palette_len, h.bits_per_pixel),
            BmpInfoHeader::V4(h) => implied_palette_len(h.palette_len, h.bits_per_pixel),
            BmpInfoHeader::V5(h) => implied_palette_len(h.palette_len, h.bits_per_pixel),
        }
    }

    /// Length of the palette (see `spec_palette_len`); a core header's bit
    /// depth must be less than the width of `usize`.
    pub fn palette_len(self) -> (n: usize)
        requires
            self is Core ==> self->Core_0.bits_per_pixel < usize::BITS,
        ensures
            n == self.spec_palette_len(),
    {
        match self {
            BmpInfoHeader::Core(h) => {
                let shift = h.bits_per_pixel as usize;
                proof {
                    vstd::bits::lemma_usize_pow2_no_overflow(shift as nat);
                    vstd::bits::lemma_usize_shl_is_mul(1, shift);
                }
                1usize << shift
            },
            BmpInfoHeader::Os22x(h) => h.palette_len(),
            BmpInfoHeader::V1(h) => h.palette_len(),
            BmpInfoHeader::V2(h) => h.palette_len(),
            BmpInfoHeader::V3(h) => h.palette_len(),
            BmpInfoHeader::V4(h) => h.palette_len(),
            BmpInfoHeader::V5(h) => h.palette_len(),
        }
    }

    /// The number of bytes of pixel data: for a core header width times
    /// height (saturating at `u32::MAX`); otherwise the stored size, or when
    /// it is left out the size the dimensions imply with rows padded to 4
    /// bytes (saturating at `usize::MAX`).
    pub open spec fn spec_pixel_data_len(self) -> int {
        let w = magnitude(self.spec_width());
        let h = magnitude(self.spec_height());
        match self {
            BmpInfoHeader::Core(_) => if w * h > u32::MAX {
                u32::MAX as int
            } else {
                w * h
            },
            _ => match self.stored_image_byte_size() {
                Some(x) => x as int,
                None => implied_image_len(w, h, self.spec_bits_per_pixel() as usize),
            },
        }
    }

    /// The number of bytes of pixel data (see `spec_pixel_data_len`).
    pub fn pixel_data_len(self) -> (n: usize)
        ensures
            n == self.spec_pixel_data_len(),
    {
        let w = unsigned_abs(self.width());
        let h = unsigned_abs(self.height());
        match self {
            BmpInfoHeader::Core(_) => {
                let p: u32 = match w.checked_mul(h) {
                    Some(p) => p,
                    None => u32::MAX,
                };
                p as usize
            },
            _ => {
                let stored: Option<u32> = match self {
                    BmpInfoHeader::Core(h) => None,
                    BmpInfoHeader::Os22x(h) => h.image_byte_size,
                    BmpInfoHeader::V1(h) => h.image_byte_size,
                    BmpInfoHeader::V2(h) => h.image_byte_size,
                    BmpInfoHeader::V3(h) => h.image_byte_size,
                    BmpInfoHeader::V4(h) => h.image_byte_size,
                    BmpInfoHeader::V5(h) => h.image_byte_size,
                };
                match stored {
                    Some(x) => x as usize,
                    None => implied_image_len_exec(w, h, self.bits_per_pixel() as usize),
                }
            },
        }
    }
}

/// Writing back `n` words read from byte `off` on gives the bytes they were
/// read from.
proof fn lemma_u32s_write_back(s: Seq<u8>, off: int, n: nat)
    requires
        0 <= off,
        off + 4 * n <= s.len(),
    ensures
        u32s_bytes(Seq::new(n, |k: int| le32(s, off + 4 * k))) == s.subrange(off, off + 4 * n),
{
    let m = Seq::new(n, |k: int| le32(s, off + 4 * k));
    assert forall|i: int| 0 <= i < 4 * n implies #[trigger] u32s_bytes(m)[i] == s.subrange(off, off + 4 * n)[i] by {
        let k = i / 4;
        let j = i % 4;
        assert(0 <= k < n && 0 <= j < 4 && 4 * k + j == i) by (nonlinear_arith)
            requires
                0 <= i < 4 * n,
                k == i / 4,
                j == i % 4,
        ;
        lemma_le32_write_back(s, off + 4 * k);
        assert(le32_bytes(le32(s, off + 4 * k))[j] == s.subrange(off + 4 * k, off + 4 * k + 4)[j]);
    }
    assert(u32s_bytes(m) =~= s.subrange(off, off + 4 * n));
}

/// The 40 byte prefix of V1 to V3 and OS/2 2.x headers, read and written
/// back, is the same bytes when it gives one color plane.
proof fn lemma_common_prefix_write_back(a: Seq<u8>)
    requires
        40 <= a.len(),
        le16(a, 12) == 1,
        compression_of_code(le32(a, 16)) is Ok,
    ensures
        common_prefix_bytes(
            le32(a, 0),
            le32_signed(a, 4),
            le32_signed(a, 8),
            le16(a, 14),
            compression_of_code(le32(a, 16))->Ok_0,
            nonzero_u32(le32(a, 20)),
            le32_signed(a, 24),
            le32_signed(a, 28),
            nonzero_u32(le32(a, 32)),
            nonzero_u32(le32(a, 36)),
        ) == a.subrange(0, 40),
{
    lemma_unsigned_round_trip(0, le32(a, 4));
    lemma_unsigned_round_trip(0, le32(a, 8));
    lemma_unsigned_round_trip(0, le32(a, 24));
    lemma_unsigned_round_trip(0, le32(a, 28));
    lemma_compression_code_round_trip(BmpCompression::RgbNoCompression, le32(a, 16));
    lemma_le32_write_back(a, 0);
    lemma_le32_write_back(a, 4);
    lemma_le32_write_back(a, 8);
    lemma_le16_write_back(a, 12);
    lemma_le16_write_back(a, 14);
    lemma_le32_write_back(a, 16);
    lemma_le32_write_back(a, 20);
    lemma_le32_write_back(a, 24);
    lemma_le32_write_back(a, 28);
    lemma_le32_write_back(a, 32);
    lemma_le32_write_back(a, 36);
    let p = common_prefix_bytes(
        le32(a, 0),
        le32_signed(a, 4),
        le32_signed(a, 8),
        le16(a, 14),
        compression_of_code(le32(a, 16))->Ok_0,
        nonzero_u32(le32(a, 20)),
        le32_signed(a, 24),
        le32_signed(a, 28),
        nonzero_u32(le32(a, 32)),
        nonzero_u32(le32(a, 36)),
    );
    assert(stored_u32(nonzero_u32(le32(a, 20))) == le32(a, 20));
    assert(stored_u32(nonzero_u32(le32(a, 32))) == le32(a, 32));
    assert(stored_u32(nonzero_u32(le32(a, 36))) == le32(a, 36));
    assert(p =~= a.subrange(0, 40));
}

/// 14 bytes whose 4 skipped bytes are zero, read as a file header and
/// written back, are the same bytes.
pub proof fn lemma_file_header_bytes_round_trip(a: Seq<u8>)
    requires
        a.len() == 14,
        a[6] == 0 && a[7] == 0 && a[8] == 0 && a[9] == 0,
    ensures
        file_header_to_bytes(file_header_from_bytes(a)) == a,
{
    let t: [u8; 2] = [a[0], a[1]];
    assert(t@ =~= a.subrange(0, 2));
    let c = choose|c: [u8; 2]| c@ == a.subrange(0, 2);
    assert(c@ == a.subrange(0, 2));
    lemma_le32_write_back(a, 2);
    lemma_le32_write_back(a, 6);
    lemma_le32_write_back(a, 10);
    assert(le32(a, 6) == 0);
    assert(file_header_to_bytes(file_header_from_bytes(a)) =~= a);
}

/// 12 bytes that parse as a core header and give one color plane, written
/// back from the header, are the same bytes.
pub proof fn lemma_core_bytes_round_trip(a: Seq<u8>)
    requires
        a.len() == 12,
        core_from_bytes(a) is Ok,
        le16(a, 8) == 1,
    ensures
        core_to_bytes(core_from_bytes(a)->Ok_0) == a,
{
    lemma_unsigned_round_trip(le16(a, 4), 0);
    lemma_unsigned_round_trip(le16(a, 6), 0);
    lemma_le32_write_back(a, 0);
    lemma_le16_write_back(a, 4);
    lemma_le16_write_back(a, 6);
    lemma_le16_write_back(a, 8);
    lemma_le16_write_back(a, 10);
    assert(core_to_bytes(core_from_bytes(a)->Ok_0) =~= a);
}

/// 40 bytes that parse as a V1 header and give one color plane, written back
/// from the header, are the same bytes.
pub proof fn lemma_v1_bytes_round_trip(a: Seq<u8>)
    requires
        a.len() == 40,
        v1_from_bytes(a) is Ok,
        le16(a, 12) == 1,
    ensures
        v1_to_bytes(v1_from_bytes(a)->Ok_0) == a,
{
    lemma_common_prefix_write_back(a);
    assert(a.subrange(0, 40) =~= a);
}

/// 52 bytes that parse as a V2 header and give one color plane, written back
/// from the header, are the same bytes.
pub proof fn lemma_v2_bytes_round_trip(a: Seq<u8>)
    requires
        a.len() == 52,
        v2_from_bytes(a) is Ok,
        le16(a, 12) == 1,
    ensures
        v2_to_bytes(v2_from_bytes(a)->Ok_0) == a,
{
    lemma_common_prefix_write_back(a);
    lemma_u32s_write_back(a, 40, 3);
    let h = v2_from_bytes(a)->Ok_0;
    assert(seq![h.red_mask, h.green_mask, h.blue_mask] =~= Seq::new(3, |k: int| le32(a, 40 + 4 * k)));
    assert(v2_to_bytes(h) =~= a.subrange(0, 40) + a.subrange(40, 52));
    assert(a.subrange(0, 40) + a.subrange(40, 52) =~= a);
}

/// 56 bytes that parse as a V3 header and give one color plane, written back
/// from the header, are the same bytes.
pub proof fn lemma_v3_bytes_round_trip(a: Seq<u8>)
    requires
        a.len() == 56,
        v3_from_bytes(a) is Ok,
        le16(a, 12) == 1,
    ensures
        v3_to_bytes(v3_from_bytes(a)->Ok_0) == a,
{
    lemma_common_prefix_write_back(a);
    lemma_u32s_write_back(a, 40, 4);
    let h = v3_from_bytes(a)->Ok_0;
    assert(seq![h.red_mask, h.green_mask, h.blue_mask, h.alpha_mask] =~= Seq::new(4, |k: int| le32(a, 40 + 4 * k)));
    assert(v3_to_bytes(h) =~= a.subrange(0, 40) + a.subrange(40, 56));
    assert(a.subrange(0, 40) + a.subrange(40, 56) =~= a);
}

} // verus!
