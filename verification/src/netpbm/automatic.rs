//! Decoding a Netpbm file straight to RGBA pixels, for the formats whose
//! values need no scaling: 1 bit per pixel, and 8-bit samples with a maximum
//! of 255.
use vstd::prelude::*;
use crate::iterators::bits_high_to_low;
use crate::pixel_formats::RGBA8888;
use crate::byte_groups::cast_to_groups;
use super::{
    NetpbmError, NetpbmDataFormat, NetpbmHeader, NetpbmAscii1bppIter, NetpbmAsciiU8Iter, netpbm_parse_header,
    spec_parse_header, trim, read_unsigned, newline_from, is_ws, ws_from, parse_u32, lemma_ws_from_range,
};

verus! {

/// Black for a set bit, white for a clear one (1 bit formats store ink).
pub open spec fn bit_pixel(b: bool) -> RGBA8888 {
    if b {
        RGBA8888 { r: 0, g: 0, b: 0, a: 255 }
    } else {
        RGBA8888 { r: 255, g: 255, b: 255, a: 255 }
    }
}

/// Opaque black, what pixels that the data leaves out become.
pub open spec fn opaque_black() -> RGBA8888 {
    RGBA8888 { r: 0, g: 0, b: 0, a: 255 }
}

/// `pixels` made up to `n` with opaque black when shorter (a longer
/// sequence is kept as it is).
pub open spec fn padded_with_black(pixels: Seq<RGBA8888>, n: nat) -> Seq<RGBA8888> {
    if pixels.len() < n {
        pixels + Seq::new((n - pixels.len()) as nat, |i: int| opaque_black())
    } else {
        pixels
    }
}

/// Adds opaque black pixels to `image` until it holds `n` of them; an image
/// that already holds as many is left alone.
pub fn pad_with_black(image: &mut Vec<RGBA8888>, n: usize)
    ensures
        final(image)@ == padded_with_black(old(image)@, n as nat),
{
    let ghost start = image@;
    while image.len() < n
        invariant
            start.len() <= image@.len(),
            image@.len() <= n || image@ == start,
            image@ == start + Seq::new((image@.len() - start.len()) as nat, |i: int| opaque_black()),
        decreases n - image@.len(),
    {
        image.push(RGBA8888 { r: 0, g: 0, b: 0, a: 255 });
        assert(image@ =~= start + Seq::new((image@.len() - start.len()) as nat, |i: int| opaque_black()));
    }
    assert(image@ =~= padded_with_black(start, n as nat));
}

/// Binary pixel data as groups of `N` bytes (one sample or one pixel each);
/// data that ends in a partial group fails with `InsufficientBytes`.
pub fn netpbm_pixel_groups<const N: usize>(pixel_data: &[u8]) -> (r: Result<&[[u8; N]], NetpbmError>)
    requires
        N > 0,
    ensures
        r is Err <==> pixel_data@.len() % (N as nat) != 0,
        r is Err ==> r == Err::<&[[u8; N]], NetpbmError>(NetpbmError::InsufficientBytes),
        r matches Ok(q) ==> q@.len() == pixel_data@.len() / (N as nat) && forall|i: int|
            0 <= i < q@.len() ==> #[trigger] q@[i]@ == pixel_data@.subrange(N * i, N * i + N),
{
    match cast_to_groups::<N>(pixel_data) {
        Some(q) => Ok(q),
        None => Err(NetpbmError::InsufficientBytes),
    }
}

/// An opaque gray pixel.
pub open spec fn gray_pixel(y: u8) -> RGBA8888 {
    RGBA8888 { r: y, g: y, b: y, a: 255 }
}

/// Trimming never makes bytes longer.
pub proof fn lemma_trim_len(s: Seq<u8>)
    ensures
        trim(s).len() <= s.len(),
    decreases s.len(),
{
    if s.len() > 0 {
        if s[0] == 35 {
            if let Some(k) = newline_from(s, 0) {
                if 0 < k < s.len() {
                    lemma_trim_len(s.skip(k));
                }
            }
        } else if is_ws(s[0]) {
            lemma_trim_len(s.skip(1));
        }
    }
}

/// A number that is read leaves fewer bytes behind.
pub proof fn lemma_read_unsigned_shrinks(s: Seq<u8>)
    ensures
        read_unsigned(s) matches Ok((u, rest)) ==> rest.len() < s.len(),
{
    let k = ws_from(s, 0);
    lemma_ws_from_range(s, 0);
    if parse_u32(s.take(k)) is Some {
        assert(s.take(k).len() > 0);
    }
}

/// Up to `n` bits read from ascii 1 bit data `s`: `'0'` and `'1'` give a
/// bit, any other byte is skipped; comments and whitespace after each byte
/// are trimmed.
pub open spec fn ascii_bits(s: Seq<u8>, n: nat) -> Seq<bool>
    decreases s.len(),
{
    if n == 0 || s.len() == 0 {
        Seq::empty()
    } else {
        let rest = trim(s.skip(1));
        proof {
            lemma_trim_len(s.skip(1));
        }
        if s[0] == 48 {
            seq![false] + ascii_bits(rest, (n - 1) as nat)
        } else if s[0] == 49 {
            seq![true] + ascii_bits(rest, (n - 1) as nat)
        } else {
            ascii_bits(rest, n)
        }
    }
}

/// Up to `n` values read from ascii `u8` data `s`, skipping numbers above
/// 255; `None` when an entry that is no number comes first (reading would
/// never get past it).
pub open spec fn ascii_u8s(s: Seq<u8>, n: nat) -> Option<Seq<u8>>
    decreases s.len(),
{
    if n == 0 || s.len() == 0 {
        Some(Seq::empty())
    } else {
        match read_unsigned(s) {
            Err(_) => None,
            Ok((u, rest)) => {
                proof {
                    lemma_read_unsigned_shrinks(s);
                    lemma_trim_len(rest);
                }
                if u <= 255 {
                    match ascii_u8s(trim(rest), (n - 1) as nat) {
                        Some(t) => Some(seq![u as u8] + t),
                        None => None,
                    }
                } else {
                    ascii_u8s(trim(rest), n)
                }
            },
        }
    }
}

/// The pixel made from group `i` of `g`-byte groups of `px`: gray and alpha
/// (`g == 2`), RGB (`g == 3`) or RGBA (`g == 4`).
pub open spec fn group_pixel(px: Seq<u8>, g: int, i: int) -> RGBA8888 {
    if g == 2 {
        RGBA8888 { r: px[2 * i], g: px[2 * i], b: px[2 * i], a: px[2 * i + 1] }
    } else if g == 3 {
        RGBA8888 { r: px[3 * i], g: px[3 * i + 1], b: px[3 * i + 2], a: 255 }
    } else {
        RGBA8888 { r: px[4 * i], g: px[4 * i + 1], b: px[4 * i + 2], a: px[4 * i + 3] }
    }
}

/// The smaller of two integers.
pub open spec fn min_int(a: int, b: int) -> int {
    if a <= b {
        a
    } else {
        b
    }
}

/// The number of pixels a header asks for, saturating at `u32::MAX`.
pub open spec fn pixel_count(h: NetpbmHeader) -> nat {
    min_int(h.width * h.height, u32::MAX as int) as nat
}

/// Whether a data format's values go to RGBA as they are: 1 bit formats,
/// and 8-bit formats with a maximum of 255 (except ascii RGB).
pub open spec fn unscaled_format(f: NetpbmDataFormat) -> bool {
    match f {
        NetpbmDataFormat::Ascii_Y_1bpp => true,
        NetpbmDataFormat::Binary_Y_1bpp => true,
        NetpbmDataFormat::Ascii_Y_U8 { max } => max == 255,
        NetpbmDataFormat::Binary_Y_U8 { max } => max == 255,
        NetpbmDataFormat::Binary_YA_U8 { max } => max == 255,
        NetpbmDataFormat::Binary_RGB_U8 { max } => max == 255,
        NetpbmDataFormat::Binary_RGBA_U8 { max } => max == 255,
        _ => false,
    }
}

/// The RGBA pixels of pixel data `px` in an unscaled format, at most `n` of
/// them: binary data with a partial group at the end fails with
/// `InsufficientBytes`; missing pixels are simply not there.
pub open spec fn unscaled_pixels(f: NetpbmDataFormat, px: Seq<u8>, n: nat) -> Result<Seq<RGBA8888>, NetpbmError> {
    match f {
        NetpbmDataFormat::Ascii_Y_1bpp => Ok(ascii_bits(trim(px), n).map_values(|b: bool| bit_pixel(b))),
        NetpbmDataFormat::Ascii_Y_U8 { max } => Ok(ascii_u8s(trim(px), n)->0.map_values(|y: u8| gray_pixel(y))),
        NetpbmDataFormat::Binary_Y_1bpp => Ok(
            bits_high_to_low(px).take(min_int(n as int, px.len() as int * 8)).map_values(|b: bool| bit_pixel(b)),
        ),
        NetpbmDataFormat::Binary_Y_U8 { max } => Ok(
            px.take(min_int(n as int, px.len() as int)).map_values(|y: u8| gray_pixel(y)),
        ),
        NetpbmDataFormat::Binary_YA_U8 { max } => grouped(px, 2, n),
        NetpbmDataFormat::Binary_RGB_U8 { max } => grouped(px, 3, n),
        _ => grouped(px, 4, n),
    }
}

/// Binary 8-bit Netpbm data in the formats that need no scaling becomes
/// RGBA pixel by pixel, at most `n` of them: gray with alpha gives
/// `(y, y, y, a)` from each byte pair, RGB gives opaque `(r, g, b)` from each
/// byte triple, RGBA takes each byte quadruple as it is, and gray gives
/// opaque `(y, y, y)` from each byte. Data ending in a partial pixel is
/// refused with `InsufficientBytes`.
pub proof fn lemma_binary_pixels(f: NetpbmDataFormat, px: Seq<u8>, n: nat)
    requires
        f is Binary_Y_U8 || f is Binary_YA_U8 || f is Binary_RGB_U8 || f is Binary_RGBA_U8,
    ensures
        ({
            let g: int = if f is Binary_Y_U8 { 1 } else if f is Binary_YA_U8 { 2 } else if f is Binary_RGB_U8 { 3 } else { 4 };
            let r = unscaled_pixels(f, px, n);
            &&& (r is Err) <==> px.len() as int % g != 0
            &&& r is Err ==> r == Err::<Seq<RGBA8888>, NetpbmError>(NetpbmError::InsufficientBytes)
            &&& r matches Ok(s) ==> {
                &&& s.len() == if n < px.len() as int / g { n as int } else { px.len() as int / g }
                &&& forall|i: int| 0 <= i < s.len() ==> #[trigger] s[i] == if g == 1 {
                    RGBA8888 { r: px[i], g: px[i], b: px[i], a: 255 }
                } else if g == 2 {
                    RGBA8888 { r: px[2 * i], g: px[2 * i], b: px[2 * i], a: px[2 * i + 1] }
                } else if g == 3 {
                    RGBA8888 { r: px[3 * i], g: px[3 * i + 1], b: px[3 * i + 2], a: 255 }
                } else {
                    RGBA8888 { r: px[4 * i], g: px[4 * i + 1], b: px[4 * i + 2], a: px[4 * i + 3] }
                }
            }
        }),
{
}

/// Pixels from `g`-byte groups of `px`, at most `n`; a partial group at the
/// end fails with `InsufficientBytes`.
pub open spec fn grouped(px: Seq<u8>, g: int, n: nat) -> Result<Seq<RGBA8888>, NetpbmError> {
    if px.len() as int % g != 0 {
        Err(NetpbmError::InsufficientBytes)
    } else {
        Ok(Seq::new(min_int(n as int, px.len() as int / g) as nat, |i: int| group_pixel(px, g, i)))
    }
}

/// Whether reading the file's ascii 8-bit samples gets to an end: an ascii
/// gray file with a maximum of 255 must not hold an entry that is no number
/// before its pixels are all read.
pub open spec fn ascii_reading_ends(bytes: Seq<u8>) -> bool {
    match spec_parse_header(bytes) {
        Ok((h, px)) => h.data_format == (NetpbmDataFormat::Ascii_Y_U8 { max: 255 }) ==> ascii_u8s(
            trim(px),
            pixel_count(h),
        ) is Some,
        Err(_) => true,
    }
}

/// Up to `n` pixels from ascii 1 bit data.
fn ascii_bit_pixels(px: &[u8], n: usize) -> (v: Vec<RGBA8888>)
    ensures
        v@ == ascii_bits(trim(px@), n as nat).map_values(|b: bool| bit_pixel(b)),
        v@.len() <= n,
{
    let mut it = NetpbmAscii1bppIter::new(px);
    let mut v: Vec<RGBA8888> = Vec::new();
    let ghost mut done: Seq<bool> = Seq::empty();
    loop
        invariant
            v@.len() <= n,
            done.len() == v@.len(),
            v@ == done.map_values(|b: bool| bit_pixel(b)),
            ascii_bits(trim(px@), n as nat) == done + ascii_bits(it.remaining(), (n - v@.len()) as nat),
        ensures
            v@ == ascii_bits(trim(px@), n as nat).map_values(|b: bool| bit_pixel(b)),
        decreases it.remaining().len(),
    {
        if v.len() >= n {
            assert(done + ascii_bits(it.remaining(), 0) =~= done);
            break;
        }
        let ghost before = it.remaining();
        proof {
            lemma_trim_len(before.skip(1));
        }
        match it.next() {
            None => {
                assert(ascii_bits(before, (n - v@.len()) as nat) =~= Seq::<bool>::empty());
                assert(done + Seq::<bool>::empty() =~= done);
                break;
            },
            Some(Ok(b)) => {
                let p = if b {
                    RGBA8888 { r: 0, g: 0, b: 0, a: 255 }
                } else {
                    RGBA8888 { r: 255, g: 255, b: 255, a: 255 }
                };
                v.push(p);
                proof {
                    assert(ascii_bits(before, (n - (v@.len() - 1)) as nat) == seq![b] + ascii_bits(
                        it.remaining(),
                        (n - v@.len()) as nat,
                    ));
                    assert(done + (seq![b] + ascii_bits(it.remaining(), (n - v@.len()) as nat)) =~= done.push(b)
                        + ascii_bits(it.remaining(), (n - v@.len()) as nat));
                    done = done.push(b);
                    assert(v@ =~= done.map_values(|b: bool| bit_pixel(b)));
                }
            },
            Some(Err(_)) => {},
        }
    }
    v
}

/// Up to `n` gray pixels from ascii 8-bit data.
fn ascii_gray_pixels(px: &[u8], n: usize) -> (v: Vec<RGBA8888>)
    requires
        ascii_u8s(trim(px@), n as nat) is Some,
    ensures
        v@ == ascii_u8s(trim(px@), n as nat)->0.map_values(|y: u8| gray_pixel(y)),
        v@.len() <= n,
{
    let mut it = NetpbmAsciiU8Iter::new(px);
    let mut v: Vec<RGBA8888> = Vec::new();
    let ghost all = ascii_u8s(trim(px@), n as nat)->0;
    let ghost mut done: Seq<u8> = Seq::empty();
    loop
        invariant
            v@.len() <= n,
            done.len() == v@.len(),
            v@ == done.map_values(|y: u8| gray_pixel(y)),
            ascii_u8s(it.remaining(), (n - v@.len()) as nat) is Some,
            all == ascii_u8s(trim(px@), n as nat)->0,
            all == done + ascii_u8s(it.remaining(), (n - v@.len()) as nat)->0,
        ensures
            v@ == all.map_values(|y: u8| gray_pixel(y)),
        decreases it.remaining().len(),
    {
        if v.len() >= n {
            assert(done + Seq::<u8>::empty() =~= done);
            break;
        }
        let ghost before = it.remaining();
        let ghost k = (n - v@.len()) as nat;
        proof {
            lemma_read_unsigned_shrinks(before);
            if let Ok((u, rest)) = read_unsigned(before) {
                lemma_trim_len(rest);
            }
        }
        match it.next() {
            None => {
                assert(done + Seq::<u8>::empty() =~= done);
                break;
            },
            Some(Ok(y)) => {
                v.push(RGBA8888 { r: y, g: y, b: y, a: 255 });
                proof {
                    let tail = ascii_u8s(it.remaining(), (k - 1) as nat)->0;
                    assert(ascii_u8s(before, k)->0 == seq![y] + tail);
                    assert(done + (seq![y] + tail) =~= done.push(y) + tail);
                    done = done.push(y);
                    assert(v@ =~= done.map_values(|y: u8| gray_pixel(y)));
                }
            },
            Some(Err(_)) => {},
        }
    }
    v
}

/// Up to `n` pixels from packed 1 bit data, high bits first.
fn binary_bit_pixels(px: &[u8], n: usize) -> (v: Vec<RGBA8888>)
    ensures
        v@ == bits_high_to_low(px@).take(min_int(n as int, px@.len() as int * 8)).map_values(|b: bool| bit_pixel(b)),
{
    let mut v: Vec<RGBA8888> = Vec::new();
    let mut i: usize = 0;
    while i < n && i / 8 < px.len()
        invariant
            i <= n,
            i <= px@.len() * 8,
            v@.len() == i,
            forall|j: int| 0 <= j < i ==> #[trigger] v@[j] == bit_pixel(bits_high_to_low(px@)[j]),
        decreases n - i,
    {
        let shift: u8 = (7 - i % 8) as u8;
        let b = (px[i / 8] >> shift) & 1u8 == 1u8;
        let p = if b {
            RGBA8888 { r: 0, g: 0, b: 0, a: 255 }
        } else {
            RGBA8888 { r: 255, g: 255, b: 255, a: 255 }
        };
        v.push(p);
        i = i + 1;
    }
    assert(i == min_int(n as int, px@.len() as int * 8));
    assert(v@ =~= bits_high_to_low(px@).take(i as int).map_values(|b: bool| bit_pixel(b)));
    v
}

/// Up to `n` gray pixels, one per byte.
fn binary_gray_pixels(px: &[u8], n: usize) -> (v: Vec<RGBA8888>)
    ensures
        v@ == px@.take(min_int(n as int, px@.len() as int)).map_values(|y: u8| gray_pixel(y)),
{
    let mut v: Vec<RGBA8888> = Vec::new();
    let mut i: usize = 0;
    while i < n && i < px.len()
        invariant
            i <= n,
            i <= px@.len(),
            v@.len() == i,
            forall|j: int| 0 <= j < i ==> #[trigger] v@[j] == gray_pixel(px@[j]),
        decreases n - i,
    {
        let y = px[i];
        v.push(RGBA8888 { r: y, g: y, b: y, a: 255 });
        i = i + 1;
    }
    assert(v@ =~= px@.take(i as int).map_values(|y: u8| gray_pixel(y)));
    v
}

/// Up to `n` pixels from `g`-byte groups.
fn binary_grouped_pixels(px: &[u8], n: usize, g: usize) -> (r: Result<Vec<RGBA8888>, NetpbmError>)
    requires
        g == 2 || g == 3 || g == 4,
    ensures
        match grouped(px@, g as int, n as nat) {
            Ok(s) => r matches Ok(v) && v@ == s && v@.len() <= n,
            Err(e) => r == Err::<Vec<RGBA8888>, NetpbmError>(e),
        },
{
    if px.len() % g != 0 {
        return Err(NetpbmError::InsufficientBytes);
    }
    let groups = px.len() / g;
    let mut v: Vec<RGBA8888> = Vec::new();
    let mut i: usize = 0;
    while i < n && i < groups
        invariant
            g == 2 || g == 3 || g == 4,
            groups == px@.len() as int / (g as int),
            i <= n,
            i <= groups,
            v@.len() == i,
            forall|j: int| 0 <= j < i ==> #[trigger] v@[j] == group_pixel(px@, g as int, j),
        decreases n - i,
    {
        assert(g * i + g <= px@.len()) by (nonlinear_arith)
            requires
                i < groups,
                groups == px@.len() as int / (g as int),
                g >= 2,
        ;
        let p = if g == 2 {
            assert(2 * i + 2 <= px@.len());
            assert(px@.len() == px.len());
            assert(2 * i + 1 < px.len());
            RGBA8888 { r: px[2 * i], g: px[2 * i], b: px[2 * i], a: px[2 * i + 1] }
        } else if g == 3 {
            assert(3 * i + 3 <= px@.len());
            assert(px@.len() == px.len());
            assert(3 * i + 2 < px.len());
            RGBA8888 { r: px[3 * i], g: px[3 * i + 1], b: px[3 * i + 2], a: 255 }
        } else {
            assert(4 * i + 4 <= px@.len());
            assert(px@.len() == px.len());
            assert(4 * i + 3 < px.len());
            RGBA8888 { r: px[4 * i], g: px[4 * i + 1], b: px[4 * i + 2], a: px[4 * i + 3] }
        };
        v.push(p);
        i = i + 1;
    }
    assert(v@ =~= Seq::new(min_int(n as int, px@.len() as int / (g as int)) as nat, |j: int| group_pixel(px@, g as int, j)));
    Ok(v)
}

/// Decodes a Netpbm file to RGBA pixels when its format needs no scaling
/// ([unscaled_format]), giving the pixels, width and height; `Ok(None)` for
/// the formats whose values must first be scaled to `0..=255`.
///
/// Exactly `width * height` pixels (saturating) come out: data past them is
/// ignored, and pixels that data running short leaves out are opaque black.
/// 1 bit formats give black for set bits and white for clear ones;
/// unreadable ascii entries are skipped.
pub fn netpbm_rgba_unscaled(netpbm: &[u8]) -> (r: Result<Option<(Vec<RGBA8888>, u32, u32)>, NetpbmError>)
    requires
        ascii_reading_ends(netpbm@),
    ensures
        match spec_parse_header(netpbm@) {
            Err(e) => r == Err::<Option<(Vec<RGBA8888>, u32, u32)>, NetpbmError>(e),
            Ok((h, px)) => if !unscaled_format(h.data_format) {
                r matches Ok(None)
            } else {
                match unscaled_pixels(h.data_format, px, pixel_count(h)) {
                    Ok(s) => r matches Ok(Some((v, w, hh))) && v@ == padded_with_black(s, pixel_count(h))
                        && v@.len() == pixel_count(h) && w == h.width && hh == h.height,
                    Err(e) => r == Err::<Option<(Vec<RGBA8888>, u32, u32)>, NetpbmError>(e),
                }
            },
        },
{
    let (header, px) = match netpbm_parse_header(netpbm) {
        Ok(parsed) => parsed,
        Err(e) => {
            return Err(e);
        },
    };
    assert(header.width as int * header.height as int <= 0xffff_ffff * 0xffff_ffff) by (nonlinear_arith)
        requires
            header.width <= 0xffff_ffff,
            header.height <= 0xffff_ffff,
    ;
    let wide: u64 = (header.width as u64) * (header.height as u64);
    let n: usize = if wide > u32::MAX as u64 { u32::MAX as usize } else { wide as usize };
    assert(n == pixel_count(header));
    let mut pixels = match header.data_format {
        NetpbmDataFormat::Ascii_Y_1bpp => ascii_bit_pixels(px, n),
        NetpbmDataFormat::Ascii_Y_U8 { max } => {
            if max != 255 {
                return Ok(None);
            }
            ascii_gray_pixels(px, n)
        },
        NetpbmDataFormat::Binary_Y_1bpp => binary_bit_pixels(px, n),
        NetpbmDataFormat::Binary_Y_U8 { max } => {
            if max != 255 {
                return Ok(None);
            }
            binary_gray_pixels(px, n)
        },
        NetpbmDataFormat::Binary_YA_U8 { max } => {
            if max != 255 {
                return Ok(None);
            }
            match binary_grouped_pixels(px, n, 2) {
                Ok(v) => v,
                Err(e) => {
                    return Err(e);
                },
            }
        },
        NetpbmDataFormat::Binary_RGB_U8 { max } => {
            if max != 255 {
                return Ok(None);
            }
            match binary_grouped_pixels(px, n, 3) {
                Ok(v) => v,
                Err(e) => {
                    return Err(e);
                },
            }
        },
        NetpbmDataFormat::Binary_RGBA_U8 { max } => {
            if max != 255 {
                return Ok(None);
            }
            match binary_grouped_pixels(px, n, 4) {
                Ok(v) => v,
                Err(e) => {
                    return Err(e);
                },
            }
        },
        _ => {
            return Ok(None);
        },
    };
    pad_with_black(&mut pixels, n);
    Ok(Some((pixels, header.width, header.height)))
}

} // verus!
