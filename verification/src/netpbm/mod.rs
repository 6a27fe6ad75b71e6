//! The [Netpbm](https://en.wikipedia.org/wiki/Netpbm) formats: `.pbm`,
//! `.pgm`, `.ppm`, `.pnm` and `.pam`, all without compression.
//!
//! Use [`netpbm_parse_header`] to get the header and the pixel data bytes;
//! the header's data format says how to read the pixel bytes. The color
//! space is never given by the header.
use vstd::prelude::*;

pub mod pnm;
pub mod automatic;

verus! {

/// Things that might go wrong when parsing a Netpbm file.
#[derive(Debug, Clone, Copy, PartialEq, Eq, Structural, PartialOrd, Ord, Hash)]
#[non_exhaustive]
pub enum NetpbmError {
    /// There's no Netpbm tag, so probably this isn't even a Netpbm file.
    NoTagPresent,
    /// Not enough bytes are in the file.
    InsufficientBytes,
    /// An ascii string couldn't be parsed as a decimal unsigned value.
    CouldNotParseUnsigned,
    /// An ascii string couldn't be parsed as an `f32` value.
    CouldNotParseFloat,
    /// An allocation failed.
    CouldNotAlloc,
    /// The header declared a maximum value above `u16::MAX`.
    MaxValueExceedsU16,
    /// A particular integer entry exceeded the maximum value of the file.
    IntegerExceedsMaxValue,
    /// The header format didn't conform to expectations in some way.
    HeaderIllegalFormat,
}

/// The data format of the pixels in a Netpbm file. For the floating point
/// formats the header's scale token is given by its position in the file
/// bytes (`start..end`): a negative scale means little-endian samples whose
/// maximum is minus the scale, a positive one big-endian samples whose
/// maximum is the scale.
#[derive(Debug, Clone, Copy, PartialEq, Eq, Structural)]
#[allow(non_camel_case_types)]
pub enum NetpbmDataFormat {
    /// Ascii, 1-bit-per-pixel: every pixel is 0 ("pen up") or 1 ("pen down").
    Ascii_Y_1bpp,
    Ascii_Y_U8 { max: u8 },
    Ascii_Y_U16 { max: u16 },
    Ascii_RGB_U8 { max: u8 },
    Ascii_RGB_U16 { max: u16 },
    /// Binary, 1-bit-per-pixel (bit packed, high to low).
    Binary_Y_1bpp,
    Binary_Y_U8 { max: u8 },
    Binary_Y_U16BE { max: u16 },
    Binary_Y_F32 { scale_start: usize, scale_end: usize },
    Binary_YA_U8 { max: u8 },
    Binary_YA_U16BE { max: u16 },
    Binary_RGB_U8 { max: u8 },
    Binary_RGB_U16BE { max: u16 },
    Binary_RGB_F32 { scale_start: usize, scale_end: usize },
    Binary_RGBA_U8 { max: u8 },
    Binary_RGBA_U16BE { max: u16 },
    Binary_RGBA_F32 { scale_start: usize, scale_end: usize },
}

/// Header for a Netpbm file.
#[derive(Debug, Clone, Copy, PartialEq, Eq, Structural)]
pub struct NetpbmHeader {
    /// Image width in pixels.
    pub width: u32,
    /// Image height in pixels.
    pub height: u32,
    /// Format of the pixel data.
    pub data_format: NetpbmDataFormat,
}

/// ASCII whitespace as `u8::is_ascii_whitespace` sees it.
pub open spec fn is_ws(b: u8) -> bool {
    b == 32 || b == 9 || b == 10 || b == 12 || b == 13
}

fn is_ws_exec(b: u8) -> (r: bool)
    ensures
        r == is_ws(b),
{
    b == 32 || b == 9 || b == 10 || b == 12 || b == 13
}

/// The index of the first `'\n'` of `s` at or after `i`.
pub open spec fn newline_from(s: Seq<u8>, i: int) -> Option<int>
    decreases s.len() - i,
{
    if i < 0 || i >= s.len() {
        None
    } else if s[i] == 10 {
        Some(i)
    } else {
        newline_from(s, i + 1)
    }
}

/// The index of the first whitespace byte of `s` at or after `i`, or the
/// length of `s`.
pub open spec fn ws_from(s: Seq<u8>, i: int) -> int
    decreases s.len() - i,
{
    if i < 0 || i >= s.len() {
        s.len() as int
    } else if is_ws(s[i]) {
        i
    } else {
        ws_from(s, i + 1)
    }
}

proof fn lemma_newline_from_range(s: Seq<u8>, i: int)
    requires
        0 <= i,
    ensures
        newline_from(s, i) matches Some(k) ==> i <= k < s.len() && s[k] == 10,
    decreases s.len() - i,
{
    if i < s.len() && s[i] != 10 {
        lemma_newline_from_range(s, i + 1);
    }
}

proof fn lemma_ws_from_range(s: Seq<u8>, i: int)
    requires
        0 <= i <= s.len(),
    ensures
        i <= ws_from(s, i) <= s.len(),
    decreases s.len() - i,
{
    if i < s.len() && !is_ws(s[i]) {
        lemma_ws_from_range(s, i + 1);
    }
}

/// What is left of `s` once leading whitespace and comments (from `'#'` up
/// to, not past, the end of the line) are trimmed.
pub open spec fn trim(s: Seq<u8>) -> Seq<u8>
    decreases s.len(),
{
    if s.len() == 0 {
        s
    } else if s[0] == 35 {
        match newline_from(s, 0) {
            Some(k) => if 0 < k < s.len() { trim(s.skip(k)) } else { Seq::empty() },
            None => Seq::empty(),
        }
    } else if is_ws(s[0]) {
        trim(s.skip(1))
    } else {
        s
    }
}

/// Trims off any comments and whitespace at the start of the bytes.
fn netpbm_trim_comments_and_whitespace(bytes: &[u8]) -> (r: &[u8])
    ensures
        r@ == trim(bytes@),
        r@.len() <= bytes@.len(),
{
    let mut b = bytes;
    loop
        invariant
            trim(bytes@) == trim(b@),
            b@.len() <= bytes@.len(),
        decreases b@.len(),
    {
        if b.len() == 0 {
            return b;
        }
        if b[0] == 35 {
            let mut i: usize = 0;
            proof {
                assert(newline_from(b@, 0) == newline_from(b@, i as int));
            }
            while i < b.len() && b[i] != 10
                invariant
                    i <= b@.len(),
                    newline_from(b@, 0) == newline_from(b@, i as int),
                decreases b@.len() - i,
            {
                i = i + 1;
            }
            if i == b.len() {
                let e = vstd::slice::slice_subrange(b, 0, 0);
                assert(e@ =~= Seq::<u8>::empty());
                return e;
            }
            let ghost old_b = b@;
            b = vstd::slice::slice_subrange(b, i, b.len());
            assert(b@ =~= old_b.skip(i as int));
        } else if is_ws_exec(b[0]) {
            let ghost old_b = b@;
            b = vstd::slice::slice_subrange(b, 1, b.len());
            assert(b@ =~= old_b.skip(1));
        } else {
            return b;
        }
    }
}

/// The value of a string of decimal digits.
pub open spec fn dec_value(s: Seq<u8>) -> nat
    decreases s.len(),
{
    if s.len() == 0 {
        0
    } else {
        dec_value(s.drop_last()) * 10 + (s.last() - 48) as nat
    }
}

/// Every byte is a decimal digit.
pub open spec fn all_digits(s: Seq<u8>) -> bool {
    forall|i: int| 0 <= i < s.len() ==> 48 <= #[trigger] s[i] <= 57
}

/// What `str::parse::<u32>` gives for the bytes: an optional `'+'`, then at
/// least one digit, for a value that fits a `u32`.
pub open spec fn parse_u32(s: Seq<u8>) -> Option<u32> {
    let d = if s.len() > 0 && s[0] == 43 { s.skip(1) } else { s };
    if d.len() > 0 && all_digits(d) && dec_value(d) <= u32::MAX {
        Some(dec_value(d) as u32)
    } else {
        None
    }
}

proof fn lemma_dec_prefix_le(s: Seq<u8>, i: int)
    requires
        0 <= i <= s.len(),
        all_digits(s),
    ensures
        dec_value(s.take(i)) <= dec_value(s),
    decreases s.len() - i,
{
    if i < s.len() {
        lemma_dec_prefix_le(s, i + 1);
        assert(s.take(i + 1).drop_last() =~= s.take(i));
    } else {
        assert(s.take(i) =~= s);
    }
}

/// Parses an optionally `'+'`-prefixed decimal `u32`.
pub fn parse_u32_exec(s: &[u8]) -> (r: Option<u32>)
    ensures
        r == parse_u32(s@),
{
    let start: usize = if s.len() > 0 && s[0] == 43 { 1 } else { 0 };
    let ghost d = s@.skip(start as int);
    assert(s@.skip(0) =~= s@);
    if start >= s.len() {
        return None;
    }
    let mut v: u32 = 0;
    let mut i: usize = start;
    while i < s.len()
        invariant
            start <= i <= s@.len(),
            d == s@.skip(start as int),
            d == (if s@.len() > 0 && s@[0] == 43 { s@.skip(1) } else { s@ }),
            forall|j: int| 0 <= j < i - start ==> 48 <= #[trigger] d[j] <= 57,
            v == dec_value(d.take(i - start)),
        decreases s@.len() - i,
    {
        let c = s[i];
        if c < 48 || c > 57 {
            assert(d[i - start] == c);
            return None;
        }
        proof {
            assert(d.take(i - start + 1).drop_last() =~= d.take(i - start));
        }
        let m = match v.checked_mul(10) {
            Some(m) => m,
            None => {
                proof {
                    if all_digits(d) {
                        lemma_dec_prefix_le(d, i - start + 1);
                    }
                }
                return None;
            },
        };
        v = match m.checked_add((c - 48) as u32) {
            Some(x) => x,
            None => {
                proof {
                    if all_digits(d) {
                        lemma_dec_prefix_le(d, i - start + 1);
                    }
                }
                return None;
            },
        };
        i = i + 1;
    }
    proof {
        assert(d.take(i - start) =~= d);
        assert(all_digits(d));
    }
    Some(v)
}

/// Reading an unsigned number: the bytes up to the first whitespace (or the
/// end) parsed as a `u32`, and the bytes from that whitespace on.
pub open spec fn read_unsigned(s: Seq<u8>) -> Result<(u32, Seq<u8>), NetpbmError> {
    let k = ws_from(s, 0);
    match parse_u32(s.take(k)) {
        Some(v) => Ok((v, s.skip(k))),
        None => Err(NetpbmError::CouldNotParseUnsigned),
    }
}

/// The index of the first whitespace byte, or the length.
fn token_end(bytes: &[u8]) -> (k: usize)
    ensures
        k == ws_from(bytes@, 0),
{
    let mut i: usize = 0;
    proof {
        assert(ws_from(bytes@, 0) == ws_from(bytes@, i as int));
    }
    while i < bytes.len() && !is_ws_exec(bytes[i])
        invariant
            i <= bytes@.len(),
            ws_from(bytes@, 0) == ws_from(bytes@, i as int),
        decreases bytes@.len() - i,
    {
        i = i + 1;
    }
    i
}

fn netpbm_read_ascii_unsigned(bytes: &[u8]) -> (r: Result<(u32, &[u8]), NetpbmError>)
    ensures
        match read_unsigned(bytes@) {
            Ok((v, rest)) => r matches Ok((u, rr)) && u == v && rr@ == rest,
            Err(e) => r == Err::<(u32, &[u8]), NetpbmError>(e),
        },
        r matches Ok((u, rr)) ==> rr@.len() <= bytes@.len(),
{
    let k = token_end(bytes);
    proof {
        lemma_ws_from_range(bytes@, 0);
    }
    let digits = vstd::slice::slice_subrange(bytes, 0, k);
    let rest = vstd::slice::slice_subrange(bytes, k, bytes.len());
    assert(digits@ =~= bytes@.take(k as int));
    assert(rest@ =~= bytes@.skip(k as int));
    match parse_u32_exec(digits) {
        Some(v) => Ok((v, rest)),
        None => Err(NetpbmError::CouldNotParseUnsigned),
    }
}

/// The tag at the start of a Netpbm file.
#[derive(Debug, Clone, Copy, PartialEq, Eq, Structural)]
pub enum NetpbmTag {
    P1,
    P2,
    P3,
    P4,
    P5,
    P6,
    P7,
    Pf,
    PF,
    PF4,
}

/// The tag of a file and the number of bytes it takes.
pub open spec fn spec_break_tag(s: Seq<u8>) -> Option<(NetpbmTag, int)> {
    if s.len() < 2 || s[0] != 80 {
        None
    } else if s[1] == 49 {
        Some((NetpbmTag::P1, 2))
    } else if s[1] == 50 {
        Some((NetpbmTag::P2, 2))
    } else if s[1] == 51 {
        Some((NetpbmTag::P3, 2))
    } else if s[1] == 52 {
        Some((NetpbmTag::P4, 2))
    } else if s[1] == 53 {
        Some((NetpbmTag::P5, 2))
    } else if s[1] == 54 {
        Some((NetpbmTag::P6, 2))
    } else if s[1] == 55 {
        Some((NetpbmTag::P7, 2))
    } else if s[1] == 102 {
        Some((NetpbmTag::Pf, 2))
    } else if s[1] == 70 {
        if s.len() >= 3 && s[2] == 52 { Some((NetpbmTag::PF4, 3)) } else { Some((NetpbmTag::PF, 2)) }
    } else {
        None
    }
}

fn netpbm_break_tag(netpbm: &[u8]) -> (r: Option<(NetpbmTag, usize)>)
    ensures
        match spec_break_tag(netpbm@) {
            Some((t, n)) => r == Some((t, n as usize)),
            None => r is None,
        },
{
    if netpbm.len() < 2 || netpbm[0] != 80 {
        return None;
    }
    let c = netpbm[1];
    if c == 49 {
        Some((NetpbmTag::P1, 2))
    } else if c == 50 {
        Some((NetpbmTag::P2, 2))
    } else if c == 51 {
        Some((NetpbmTag::P3, 2))
    } else if c == 52 {
        Some((NetpbmTag::P4, 2))
    } else if c == 53 {
        Some((NetpbmTag::P5, 2))
    } else if c == 54 {
        Some((NetpbmTag::P6, 2))
    } else if c == 55 {
        Some((NetpbmTag::P7, 2))
    } else if c == 102 {
        Some((NetpbmTag::Pf, 2))
    } else if c == 70 {
        if netpbm.len() >= 3 && netpbm[2] == 52 {
            Some((NetpbmTag::PF4, 3))
        } else {
            Some((NetpbmTag::PF, 2))
        }
    } else {
        None
    }
}

/// `s` begins with `lit`.
pub open spec fn starts_with(s: Seq<u8>, lit: Seq<u8>) -> bool {
    s.len() >= lit.len() && s.take(lit.len() as int) == lit
}

fn starts_with_exec(s: &[u8], lit: &[u8]) -> (r: bool)
    ensures
        r == starts_with(s@, lit@),
{
    if s.len() < lit.len() {
        return false;
    }
    let mut i: usize = 0;
    while i < lit.len()
        invariant
            i <= lit@.len() <= s@.len(),
            forall|j: int| 0 <= j < i ==> s@[j] == lit@[j],
        decreases lit@.len() - i,
    {
        if s[i] != lit[i] {
            assert(s@.take(lit@.len() as int)[i as int] != lit@[i as int]);
            return false;
        }
        i = i + 1;
    }
    assert(s@.take(lit@.len() as int) =~= lit@);
    true
}

/// "WIDTH "
pub open spec fn lit_width() -> Seq<u8> { seq![87u8, 73, 68, 84, 72, 32] }
/// "HEIGHT "
pub open spec fn lit_height() -> Seq<u8> { seq![72u8, 69, 73, 71, 72, 84, 32] }
/// "DEPTH "
pub open spec fn lit_depth() -> Seq<u8> { seq![68u8, 69, 80, 84, 72, 32] }
/// "MAXVAL "
pub open spec fn lit_maxval() -> Seq<u8> { seq![77u8, 65, 88, 86, 65, 76, 32] }
/// "TUPLTYPE "
pub open spec fn lit_tupltype() -> Seq<u8> { seq![84u8, 85, 80, 76, 84, 89, 80, 69, 32] }
/// "ENDHDR\n"
pub open spec fn lit_endhdr_lf() -> Seq<u8> { seq![69u8, 78, 68, 72, 68, 82, 10] }
/// "ENDHDR\r\n"
pub open spec fn lit_endhdr_crlf() -> Seq<u8> { seq![69u8, 78, 68, 72, 68, 82, 13, 10] }
/// "BLACKANDWHITE"
pub open spec fn lit_bw() -> Seq<u8> { seq![66u8, 76, 65, 67, 75, 65, 78, 68, 87, 72, 73, 84, 69] }
/// "GRAYSCALE"
pub open spec fn lit_gray() -> Seq<u8> { seq![71u8, 82, 65, 89, 83, 67, 65, 76, 69] }
/// "RGB"
pub open spec fn lit_rgb() -> Seq<u8> { seq![82u8, 71, 66] }
/// "BLACKANDWHITE_ALPHA"
pub open spec fn lit_bw_alpha() -> Seq<u8> { lit_bw() + seq![95u8, 65, 76, 80, 72, 65] }
/// "GRAYSCALE_ALPHA"
pub open spec fn lit_gray_alpha() -> Seq<u8> { lit_gray() + seq![95u8, 65, 76, 80, 72, 65] }
/// "RGB_ALPHA"
pub open spec fn lit_rgb_alpha() -> Seq<u8> { lit_rgb() + seq![95u8, 65, 76, 80, 72, 65] }

/// The data format a PAM tuple type names, for its depth and maximum.
pub open spec fn pam_format(tok: Seq<u8>, depth: u32, max: u32) -> Option<NetpbmDataFormat> {
    if tok == lit_bw() && depth == 1 && max == 1 {
        Some(NetpbmDataFormat::Binary_Y_U8 { max: 1 })
    } else if tok == lit_gray() && depth == 1 {
        Some(if max <= 255 { NetpbmDataFormat::Binary_Y_U8 { max: max as u8 } } else { NetpbmDataFormat::Binary_Y_U16BE { max: max as u16 } })
    } else if tok == lit_rgb() && depth == 3 {
        Some(if max <= 255 { NetpbmDataFormat::Binary_RGB_U8 { max: max as u8 } } else { NetpbmDataFormat::Binary_RGB_U16BE { max: max as u16 } })
    } else if tok == lit_bw_alpha() && depth == 2 && max == 1 {
        Some(NetpbmDataFormat::Binary_Y_U8 { max: 1 })
    } else if tok == lit_gray_alpha() && depth == 2 {
        Some(if max <= 255 { NetpbmDataFormat::Binary_YA_U8 { max: max as u8 } } else { NetpbmDataFormat::Binary_YA_U16BE { max: max as u16 } })
    } else if tok == lit_rgb_alpha() && depth == 4 {
        Some(if max <= 255 { NetpbmDataFormat::Binary_RGBA_U8 { max: max as u8 } } else { NetpbmDataFormat::Binary_RGBA_U16BE { max: max as u16 } })
    } else {
        None
    }
}

/// Reads `lit` then an unsigned number, after trimming.
pub open spec fn keyed_unsigned(s: Seq<u8>, lit: Seq<u8>) -> Result<(u32, Seq<u8>), NetpbmError> {
    let t = trim(s);
    if !starts_with(t, lit) {
        Err(NetpbmError::HeaderIllegalFormat)
    } else {
        read_unsigned(t.skip(lit.len() as int))
    }
}

/// The header of a PAM (`P7`) file whose tag has been removed, and the pixel
/// data after it.
pub open spec fn spec_pam_header(r0: Seq<u8>) -> Result<(NetpbmHeader, Seq<u8>), NetpbmError> {
    match keyed_unsigned(r0, lit_width()) {
        Err(e) => Err(e),
        Ok((width, r1)) => match keyed_unsigned(r1, lit_height()) {
            Err(e) => Err(e),
            Ok((height, r2)) => match keyed_unsigned(r2, lit_depth()) {
                Err(e) => Err(e),
                Ok((depth, r3)) => match keyed_unsigned(r3, lit_maxval()) {
                    Err(e) => Err(e),
                    Ok((max, r4)) => if max > 65535 {
                        Err(NetpbmError::MaxValueExceedsU16)
                    } else {
                        let t5 = trim(r4);
                        if !starts_with(t5, lit_tupltype()) {
                            Err(NetpbmError::HeaderIllegalFormat)
                        } else {
                            let body = t5.skip(9);
                            let k = ws_from(body, 0);
                            match pam_format(body.take(k), depth, max) {
                                None => Err(NetpbmError::HeaderIllegalFormat),
                                Some(f) => if k >= body.len() {
                                    Err(NetpbmError::HeaderIllegalFormat)
                                } else {
                                    let t6 = trim(body.skip(k + 1));
                                    let hd = NetpbmHeader { width, height, data_format: f };
                                    if starts_with(t6, lit_endhdr_lf()) {
                                        Ok((hd, t6.skip(7)))
                                    } else if starts_with(t6, lit_endhdr_crlf()) {
                                        Ok((hd, t6.skip(8)))
                                    } else {
                                        Err(NetpbmError::HeaderIllegalFormat)
                                    }
                                },
                            }
                        }
                    },
                },
            },
        },
    }
}

/// A header maximum for `u8` or `u16` samples.
pub open spec fn y_format(ascii: bool, max: u32) -> NetpbmDataFormat {
    if ascii {
        if max <= 255 { NetpbmDataFormat::Ascii_Y_U8 { max: max as u8 } } else { NetpbmDataFormat::Ascii_Y_U16 { max: max as u16 } }
    } else {
        if max <= 255 { NetpbmDataFormat::Binary_Y_U8 { max: max as u8 } } else { NetpbmDataFormat::Binary_Y_U16BE { max: max as u16 } }
    }
}

/// A header maximum for RGB samples of `u8` or `u16`.
pub open spec fn rgb_format(ascii: bool, max: u32) -> NetpbmDataFormat {
    if ascii {
        if max <= 255 { NetpbmDataFormat::Ascii_RGB_U8 { max: max as u8 } } else { NetpbmDataFormat::Ascii_RGB_U16 { max: max as u16 } }
    } else {
        if max <= 255 { NetpbmDataFormat::Binary_RGB_U8 { max: max as u8 } } else { NetpbmDataFormat::Binary_RGB_U16BE { max: max as u16 } }
    }
}

/// The header of a Netpbm file and its pixel data. The binary formats give
/// the bytes after the single separator byte that follows the header
/// (`InsufficientBytes` when there is none); the floating point formats give
/// the position of their scale token in `s` (see `NetpbmDataFormat`).
pub open spec fn spec_parse_header(s: Seq<u8>) -> Result<(NetpbmHeader, Seq<u8>), NetpbmError> {
    match spec_break_tag(s) {
        None => Err(NetpbmError::NoTagPresent),
        Some((tag, tl)) => {
            let r0 = s.skip(tl);
            if tag is P7 {
                spec_pam_header(r0)
            } else {
                match read_unsigned(trim(r0)) {
                    Err(e) => Err(e),
                    Ok((width, r1)) => match read_unsigned(trim(r1)) {
                        Err(e) => Err(e),
                        Ok((height, r2)) => {
                            let hd = |f: NetpbmDataFormat| NetpbmHeader { width, height, data_format: f };
                            if tag is P1 {
                                Ok((hd(NetpbmDataFormat::Ascii_Y_1bpp), trim(r2)))
                            } else if tag is P4 {
                                if r2.len() == 0 { Err(NetpbmError::InsufficientBytes) } else { Ok((hd(NetpbmDataFormat::Binary_Y_1bpp), r2.skip(1))) }
                            } else if tag is P2 || tag is P3 || tag is P5 || tag is P6 {
                                match read_unsigned(trim(r2)) {
                                    Err(e) => Err(e),
                                    Ok((max, r3)) => if tag is P2 {
                                        Ok((hd(y_format(true, max)), trim(r3)))
                                    } else if tag is P3 {
                                        Ok((hd(rgb_format(true, max)), trim(r3)))
                                    } else if r3.len() == 0 {
                                        Err(NetpbmError::InsufficientBytes)
                                    } else if tag is P5 {
                                        Ok((hd(y_format(false, max)), r3.skip(1)))
                                    } else {
                                        Ok((hd(rgb_format(false, max)), r3.skip(1)))
                                    },
                                }
                            } else {
                                let t = trim(r2);
                                let k = ws_from(t, 0);
                                let start = (s.len() - t.len()) as usize;
                                let end = (s.len() - t.len() + k) as usize;
                                if k >= t.len() {
                                    Err(NetpbmError::InsufficientBytes)
                                } else if tag is Pf {
                                    Ok((hd(NetpbmDataFormat::Binary_Y_F32 { scale_start: start, scale_end: end }), t.skip(k + 1)))
                                } else if tag is PF {
                                    Ok((hd(NetpbmDataFormat::Binary_RGB_F32 { scale_start: start, scale_end: end }), t.skip(k + 1)))
                                } else {
                                    Ok((hd(NetpbmDataFormat::Binary_RGBA_F32 { scale_start: start, scale_end: end }), t.skip(k + 1)))
                                }
                            }
                        },
                    },
                }
            }
        },
    }
}

/// What a spec result of reading a number says of an exec one.
pub open spec fn same_read(r: Result<(u32, &[u8]), NetpbmError>, spec: Result<(u32, Seq<u8>), NetpbmError>) -> bool {
    match spec {
        Ok((v, rest)) => r matches Ok((u, rr)) && u == v && rr@ == rest,
        Err(e) => r == Err::<(u32, &[u8]), NetpbmError>(e),
    }
}

fn keyed_unsigned_exec<'a>(s: &'a [u8], lit: &[u8]) -> (r: Result<(u32, &'a [u8]), NetpbmError>)
    ensures
        same_read(r, keyed_unsigned(s@, lit@)),
{
    let t = netpbm_trim_comments_and_whitespace(s);
    if !starts_with_exec(t, lit) {
        return Err(NetpbmError::HeaderIllegalFormat);
    }
    let body = vstd::slice::slice_subrange(t, lit.len(), t.len());
    assert(body@ =~= t@.skip(lit@.len() as int));
    netpbm_read_ascii_unsigned(body)
}

fn eq_bytes(a: &[u8], b: &[u8]) -> (r: bool)
    ensures
        r == (a@ == b@),
{
    if a.len() != b.len() {
        return false;
    }
    let r = starts_with_exec(a, b);
    proof {
        assert(a@.take(b@.len() as int) =~= a@);
    }
    r
}

fn pam_format_exec(tok: &[u8], depth: u32, max: u32) -> (r: Option<NetpbmDataFormat>)
    ensures
        r == pam_format(tok@, depth, max),
{
    let bw: [u8; 13] = [66, 76, 65, 67, 75, 65, 78, 68, 87, 72, 73, 84, 69];
    let gray: [u8; 9] = [71, 82, 65, 89, 83, 67, 65, 76, 69];
    let rgb: [u8; 3] = [82, 71, 66];
    let bw_a: [u8; 19] = [66, 76, 65, 67, 75, 65, 78, 68, 87, 72, 73, 84, 69, 95, 65, 76, 80, 72, 65];
    let gray_a: [u8; 15] = [71, 82, 65, 89, 83, 67, 65, 76, 69, 95, 65, 76, 80, 72, 65];
    let rgb_a: [u8; 9] = [82, 71, 66, 95, 65, 76, 80, 72, 65];
    assert(bw@ =~= lit_bw());
    assert(gray@ =~= lit_gray());
    assert(rgb@ =~= lit_rgb());
    assert(bw_a@ =~= lit_bw_alpha());
    assert(gray_a@ =~= lit_gray_alpha());
    assert(rgb_a@ =~= lit_rgb_alpha());
    if eq_bytes(tok, bw.as_slice()) && depth == 1 && max == 1 {
        Some(NetpbmDataFormat::Binary_Y_U8 { max: 1 })
    } else if eq_bytes(tok, gray.as_slice()) && depth == 1 {
        Some(if max <= 255 { NetpbmDataFormat::Binary_Y_U8 { max: max as u8 } } else { NetpbmDataFormat::Binary_Y_U16BE { max: max as u16 } })
    } else if eq_bytes(tok, rgb.as_slice()) && depth == 3 {
        Some(if max <= 255 { NetpbmDataFormat::Binary_RGB_U8 { max: max as u8 } } else { NetpbmDataFormat::Binary_RGB_U16BE { max: max as u16 } })
    } else if eq_bytes(tok, bw_a.as_slice()) && depth == 2 && max == 1 {
        Some(NetpbmDataFormat::Binary_Y_U8 { max: 1 })
    } else if eq_bytes(tok, gray_a.as_slice()) && depth == 2 {
        Some(if max <= 255 { NetpbmDataFormat::Binary_YA_U8 { max: max as u8 } } else { NetpbmDataFormat::Binary_YA_U16BE { max: max as u16 } })
    } else if eq_bytes(tok, rgb_a.as_slice()) && depth == 4 {
        Some(if max <= 255 { NetpbmDataFormat::Binary_RGBA_U8 { max: max as u8 } } else { NetpbmDataFormat::Binary_RGBA_U16BE { max: max as u16 } })
    } else {
        None
    }
}

/// The result of a header parse as the spec sees it.
pub open spec fn same_header(r: Result<(NetpbmHeader, &[u8]), NetpbmError>, spec: Result<(NetpbmHeader, Seq<u8>), NetpbmError>) -> bool {
    match spec {
        Ok((h, rest)) => r matches Ok((hh, rr)) && hh == h && rr@ == rest,
        Err(e) => r == Err::<(NetpbmHeader, &[u8]), NetpbmError>(e),
    }
}

fn pam_header(r0: &[u8]) -> (r: Result<(NetpbmHeader, &[u8]), NetpbmError>)
    ensures
        same_header(r, spec_pam_header(r0@)),
{
    let k_width: [u8; 6] = [87, 73, 68, 84, 72, 32];
    let k_height: [u8; 7] = [72, 69, 73, 71, 72, 84, 32];
    let k_depth: [u8; 6] = [68, 69, 80, 84, 72, 32];
    let k_max: [u8; 7] = [77, 65, 88, 86, 65, 76, 32];
    let k_tupl: [u8; 9] = [84, 85, 80, 76, 84, 89, 80, 69, 32];
    let k_end_lf: [u8; 7] = [69, 78, 68, 72, 68, 82, 10];
    let k_end_crlf: [u8; 8] = [69, 78, 68, 72, 68, 82, 13, 10];
    assert(k_width@ =~= lit_width());
    assert(k_height@ =~= lit_height());
    assert(k_depth@ =~= lit_depth());
    assert(k_max@ =~= lit_maxval());
    assert(k_tupl@ =~= lit_tupltype());
    assert(k_end_lf@ =~= lit_endhdr_lf());
    assert(k_end_crlf@ =~= lit_endhdr_crlf());
    let (width, r1) = match keyed_unsigned_exec(r0, k_width.as_slice()) {
        Ok(p) => p,
        Err(e) => {
            return Err(e);
        },
    };
    let (height, r2) = match keyed_unsigned_exec(r1, k_height.as_slice()) {
        Ok(p) => p,
        Err(e) => {
            return Err(e);
        },
    };
    let (depth, r3) = match keyed_unsigned_exec(r2, k_depth.as_slice()) {
        Ok(p) => p,
        Err(e) => {
            return Err(e);
        },
    };
    let (max, r4) = match keyed_unsigned_exec(r3, k_max.as_slice()) {
        Ok(p) => p,
        Err(e) => {
            return Err(e);
        },
    };
    if max > 65535 {
        return Err(NetpbmError::MaxValueExceedsU16);
    }
    let t5 = netpbm_trim_comments_and_whitespace(r4);
    if !starts_with_exec(t5, k_tupl.as_slice()) {
        return Err(NetpbmError::HeaderIllegalFormat);
    }
    let body = vstd::slice::slice_subrange(t5, 9, t5.len());
    assert(body@ =~= t5@.skip(9));
    let k = token_end(body);
    proof {
        lemma_ws_from_range(body@, 0);
    }
    let tok = vstd::slice::slice_subrange(body, 0, k);
    assert(tok@ =~= body@.take(k as int));
    let f = match pam_format_exec(tok, depth, max) {
        Some(f) => f,
        None => {
            return Err(NetpbmError::HeaderIllegalFormat);
        },
    };
    if k >= body.len() {
        return Err(NetpbmError::HeaderIllegalFormat);
    }
    let after = vstd::slice::slice_subrange(body, k + 1, body.len());
    assert(after@ =~= body@.skip(k + 1));
    let t6 = netpbm_trim_comments_and_whitespace(after);
    let hd = NetpbmHeader { width, height, data_format: f };
    if starts_with_exec(t6, k_end_lf.as_slice()) {
        let px = vstd::slice::slice_subrange(t6, 7, t6.len());
        assert(px@ =~= t6@.skip(7));
        Ok((hd, px))
    } else if starts_with_exec(t6, k_end_crlf.as_slice()) {
        let px = vstd::slice::slice_subrange(t6, 8, t6.len());
        assert(px@ =~= t6@.skip(8));
        Ok((hd, px))
    } else {
        Err(NetpbmError::HeaderIllegalFormat)
    }
}

/// Parses a Netpbm header, giving it and the pixel data bytes.
///
/// The binary formats' pixel data starts after the one separator byte that
/// follows the header; a file that ends before it fails with
/// `InsufficientBytes`.
pub fn netpbm_parse_header(netpbm: &[u8]) -> (r: Result<(NetpbmHeader, &[u8]), NetpbmError>)
    ensures
        same_header(r, spec_parse_header(netpbm@)),
{
    let (tag, tl) = match netpbm_break_tag(netpbm) {
        Some(p) => p,
        None => {
            return Err(NetpbmError::NoTagPresent);
        },
    };
    let r0 = vstd::slice::slice_subrange(netpbm, tl, netpbm.len());
    assert(r0@ =~= netpbm@.skip(tl as int));
    if let NetpbmTag::P7 = tag {
        return pam_header(r0);
    }
    let (width, r1) = match netpbm_read_ascii_unsigned(netpbm_trim_comments_and_whitespace(r0)) {
        Ok(p) => p,
        Err(e) => {
            return Err(e);
        },
    };
    let (height, r2) = match netpbm_read_ascii_unsigned(netpbm_trim_comments_and_whitespace(r1)) {
        Ok(p) => p,
        Err(e) => {
            return Err(e);
        },
    };
    match tag {
        NetpbmTag::P1 => {
            let px = netpbm_trim_comments_and_whitespace(r2);
            Ok((NetpbmHeader { width, height, data_format: NetpbmDataFormat::Ascii_Y_1bpp }, px))
        },
        NetpbmTag::P4 => {
            if r2.len() == 0 {
                return Err(NetpbmError::InsufficientBytes);
            }
            let px = vstd::slice::slice_subrange(r2, 1, r2.len());
            assert(px@ =~= r2@.skip(1));
            Ok((NetpbmHeader { width, height, data_format: NetpbmDataFormat::Binary_Y_1bpp }, px))
        },
        NetpbmTag::P2 | NetpbmTag::P3 | NetpbmTag::P5 | NetpbmTag::P6 => {
            let (max, r3) = match netpbm_read_ascii_unsigned(netpbm_trim_comments_and_whitespace(r2)) {
                Ok(p) => p,
                Err(e) => {
                    return Err(e);
                },
            };
            match tag {
                NetpbmTag::P2 | NetpbmTag::P3 => {
                    let f = if let NetpbmTag::P2 = tag {
                        if max <= 255 { NetpbmDataFormat::Ascii_Y_U8 { max: max as u8 } } else { NetpbmDataFormat::Ascii_Y_U16 { max: max as u16 } }
                    } else {
                        if max <= 255 { NetpbmDataFormat::Ascii_RGB_U8 { max: max as u8 } } else { NetpbmDataFormat::Ascii_RGB_U16 { max: max as u16 } }
                    };
                    Ok((NetpbmHeader { width, height, data_format: f }, netpbm_trim_comments_and_whitespace(r3)))
                },
                _ => {
                    if r3.len() == 0 {
                        return Err(NetpbmError::InsufficientBytes);
                    }
                    let f = if let NetpbmTag::P5 = tag {
                        if max <= 255 { NetpbmDataFormat::Binary_Y_U8 { max: max as u8 } } else { NetpbmDataFormat::Binary_Y_U16BE { max: max as u16 } }
                    } else {
                        if max <= 255 { NetpbmDataFormat::Binary_RGB_U8 { max: max as u8 } } else { NetpbmDataFormat::Binary_RGB_U16BE { max: max as u16 } }
                    };
                    let px = vstd::slice::slice_subrange(r3, 1, r3.len());
                    assert(px@ =~= r3@.skip(1));
                    Ok((NetpbmHeader { width, height, data_format: f }, px))
                },
            }
        },
        _ => {
            let t = netpbm_trim_comments_and_whitespace(r2);
            let k = token_end(t);
            proof {
                lemma_ws_from_range(t@, 0);
            }
            let start = netpbm.len() - t.len();
            let end = start + k;
            if k >= t.len() {
                return Err(NetpbmError::InsufficientBytes);
            }
            let px = vstd::slice::slice_subrange(t, k + 1, t.len());
            assert(px@ =~= t@.skip(k + 1));
            let f = match tag {
                NetpbmTag::Pf => NetpbmDataFormat::Binary_Y_F32 { scale_start: start, scale_end: end },
                NetpbmTag::PF => NetpbmDataFormat::Binary_RGB_F32 { scale_start: start, scale_end: end },
                _ => NetpbmDataFormat::Binary_RGBA_F32 { scale_start: start, scale_end: end },
            };
            Ok((NetpbmHeader { width, height, data_format: f }, px))
        },
    }
}

/// Parses 1bpp ascii entries. Whitespace and comments are skipped, and no
/// whitespace is needed between entries: each `'0'` gives `Ok(false)`, each
/// `'1'` gives `Ok(true)`, anything else an error.
pub struct NetpbmAscii1bppIter<'b> {
    spare: &'b [u8],
}

impl<'b> NetpbmAscii1bppIter<'b> {
    /// The bytes not read yet.
    pub closed spec fn remaining(&self) -> Seq<u8> {
        self.spare@
    }

    /// Starts reading entries from `bytes`.
    pub fn new(bytes: &'b [u8]) -> (it: Self)
        ensures
            it.remaining() == trim(bytes@),
    {
        NetpbmAscii1bppIter { spare: netpbm_trim_comments_and_whitespace(bytes) }
    }

    /// The next entry, if any bytes are left.
    pub fn next(&mut self) -> (r: Option<Result<bool, NetpbmError>>)
        ensures
            old(self).remaining().len() == 0 ==> r is None && final(self).remaining() == old(self).remaining(),
            old(self).remaining().len() > 0 ==> {
                let b = old(self).remaining()[0];
                &&& r == Some(if b == 48 { Ok::<bool, NetpbmError>(false) } else if b == 49 { Ok(true) } else { Err(NetpbmError::CouldNotParseUnsigned) })
                &&& final(self).remaining() == trim(old(self).remaining().skip(1))
            },
    {
        if self.spare.len() == 0 {
            return None;
        }
        let b = self.spare[0];
        let out = if b == 48 {
            Ok(false)
        } else if b == 49 {
            Ok(true)
        } else {
            Err(NetpbmError::CouldNotParseUnsigned)
        };
        let tail = vstd::slice::slice_subrange(self.spare, 1, self.spare.len());
        assert(tail@ =~= self.spare@.skip(1));
        self.spare = netpbm_trim_comments_and_whitespace(tail);
        Some(out)
    }
}

/// Parses `u8` ascii entries.
pub struct NetpbmAsciiU8Iter<'b> {
    spare: &'b [u8],
}

impl<'b> NetpbmAsciiU8Iter<'b> {
    /// The bytes not read yet.
    pub closed spec fn remaining(&self) -> Seq<u8> {
        self.spare@
    }

    /// Starts reading entries from `bytes`.
    pub fn new(bytes: &'b [u8]) -> (it: Self)
        ensures
            it.remaining() == trim(bytes@),
    {
        NetpbmAsciiU8Iter { spare: netpbm_trim_comments_and_whitespace(bytes) }
    }

    /// The next entry, if any bytes are left. An entry that can't be read
    /// is reported without moving on.
    pub fn next(&mut self) -> (r: Option<Result<u8, NetpbmError>>)
        ensures
            old(self).remaining().len() == 0 ==> r is None && final(self).remaining() == old(self).remaining(),
            old(self).remaining().len() > 0 ==> match read_unsigned(old(self).remaining()) {
                Ok((u, rest)) => final(self).remaining() == trim(rest)
                    && r == Some(if u <= 255 { Ok::<u8, NetpbmError>(u as u8) } else { Err(NetpbmError::IntegerExceedsMaxValue) }),
                Err(e) => final(self).remaining() == old(self).remaining() && r == Some(Err::<u8, NetpbmError>(e)),
            },
    {
        if self.spare.len() == 0 {
            return None;
        }
        match netpbm_read_ascii_unsigned(self.spare) {
            Ok((u, rest)) => {
                self.spare = netpbm_trim_comments_and_whitespace(rest);
                if u <= 255 {
                    Some(Ok(u as u8))
                } else {
                    Some(Err(NetpbmError::IntegerExceedsMaxValue))
                }
            },
            Err(e) => Some(Err(e)),
        }
    }
}

/// Parses `u16` ascii entries.
pub struct NetpbmAsciiU16Iter<'b> {
    spare: &'b [u8],
}

impl<'b> NetpbmAsciiU16Iter<'b> {
    /// The bytes not read yet.
    pub closed spec fn remaining(&self) -> Seq<u8> {
        self.spare@
    }

    /// Starts reading entries from `bytes`.
    pub fn new(bytes: &'b [u8]) -> (it: Self)
        ensures
            it.remaining() == trim(bytes@),
    {
        NetpbmAsciiU16Iter { spare: netpbm_trim_comments_and_whitespace(bytes) }
    }

    /// The next entry, if any bytes are left. An entry that can't be read
    /// is reported without moving on.
    pub fn next(&mut self) -> (r: Option<Result<u16, NetpbmError>>)
        ensures
            old(self).remaining().len() == 0 ==> r is None && final(self).remaining() == old(self).remaining(),
            old(self).remaining().len() > 0 ==> match read_unsigned(old(self).remaining()) {
                Ok((u, rest)) => final(self).remaining() == trim(rest)
                    && r == Some(if u <= 65535 { Ok::<u16, NetpbmError>(u as u16) } else { Err(NetpbmError::IntegerExceedsMaxValue) }),
                Err(e) => final(self).remaining() == old(self).remaining() && r == Some(Err::<u16, NetpbmError>(e)),
            },
    {
        if self.spare.len() == 0 {
            return None;
        }
        match netpbm_read_ascii_unsigned(self.spare) {
            Ok((u, rest)) => {
                self.spare = netpbm_trim_comments_and_whitespace(rest);
                if u <= 65535 {
                    Some(Ok(u as u16))
                } else {
                    Some(Err(NetpbmError::IntegerExceedsMaxValue))
                }
            },
            Err(e) => Some(Err(e)),
        }
    }
}

} // verus!
