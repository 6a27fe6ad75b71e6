//! The simpler Netpbm reading functions, for the `P1` through `P6` formats.
//!
//! * `P2` and `P3` can have any maximum that fits in `u32`.
//! * `P5` and `P6` can have any maximum that fits in `u8`.
//!
//! [`netpbm_try_bitmap_rgb`] gives a whole image in one call.
use vstd::prelude::*;
use crate::error::ImagineError;
use crate::image::Bitmap;
use crate::iterators::{bits_high_to_low, iter_1bpp_high_to_low};
use crate::netpbm::{is_ws, parse_u32, parse_u32_exec};
use crate::bmp::paint::{resized, resize_to};

verus! {

/// Header info for a `P1` to `P6` file.
#[derive(Debug, Clone, Copy, PartialEq, Eq, Structural)]
pub struct NetpbmHeader {
    /// The format of the bytes after the header: 1 ascii 1-bit, 2 ascii
    /// grayscale, 3 ascii rgb, 4 binary 1-bit, 5 binary grayscale, 6 binary
    /// rgb.
    pub tag: u8,
    /// Image width.
    pub width: u32,
    /// Image height.
    pub height: u32,
    /// Max value per channel entry.
    pub max: u32,
}

/// A color whose channels are `value / max` fractions.
#[derive(Debug, Clone, Copy, PartialEq, Eq, Structural)]
pub struct NetpbmRgb {
    pub r: u32,
    pub g: u32,
    pub b: u32,
    pub max: u32,
}

/// The tag number (the byte after `'P'`, minus `'0'`, wrapping) and the rest.
pub open spec fn spec_pull_tag(s: Seq<u8>) -> Result<(u8, Seq<u8>), ImagineError> {
    if s.len() >= 2 && s[0] == 80 {
        Ok((((s[1] as int - 48) % 256) as u8, s.skip(2)))
    } else {
        Err(ImagineError::Parse)
    }
}

/// Pulls the tag off the front of the bytes.
pub fn netpbm_pull_tag(bytes: &[u8]) -> (r: Result<(u8, &[u8]), ImagineError>)
    ensures
        match spec_pull_tag(bytes@) {
            Ok((t, rest)) => r matches Ok((tt, rr)) && tt == t && rr@ == rest,
            Err(e) => r == Err::<(u8, &[u8]), ImagineError>(e),
        },
{
    if bytes.len() >= 2 && bytes[0] == 80 {
        let rest = vstd::slice::slice_subrange(bytes, 2, bytes.len());
        assert(rest@ =~= bytes@.skip(2));
        Ok((bytes[1].wrapping_sub(48), rest))
    } else {
        Err(ImagineError::Parse)
    }
}

/// The index of the first byte of `s` at or after `i` that is `b`.
pub open spec fn index_from(s: Seq<u8>, b: u8, i: int) -> Option<int>
    decreases s.len() - i,
{
    if i < 0 || i >= s.len() {
        None
    } else if s[i] == b {
        Some(i)
    } else {
        index_from(s, b, i + 1)
    }
}

pub proof fn lemma_index_from_range(s: Seq<u8>, b: u8, i: int)
    requires
        0 <= i,
    ensures
        index_from(s, b, i) matches Some(k) ==> i <= k < s.len() && s[k] == b,
        index_from(s, b, i) is None ==> forall|j: int| i <= j < s.len() ==> s[j] != b,
    decreases s.len() - i,
{
    if i < s.len() && s[i] != b {
        lemma_index_from_range(s, b, i + 1);
    }
}

fn find_byte(s: &[u8], b: u8) -> (r: Option<usize>)
    ensures
        match index_from(s@, b, 0) {
            Some(k) => r == Some(k as usize),
            None => r is None,
        },
{
    let mut i: usize = 0;
    while i < s.len()
        invariant
            i <= s@.len(),
            index_from(s@, b, 0) == index_from(s@, b, i as int),
        decreases s@.len() - i,
    {
        if s[i] == b {
            return Some(i);
        }
        i = i + 1;
    }
    None
}

/// The bytes after the first `'\n'` (nothing if there is none).
pub open spec fn after_eol(s: Seq<u8>) -> Seq<u8> {
    match index_from(s, 10, 0) {
        Some(k) => s.skip(k + 1),
        None => Seq::empty(),
    }
}

pub proof fn lemma_after_eol_len(s: Seq<u8>)
    ensures
        after_eol(s).len() <= s.len(),
{
    lemma_index_from_range(s, 10, 0);
}

fn trim_to_eol(bytes: &[u8]) -> (r: &[u8])
    ensures
        r@ == after_eol(bytes@),
{
    proof {
        lemma_index_from_range(bytes@, 10, 0);
    }
    let n = bytes.len();
    match find_byte(bytes, 10) {
        Some(k) => {
            let r = vstd::slice::slice_subrange(bytes, k + 1, bytes.len());
            assert(r@ =~= bytes@.skip(k + 1));
            r
        },
        None => {
            let r = vstd::slice::slice_subrange(bytes, 0, 0);
            assert(r@ =~= Seq::<u8>::empty());
            r
        },
    }
}

/// What is left once leading whitespace and comments (through the end of
/// their line) are trimmed.
pub open spec fn pnm_trim(s: Seq<u8>) -> Seq<u8>
    decreases s.len(),
{
    if s.len() == 0 {
        s
    } else if is_ws(s[0]) {
        pnm_trim(s.skip(1))
    } else if s[0] == 35 {
        proof {
            lemma_after_eol_len(s.skip(1));
        }
        pnm_trim(after_eol(s.skip(1)))
    } else {
        s
    }
}

pub proof fn lemma_pnm_trim_len(s: Seq<u8>)
    ensures
        pnm_trim(s).len() <= s.len(),
    decreases s.len(),
{
    if s.len() > 0 {
        if is_ws(s[0]) {
            lemma_pnm_trim_len(s.skip(1));
        } else if s[0] == 35 {
            lemma_after_eol_len(s.skip(1));
            lemma_pnm_trim_len(after_eol(s.skip(1)));
        }
    }
}

/// Trims leading whitespace and comments from the bytes.
pub fn netpbm_trim(bytes: &[u8]) -> (r: &[u8])
    ensures
        r@ == pnm_trim(bytes@),
{
    let mut b = bytes;
    loop
        invariant
            pnm_trim(bytes@) == pnm_trim(b@),
        decreases b@.len(),
    {
        if b.len() == 0 {
            return b;
        }
        let c = b[0];
        if c == 32 || c == 9 || c == 10 || c == 12 || c == 13 {
            let ghost old_b = b@;
            b = vstd::slice::slice_subrange(b, 1, b.len());
            assert(b@ =~= old_b.skip(1));
        } else if c == 35 {
            let ghost old_b = b@;
            let tail = vstd::slice::slice_subrange(b, 1, b.len());
            assert(tail@ =~= old_b.skip(1));
            proof {
                lemma_after_eol_len(tail@);
            }
            b = trim_to_eol(tail);
        } else {
            return b;
        }
    }
}

/// A decimal digit.
pub open spec fn is_digit(b: u8) -> bool {
    48 <= b <= 57
}

/// Pulling a `u32`: the digits up to the first other byte (which must be
/// there), and the bytes after that byte.
pub open spec fn spec_pull_u32(s: Seq<u8>) -> Result<(u32, Seq<u8>), ImagineError> {
    match first_non_digit(s, 0) {
        None => Err(ImagineError::Parse),
        Some(k) => match parse_u32(s.take(k)) {
            Some(v) => Ok((v, s.skip(k + 1))),
            None => Err(ImagineError::Parse),
        },
    }
}

/// The index of the first byte at or after `i` that is not a digit.
pub open spec fn first_non_digit(s: Seq<u8>, i: int) -> Option<int>
    decreases s.len() - i,
{
    if i < 0 || i >= s.len() {
        None
    } else if !is_digit(s[i]) {
        Some(i)
    } else {
        first_non_digit(s, i + 1)
    }
}

pub proof fn lemma_first_non_digit(s: Seq<u8>, i: int)
    requires
        0 <= i,
    ensures
        first_non_digit(s, i) matches Some(k) ==> i <= k < s.len(),
    decreases s.len() - i,
{
    if i < s.len() && is_digit(s[i]) {
        lemma_first_non_digit(s, i + 1);
    }
}

pub proof fn lemma_pull_shrinks(s: Seq<u8>)
    ensures
        spec_pull_u32(s) matches Ok((v, t)) ==> t.len() < s.len(),
{
    lemma_first_non_digit(s, 0);
}

/// Pulls an ascii `u32` value off the front of the bytes; the byte that
/// ends the digits is dropped.
pub fn netpbm_pull_ascii_u32(bytes: &[u8]) -> (r: Result<(u32, &[u8]), ImagineError>)
    ensures
        match spec_pull_u32(bytes@) {
            Ok((v, rest)) => r matches Ok((u, rr)) && u == v && rr@ == rest,
            Err(e) => r == Err::<(u32, &[u8]), ImagineError>(e),
        },
{
    let mut i: usize = 0;
    while i < bytes.len() && 48 <= bytes[i] && bytes[i] <= 57
        invariant
            i <= bytes@.len(),
            first_non_digit(bytes@, 0) == first_non_digit(bytes@, i as int),
        decreases bytes@.len() - i,
    {
        i = i + 1;
    }
    if i == bytes.len() {
        return Err(ImagineError::Parse);
    }
    let digits = vstd::slice::slice_subrange(bytes, 0, i);
    let rest = vstd::slice::slice_subrange(bytes, i + 1, bytes.len());
    assert(digits@ =~= bytes@.take(i as int));
    assert(rest@ =~= bytes@.skip(i + 1));
    match parse_u32_exec(digits) {
        Some(v) => Ok((v, rest)),
        None => Err(ImagineError::Parse),
    }
}

/// The header of a `P1` to `P6` file and the pixel bytes after it: the ascii
/// formats' pixel bytes are trimmed, the binary formats' start after the
/// end of the header's line.
pub open spec fn spec_pull_header(s: Seq<u8>) -> Result<(NetpbmHeader, Seq<u8>), ImagineError> {
    match spec_pull_tag(s) {
        Err(e) => Err(e),
        Ok((tag, r0)) => if !(1 <= tag <= 6) {
            Err(ImagineError::Parse)
        } else {
            match spec_pull_u32(pnm_trim(r0)) {
                Err(e) => Err(e),
                Ok((width, r1)) => match spec_pull_u32(pnm_trim(r1)) {
                    Err(e) => Err(e),
                    Ok((height, r2)) => if tag == 1 {
                        Ok((NetpbmHeader { tag, width, height, max: 1 }, pnm_trim(r2)))
                    } else if tag == 4 {
                        Ok((NetpbmHeader { tag, width, height, max: 1 }, after_eol(r2)))
                    } else if tag == 2 || tag == 3 {
                        match spec_pull_u32(pnm_trim(r2)) {
                            Err(e) => Err(e),
                            Ok((max, r3)) => Ok((NetpbmHeader { tag, width, height, max }, pnm_trim(r3))),
                        }
                    } else {
                        match spec_pull_u32(r2) {
                            Err(e) => Err(e),
                            Ok((max, r3)) => Ok((NetpbmHeader { tag, width, height, max }, after_eol(r3))),
                        }
                    },
                },
            }
        },
    }
}

/// What a spec header result says of an exec one.
pub open spec fn same_pull(r: Result<(NetpbmHeader, &[u8]), ImagineError>, spec: Result<(NetpbmHeader, Seq<u8>), ImagineError>) -> bool {
    match spec {
        Ok((h, rest)) => r matches Ok((hh, rr)) && hh == h && rr@ == rest,
        Err(e) => r == Err::<(NetpbmHeader, &[u8]), ImagineError>(e),
    }
}

/// Gets the header from the Netpbm bytes, as well as the rest of the data.
pub fn netpbm_pull_header(bytes: &[u8]) -> (r: Result<(NetpbmHeader, &[u8]), ImagineError>)
    ensures
        same_pull(r, spec_pull_header(bytes@)),
{
    let (tag, r0) = match netpbm_pull_tag(bytes) {
        Ok(p) => p,
        Err(e) => {
            return Err(e);
        },
    };
    if !(1 <= tag && tag <= 6) {
        return Err(ImagineError::Parse);
    }
    let (width, r1) = match netpbm_pull_ascii_u32(netpbm_trim(r0)) {
        Ok(p) => p,
        Err(e) => {
            return Err(e);
        },
    };
    let (height, r2) = match netpbm_pull_ascii_u32(netpbm_trim(r1)) {
        Ok(p) => p,
        Err(e) => {
            return Err(e);
        },
    };
    if tag == 1 {
        Ok((NetpbmHeader { tag, width, height, max: 1 }, netpbm_trim(r2)))
    } else if tag == 4 {
        Ok((NetpbmHeader { tag, width, height, max: 1 }, trim_to_eol(r2)))
    } else if tag == 2 || tag == 3 {
        let (max, r3) = match netpbm_pull_ascii_u32(netpbm_trim(r2)) {
            Ok(p) => p,
            Err(e) => {
                return Err(e);
            },
        };
        Ok((NetpbmHeader { tag, width, height, max }, netpbm_trim(r3)))
    } else {
        let (max, r3) = match netpbm_pull_ascii_u32(r2) {
            Ok(p) => p,
            Err(e) => {
                return Err(e);
            },
        };
        Ok((NetpbmHeader { tag, width, height, max }, trim_to_eol(r3)))
    }
}

/// The entries of `P1` data: `'0'` or `'1'` each, trimmed between; reading
/// stops at anything else.
pub open spec fn p1_bits(s: Seq<u8>) -> Seq<bool>
    decreases s.len(),
{
    if s.len() > 0 && (s[0] == 48 || s[0] == 49) {
        proof {
            lemma_pnm_trim_len(s.skip(1));
        }
        seq![s[0] == 49] + p1_bits(pnm_trim(s.skip(1)))
    } else {
        Seq::empty()
    }
}

/// The numbers of `P2` data, trimmed between; reading stops at the first
/// one that can't be pulled.
pub open spec fn p2_values(s: Seq<u8>) -> Seq<u32>
    decreases s.len(),
{
    match spec_pull_u32(s) {
        Ok((v, t)) => {
            proof {
                lemma_pull_shrinks(s);
                lemma_pnm_trim_len(t);
            }
            seq![v] + p2_values(pnm_trim(t))
        },
        Err(_) => Seq::empty(),
    }
}

/// The triples of `P3` data; reading stops at the first incomplete one.
pub open spec fn p3_values(s: Seq<u8>) -> Seq<Seq<u32>>
    decreases s.len(),
{
    match spec_pull_u32(s) {
        Ok((r, t1)) => match spec_pull_u32(pnm_trim(t1)) {
            Ok((g, t2)) => match spec_pull_u32(pnm_trim(t2)) {
                Ok((b, t3)) => {
                    proof {
                        lemma_pull_shrinks(s);
                        lemma_pnm_trim_len(t1);
                        lemma_pull_shrinks(pnm_trim(t1));
                        lemma_pnm_trim_len(t2);
                        lemma_pull_shrinks(pnm_trim(t2));
                        lemma_pnm_trim_len(t3);
                    }
                    seq![seq![r, g, b]] + p3_values(pnm_trim(t3))
                },
                Err(_) => Seq::empty(),
            },
            Err(_) => Seq::empty(),
        },
        Err(_) => Seq::empty(),
    }
}

/// The triples of `P6` data; a partial last triple is padded with zeros.
pub open spec fn p6_values(s: Seq<u8>) -> Seq<Seq<u8>>
    decreases s.len(),
{
    if s.len() == 0 {
        Seq::empty()
    } else if s.len() >= 3 {
        seq![seq![s[0], s[1], s[2]]] + p6_values(s.skip(3))
    } else if s.len() == 2 {
        seq![seq![s[0], s[1], 0u8]]
    } else {
        seq![seq![s[0], 0u8, 0u8]]
    }
}

/// Iterates post-header `P1` data.
pub fn netpbm_iter_p1(bytes: &[u8]) -> (v: Vec<bool>)
    ensures
        v@ == p1_bits(bytes@),
{
    let mut v: Vec<bool> = Vec::new();
    let mut b = bytes;
    loop
        invariant
            v@ + p1_bits(b@) == p1_bits(bytes@),
        decreases b@.len(),
    {
        if b.len() > 0 && (b[0] == 48 || b[0] == 49) {
            let ghost old_b = b@;
            v.push(b[0] == 49);
            let tail = vstd::slice::slice_subrange(b, 1, b.len());
            assert(tail@ =~= old_b.skip(1));
            proof {
                lemma_pnm_trim_len(tail@);
            }
            b = netpbm_trim(tail);
            assert(v@ + p1_bits(b@) =~= v@.drop_last() + p1_bits(old_b));
        } else {
            assert(v@ + p1_bits(b@) =~= v@);
            return v;
        }
    }
}

/// Iterates post-header `P2` data.
pub fn netpbm_iter_p2(bytes: &[u8]) -> (v: Vec<u32>)
    ensures
        v@ == p2_values(bytes@),
{
    let mut v: Vec<u32> = Vec::new();
    let mut b = bytes;
    loop
        invariant
            v@ + p2_values(b@) == p2_values(bytes@),
        decreases b@.len(),
    {
        let ghost old_b = b@;
        match netpbm_pull_ascii_u32(b) {
            Ok((x, tail)) => {
                proof {
                    lemma_pull_shrinks(old_b);
                    lemma_pnm_trim_len(tail@);
                }
                v.push(x);
                b = netpbm_trim(tail);
                assert(v@ + p2_values(b@) =~= v@.drop_last() + p2_values(old_b));
            },
            Err(_) => {
                assert(v@ + p2_values(b@) =~= v@);
                return v;
            },
        }
    }
}

/// Iterates post-header `P3` data.
pub fn netpbm_iter_p3(bytes: &[u8]) -> (v: Vec<[u32; 3]>)
    ensures
        v@.map_values(|a: [u32; 3]| a@) == p3_values(bytes@),
{
    let mut v: Vec<[u32; 3]> = Vec::new();
    let mut b = bytes;
    loop
        invariant
            v@.map_values(|a: [u32; 3]| a@) + p3_values(b@) == p3_values(bytes@),
        decreases b@.len(),
    {
        let ghost old_b = b@;
        let ghost before = v@.map_values(|a: [u32; 3]| a@);
        let (r, t1) = match netpbm_pull_ascii_u32(b) {
            Ok(p) => p,
            Err(_) => {
                assert(before + p3_values(b@) =~= before);
                return v;
            },
        };
        let (g, t2) = match netpbm_pull_ascii_u32(netpbm_trim(t1)) {
            Ok(p) => p,
            Err(_) => {
                assert(before + p3_values(b@) =~= before);
                return v;
            },
        };
        let (bl, t3) = match netpbm_pull_ascii_u32(netpbm_trim(t2)) {
            Ok(p) => p,
            Err(_) => {
                assert(before + p3_values(b@) =~= before);
                return v;
            },
        };
        proof {
            lemma_pull_shrinks(old_b);
            lemma_pnm_trim_len(t1@);
            lemma_pull_shrinks(pnm_trim(t1@));
            lemma_pnm_trim_len(t2@);
            lemma_pull_shrinks(pnm_trim(t2@));
            lemma_pnm_trim_len(t3@);
        }
        let px: [u32; 3] = [r, g, bl];
        assert(px@ =~= seq![r, g, bl]);
        v.push(px);
        b = netpbm_trim(t3);
        assert(v@.map_values(|a: [u32; 3]| a@) =~= before.push(seq![r, g, bl]));
        assert(v@.map_values(|a: [u32; 3]| a@) + p3_values(b@) =~= before + p3_values(old_b));
    }
}

/// Iterates post-header `P4` data: every bit, high to low.
pub fn netpbm_iter_p4(bytes: &[u8]) -> (v: Vec<bool>)
    ensures
        v@ == bits_high_to_low(bytes@),
{
    iter_1bpp_high_to_low(bytes)
}

/// Iterates post-header `P5` data: the bytes themselves.
pub fn netpbm_iter_p5(bytes: &[u8]) -> (v: Vec<u8>)
    ensures
        v@ == bytes@,
{
    vstd::slice::slice_to_vec(bytes)
}

/// Iterates post-header `P6` data, three bytes at a time.
pub fn netpbm_iter_p6(bytes: &[u8]) -> (v: Vec<[u8; 3]>)
    ensures
        v@.map_values(|a: [u8; 3]| a@) == p6_values(bytes@),
{
    let mut v: Vec<[u8; 3]> = Vec::new();
    let mut b = bytes;
    loop
        invariant
            v@.map_values(|a: [u8; 3]| a@) + p6_values(b@) == p6_values(bytes@),
        decreases b@.len(),
    {
        let ghost before = v@.map_values(|a: [u8; 3]| a@);
        let ghost old_b = b@;
        let n = b.len();
        if n == 0 {
            assert(before + p6_values(b@) =~= before);
            return v;
        }
        let px: [u8; 3] = if n >= 3 { [b[0], b[1], b[2]] } else if n == 2 { [b[0], b[1], 0] } else { [b[0], 0, 0] };
        v.push(px);
        assert(v@.map_values(|a: [u8; 3]| a@) =~= before.push(px@));
        if n >= 3 {
            b = vstd::slice::slice_subrange(b, 3, n);
            assert(b@ =~= old_b.skip(3));
            assert(px@ =~= seq![old_b[0], old_b[1], old_b[2]]);
            assert(v@.map_values(|a: [u8; 3]| a@) + p6_values(b@) =~= before + p6_values(old_b));
        } else {
            if n == 2 {
                assert(px@ =~= seq![old_b[0], old_b[1], 0u8]);
            } else {
                assert(px@ =~= seq![old_b[0], 0u8, 0u8]);
            }
            assert(v@.map_values(|a: [u8; 3]| a@) =~= before + p6_values(old_b));
            return v;
        }
    }
}

/// The color of a 1-bit pixel: set is black, clear is white.
pub open spec fn bit_color(b: bool) -> NetpbmRgb {
    if b { NetpbmRgb { r: 0, g: 0, b: 0, max: 1 } } else { NetpbmRgb { r: 1, g: 1, b: 1, max: 1 } }
}

/// At most the first `n` items.
pub open spec fn take_n<A>(s: Seq<A>, n: nat) -> Seq<A> {
    if n < s.len() { s.take(n as int) } else { s }
}

/// The pixels of a `P1` to `P6` file, left to right and top to bottom: at
/// most `width * height` of them; data past that is ignored.
pub open spec fn spec_for_each_rgb(s: Seq<u8>) -> Result<Seq<NetpbmRgb>, ImagineError> {
    match spec_pull_header(s) {
        Err(e) => Err(e),
        Ok((h, rest)) => if h.width as int * h.height as int > u32::MAX {
            Err(ImagineError::CheckedMath)
        } else {
            let n = (h.width as int * h.height as int) as nat;
            let m = h.max;
            if h.tag == 1 {
                Ok(take_n(p1_bits(rest), n).map_values(|b: bool| bit_color(b)))
            } else if h.tag == 2 {
                Ok(take_n(p2_values(rest), n).map_values(|y: u32| NetpbmRgb { r: y, g: y, b: y, max: m }))
            } else if h.tag == 3 {
                Ok(take_n(p3_values(rest), n).map_values(|c: Seq<u32>| NetpbmRgb { r: c[0], g: c[1], b: c[2], max: m }))
            } else if h.tag == 4 {
                Ok(take_n(bits_high_to_low(rest), n).map_values(|b: bool| bit_color(b)))
            } else if h.tag == 5 {
                Ok(take_n(rest, n).map_values(|y: u8| NetpbmRgb { r: y as u32, g: y as u32, b: y as u32, max: m }))
            } else {
                Ok(take_n(p6_values(rest), n).map_values(|c: Seq<u8>| NetpbmRgb { r: c[0] as u32, g: c[1] as u32, b: c[2] as u32, max: m }))
            }
        },
    }
}

proof fn lemma_pull_header_tag(s: Seq<u8>)
    ensures
        spec_pull_header(s) matches Ok((h, rest)) ==> 1 <= h.tag <= 6,
{
}

/// Parses the file bytes for a header and gives its pixels, left to right
/// and top to bottom (see `spec_for_each_rgb`).
pub fn netpbm_for_each_rgb(bytes: &[u8]) -> (r: Result<Vec<NetpbmRgb>, ImagineError>)
    ensures
        match spec_for_each_rgb(bytes@) {
            Ok(px) => r matches Ok(v) && v@ == px,
            Err(e) => r == Err::<Vec<NetpbmRgb>, ImagineError>(e),
        },
{
    let (header, rest) = match netpbm_pull_header(bytes) {
        Ok(p) => p,
        Err(e) => {
            return Err(e);
        },
    };
    proof {
        lemma_pull_header_tag(bytes@);
    }
    let count = match header.width.checked_mul(header.height) {
        Some(c) => c,
        None => {
            return Err(ImagineError::CheckedMath);
        },
    };
    let n = count as usize;
    let m = header.max;
    let mut out: Vec<NetpbmRgb> = Vec::new();
    if header.tag == 1 || header.tag == 4 {
        let bits = if header.tag == 1 { netpbm_iter_p1(rest) } else { netpbm_iter_p4(rest) };
        let mut j: usize = 0;
        while j < bits.len() && j < n
            invariant
                j <= bits@.len(),
                j <= n,
                out@ == bits@.take(j as int).map_values(|b: bool| bit_color(b)),
            decreases bits@.len() - j,
        {
            out.push(if bits[j] { NetpbmRgb { r: 0, g: 0, b: 0, max: 1 } } else { NetpbmRgb { r: 1, g: 1, b: 1, max: 1 } });
            j = j + 1;
            assert(out@ =~= bits@.take(j as int).map_values(|b: bool| bit_color(b)));
        }
        assert(bits@.take(j as int) =~= take_n(bits@, n as nat));
    } else if header.tag == 2 {
        let vals = netpbm_iter_p2(rest);
        let mut j: usize = 0;
        while j < vals.len() && j < n
            invariant
                j <= vals@.len(),
                j <= n,
                out@ == vals@.take(j as int).map_values(|y: u32| NetpbmRgb { r: y, g: y, b: y, max: m }),
            decreases vals@.len() - j,
        {
            let y = vals[j];
            out.push(NetpbmRgb { r: y, g: y, b: y, max: m });
            j = j + 1;
            assert(out@ =~= vals@.take(j as int).map_values(|y: u32| NetpbmRgb { r: y, g: y, b: y, max: m }));
        }
        assert(vals@.take(j as int) =~= take_n(vals@, n as nat));
    } else if header.tag == 3 {
        let vals = netpbm_iter_p3(rest);
        let ghost tv = vals@.map_values(|a: [u32; 3]| a@);
        let mut j: usize = 0;
        while j < vals.len() && j < n
            invariant
                j <= vals@.len(),
                j <= n,
                tv == vals@.map_values(|a: [u32; 3]| a@),
                out@ == tv.take(j as int).map_values(|c: Seq<u32>| NetpbmRgb { r: c[0], g: c[1], b: c[2], max: m }),
            decreases vals@.len() - j,
        {
            let c = vals[j];
            out.push(NetpbmRgb { r: c[0], g: c[1], b: c[2], max: m });
            j = j + 1;
            assert(out@ =~= tv.take(j as int).map_values(|c: Seq<u32>| NetpbmRgb { r: c[0], g: c[1], b: c[2], max: m }));
        }
        assert(tv.take(j as int) =~= take_n(tv, n as nat));
    } else if header.tag == 5 {
        let mut j: usize = 0;
        while j < rest.len() && j < n
            invariant
                j <= rest@.len(),
                j <= n,
                out@ == rest@.take(j as int).map_values(|y: u8| NetpbmRgb { r: y as u32, g: y as u32, b: y as u32, max: m }),
            decreases rest@.len() - j,
        {
            let y = rest[j];
            out.push(NetpbmRgb { r: y as u32, g: y as u32, b: y as u32, max: m });
            j = j + 1;
            assert(out@ =~= rest@.take(j as int).map_values(|y: u8| NetpbmRgb { r: y as u32, g: y as u32, b: y as u32, max: m }));
        }
        assert(rest@.take(j as int) =~= take_n(rest@, n as nat));
    } else {
        let vals = netpbm_iter_p6(rest);
        let ghost tv = vals@.map_values(|a: [u8; 3]| a@);
        let mut j: usize = 0;
        while j < vals.len() && j < n
            invariant
                j <= vals@.len(),
                j <= n,
                tv == vals@.map_values(|a: [u8; 3]| a@),
                out@ == tv.take(j as int).map_values(|c: Seq<u8>| NetpbmRgb { r: c[0] as u32, g: c[1] as u32, b: c[2] as u32, max: m }),
            decreases vals@.len() - j,
        {
            let c = vals[j];
            out.push(NetpbmRgb { r: c[0] as u32, g: c[1] as u32, b: c[2] as u32, max: m });
            j = j + 1;
            assert(out@ =~= tv.take(j as int).map_values(|c: Seq<u8>| NetpbmRgb { r: c[0] as u32, g: c[1] as u32, b: c[2] as u32, max: m }));
        }
        assert(tv.take(j as int) =~= take_n(tv, n as nat));
    }
    Ok(out)
}

/// The color given to pixels that the file doesn't define.
pub open spec fn black() -> NetpbmRgb {
    NetpbmRgb { r: 0, g: 0, b: 0, max: 1 }
}

/// Fills a [Bitmap](crate::image::Bitmap) from the file: its pixels (see
/// `netpbm_for_each_rgb`), padded with black or cut to `width * height`.
/// The origin is always the top left.
pub fn netpbm_try_bitmap_rgb(bytes: &[u8]) -> (r: Result<Bitmap<NetpbmRgb>, ImagineError>)
    ensures
        match spec_pull_header(bytes@) {
            Err(e) => r == Err::<Bitmap<NetpbmRgb>, ImagineError>(e),
            Ok((h, _)) => match spec_for_each_rgb(bytes@) {
                Err(e) => r == Err::<Bitmap<NetpbmRgb>, ImagineError>(e),
                Ok(px) => r matches Ok(bm) && bm.width == h.width && bm.height == h.height
                    && bm.pixels@ == resized(px, (h.width * h.height) as nat, black()),
            },
        },
{
    let (header, _rest) = match netpbm_pull_header(bytes) {
        Ok(p) => p,
        Err(e) => {
            return Err(e);
        },
    };
    let count = match header.width.checked_mul(header.height) {
        Some(c) => c,
        None => {
            return Err(ImagineError::CheckedMath);
        },
    };
    let mut pixels = match netpbm_for_each_rgb(bytes) {
        Ok(v) => v,
        Err(e) => {
            return Err(e);
        },
    };
    resize_to(&mut pixels, count as usize, NetpbmRgb { r: 0, g: 0, b: 0, max: 1 });
    Ok(Bitmap { width: header.width, height: header.height, pixels })
}

/// Like [`netpbm_try_bitmap_rgb`], for images whose pixels are then given
/// full opacity; images wider or taller than 17,000 pixels are refused.
pub fn netpbm_try_bitmap_rgba(bytes: &[u8]) -> (r: Result<Bitmap<NetpbmRgb>, ImagineError>)
    ensures
        match spec_pull_header(bytes@) {
            Err(e) => r == Err::<Bitmap<NetpbmRgb>, ImagineError>(e),
            Ok((h, _)) => if h.width > 17_000 || h.height > 17_000 {
                r == Err::<Bitmap<NetpbmRgb>, ImagineError>(ImagineError::DimensionsTooLarge)
            } else {
                match spec_for_each_rgb(bytes@) {
                    Err(e) => r == Err::<Bitmap<NetpbmRgb>, ImagineError>(e),
                    Ok(px) => r matches Ok(bm) && bm.width == h.width && bm.height == h.height
                        && bm.pixels@ == resized(px, (h.width * h.height) as nat, black()),
                }
            },
        },
{
    let (header, _rest) = match netpbm_pull_header(bytes) {
        Ok(p) => p,
        Err(e) => {
            return Err(e);
        },
    };
    if header.width > 17_000 || header.height > 17_000 {
        return Err(ImagineError::DimensionsTooLarge);
    }
    assert(header.width * header.height <= 289_000_000) by (nonlinear_arith)
        requires
            header.width <= 17_000,
            header.height <= 17_000,
    ;
    let count = header.width * header.height;
    let mut pixels = match netpbm_for_each_rgb(bytes) {
        Ok(v) => v,
        Err(e) => {
            return Err(e);
        },
    };
    resize_to(&mut pixels, count as usize, NetpbmRgb { r: 0, g: 0, b: 0, max: 1 });
    Ok(Bitmap { width: header.width, height: header.height, pixels })
}

} // verus!
