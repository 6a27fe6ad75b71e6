//! What inflating a deflate stream gives (RFC 1951), over the stream's bits
//! taken as one number `v` (first bit lowest) of which there are `len`.
use vstd::prelude::*;
use vstd::arithmetic::power2::pow2;
use crate::png::png_error::{PngError, PngResult};
use crate::png::inflate::tree_entry::{TreeEntry, codes_filled, code_fits, filled};
use crate::png::inflate::alphabets::{huff_search, code_lengths, code_lengths_bits, min_bits, max_bits};

verus! {

/// A Huffman alphabet as decoding uses it: the entries with their codes, and
/// the smallest and largest code lengths.
pub type AlphabetModel = (Seq<TreeEntry>, u16, u16);

/// `out` after copying `len` bytes from `start` to `pos` one byte at a time,
/// front first (so that a copy may repeat the bytes it has just written).
pub open spec fn lz_copy(out: Seq<u8>, start: int, pos: int, len: nat) -> Seq<u8>
    decreases len,
{
    if len == 0 {
        out
    } else {
        let before = lz_copy(out, start, pos, (len - 1) as nat);
        before.update(pos + len - 1, before[start + len - 1])
    }
}

pub proof fn lemma_lz_copy_len(out: Seq<u8>, start: int, pos: int, len: nat)
    requires
        0 <= pos,
        pos + len <= out.len(),
    ensures
        lz_copy(out, start, pos, len).len() == out.len(),
    decreases len,
{
    if len > 0 {
        lemma_lz_copy_len(out, start, pos, (len - 1) as nat);
    }
}

/// The symbol whose code length comes `p`-th in a dynamic block header.
pub open spec fn order_at(p: int) -> int {
    if p == 0 { 16 } else if p == 1 { 17 } else if p == 2 { 18 } else if p == 3 { 0 } else if p == 4 { 8 }
    else if p == 5 { 7 } else if p == 6 { 9 } else if p == 7 { 6 } else if p == 8 { 10 } else if p == 9 { 5 }
    else if p == 10 { 11 } else if p == 11 { 4 } else if p == 12 { 12 } else if p == 13 { 3 } else if p == 14 { 13 }
    else if p == 15 { 2 } else if p == 16 { 14 } else if p == 17 { 1 } else { 15 }
}

/// Where the code length of symbol `i` comes in a dynamic block header.
pub open spec fn order_pos(i: int) -> int {
    if i == 16 { 0 } else if i == 17 { 1 } else if i == 18 { 2 } else if i == 0 { 3 } else if i == 8 { 4 }
    else if i == 7 { 5 } else if i == 9 { 6 } else if i == 6 { 7 } else if i == 10 { 8 } else if i == 5 { 9 }
    else if i == 11 { 10 } else if i == 4 { 11 } else if i == 12 { 12 } else if i == 3 { 13 } else if i == 13 { 14 }
    else if i == 2 { 15 } else if i == 14 { 16 } else if i == 1 { 17 } else { 18 }
}

/// The code length alphabet's lengths in a dynamic block header: `hclen`
/// 3-bit fields of `v`, in header order; the symbols not given get 0.
pub open spec fn cl_lengths(v: nat, hclen: nat) -> Seq<TreeEntry> {
    Seq::new(
        19,
        |i: int| TreeEntry {
            bit_pattern: 0,
            bit_count: if order_pos(i) < hclen { ((v / pow2((3 * order_pos(i)) as nat)) % 8) as u16 } else { 0 },
        },
    )
}

/// `n` entries without codes whose lengths are `lens`, then 0.
pub open spec fn with_lengths(n: nat, lens: Seq<u16>) -> Seq<TreeEntry> {
    Seq::new(n, |j: int| TreeEntry { bit_pattern: 0, bit_count: if j < lens.len() { lens[j] } else { 0 } })
}

/// The first entry at or after `i` whose code does not fit its length, or
/// the length of `t`.
pub open spec fn first_misfit(t: Seq<TreeEntry>, i: int) -> int
    decreases t.len() - i,
{
    if i < 0 || i >= t.len() {
        t.len() as int
    } else if !code_fits(t, i) {
        i
    } else {
        first_misfit(t, i + 1)
    }
}

/// Every code fits its length.
pub open spec fn all_fit(t: Seq<TreeEntry>) -> bool {
    forall|i: int| 0 <= i < t.len() ==> code_fits(t, i)
}

/// The entries after filling in the codes: filled up to the first code that
/// doesn't fit, unchanged from there on.
pub open spec fn codes_of(t: Seq<TreeEntry>) -> Seq<TreeEntry> {
    Seq::new(t.len(), |j: int| if j < first_misfit(t, 0) { filled(t, j) } else { t[j] })
}

/// An alphabet made from the code lengths in `t`.
pub open spec fn alphabet_of(t: Seq<TreeEntry>) -> AlphabetModel {
    (codes_of(t), min_bits(t, t.len() as int), max_bits(t, t.len() as int))
}

proof fn lemma_first_misfit(t: Seq<TreeEntry>, i: int)
    requires
        0 <= i <= t.len(),
    ensures
        i <= first_misfit(t, i) <= t.len(),
        forall|j: int| i <= j < first_misfit(t, i) ==> code_fits(t, j),
        first_misfit(t, i) < t.len() ==> !code_fits(t, first_misfit(t, i)),
    decreases t.len() - i,
{
    if i < t.len() && code_fits(t, i) {
        lemma_first_misfit(t, i + 1);
    }
}

/// Filling in the codes gives [codes_of], and works exactly when every code
/// fits.
pub proof fn lemma_codes_filled(old: Seq<TreeEntry>, new: Seq<TreeEntry>, r: PngResult<()>)
    requires
        codes_filled(old, new, r),
    ensures
        new == codes_of(old),
        r is Ok <==> all_fit(old),
{
    lemma_first_misfit(old, 0);
    let k = first_misfit(old, 0);
    if r is Ok {
        assert(k == old.len());
    } else {
        let i0 = choose|i0: int| {
            &&& 0 <= i0 < old.len()
            &&& !code_fits(old, i0)
            &&& forall|j: int| 0 <= j < i0 ==> code_fits(old, j)
            &&& forall|j: int| 0 <= j < i0 ==> #[trigger] new[j] == filled(old, j)
            &&& forall|j: int| i0 <= j < old.len() ==> #[trigger] new[j] == old[j]
        };
        assert(k == i0) by {
            if k < i0 {
                assert(code_fits(old, k));
            }
            if k > i0 {
                assert(code_fits(old, i0));
            }
        }
        assert(!code_fits(old, i0));
    }
    assert(new =~= codes_of(old));
}

/// The fixed literal/length code lengths.
pub open spec fn fixed_lit_len_lengths() -> Seq<TreeEntry> {
    Seq::new(
        288,
        |i: int| TreeEntry {
            bit_pattern: 0,
            bit_count: if i < 144 { 8 } else if i < 256 { 9 } else if i < 280 { 7 } else { 8 },
        },
    )
}

/// The fixed distance code lengths: all 5.
pub open spec fn fixed_dist_lengths() -> Seq<TreeEntry> {
    Seq::new(30, |i: int| TreeEntry { bit_pattern: 0, bit_count: 5 })
}

/// The fixed distance alphabet, or the error its codes give.
pub open spec fn fixed_dist_model() -> PngResult<AlphabetModel> {
    if all_fit(fixed_dist_lengths()) {
        Ok(alphabet_of(fixed_dist_lengths()))
    } else {
        Err(PngError::BadDynamicHuffmanTreeData)
    }
}

/// The `n` bytes at the start of `v`, lowest first.
pub open spec fn low_bytes(v: nat, n: nat) -> Seq<u8> {
    Seq::new(n, |i: int| ((v / pow2((8 * i) as nat)) % 256) as u8)
}

/// A stored block: skip to a byte boundary, read `LEN` and `NLEN` (16 bits
/// each), check that they are complements, then copy `LEN` bytes to `pos`.
/// Gives the bits left, the output and the new position.
pub open spec fn stored_block(v: nat, len: nat, out: Seq<u8>, pos: nat) -> PngResult<(nat, nat, Seq<u8>, nat)> {
    let a = len % 8;
    let v0 = v / pow2(a);
    let l0 = (len - a) as nat;
    if l0 < 32 {
        Err(PngError::UnexpectedEndOfInput)
    } else {
        let ln = v0 % 0x1_0000;
        let nln = (v0 / 0x1_0000) % 0x1_0000;
        let v1 = v0 / pow2(32);
        let l1 = (l0 - 32) as nat;
        if ln + nln != 0xFFFF {
            Err(PngError::LenAndNLenDidNotMatch)
        } else if out.len() < pos + ln {
            Err(PngError::OutputOverflow)
        } else if l1 < 8 * ln {
            Err(PngError::UnexpectedEndOfInput)
        } else {
            Ok((
                v1 / pow2(8 * ln),
                (l1 - 8 * ln) as nat,
                out.take(pos as int) + low_bytes(v1, ln) + out.skip((pos + ln) as int),
                pos + ln,
            ))
        }
    }
}

/// The alphabets of a dynamic block's header, and the bits after it.
pub open spec fn dynamic_header(v: nat, len: nat) -> PngResult<(AlphabetModel, AlphabetModel, nat, nat)> {
    if len < 14 {
        Err(PngError::UnexpectedEndOfInput)
    } else {
        let hlit = v % 32 + 257;
        let hdist = (v / 32) % 32 + 1;
        let hclen = (v / 1024) % 16 + 4;
        let v0 = v / pow2(14);
        let l0 = (len - 14) as nat;
        if l0 < 3 * hclen {
            Err(PngError::UnexpectedEndOfInput)
        } else {
            let clt = cl_lengths(v0, hclen);
            let v1 = v0 / pow2(3 * hclen);
            let l1 = (l0 - 3 * hclen) as nat;
            if !all_fit(clt) {
                Err(PngError::BadDynamicHuffmanTreeData)
            } else if hlit > 286 || hdist > 30 {
                Err(PngError::BadDynamicHuffmanTreeData)
            } else {
                let cl = codes_of(clt);
                let clmin = min_bits(clt, 19);
                let (r1, lens1) = code_lengths(cl, clmin, v1, l1, hlit, 286, Seq::empty());
                let (v2, l2) = code_lengths_bits(cl, clmin, v1, l1, hlit, 286, Seq::empty());
                let (r2, lens2) = code_lengths(cl, clmin, v2, l2, hdist, 30, Seq::empty());
                let (v3, l3) = code_lengths_bits(cl, clmin, v2, l2, hdist, 30, Seq::empty());
                match r1 {
                    Err(e) => Err(e),
                    Ok(_) => match r2 {
                        Err(e) => Err(e),
                        Ok(_) => if !all_fit(with_lengths(30, lens2)) {
                            Err(PngError::BadDynamicHuffmanTreeData)
                        } else {
                            Ok((alphabet_of(with_lengths(286, lens1)), alphabet_of(with_lengths(30, lens2)), v3, l3))
                        },
                    },
                }
            }
        }
    }
}

/// The length of a back reference given by length symbol `sym` (257 and up),
/// with its extra bits read from `v`; gives the length and the bits left.
pub open spec fn ref_length(sym: nat, v: nat, len: nat) -> PngResult<(nat, nat, nat)> {
    if sym <= 264 {
        Ok(((sym - 254) as nat, v, len))
    } else if sym <= 284 {
        let n = ((sym - 261) / 4) as nat;
        if len < n {
            Err(PngError::UnexpectedEndOfInput)
        } else {
            Ok(((((sym - 265) % 4 + 4) * pow2(n) + 3 + v % pow2(n)) as nat, v / pow2(n), (len - n) as nat))
        }
    } else {
        Ok((258, v, len))
    }
}

/// The shortest length that length symbol `sym` (265 to 284) stands for,
/// as RFC 1951 (3.2.5) lists it.
pub open spec fn rfc_length_base(sym: nat) -> nat {
    if sym == 265 { 11 } else if sym == 266 { 13 } else if sym == 267 { 15 } else if sym == 268 { 17 }
    else if sym == 269 { 19 } else if sym == 270 { 23 } else if sym == 271 { 27 } else if sym == 272 { 31 }
    else if sym == 273 { 35 } else if sym == 274 { 43 } else if sym == 275 { 51 } else if sym == 276 { 59 }
    else if sym == 277 { 67 } else if sym == 278 { 83 } else if sym == 279 { 99 } else if sym == 280 { 115 }
    else if sym == 281 { 131 } else if sym == 282 { 163 } else if sym == 283 { 195 } else { 227 }
}

/// The number of extra bits that length symbol `sym` (265 to 284) reads, as
/// RFC 1951 (3.2.5) lists it.
pub open spec fn rfc_length_extra_bits(sym: nat) -> nat {
    if sym <= 268 { 1 } else if sym <= 272 { 2 } else if sym <= 276 { 3 } else if sym <= 280 { 4 } else { 5 }
}

/// Length symbols mean what RFC 1951 (3.2.5) says: 257 to 264 are the
/// lengths 3 to 10 and 285 is 258, all without extra bits; 265 to 284 read
/// their extra bits (first bit lowest) and add them to the symbol's base
/// length, or fail when the bits run out.
pub proof fn lemma_length_symbols(sym: nat, v: nat, len: nat)
    requires
        257 <= sym <= 285,
    ensures
        sym <= 264 ==> ref_length(sym, v, len) == Ok::<(nat, nat, nat), PngError>(((sym - 254) as nat, v, len)),
        sym == 285 ==> ref_length(sym, v, len) == Ok::<(nat, nat, nat), PngError>((258, v, len)),
        265 <= sym <= 284 ==> ({
            let n = rfc_length_extra_bits(sym);
            if len < n {
                ref_length(sym, v, len) == Err::<(nat, nat, nat), PngError>(PngError::UnexpectedEndOfInput)
            } else {
                ref_length(sym, v, len) == Ok::<(nat, nat, nat), PngError>(
                    (rfc_length_base(sym) + v % pow2(n), v / pow2(n), (len - n) as nat),
                )
            }
        }),
{
    vstd::arithmetic::power2::lemma2_to64();
    if 265 <= sym <= 284 {
        if sym == 265 {
            assert((sym - 261) / 4 == 1 && (sym - 265) % 4 == 0 && pow2(1) == 2);
            assert(((sym - 261) / 4) as nat == 1);
            assert(pow2(((sym - 261) / 4) as nat) == 2);
            assert(((sym - 265) % 4 + 4) * pow2(((sym - 261) / 4) as nat) == 8) by (nonlinear_arith)
                requires
                    (sym - 265) % 4 == 0,
                    pow2(((sym - 261) / 4) as nat) == 2,
            ;
            assert((sym - 261) / 4 == rfc_length_extra_bits(sym));
            assert((((sym - 265) % 4 + 4) * pow2(((sym - 261) / 4) as nat) + 3) as nat == rfc_length_base(sym));
        } else if sym == 266 {
            assert((sym - 261) / 4 == 1 && (sym - 265) % 4 == 1 && pow2(1) == 2);
            assert(((sym - 261) / 4) as nat == 1);
            assert(pow2(((sym - 261) / 4) as nat) == 2);
            assert(((sym - 265) % 4 + 4) * pow2(((sym - 261) / 4) as nat) == 10) by (nonlinear_arith)
                requires
                    (sym - 265) % 4 == 1,
                    pow2(((sym - 261) / 4) as nat) == 2,
            ;
            assert((sym - 261) / 4 == rfc_length_extra_bits(sym));
            assert((((sym - 265) % 4 + 4) * pow2(((sym - 261) / 4) as nat) + 3) as nat == rfc_length_base(sym));
        } else if sym == 267 {
            assert((sym - 261) / 4 == 1 && (sym - 265) % 4 == 2 && pow2(1) == 2);
            assert(((sym - 261) / 4) as nat == 1);
            assert(pow2(((sym - 261) / 4) as nat) == 2);
            assert(((sym - 265) % 4 + 4) * pow2(((sym - 261) / 4) as nat) == 12) by (nonlinear_arith)
                requires
                    (sym - 265) % 4 == 2,
                    pow2(((sym - 261) / 4) as nat) == 2,
            ;
            assert((sym - 261) / 4 == rfc_length_extra_bits(sym));
            assert((((sym - 265) % 4 + 4) * pow2(((sym - 261) / 4) as nat) + 3) as nat == rfc_length_base(sym));
        } else if sym == 268 {
            assert((sym - 261) / 4 == 1 && (sym - 265) % 4 == 3 && pow2(1) == 2);
            assert(((sym - 261) / 4) as nat == 1);
            assert(pow2(((sym - 261) / 4) as nat) == 2);
            assert(((sym - 265) % 4 + 4) * pow2(((sym - 261) / 4) as nat) == 14) by (nonlinear_arith)
                requires
                    (sym - 265) % 4 == 3,
                    pow2(((sym - 261) / 4) as nat) == 2,
            ;
            assert((sym - 261) / 4 == rfc_length_extra_bits(sym));
            assert((((sym - 265) % 4 + 4) * pow2(((sym - 261) / 4) as nat) + 3) as nat == rfc_length_base(sym));
        } else if sym == 269 {
            assert((sym - 261) / 4 == 2 && (sym - 265) % 4 == 0 && pow2(2) == 4);
            assert(((sym - 261) / 4) as nat == 2);
            assert(pow2(((sym - 261) / 4) as nat) == 4);
            assert(((sym - 265) % 4 + 4) * pow2(((sym - 261) / 4) as nat) == 16) by (nonlinear_arith)
                requires
                    (sym - 265) % 4 == 0,
                    pow2(((sym - 261) / 4) as nat) == 4,
            ;
            assert((sym - 261) / 4 == rfc_length_extra_bits(sym));
            assert((((sym - 265) % 4 + 4) * pow2(((sym - 261) / 4) as nat) + 3) as nat == rfc_length_base(sym));
        } else if sym == 270 {
            assert((sym - 261) / 4 == 2 && (sym - 265) % 4 == 1 && pow2(2) == 4);
            assert(((sym - 261) / 4) as nat == 2);
            assert(pow2(((sym - 261) / 4) as nat) == 4);
            assert(((sym - 265) % 4 + 4) * pow2(((sym - 261) / 4) as nat) == 20) by (nonlinear_arith)
                requires
                    (sym - 265) % 4 == 1,
                    pow2(((sym - 261) / 4) as nat) == 4,
            ;
            assert((sym - 261) / 4 == rfc_length_extra_bits(sym));
            assert((((sym - 265) % 4 + 4) * pow2(((sym - 261) / 4) as nat) + 3) as nat == rfc_length_base(sym));
        } else if sym == 271 {
            assert((sym - 261) / 4 == 2 && (sym - 265) % 4 == 2 && pow2(2) == 4);
            assert(((sym - 261) / 4) as nat == 2);
            assert(pow2(((sym - 261) / 4) as nat) == 4);
            assert(((sym - 265) % 4 + 4) * pow2(((sym - 261) / 4) as nat) == 24) by (nonlinear_arith)
                requires
                    (sym - 265) % 4 == 2,
                    pow2(((sym - 261) / 4) as nat) == 4,
            ;
            assert((sym - 261) / 4 == rfc_length_extra_bits(sym));
            assert((((sym - 265) % 4 + 4) * pow2(((sym - 261) / 4) as nat) + 3) as nat == rfc_length_base(sym));
        } else if sym == 272 {
            assert((sym - 261) / 4 == 2 && (sym - 265) % 4 == 3 && pow2(2) == 4);
            assert(((sym - 261) / 4) as nat == 2);
            assert(pow2(((sym - 261) / 4) as nat) == 4);
            assert(((sym - 265) % 4 + 4) * pow2(((sym - 261) / 4) as nat) == 28) by (nonlinear_arith)
                requires
                    (sym - 265) % 4 == 3,
                    pow2(((sym - 261) / 4) as nat) == 4,
            ;
            assert((sym - 261) / 4 == rfc_length_extra_bits(sym));
            assert((((sym - 265) % 4 + 4) * pow2(((sym - 261) / 4) as nat) + 3) as nat == rfc_length_base(sym));
        } else if sym == 273 {
            assert((sym - 261) / 4 == 3 && (sym - 265) % 4 == 0 && pow2(3) == 8);
            assert(((sym - 261) / 4) as nat == 3);
            assert(pow2(((sym - 261) / 4) as nat) == 8);
            assert(((sym - 265) % 4 + 4) * pow2(((sym - 261) / 4) as nat) == 32) by (nonlinear_arith)
                requires
                    (sym - 265) % 4 == 0,
                    pow2(((sym - 261) / 4) as nat) == 8,
            ;
            assert((sym - 261) / 4 == rfc_length_extra_bits(sym));
            assert((((sym - 265) % 4 + 4) * pow2(((sym - 261) / 4) as nat) + 3) as nat == rfc_length_base(sym));
        } else if sym == 274 {
            assert((sym - 261) / 4 == 3 && (sym - 265) % 4 == 1 && pow2(3) == 8);
            assert(((sym - 261) / 4) as nat == 3);
            assert(pow2(((sym - 261) / 4) as nat) == 8);
            assert(((sym - 265) % 4 + 4) * pow2(((sym - 261) / 4) as nat) == 40) by (nonlinear_arith)
                requires
                    (sym - 265) % 4 == 1,
                    pow2(((sym - 261) / 4) as nat) == 8,
            ;
            assert((sym - 261) / 4 == rfc_length_extra_bits(sym));
            assert((((sym - 265) % 4 + 4) * pow2(((sym - 261) / 4) as nat) + 3) as nat == rfc_length_base(sym));
        } else if sym == 275 {
            assert((sym - 261) / 4 == 3 && (sym - 265) % 4 == 2 && pow2(3) == 8);
            assert(((sym - 261) / 4) as nat == 3);
            assert(pow2(((sym - 261) / 4) as nat) == 8);
            assert(((sym - 265) % 4 + 4) * pow2(((sym - 261) / 4) as nat) == 48) by (nonlinear_arith)
                requires
                    (sym - 265) % 4 == 2,
                    pow2(((sym - 261) / 4) as nat) == 8,
            ;
            assert((sym - 261) / 4 == rfc_length_extra_bits(sym));
            assert((((sym - 265) % 4 + 4) * pow2(((sym - 261) / 4) as nat) + 3) as nat == rfc_length_base(sym));
        } else if sym == 276 {
            assert((sym - 261) / 4 == 3 && (sym - 265) % 4 == 3 && pow2(3) == 8);
            assert(((sym - 261) / 4) as nat == 3);
            assert(pow2(((sym - 261) / 4) as nat) == 8);
            assert(((sym - 265) % 4 + 4) * pow2(((sym - 261) / 4) as nat) == 56) by (nonlinear_arith)
                requires
                    (sym - 265) % 4 == 3,
                    pow2(((sym - 261) / 4) as nat) == 8,
            ;
            assert((sym - 261) / 4 == rfc_length_extra_bits(sym));
            assert((((sym - 265) % 4 + 4) * pow2(((sym - 261) / 4) as nat) + 3) as nat == rfc_length_base(sym));
        } else if sym == 277 {
            assert((sym - 261) / 4 == 4 && (sym - 265) % 4 == 0 && pow2(4) == 16);
            assert(((sym - 261) / 4) as nat == 4);
            assert(pow2(((sym - 261) / 4) as nat) == 16);
            assert(((sym - 265) % 4 + 4) * pow2(((sym - 261) / 4) as nat) == 64) by (nonlinear_arith)
                requires
                    (sym - 265) % 4 == 0,
                    pow2(((sym - 261) / 4) as nat) == 16,
            ;
            assert((sym - 261) / 4 == rfc_length_extra_bits(sym));
            assert((((sym - 265) % 4 + 4) * pow2(((sym - 261) / 4) as nat) + 3) as nat == rfc_length_base(sym));
        } else if sym == 278 {
            assert((sym - 261) / 4 == 4 && (sym - 265) % 4 == 1 && pow2(4) == 16);
            assert(((sym - 261) / 4) as nat == 4);
            assert(pow2(((sym - 261) / 4) as nat) == 16);
            assert(((sym - 265) % 4 + 4) * pow2(((sym - 261) / 4) as nat) == 80) by (nonlinear_arith)
                requires
                    (sym - 265) % 4 == 1,
                    pow2(((sym - 261) / 4) as nat) == 16,
            ;
            assert((sym - 261) / 4 == rfc_length_extra_bits(sym));
            assert((((sym - 265) % 4 + 4) * pow2(((sym - 261) / 4) as nat) + 3) as nat == rfc_length_base(sym));
        } else if sym == 279 {
            assert((sym - 261) / 4 == 4 && (sym - 265) % 4 == 2 && pow2(4) == 16);
            assert(((sym - 261) / 4) as nat == 4);
            assert(pow2(((sym - 261) / 4) as nat) == 16);
            assert(((sym - 265) % 4 + 4) * pow2(((sym - 261) / 4) as nat) == 96) by (nonlinear_arith)
                requires
                    (sym - 265) % 4 == 2,
                    pow2(((sym - 261) / 4) as nat) == 16,
            ;
            assert((sym - 261) / 4 == rfc_length_extra_bits(sym));
            assert((((sym - 265) % 4 + 4) * pow2(((sym - 261) / 4) as nat) + 3) as nat == rfc_length_base(sym));
        } else if sym == 280 {
            assert((sym - 261) / 4 == 4 && (sym - 265) % 4 == 3 && pow2(4) == 16);
            assert(((sym - 261) / 4) as nat == 4);
            assert(pow2(((sym - 261) / 4) as nat) == 16);
            assert(((sym - 265) % 4 + 4) * pow2(((sym - 261) / 4) as nat) == 112) by (nonlinear_arith)
                requires
                    (sym - 265) % 4 == 3,
                    pow2(((sym - 261) / 4) as nat) == 16,
            ;
            assert((sym - 261) / 4 == rfc_length_extra_bits(sym));
            assert((((sym - 265) % 4 + 4) * pow2(((sym - 261) / 4) as nat) + 3) as nat == rfc_length_base(sym));
        } else if sym == 281 {
            assert((sym - 261) / 4 == 5 && (sym - 265) % 4 == 0 && pow2(5) == 32);
            assert(((sym - 261) / 4) as nat == 5);
            assert(pow2(((sym - 261) / 4) as nat) == 32);
            assert(((sym - 265) % 4 + 4) * pow2(((sym - 261) / 4) as nat) == 128) by (nonlinear_arith)
                requires
                    (sym - 265) % 4 == 0,
                    pow2(((sym - 261) / 4) as nat) == 32,
            ;
            assert((sym - 261) / 4 == rfc_length_extra_bits(sym));
            assert((((sym - 265) % 4 + 4) * pow2(((sym - 261) / 4) as nat) + 3) as nat == rfc_length_base(sym));
        } else if sym == 282 {
            assert((sym - 261) / 4 == 5 && (sym - 265) % 4 == 1 && pow2(5) == 32);
            assert(((sym - 261) / 4) as nat == 5);
            assert(pow2(((sym - 261) / 4) as nat) == 32);
            assert(((sym - 265) % 4 + 4) * pow2(((sym - 261) / 4) as nat) == 160) by (nonlinear_arith)
                requires
                    (sym - 265) % 4 == 1,
                    pow2(((sym - 261) / 4) as nat) == 32,
            ;
            assert((sym - 261) / 4 == rfc_length_extra_bits(sym));
            assert((((sym - 265) % 4 + 4) * pow2(((sym - 261) / 4) as nat) + 3) as nat == rfc_length_base(sym));
        } else if sym == 283 {
            assert((sym - 261) / 4 == 5 && (sym - 265) % 4 == 2 && pow2(5) == 32);
            assert(((sym - 261) / 4) as nat == 5);
            assert(pow2(((sym - 261) / 4) as nat) == 32);
            assert(((sym - 265) % 4 + 4) * pow2(((sym - 261) / 4) as nat) == 192) by (nonlinear_arith)
                requires
                    (sym - 265) % 4 == 2,
                    pow2(((sym - 261) / 4) as nat) == 32,
            ;
            assert((sym - 261) / 4 == rfc_length_extra_bits(sym));
            assert((((sym - 265) % 4 + 4) * pow2(((sym - 261) / 4) as nat) + 3) as nat == rfc_length_base(sym));
        } else if sym == 284 {
            assert((sym - 261) / 4 == 5 && (sym - 265) % 4 == 3 && pow2(5) == 32);
            assert(((sym - 261) / 4) as nat == 5);
            assert(pow2(((sym - 261) / 4) as nat) == 32);
            assert(((sym - 265) % 4 + 4) * pow2(((sym - 261) / 4) as nat) == 224) by (nonlinear_arith)
                requires
                    (sym - 265) % 4 == 3,
                    pow2(((sym - 261) / 4) as nat) == 32,
            ;
            assert((sym - 261) / 4 == rfc_length_extra_bits(sym));
            assert((((sym - 265) % 4 + 4) * pow2(((sym - 261) / 4) as nat) + 3) as nat == rfc_length_base(sym));
        }
    }
}

/// The distance of a back reference given by distance symbol `sym`, with its
/// extra bits read from `v`; gives the distance and the bits left.
pub open spec fn ref_distance(sym: nat, v: nat, len: nat) -> PngResult<(nat, nat, nat)> {
    if sym <= 3 {
        Ok((sym + 1, v, len))
    } else {
        let n = (sym / 2 - 1) as nat;
        if len < n {
            Err(PngError::UnexpectedEndOfInput)
        } else {
            Ok(((sym % 2 + 2) * pow2(n) + 1 + v % pow2(n), v / pow2(n), (len - n) as nat))
        }
    }
}

/// The shortest distance that distance symbol `sym` (4 to 29) stands for,
/// as RFC 1951 (3.2.5) lists it.
pub open spec fn rfc_distance_base(sym: nat) -> nat {
    if sym == 4 { 5 } else if sym == 5 { 7 } else if sym == 6 { 9 } else if sym == 7 { 13 } else if sym == 8 { 17 } else if sym == 9 { 25 } else if sym == 10 { 33 } else if sym == 11 { 49 } else if sym == 12 { 65 } else if sym == 13 { 97 } else if sym == 14 { 129 } else if sym == 15 { 193 } else if sym == 16 { 257 } else if sym == 17 { 385 } else if sym == 18 { 513 } else if sym == 19 { 769 } else if sym == 20 { 1025 } else if sym == 21 { 1537 } else if sym == 22 { 2049 } else if sym == 23 { 3073 } else if sym == 24 { 4097 } else if sym == 25 { 6145 } else if sym == 26 { 8193 } else if sym == 27 { 12289 } else if sym == 28 { 16385 } else { 24577 }
}

/// The number of extra bits that distance symbol `sym` (4 to 29) reads, as
/// RFC 1951 (3.2.5) lists it.
pub open spec fn rfc_distance_extra_bits(sym: nat) -> nat {
    if sym <= 5 { 1 } else if sym <= 7 { 2 } else if sym <= 9 { 3 } else if sym <= 11 { 4 } else if sym <= 13 { 5 } else if sym <= 15 { 6 } else if sym <= 17 { 7 } else if sym <= 19 { 8 } else if sym <= 21 { 9 } else if sym <= 23 { 10 } else if sym <= 25 { 11 } else if sym <= 27 { 12 } else { 13 }
}

/// Distance symbols mean what RFC 1951 (3.2.5) says: 0 to 3 are the
/// distances 1 to 4 without extra bits; 4 to 29 read their extra bits (first
/// bit lowest) and add them to the symbol's base distance, or fail when the
/// bits run out.
pub proof fn lemma_distance_symbols(sym: nat, v: nat, len: nat)
    requires
        sym <= 29,
    ensures
        sym <= 3 ==> ref_distance(sym, v, len) == Ok::<(nat, nat, nat), PngError>((sym + 1, v, len)),
        4 <= sym ==> ({
            let n = rfc_distance_extra_bits(sym);
            if len < n {
                ref_distance(sym, v, len) == Err::<(nat, nat, nat), PngError>(PngError::UnexpectedEndOfInput)
            } else {
                ref_distance(sym, v, len) == Ok::<(nat, nat, nat), PngError>(
                    (rfc_distance_base(sym) + v % pow2(n), v / pow2(n), (len - n) as nat),
                )
            }
        }),
{
    vstd::arithmetic::power2::lemma2_to64();
    if 4 <= sym {
        if sym == 4 {
            assert((sym / 2 - 1) as nat == 1);
            assert(pow2((sym / 2 - 1) as nat) == 2);
            assert((sym % 2 + 2) * pow2((sym / 2 - 1) as nat) == 4) by (nonlinear_arith)
                requires
                    sym % 2 == 0,
                    pow2((sym / 2 - 1) as nat) == 2,
            ;
        } else if sym == 5 {
            assert((sym / 2 - 1) as nat == 1);
            assert(pow2((sym / 2 - 1) as nat) == 2);
            assert((sym % 2 + 2) * pow2((sym / 2 - 1) as nat) == 6) by (nonlinear_arith)
                requires
                    sym % 2 == 1,
                    pow2((sym / 2 - 1) as nat) == 2,
            ;
        } else if sym == 6 {
            assert((sym / 2 - 1) as nat == 2);
            assert(pow2((sym / 2 - 1) as nat) == 4);
            assert((sym % 2 + 2) * pow2((sym / 2 - 1) as nat) == 8) by (nonlinear_arith)
                requires
                    sym % 2 == 0,
                    pow2((sym / 2 - 1) as nat) == 4,
            ;
        } else if sym == 7 {
            assert((sym / 2 - 1) as nat == 2);
            assert(pow2((sym / 2 - 1) as nat) == 4);
            assert((sym % 2 + 2) * pow2((sym / 2 - 1) as nat) == 12) by (nonlinear_arith)
                requires
                    sym % 2 == 1,
                    pow2((sym / 2 - 1) as nat) == 4,
            ;
        } else if sym == 8 {
            assert((sym / 2 - 1) as nat == 3);
            assert(pow2((sym / 2 - 1) as nat) == 8);
            assert((sym % 2 + 2) * pow2((sym / 2 - 1) as nat) == 16) by (nonlinear_arith)
                requires
                    sym % 2 == 0,
                    pow2((sym / 2 - 1) as nat) == 8,
            ;
        } else if sym == 9 {
            assert((sym / 2 - 1) as nat == 3);
            assert(pow2((sym / 2 - 1) as nat) == 8);
            assert((sym % 2 + 2) * pow2((sym / 2 - 1) as nat) == 24) by (nonlinear_arith)
                requires
                    sym % 2 == 1,
                    pow2((sym / 2 - 1) as nat) == 8,
            ;
        } else if sym == 10 {
            assert((sym / 2 - 1) as nat == 4);
            assert(pow2((sym / 2 - 1) as nat) == 16);
            assert((sym % 2 + 2) * pow2((sym / 2 - 1) as nat) == 32) by (nonlinear_arith)
                requires
                    sym % 2 == 0,
                    pow2((sym / 2 - 1) as nat) == 16,
            ;
        } else if sym == 11 {
            assert((sym / 2 - 1) as nat == 4);
            assert(pow2((sym / 2 - 1) as nat) == 16);
            assert((sym % 2 + 2) * pow2((sym / 2 - 1) as nat) == 48) by (nonlinear_arith)
                requires
                    sym % 2 == 1,
                    pow2((sym / 2 - 1) as nat) == 16,
            ;
        } else if sym == 12 {
            assert((sym / 2 - 1) as nat == 5);
            assert(pow2((sym / 2 - 1) as nat) == 32);
            assert((sym % 2 + 2) * pow2((sym / 2 - 1) as nat) == 64) by (nonlinear_arith)
                requires
                    sym % 2 == 0,
                    pow2((sym / 2 - 1) as nat) == 32,
            ;
        } else if sym == 13 {
            assert((sym / 2 - 1) as nat == 5);
            assert(pow2((sym / 2 - 1) as nat) == 32);
            assert((sym % 2 + 2) * pow2((sym / 2 - 1) as nat) == 96) by (nonlinear_arith)
                requires
                    sym % 2 == 1,
                    pow2((sym / 2 - 1) as nat) == 32,
            ;
        } else if sym == 14 {
            assert((sym / 2 - 1) as nat == 6);
            assert(pow2((sym / 2 - 1) as nat) == 64);
            assert((sym % 2 + 2) * pow2((sym / 2 - 1) as nat) == 128) by (nonlinear_arith)
                requires
                    sym % 2 == 0,
                    pow2((sym / 2 - 1) as nat) == 64,
            ;
        } else if sym == 15 {
            assert((sym / 2 - 1) as nat == 6);
            assert(pow2((sym / 2 - 1) as nat) == 64);
            assert((sym % 2 + 2) * pow2((sym / 2 - 1) as nat) == 192) by (nonlinear_arith)
                requires
                    sym % 2 == 1,
                    pow2((sym / 2 - 1) as nat) == 64,
            ;
        } else if sym == 16 {
            assert((sym / 2 - 1) as nat == 7);
            assert(pow2((sym / 2 - 1) as nat) == 128);
            assert((sym % 2 + 2) * pow2((sym / 2 - 1) as nat) == 256) by (nonlinear_arith)
                requires
                    sym % 2 == 0,
                    pow2((sym / 2 - 1) as nat) == 128,
            ;
        } else if sym == 17 {
            assert((sym / 2 - 1) as nat == 7);
            assert(pow2((sym / 2 - 1) as nat) == 128);
            assert((sym % 2 + 2) * pow2((sym / 2 - 1) as nat) == 384) by (nonlinear_arith)
                requires
                    sym % 2 == 1,
                    pow2((sym / 2 - 1) as nat) == 128,
            ;
        } else if sym == 18 {
            assert((sym / 2 - 1) as nat == 8);
            assert(pow2((sym / 2 - 1) as nat) == 256);
            assert((sym % 2 + 2) * pow2((sym / 2 - 1) as nat) == 512) by (nonlinear_arith)
                requires
                    sym % 2 == 0,
                    pow2((sym / 2 - 1) as nat) == 256,
            ;
        } else if sym == 19 {
            assert((sym / 2 - 1) as nat == 8);
            assert(pow2((sym / 2 - 1) as nat) == 256);
            assert((sym % 2 + 2) * pow2((sym / 2 - 1) as nat) == 768) by (nonlinear_arith)
                requires
                    sym % 2 == 1,
                    pow2((sym / 2 - 1) as nat) == 256,
            ;
        } else if sym == 20 {
            assert((sym / 2 - 1) as nat == 9);
            assert(pow2((sym / 2 - 1) as nat) == 512);
            assert((sym % 2 + 2) * pow2((sym / 2 - 1) as nat) == 1024) by (nonlinear_arith)
                requires
                    sym % 2 == 0,
                    pow2((sym / 2 - 1) as nat) == 512,
            ;
        } else if sym == 21 {
            assert((sym / 2 - 1) as nat == 9);
            assert(pow2((sym / 2 - 1) as nat) == 512);
            assert((sym % 2 + 2) * pow2((sym / 2 - 1) as nat) == 1536) by (nonlinear_arith)
                requires
                    sym % 2 == 1,
                    pow2((sym / 2 - 1) as nat) == 512,
            ;
        } else if sym == 22 {
            assert((sym / 2 - 1) as nat == 10);
            assert(pow2((sym / 2 - 1) as nat) == 1024);
            assert((sym % 2 + 2) * pow2((sym / 2 - 1) as nat) == 2048) by (nonlinear_arith)
                requires
                    sym % 2 == 0,
                    pow2((sym / 2 - 1) as nat) == 1024,
            ;
        } else if sym == 23 {
            assert((sym / 2 - 1) as nat == 10);
            assert(pow2((sym / 2 - 1) as nat) == 1024);
            assert((sym % 2 + 2) * pow2((sym / 2 - 1) as nat) == 3072) by (nonlinear_arith)
                requires
                    sym % 2 == 1,
                    pow2((sym / 2 - 1) as nat) == 1024,
            ;
        } else if sym == 24 {
            assert((sym / 2 - 1) as nat == 11);
            assert(pow2((sym / 2 - 1) as nat) == 2048);
            assert((sym % 2 + 2) * pow2((sym / 2 - 1) as nat) == 4096) by (nonlinear_arith)
                requires
                    sym % 2 == 0,
                    pow2((sym / 2 - 1) as nat) == 2048,
            ;
        } else if sym == 25 {
            assert((sym / 2 - 1) as nat == 11);
            assert(pow2((sym / 2 - 1) as nat) == 2048);
            assert((sym % 2 + 2) * pow2((sym / 2 - 1) as nat) == 6144) by (nonlinear_arith)
                requires
                    sym % 2 == 1,
                    pow2((sym / 2 - 1) as nat) == 2048,
            ;
        } else if sym == 26 {
            assert((sym / 2 - 1) as nat == 12);
            assert(pow2((sym / 2 - 1) as nat) == 4096);
            assert((sym % 2 + 2) * pow2((sym / 2 - 1) as nat) == 8192) by (nonlinear_arith)
                requires
                    sym % 2 == 0,
                    pow2((sym / 2 - 1) as nat) == 4096,
            ;
        } else if sym == 27 {
            assert((sym / 2 - 1) as nat == 12);
            assert(pow2((sym / 2 - 1) as nat) == 4096);
            assert((sym % 2 + 2) * pow2((sym / 2 - 1) as nat) == 12288) by (nonlinear_arith)
                requires
                    sym % 2 == 1,
                    pow2((sym / 2 - 1) as nat) == 4096,
            ;
        } else if sym == 28 {
            assert((sym / 2 - 1) as nat == 13);
            assert(pow2((sym / 2 - 1) as nat) == 8192);
            assert((sym % 2 + 2) * pow2((sym / 2 - 1) as nat) == 16384) by (nonlinear_arith)
                requires
                    sym % 2 == 0,
                    pow2((sym / 2 - 1) as nat) == 8192,
            ;
        } else if sym == 29 {
            assert((sym / 2 - 1) as nat == 13);
            assert(pow2((sym / 2 - 1) as nat) == 8192);
            assert((sym % 2 + 2) * pow2((sym / 2 - 1) as nat) == 24576) by (nonlinear_arith)
                requires
                    sym % 2 == 1,
                    pow2((sym / 2 - 1) as nat) == 8192,
            ;
        }
    }
}

/// One symbol of a Huffman block: a literal goes to `pos`, symbol 256 ends
/// the block (the flag), a length symbol and a distance make a back
/// reference. Gives whether the block ended, the bits left, the output and
/// the new position.
pub open spec fn huff_step(ll: AlphabetModel, d: AlphabetModel, v: nat, len: nat, out: Seq<u8>, pos: nat) -> PngResult<(bool, nat, nat, Seq<u8>, nat)> {
    let (r, used) = huff_search(ll.0, v, len, ll.1 as nat, Some(ll.2), PngError::CouldNotFindLitLenSymbol);
    match r {
        Err(e) => Err(e),
        Ok(sym) => {
            let v1 = v / pow2(used);
            let l1 = (len - used) as nat;
            if sym < 256 {
                if pos < out.len() {
                    Ok((false, v1, l1, out.update(pos as int, sym as u8), pos + 1))
                } else {
                    Err(PngError::OutputOverflow)
                }
            } else if sym == 256 {
                Ok((true, v1, l1, out, pos))
            } else {
                match ref_length(sym as nat, v1, l1) {
                    Err(e) => Err(e),
                    Ok((n, v2, l2)) => {
                        let (dr, dused) = huff_search(d.0, v2, l2, d.1 as nat, Some(d.2), PngError::CouldNotFindDistSymbol);
                        match dr {
                            Err(e) => Err(e),
                            Ok(dsym) => match ref_distance(dsym as nat, v2 / pow2(dused), (l2 - dused) as nat) {
                                Err(e) => Err(e),
                                Ok((dist, v3, l3)) => if dist > pos {
                                    Err(PngError::BackRefToBeforeOutputStart)
                                } else if pos + n > out.len() {
                                    Err(PngError::OutputOverflow)
                                } else {
                                    Ok((false, v3, l3, lz_copy(out, pos - dist, pos as int, n), pos + n))
                                },
                            },
                        }
                    },
                }
            }
        },
    }
}

/// The symbols of a Huffman block, up to and including the end of block.
pub open spec fn huff_block(ll: AlphabetModel, d: AlphabetModel, v: nat, len: nat, out: Seq<u8>, pos: nat) -> PngResult<(nat, nat, Seq<u8>, nat)>
    decreases len,
{
    match huff_step(ll, d, v, len, out, pos) {
        Err(e) => Err(e),
        Ok((end, v1, l1, o1, p1)) => if end {
            Ok((v1, l1, o1, p1))
        } else if l1 < len {
            huff_block(ll, d, v1, l1, o1, p1)
        } else {
            Err(PngError::UnexpectedEndOfInput)
        },
    }
}

/// The body of a block of type `btype`: 0 is stored, 2 has dynamic Huffman
/// codes, the others use the fixed codes.
pub open spec fn block_body(btype: nat, v: nat, len: nat, out: Seq<u8>, pos: nat) -> PngResult<(nat, nat, Seq<u8>, nat)> {
    if btype == 0 {
        stored_block(v, len, out, pos)
    } else if btype == 2 {
        match dynamic_header(v, len) {
            Err(e) => Err(e),
            Ok((ll, d, v1, l1)) => huff_block(ll, d, v1, l1, out, pos),
        }
    } else {
        match fixed_dist_model() {
            Err(e) => Err(e),
            Ok(d) => huff_block(alphabet_of(fixed_lit_len_lengths()), d, v, len, out, pos),
        }
    }
}

/// Inflating blocks into `out` from `pos` on until a final block: the number
/// of bytes written in all, and the output.
#[verifier::opaque]
pub open spec fn inflate_blocks(v: nat, len: nat, out: Seq<u8>, pos: nat) -> PngResult<(nat, Seq<u8>)>
    decreases len,
{
    if len < 3 {
        Err(PngError::UnexpectedEndOfInput)
    } else {
        let is_final = v % 2 == 1;
        let btype = (v / 2) % 4;
        match block_body(btype, v / 8, (len - 3) as nat, out, pos) {
            Err(e) => Err(e),
            Ok((v1, l1, o1, p1)) => if is_final {
                Ok((p1, o1))
            } else if l1 < len {
                inflate_blocks(v1, l1, o1, p1)
            } else {
                Err(PngError::UnexpectedEndOfInput)
            },
        }
    }
}

/// `b` is `a` with at most the bytes at `lo..hi` changed.
pub open spec fn changed_only_within(a: Seq<u8>, b: Seq<u8>, lo: int, hi: int) -> bool {
    &&& b.len() == a.len()
    &&& forall|i: int| 0 <= i < a.len() && !(lo <= i < hi) ==> #[trigger] b[i] == a[i]
}

proof fn lemma_lz_copy_frame(out: Seq<u8>, start: int, pos: int, len: nat)
    requires
        0 <= pos,
        pos + len <= out.len(),
    ensures
        changed_only_within(out, lz_copy(out, start, pos, len), pos, pos + len),
    decreases len,
{
    if len > 0 {
        lemma_lz_copy_frame(out, start, pos, (len - 1) as nat);
    }
}

proof fn lemma_huff_step_frame(ll: AlphabetModel, d: AlphabetModel, v: nat, len: nat, out: Seq<u8>, pos: nat)
    requires
        pos <= out.len(),
    ensures
        huff_step(ll, d, v, len, out, pos) matches Ok((end, v1, l1, o1, p1)) ==> pos <= p1 <= out.len()
            && changed_only_within(out, o1, pos as int, p1 as int),
{
    let (r, used) = huff_search(ll.0, v, len, ll.1 as nat, Some(ll.2), PngError::CouldNotFindLitLenSymbol);
    if let Ok(sym) = r {
        if sym > 256 {
            let v1 = v / pow2(used);
            let l1 = (len - used) as nat;
            if let Ok((n, v2, l2)) = ref_length(sym as nat, v1, l1) {
                let (dr, dused) = huff_search(d.0, v2, l2, d.1 as nat, Some(d.2), PngError::CouldNotFindDistSymbol);
                if let Ok(dsym) = dr {
                    if let Ok((dist, v3, l3)) = ref_distance(dsym as nat, v2 / pow2(dused), (l2 - dused) as nat) {
                        if dist <= pos && pos + n <= out.len() {
                            lemma_lz_copy_frame(out, pos - dist, pos as int, n);
                        }
                    }
                }
            }
        }
    }
}

proof fn lemma_huff_block_frame(ll: AlphabetModel, d: AlphabetModel, v: nat, len: nat, out: Seq<u8>, pos: nat)
    requires
        pos <= out.len(),
    ensures
        huff_block(ll, d, v, len, out, pos) matches Ok((v1, l1, o1, p1)) ==> pos <= p1 <= out.len()
            && changed_only_within(out, o1, pos as int, p1 as int),
    decreases len,
{
    lemma_huff_step_frame(ll, d, v, len, out, pos);
    if let Ok((end, v1, l1, o1, p1)) = huff_step(ll, d, v, len, out, pos) {
        if !end && l1 < len {
            lemma_huff_block_frame(ll, d, v1, l1, o1, p1);
        }
    }
}

proof fn lemma_block_body_frame(btype: nat, v: nat, len: nat, out: Seq<u8>, pos: nat)
    requires
        pos <= out.len(),
    ensures
        block_body(btype, v, len, out, pos) matches Ok((v1, l1, o1, p1)) ==> pos <= p1 <= out.len()
            && changed_only_within(out, o1, pos as int, p1 as int),
{
    if btype == 0 {
        if let Ok((v1, l1, o1, p1)) = stored_block(v, len, out, pos) {
            assert forall|i: int| 0 <= i < out.len() && !(pos <= i < p1) implies #[trigger] o1[i] == out[i] by {
                if i >= p1 {
                    assert(o1[i] == out.skip(p1 as int)[i - p1]);
                }
            }
        }
    } else if btype == 2 {
        if let Ok((ll, d, v1, l1)) = dynamic_header(v, len) {
            lemma_huff_block_frame(ll, d, v1, l1, out, pos);
        }
    } else {
        if let Ok(d) = fixed_dist_model() {
            lemma_huff_block_frame(alphabet_of(fixed_lit_len_lengths()), d, v, len, out, pos);
        }
    }
}

/// Inflating blocks from `pos` on changes only the bytes from `pos` up to
/// the end of what was written: what lies before and after stays as it was.
pub proof fn lemma_inflate_blocks_frame(v: nat, len: nat, out: Seq<u8>, pos: nat)
    requires
        pos <= out.len(),
    ensures
        inflate_blocks(v, len, out, pos) matches Ok((n, o)) ==> pos <= n <= out.len()
            && changed_only_within(out, o, pos as int, n as int)
            && o.skip(n as int) == out.skip(n as int),
    decreases len,
{
    reveal(inflate_blocks);
    if len >= 3 {
        let btype = (v / 2) % 4;
        lemma_block_body_frame(btype, v / 8, (len - 3) as nat, out, pos);
        if let Ok((v1, l1, o1, p1)) = block_body(btype, v / 8, (len - 3) as nat, out, pos) {
            if v % 2 != 1 && l1 < len {
                lemma_inflate_blocks_frame(v1, l1, o1, p1);
            }
        }
    }
    if let Ok((n, o)) = inflate_blocks(v, len, out, pos) {
        assert(o.skip(n as int) =~= out.skip(n as int));
    }
}

} // verus!
