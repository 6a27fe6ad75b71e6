//! Inflating the zlib stream held in a PNG's IDAT chunks.
use vstd::prelude::*;
use vstd::arithmetic::power2::{pow2, lemma2_to64};
use crate::png::png_error::{PngError, PngResult};
use crate::png::crc_chunks::{PngChunkIter, chunk_walk_step, lemma_walk_step_shrinks, png_signature};
use crate::png::inflate::bit_source::{BitSource, slices_nonempty, le_value, concat_slices};
use crate::png::inflate::tree_entry::TreeEntry;
use crate::png::inflate::alphabets::{
    CodeLengthAlphabet, LitLenAlphabet, DistAlphabet, min_bits, max_bits, huff_search,
    lemma_bit_bounds, lemma_search_uses_bits, lemma_found_in_tree, lengths_written, code_lengths,
    code_lengths_bits,
};
use crate::png::inflate::deflate_stream::{
    lz_copy, lemma_lz_copy_len, stored_block, low_bytes, order_at, order_pos, alphabet_of, fixed_lit_len_lengths,
    fixed_dist_lengths, fixed_dist_model, lemma_codes_filled, codes_of, all_fit, cl_lengths, with_lengths,
    dynamic_header, AlphabetModel, huff_block, huff_step, ref_length, ref_distance, block_body, inflate_blocks,
    lemma_inflate_blocks_frame,
};
use crate::png::inflate::tree_entry::codes_filled;

verus! {

/// What a zlib header (`cmf`, `flg`) says: `None` when the stream can be
/// inflated, otherwise the error.
pub open spec fn zlib_header_error(cmf: u8, flg: u8) -> Option<PngError> {
    if cmf % 16 != 8 {
        Some(PngError::IllegalCompressionMethod)
    } else if cmf / 16 > 7 {
        Some(PngError::IllegalCompressionInfo)
    } else if (cmf as int * 256 + flg as int) % 31 != 0 {
        Some(PngError::IllegalFlagCheck)
    } else if (flg / 32) % 2 == 1 {
        Some(PngError::IllegalFlagCheck)
    } else {
        None
    }
}

/// Inflating into `out` the zlib stream that starts in `first` and goes on
/// with `rest`: `first` must hold a legal header, and the deflate blocks
/// after it give the bytes written and the output.
pub open spec fn zlib_inflate(first: Seq<u8>, rest: Seq<u8>, out: Seq<u8>) -> PngResult<(nat, Seq<u8>)> {
    if first.len() < 2 {
        Err(PngError::UnexpectedEndOfInput)
    } else {
        match zlib_header_error(first[0], first[1]) {
            Some(e) => Err(e),
            None => {
                let body = first.skip(2) + rest;
                inflate_blocks(le_value(body), 8 * body.len(), out, 0)
            },
        }
    }
}

/// The order in which a dynamic block gives the code length code lengths.
fn code_length_order(i: usize) -> (k: usize)
    requires
        i < 19,
    ensures
        k < 19,
        k == order_at(i as int),
{
    let order: [usize; 19] = [16, 17, 18, 0, 8, 7, 9, 6, 10, 5, 11, 4, 12, 3, 13, 2, 14, 1, 15];
    order[i]
}

/// Sets the code length of entry `i` of `tree`, keeping its code.
fn set_bit_count(tree: &mut Vec<TreeEntry>, i: usize, count: u16)
    requires
        i < old(tree)@.len(),
    ensures
        final(tree)@ == old(tree)@.update(i as int, TreeEntry { bit_pattern: old(tree)@[i as int].bit_pattern, bit_count: count }),
{
    let e = tree[i];
    tree.set(i, TreeEntry { bit_pattern: e.bit_pattern, bit_count: count });
}

/// The fixed literal/length alphabet (RFC 1951, section 3.2.6).
fn fixed_lit_len_alphabet() -> (a: LitLenAlphabet)
    ensures
        a.tree@.len() == 288,
        1 <= a.min_bit_count <= 15,
        a.max_bit_count <= 15,
        (a.tree@, a.min_bit_count, a.max_bit_count) == alphabet_of(fixed_lit_len_lengths()),
{
    let mut tree: Vec<TreeEntry> = Vec::new();
    let mut i: usize = 0;
    while i < 288
        invariant
            i <= 288,
            tree@.len() == i,
            tree@ == fixed_lit_len_lengths().take(i as int),
        decreases 288 - i,
    {
        let bits: u16 = if i < 144 { 8 } else if i < 256 { 9 } else if i < 280 { 7 } else { 8 };
        tree.push(TreeEntry { bit_pattern: 0, bit_count: bits });
        i = i + 1;
        assert(tree@ =~= fixed_lit_len_lengths().take(i as int));
    }
    assert(tree@ =~= fixed_lit_len_lengths());
    let mut a = LitLenAlphabet { tree, min_bit_count: 0, max_bit_count: 0 };
    let ghost t0 = a.tree@;
    a.refresh();
    proof {
        lemma_bit_bounds(t0, 288);
        let r = choose|r: PngResult<()>| codes_filled(t0, a.tree@, r);
        lemma_codes_filled(t0, a.tree@, r);
    }
    a
}

/// The fixed distance alphabet: every one of its 30 codes is 5 bits long.
fn fixed_dist_alphabet() -> (r: PngResult<DistAlphabet>)
    ensures
        r matches Ok(a) ==> a.tree@.len() == 30 && 1 <= a.min_bit_count <= 15 && a.max_bit_count <= 15,
        match fixed_dist_model() {
            Ok(m) => r matches Ok(a) && (a.tree@, a.min_bit_count, a.max_bit_count) == m,
            Err(e) => r == Err::<DistAlphabet, PngError>(e),
        },
{
    let mut a = DistAlphabet::new();
    let mut i: usize = 0;
    while i < 30
        invariant
            i <= 30,
            a.tree@.len() == 30,
            forall|j: int| 0 <= j < i ==> (#[trigger] a.tree@[j]).bit_count == 5,
            forall|j: int| 0 <= j < 30 ==> (#[trigger] a.tree@[j]).bit_pattern == 0,
            forall|j: int| i <= j < 30 ==> (#[trigger] a.tree@[j]).bit_count == 0,
        decreases 30 - i,
    {
        set_bit_count(&mut a.tree, i, 5);
        i = i + 1;
    }
    let ghost t0 = a.tree@;
    assert(t0 =~= fixed_dist_lengths());
    let rr = a.refresh();
    proof {
        lemma_codes_filled(t0, a.tree@, rr);
    }
    match rr {
        Ok(()) => {},
        Err(e) => {
            return Err(e);
        },
    }
    proof {
        lemma_bit_bounds(t0, 30);
    }
    Ok(a)
}

/// Copies `len` bytes starting at `start` to `pos` (with `start < pos`), one
/// byte at a time from the front, so that a copy that overlaps its own output
/// repeats the bytes it has just written (an LZ77 back reference).
fn copy_back(out: &mut [u8], start: usize, len: usize, pos: usize)
    requires
        start < pos,
        pos + len <= old(out)@.len(),
    ensures
        final(out)@.len() == old(out)@.len(),
        final(out)@ == lz_copy(old(out)@, start as int, pos as int, len as nat),
{
    let ghost o = out@;
    let n = out.len();
    let mut i: usize = 0;
    while i < len
        invariant
            n == o.len(),
            start < pos,
            pos + len <= o.len(),
            i <= len,
            out@.len() == o.len(),
            out@ == lz_copy(o, start as int, pos as int, i as nat),
        decreases len - i,
    {
        assert(start + i < pos + len);
        let b = out[start + i];
        out[pos + i] = b;
        i = i + 1;
        proof {
            lemma_lz_copy_len(o, start as int, pos as int, i as nat);
        }
    }
}

/// Inflates the body of a stored block into `out` at `pos`: skips to a byte
/// boundary, reads `LEN` and `NLEN`, and copies `LEN` bytes. Gives the new
/// position.
fn stored_block_to(out: &mut [u8], pos: usize, bit_src: &mut BitSource) -> (r: PngResult<usize>)
    requires
        old(bit_src).wf(),
        pos <= old(out)@.len(),
    ensures
        final(bit_src).wf(),
        final(out)@.len() == old(out)@.len(),
        final(bit_src).bit_len() <= old(bit_src).bit_len(),
        match stored_block(old(bit_src).bits_value(), old(bit_src).bit_len(), old(out)@, pos as nat) {
            Ok((v1, l1, o1, p1)) => r == Ok::<usize, PngError>(p1 as usize) && final(out)@ == o1
                && final(bit_src).bits_value() == v1 && final(bit_src).bit_len() == l1 && p1 <= old(out)@.len(),
            Err(e) => r == Err::<usize, PngError>(e),
        },
{
    let ghost o = out@;
    proof {
        lemma2_to64();
    }
    bit_src.align_to_byte();
    let ghost v0 = bit_src.bits_value();
    let ghost l0 = bit_src.bit_len();
    let len16 = match bit_src.next_bits_lsb(16) {
        Ok(x) => x,
        Err(e) => {
            return Err(e);
        },
    };
    let nlen16 = match bit_src.next_bits_lsb(16) {
        Ok(x) => x,
        Err(e) => {
            return Err(e);
        },
    };
    let ghost v1 = bit_src.bits_value();
    let ghost l1 = bit_src.bit_len();
    proof {
        vstd::arithmetic::div_mod::lemma_div_denominator(v0 as int, pow2(16) as int, pow2(16) as int);
        vstd::arithmetic::power2::lemma_pow2_adds(16, 16);
        assert(v1 == v0 / pow2(32));
    }
    let ln = len16 as u16;
    let nln = nlen16 as u16;
    assert((!ln != nln) == (ln as int + nln as int != 0xFFFF)) by (bit_vector);
    if !ln != nln {
        return Err(PngError::LenAndNLenDidNotMatch);
    }
    let n = ln as usize;
    if out.len() - pos < n {
        return Err(PngError::OutputOverflow);
    }
    let ghost goal = stored_block(old(bit_src).bits_value(), old(bit_src).bit_len(), o, pos as nat);
    proof {
        assert(v1 / pow2(0) == v1);
        assert(n == v0 % 0x1_0000);
        assert(l0 >= 32);
    }
    let olen = out.len();
    let mut k: usize = 0;
    while k < n
        invariant
            bit_src.wf(),
            olen == o.len(),
            o == old(out)@,
            v0 == old(bit_src).bits_value() / pow2(old(bit_src).bit_len() % 8),
            l0 == old(bit_src).bit_len() - old(bit_src).bit_len() % 8,
            l0 >= 32,
            n == v0 % 0x1_0000,
            n + (v0 / 0x1_0000) % 0x1_0000 == 0xFFFF,
            k <= n,
            pos + n <= o.len(),
            out@.len() == o.len(),
            v1 == v0 / pow2(32),
            l1 == l0 - 32,
            bit_src.bits_value() == v1 / pow2((8 * k) as nat),
            bit_src.bit_len() == l1 - 8 * k,
            out@ == o.take(pos as int) + low_bytes(v1, k as nat) + o.skip(pos + k),
        decreases n - k,
    {
        let ghost before = bit_src.bits_value();
        let b = match bit_src.next_bits_lsb(8) {
            Ok(x) => x,
            Err(e) => {
                return Err(e);
            },
        };
        proof {
            lemma2_to64();
            vstd::arithmetic::power2::lemma_pow2_pos((8 * k) as nat);
            vstd::arithmetic::div_mod::lemma_div_denominator(v1 as int, pow2((8 * k) as nat) as int, pow2(8) as int);
            vstd::arithmetic::power2::lemma_pow2_adds((8 * k) as nat, 8);
            assert((8 * k) as nat + 8 == (8 * (k + 1)) as nat);
        }
        let ghost prev = out@;
        out[pos + k] = b as u8;
        proof {
            assert(out@ =~= o.take(pos as int) + low_bytes(v1, (k + 1) as nat) + o.skip(pos + k + 1)) by {
                assert forall|j: int| 0 <= j < out@.len() implies out@[j] == (o.take(pos as int) + low_bytes(v1, (k + 1) as nat) + o.skip(pos + k + 1))[j] by {
                    if j < pos {
                    } else if j < pos + k {
                        assert(prev[j] == low_bytes(v1, k as nat)[j - pos]);
                    } else if j == pos + k {
                    } else {
                        assert(prev[j] == o.skip(pos + k)[j - pos - k]);
                    }
                }
            }
        }
        k = k + 1;
    }
    Ok(pos + n)
}

/// Symbol `order_at(p)` comes `p`-th, and `order_pos` undoes `order_at`.
proof fn lemma_order()
    ensures
        forall|p: int| 0 <= p < 19 ==> 0 <= #[trigger] order_at(p) < 19 && order_pos(order_at(p)) == p,
        forall|j: int| 0 <= j < 19 ==> 0 <= #[trigger] order_pos(j) < 19 && order_at(order_pos(j)) == j,
{
}

/// Reads a dynamic block's header: the code length alphabet, then the
/// literal/length and distance alphabets written with it.
fn dynamic_alphabets(bit_src: &mut BitSource) -> (r: PngResult<(LitLenAlphabet, DistAlphabet)>)
    requires
        old(bit_src).wf(),
    ensures
        final(bit_src).wf(),
        final(bit_src).bit_len() <= old(bit_src).bit_len(),
        match dynamic_header(old(bit_src).bits_value(), old(bit_src).bit_len()) {
            Ok((ll, d, v1, l1)) => r matches Ok((a, b)) && (a.tree@, a.min_bit_count, a.max_bit_count) == ll
                && (b.tree@, b.min_bit_count, b.max_bit_count) == d && final(bit_src).bits_value() == v1
                && final(bit_src).bit_len() == l1 && 1 <= a.min_bit_count <= 15 && a.max_bit_count <= 15
                && 1 <= b.min_bit_count <= 15 && b.max_bit_count <= 15 && b.tree@.len() == 30,
            Err(e) => r == Err::<(LitLenAlphabet, DistAlphabet), PngError>(e),
        },
{
    let ghost v = bit_src.bits_value();
    let ghost len = bit_src.bit_len();
    proof {
        lemma2_to64();
        lemma_order();
    }
    let hlit = match bit_src.next_bits_lsb(5) {
        Ok(x) => x,
        Err(e) => {
            return Err(e);
        },
    };
    let hdist = match bit_src.next_bits_lsb(5) {
        Ok(x) => x,
        Err(e) => {
            return Err(e);
        },
    };
    let hclen = match bit_src.next_bits_lsb(4) {
        Ok(x) => x,
        Err(e) => {
            return Err(e);
        },
    };
    let ghost v0 = bit_src.bits_value();
    let ghost l0 = bit_src.bit_len();
    proof {
        vstd::arithmetic::div_mod::lemma_div_denominator(v as int, 32, 32);
        vstd::arithmetic::div_mod::lemma_div_denominator(v as int, 1024, 16);
        assert(v0 == v / pow2(14));
    }
    let hlit = hlit + 257;
    let hdist = hdist + 1;
    let hclen = hclen + 4;
    let mut cla = CodeLengthAlphabet::new();
    proof {
        assert(cla.tree@ =~= cl_lengths(v0, 0));
        assert(v0 / pow2(0) == v0);
    }
    let mut i: usize = 0;
    while i < hclen
        invariant
            bit_src.wf(),
            len == old(bit_src).bit_len(),
            v == old(bit_src).bits_value(),
            len >= 14,
            v0 == v / pow2(14),
            l0 == len - 14,
            hclen == (v / 1024) % 16 + 4,
            hclen <= 19,
            i <= hclen,
            cla.tree@ == cl_lengths(v0, i as nat),
            bit_src.bits_value() == v0 / pow2((3 * i) as nat),
            bit_src.bit_len() == l0 - 3 * i,
            bit_src.bit_len() <= old(bit_src).bit_len(),
        decreases hclen - i,
    {
        let k = code_length_order(i);
        let count = match bit_src.next_bits_lsb(3) {
            Ok(c) => c,
            Err(e) => {
                return Err(e);
            },
        };
        proof {
            lemma2_to64();
            lemma_order();
            vstd::arithmetic::power2::lemma_pow2_pos((3 * i) as nat);
            vstd::arithmetic::div_mod::lemma_div_denominator(v0 as int, pow2((3 * i) as nat) as int, 8);
            vstd::arithmetic::power2::lemma_pow2_adds((3 * i) as nat, 3);
            assert((3 * i) as nat + 3 == (3 * (i + 1)) as nat);
        }
        let ghost t_before = cla.tree@;
        set_bit_count(&mut cla.tree, k, count as u16);
        proof {
            assert(cla.tree@ =~= cl_lengths(v0, (i + 1) as nat)) by {
                assert forall|j: int| 0 <= j < 19 implies cla.tree@[j] == cl_lengths(v0, (i + 1) as nat)[j] by {
                    if j == k {
                        assert(order_pos(j) == i);
                    } else {
                        assert(order_pos(j) != i);
                    }
                }
            }
        }
        i = i + 1;
    }
    let ghost clt = cla.tree@;
    let ghost v1 = bit_src.bits_value();
    let ghost l1 = bit_src.bit_len();
    let rr = cla.refresh();
    proof {
        lemma_codes_filled(clt, cla.tree@, rr);
        lemma_bit_bounds(clt, 19);
    }
    match rr {
        Ok(()) => {},
        Err(e) => {
            return Err(e);
        },
    }
    if hlit > LitLenAlphabet::COUNT || hdist > DistAlphabet::COUNT {
        return Err(PngError::BadDynamicHuffmanTreeData);
    }
    let mut litlen_alphabet = LitLenAlphabet::new();
    let ghost z1 = litlen_alphabet.tree@;
    match cla.fill_a_tree(hlit, litlen_alphabet.tree.as_mut_slice(), bit_src) {
        Ok(()) => {},
        Err(e) => {
            return Err(e);
        },
    }
    let ghost ll0 = litlen_alphabet.tree@;
    let ghost lens1 = code_lengths(codes_of(clt), min_bits(clt, 19), v1, l1, hlit as nat, 286, Seq::empty()).1;
    proof {
        assert(ll0 =~= with_lengths(286, lens1));
    }
    let ghost v2 = bit_src.bits_value();
    let ghost l2 = bit_src.bit_len();
    litlen_alphabet.refresh();
    proof {
        lemma_bit_bounds(ll0, ll0.len() as int);
        let r1 = choose|r: PngResult<()>| codes_filled(ll0, litlen_alphabet.tree@, r);
        lemma_codes_filled(ll0, litlen_alphabet.tree@, r1);
    }
    let mut dist_alphabet = DistAlphabet::new();
    match cla.fill_a_tree(hdist, dist_alphabet.tree.as_mut_slice(), bit_src) {
        Ok(()) => {},
        Err(e) => {
            return Err(e);
        },
    }
    let ghost d0 = dist_alphabet.tree@;
    let ghost lens2 = code_lengths(codes_of(clt), min_bits(clt, 19), v2, l2, hdist as nat, 30, Seq::empty()).1;
    proof {
        assert(d0 =~= with_lengths(30, lens2));
    }
    let rd = dist_alphabet.refresh();
    proof {
        lemma_codes_filled(d0, dist_alphabet.tree@, rd);
        lemma_bit_bounds(d0, d0.len() as int);
    }
    match rd {
        Ok(()) => {},
        Err(e) => {
            return Err(e);
        },
    }
    Ok((litlen_alphabet, dist_alphabet))
}

/// The alphabet model of a literal/length alphabet.
pub open spec fn lit_len_model(a: LitLenAlphabet) -> AlphabetModel {
    (a.tree@, a.min_bit_count, a.max_bit_count)
}

/// The alphabet model of a distance alphabet.
pub open spec fn dist_model(a: DistAlphabet) -> AlphabetModel {
    (a.tree@, a.min_bit_count, a.max_bit_count)
}

/// Inflates one symbol of a Huffman block into `out` at `out_position`:
/// gives whether it ended the block, and the new position.
fn huffman_symbol_to(out: &mut [u8], out_position: usize, ll: &LitLenAlphabet, d: &DistAlphabet, bit_src: &mut BitSource) -> (r: PngResult<(bool, usize)>)
    requires
        old(bit_src).wf(),
        out_position <= old(out)@.len(),
        1 <= ll.min_bit_count <= 15,
        ll.max_bit_count <= 15,
        1 <= d.min_bit_count <= 15,
        d.max_bit_count <= 15,
        d.tree@.len() == 30,
    ensures
        final(bit_src).wf(),
        final(out)@.len() == old(out)@.len(),
        final(bit_src).bit_len() <= old(bit_src).bit_len(),
        match huff_step(lit_len_model(*ll), dist_model(*d), old(bit_src).bits_value(), old(bit_src).bit_len(), old(out)@, out_position as nat) {
            Ok((end, v1, l1, o1, p1)) => r == Ok::<(bool, usize), PngError>((end, p1 as usize)) && final(out)@ == o1
                && final(bit_src).bits_value() == v1 && final(bit_src).bit_len() == l1 && l1 < old(bit_src).bit_len()
                && p1 <= old(out)@.len(),
            Err(e) => r == Err::<(bool, usize), PngError>(e),
        },
{
    let olen = out.len();
    let ghost v = bit_src.bits_value();
    let ghost avail = bit_src.bit_len();
    let ghost o = out@;
    let lit_len = match ll.pull_and_match(bit_src) {
        Ok(s) => s,
        Err(e) => {
            return Err(e);
        },
    };
    proof {
        lemma_search_uses_bits(ll.tree@, v, avail, ll.min_bit_count as nat, Some(ll.max_bit_count),
            PngError::CouldNotFindLitLenSymbol);
    }
    let ghost v1 = bit_src.bits_value();
    let ghost l1 = bit_src.bit_len();
    if lit_len < 256 {
        if out_position < out.len() {
            out[out_position] = lit_len as u8;
            return Ok((false, out_position + 1));
        } else {
            return Err(PngError::OutputOverflow);
        }
    } else if lit_len == 256 {
        return Ok((true, out_position));
    } else {
        let len: usize = if lit_len <= 264 {
            lit_len - 254
        } else if lit_len <= 284 {
            let num_extra_bits = (lit_len - 261) / 4;
            let extra = match bit_src.next_bits_lsb(num_extra_bits as u32) {
                Ok(x) => x,
                Err(e) => {
                    return Err(e);
                },
            };
            let base = (lit_len - 265) % 4 + 4;
            proof {
                lemma2_to64();
                vstd::arithmetic::power2::lemma_pow2_strictly_increases(num_extra_bits as nat, 6);
                assert(base * pow2(num_extra_bits as nat) <= 448) by (nonlinear_arith)
                    requires
                        base <= 7,
                        pow2(num_extra_bits as nat) < 64,
                ;
                vstd::bits::lemma_usize_shl_is_mul(base, num_extra_bits);
            }
            (base << num_extra_bits) + 3 + extra
        } else {
            258
        };
        let ghost v2 = bit_src.bits_value();
        let ghost l2 = bit_src.bit_len();
        assert(ref_length(lit_len as nat, v1, l1) == Ok::<(nat, nat, nat), PngError>((len as nat, v2, l2)));
        let dist_sym = match d.pull_and_match(bit_src) {
            Ok(s) => s,
            Err(e) => {
                return Err(e);
            },
        };
        proof {
            lemma_found_in_tree(d.tree@, v2, l2, d.min_bit_count as nat, Some(d.max_bit_count),
                PngError::CouldNotFindDistSymbol);
            lemma_search_uses_bits(d.tree@, v2, l2, d.min_bit_count as nat, Some(d.max_bit_count),
                PngError::CouldNotFindDistSymbol);
        }
        let ghost v3 = bit_src.bits_value();
        let ghost l3 = bit_src.bit_len();
        let dist: usize = if dist_sym <= 3 {
            dist_sym + 1
        } else {
            let num_extra_bits = dist_sym / 2 - 1;
            let extra = match bit_src.next_bits_lsb(num_extra_bits as u32) {
                Ok(x) => x,
                Err(e) => {
                    return Err(e);
                },
            };
            let base = dist_sym % 2 + 2;
            proof {
                lemma2_to64();
                vstd::arithmetic::power2::lemma_pow2_strictly_increases(num_extra_bits as nat, 14);
                assert(base * pow2(num_extra_bits as nat) <= 0xC000) by (nonlinear_arith)
                    requires
                        base <= 3,
                        pow2(num_extra_bits as nat) < 0x4000,
                ;
                vstd::bits::lemma_usize_shl_is_mul(base, num_extra_bits);
            }
            (base << num_extra_bits) + 1 + extra
        };
        assert(ref_distance(dist_sym as nat, v3, l3) == Ok::<(nat, nat, nat), PngError>((dist as nat, bit_src.bits_value(), bit_src.bit_len())));
        if dist > out_position {
            return Err(PngError::BackRefToBeforeOutputStart);
        }
        let start_of_back_dist = out_position - dist;
        if len <= out.len() - out_position {
            copy_back(out, start_of_back_dist, len, out_position);
            return Ok((false, out_position + len));
        } else {
            return Err(PngError::OutputOverflow);
        }
    }
}

/// Inflates the symbols of a Huffman block into `out` from `pos` on, up to
/// the end of block symbol. Gives the new position.
fn huffman_block_to(out: &mut [u8], pos: usize, ll: &LitLenAlphabet, d: &DistAlphabet, bit_src: &mut BitSource) -> (r: PngResult<usize>)
    requires
        old(bit_src).wf(),
        pos <= old(out)@.len(),
        1 <= ll.min_bit_count <= 15,
        ll.max_bit_count <= 15,
        1 <= d.min_bit_count <= 15,
        d.max_bit_count <= 15,
        d.tree@.len() == 30,
    ensures
        final(bit_src).wf(),
        final(out)@.len() == old(out)@.len(),
        final(bit_src).bit_len() <= old(bit_src).bit_len(),
        match huff_block(lit_len_model(*ll), dist_model(*d), old(bit_src).bits_value(), old(bit_src).bit_len(), old(out)@, pos as nat) {
            Ok((v1, l1, o1, p1)) => r == Ok::<usize, PngError>(p1 as usize) && final(out)@ == o1
                && final(bit_src).bits_value() == v1 && final(bit_src).bit_len() == l1 && p1 <= old(out)@.len(),
            Err(e) => r == Err::<usize, PngError>(e),
        },
{
    let ghost llm = lit_len_model(*ll);
    let ghost dm = dist_model(*d);
    let ghost goal = huff_block(llm, dm, bit_src.bits_value(), bit_src.bit_len(), out@, pos as nat);
    let olen = out.len();
    let mut out_position: usize = pos;
    loop
        invariant
            bit_src.wf(),
            olen == out@.len(),
            out@.len() == old(out)@.len(),
            out_position <= out@.len(),
            llm == lit_len_model(*ll),
            dm == dist_model(*d),
            1 <= ll.min_bit_count <= 15,
            ll.max_bit_count <= 15,
            1 <= d.min_bit_count <= 15,
            d.max_bit_count <= 15,
            d.tree@.len() == 30,
            goal == huff_block(llm, dm, bit_src.bits_value(), bit_src.bit_len(), out@, out_position as nat),
            goal == huff_block(llm, dm, old(bit_src).bits_value(), old(bit_src).bit_len(), old(out)@, pos as nat),
            bit_src.bit_len() <= old(bit_src).bit_len(),
        decreases bit_src.bit_len(),
    {
        let ghost v = bit_src.bits_value();
        let ghost avail = bit_src.bit_len();
        let ghost o = out@;
        let ghost p = out_position;
        match huffman_symbol_to(out, out_position, ll, d, bit_src) {
            Ok((end, next)) => {
                if end {
                    return Ok(next);
                }
                proof {
                    let st = huff_step(llm, dm, v, avail, o, p as nat);
                    match st {
                        Ok((e2, v1, l1, o1, p1)) => {
                            assert(!e2);
                            assert(p1 == next as nat);
                            assert(l1 < avail);
                            assert(huff_block(llm, dm, v, avail, o, p as nat) == huff_block(llm, dm, v1, l1, o1, p1));
                        },
                        Err(_) => {},
                    }
                }
                out_position = next;
            },
            Err(e) => {
                return Err(e);
            },
        }
    }
}

/// Inflates the body of a block of type `block_type` into `out` at `pos`:
/// stored (0), with dynamic Huffman codes (2), or with the fixed codes (the
/// other types). Gives the new position.
fn block_to(out: &mut [u8], pos: usize, block_type: usize, bit_src: &mut BitSource) -> (r: PngResult<usize>)
    requires
        old(bit_src).wf(),
        pos <= old(out)@.len(),
    ensures
        final(bit_src).wf(),
        final(out)@.len() == old(out)@.len(),
        final(bit_src).bit_len() <= old(bit_src).bit_len(),
        match block_body(block_type as nat, old(bit_src).bits_value(), old(bit_src).bit_len(), old(out)@, pos as nat) {
            Ok((v1, l1, o1, p1)) => r == Ok::<usize, PngError>(p1 as usize) && final(out)@ == o1
                && final(bit_src).bits_value() == v1 && final(bit_src).bit_len() == l1 && p1 <= old(out)@.len(),
            Err(e) => r == Err::<usize, PngError>(e),
        },
{
    if block_type == 0 {
        stored_block_to(out, pos, bit_src)
    } else if block_type == 2 {
        match dynamic_alphabets(bit_src) {
            Ok((ll, d)) => huffman_block_to(out, pos, &ll, &d, bit_src),
            Err(e) => Err(e),
        }
    } else {
        match fixed_dist_alphabet() {
            Ok(d) => {
                let ll = fixed_lit_len_alphabet();
                huffman_block_to(out, pos, &ll, &d, bit_src)
            },
            Err(e) => Err(e),
        }
    }
}

/// Inflates a deflate stream from `bit_src` into `out`, block after block
/// until a final one, as [inflate_blocks] says. Gives the number of bytes
/// written.
fn decompress_deflate_to(out: &mut [u8], bit_src: &mut BitSource) -> (r: PngResult<usize>)
    requires
        old(bit_src).wf(),
    ensures
        final(bit_src).wf(),
        final(out)@.len() == old(out)@.len(),
        match inflate_blocks(old(bit_src).bits_value(), old(bit_src).bit_len(), old(out)@, 0) {
            Ok((n, o)) => r == Ok::<usize, PngError>(n as usize) && final(out)@ == o && n <= old(out)@.len()
                && final(out)@.skip(n as int) == old(out)@.skip(n as int),
            Err(e) => r == Err::<usize, PngError>(e),
        },
{
    let ghost goal = inflate_blocks(bit_src.bits_value(), bit_src.bit_len(), out@, 0);
    proof {
        lemma_inflate_blocks_frame(bit_src.bits_value(), bit_src.bit_len(), out@, 0);
    }
    let olen = out.len();
    let mut out_position: usize = 0;
    loop
        invariant
            bit_src.wf(),
            olen == out@.len(),
            out@.len() == old(out)@.len(),
            out_position <= olen,
            goal == inflate_blocks(bit_src.bits_value(), bit_src.bit_len(), out@, out_position as nat),
            goal == inflate_blocks(old(bit_src).bits_value(), old(bit_src).bit_len(), old(out)@, 0),
            goal matches Ok((n, o)) ==> o.skip(n as int) == old(out)@.skip(n as int),
        decreases bit_src.bit_len(),
    {
        let ghost v = bit_src.bits_value();
        let ghost len = bit_src.bit_len();
        let ghost o = out@;
        let ghost p = out_position;
        proof {
            reveal(inflate_blocks);
        }
        let is_final_block = match bit_src.next_bfinal() {
            Ok(b) => b,
            Err(e) => {
                return Err(e);
            },
        };
        let block_type = match bit_src.next_btype() {
            Ok(t) => t,
            Err(e) => {
                return Err(e);
            },
        };
        proof {
            vstd::arithmetic::power2::lemma2_to64();
            vstd::arithmetic::div_mod::lemma_div_denominator(v as int, 2, 4);
            assert(bit_src.bits_value() == v / 8);
            assert(bit_src.bit_len() == len - 3);
        }
        match block_to(out, out_position, block_type, bit_src) {
            Ok(next) => {
                if is_final_block {
                    return Ok(next);
                }
                proof {
                    reveal(inflate_blocks);
                    let st = block_body(block_type as nat, v / 8, (len - 3) as nat, o, p as nat);
                    match st {
                        Ok((v1, l1, o1, p1)) => {
                            assert(p1 == next as nat);
                            assert(inflate_blocks(v, len, o, p as nat) == inflate_blocks(v1, l1, o1, p1));
                        },
                        Err(_) => {},
                    }
                }
                out_position = next;
            },
            Err(e) => {
                return Err(e);
            },
        }
    }
}

/// Checks a zlib header and inflates the stream that follows it, which
/// starts in `first` and goes on through each slice of `more`.
fn decompress_zlib_to(out: &mut [u8], first: &[u8], more: &[&[u8]]) -> (r: PngResult<usize>)
    requires
        slices_nonempty(more@),
    ensures
        final(out)@.len() == old(out)@.len(),
        match zlib_inflate(first@, concat_slices(more@), old(out)@) {
            Ok((n, o)) => r == Ok::<usize, PngError>(n as usize) && final(out)@ == o && n <= old(out)@.len()
                && final(out)@.skip(n as int) == old(out)@.skip(n as int),
            Err(e) => r == Err::<usize, PngError>(e),
        },
{
    if first.len() < 2 {
        return Err(PngError::UnexpectedEndOfInput);
    }
    let cmf = first[0];
    let flg = first[1];
    let cm = cmf & 0b1111;
    let cinfo = cmf >> 4u8;
    assert(cm == cmf % 16 && cinfo == cmf / 16) by (bit_vector)
        requires
            cm == cmf & 0b1111,
            cinfo == cmf >> 4u8,
    ;
    if cm != 8 {
        return Err(PngError::IllegalCompressionMethod);
    }
    if cinfo > 7 {
        return Err(PngError::IllegalCompressionInfo);
    }
    let fdict = ((1u8 << 5u8) & flg) > 0;
    assert(fdict == ((flg / 32) % 2 == 1)) by (bit_vector)
        requires
            fdict == (((1u8 << 5u8) & flg) > 0),
    ;
    let check = crate::int_endian::u16_from_be(cmf, flg);
    if check % 31 != 0 {
        return Err(PngError::IllegalFlagCheck);
    }
    if fdict {
        return Err(PngError::IllegalFlagCheck);
    }
    let rest = vstd::slice::slice_subrange(first, 2, first.len());
    let mut bit_source = BitSource::new(rest, more);
    proof {
        assert(rest@ =~= first@.skip(2));
        assert(pow2(0) == 1) by {
            lemma2_to64();
        }
    }
    decompress_deflate_to(out, &mut bit_source)
}

/// The data of every `IDAT` chunk met while walking the chunks of `s`, in
/// order.
pub open spec fn walked_idats(s: Seq<u8>) -> Seq<Seq<u8>>
    decreases s.len(),
{
    match chunk_walk_step(s).0 {
        None => Seq::empty(),
        Some(parts) => {
            proof {
                lemma_walk_step_shrinks(s);
            }
            let here: Seq<Seq<u8>> = if parts.0 == seq![73u8, 68u8, 65u8, 84u8] { seq![parts.1] } else { Seq::empty() };
            here + walked_idats(chunk_walk_step(s).1)
        },
    }
}

/// What inflating the image data of PNG bytes into `out` gives: the stream
/// starts in the first `IDAT` chunk and goes on through the later ones.
pub open spec fn idat_inflate(png_bytes: Seq<u8>, out: Seq<u8>) -> PngResult<(nat, Seq<u8>)> {
    if png_bytes.len() < 8 {
        Err(PngError::UnexpectedEndOfInput)
    } else if png_bytes.take(8) != png_signature() {
        Err(PngError::NoPngSignature)
    } else {
        let ds = walked_idats(png_bytes.skip(8));
        if ds.len() == 0 {
            Err(PngError::UnexpectedEndOfInput)
        } else {
            zlib_inflate(ds[0], ds.drop_first().flatten(), out)
        }
    }
}

proof fn lemma_concat_push(ss: Seq<&[u8]>, x: &[u8])
    ensures
        concat_slices(ss.push(x)) == concat_slices(ss) + x@,
    decreases ss.len(),
{
    let e: Seq<&[u8]> = Seq::empty();
    assert(concat_slices(e) == Seq::<u8>::empty());
    if ss.len() == 0 {
        assert(ss.push(x).skip(1) =~= e);
        assert(ss.push(x)[0] == x);
        assert(concat_slices(ss.push(x)) == x@ + concat_slices(e));
        assert(concat_slices(ss.push(x)) =~= concat_slices(ss) + x@);
    } else {
        lemma_concat_push(ss.skip(1), x);
        assert(ss.push(x).skip(1) =~= ss.skip(1).push(x));
        assert(ss.push(x)[0] == ss[0]);
        assert(concat_slices(ss.push(x)) == ss[0]@ + concat_slices(ss.skip(1).push(x)));
        assert(concat_slices(ss) == ss[0]@ + concat_slices(ss.skip(1)));
        assert(concat_slices(ss.push(x)) =~= concat_slices(ss) + x@);
    }
}

/// Inflates the zlib stream held in the IDAT chunks of `png_bytes` into
/// `out`, as [idat_inflate] says; returns the number of bytes written.
///
/// The stream starts in the first IDAT chunk and goes on through the later
/// ones.
pub fn decompress_idat_to(out: &mut [u8], png_bytes: &[u8]) -> (r: PngResult<usize>)
    ensures
        final(out)@.len() == old(out)@.len(),
        match idat_inflate(png_bytes@, old(out)@) {
            Ok((n, o)) => r == Ok::<usize, PngError>(n as usize) && final(out)@ == o && n <= old(out)@.len()
                && final(out)@.skip(n as int) == old(out)@.skip(n as int),
            Err(e) => r == Err::<usize, PngError>(e),
        },
{
    let mut it = match PngChunkIter::from_png_bytes(png_bytes) {
        Ok(it) => it,
        Err(e) => {
            return Err(e);
        },
    };
    let ghost all = walked_idats(png_bytes@.skip(8));
    let ghost mut seen: Seq<Seq<u8>> = Seq::empty();
    let mut first: Option<&[u8]> = None;
    let mut more: Vec<&[u8]> = Vec::new();
    proof {
        assert(all =~= seen + walked_idats(it.remaining()));
    }
    loop
        invariant
            slices_nonempty(more@),
            png_bytes@.len() >= 8,
            png_bytes@.take(8) == png_signature(),
            all == walked_idats(png_bytes@.skip(8)),
            all == seen + walked_idats(it.remaining()),
            first is None <==> seen.len() == 0,
            first matches Some(f) ==> f@ == seen[0],
            seen.len() > 0 ==> concat_slices(more@) == seen.drop_first().flatten(),
            seen.len() == 0 ==> more@.len() == 0,
        ensures
            all == seen,
            first is None <==> seen.len() == 0,
            first matches Some(f) ==> f@ == seen[0],
            seen.len() > 0 ==> concat_slices(more@) == seen.drop_first().flatten(),
            slices_nonempty(more@),
        decreases it.remaining().len(),
    {
        let ghost before = it.remaining();
        match it.next() {
            Some(c) => {
                proof {
                    lemma_walk_step_shrinks(before);
                }
                let t = c.chunk_type.0;
                let is_idat = t[0] == 73 && t[1] == 68 && t[2] == 65 && t[3] == 84;
                let ghost here: Seq<Seq<u8>> = if is_idat { seq![c.chunk_data@] } else { Seq::empty() };
                proof {
                    assert(is_idat == (c.chunk_type.0@ == seq![73u8, 68u8, 65u8, 84u8])) by {
                        if c.chunk_type.0@ == seq![73u8, 68u8, 65u8, 84u8] {
                            assert(c.chunk_type.0@[0] == 73u8);
                        }
                        if is_idat {
                            assert(c.chunk_type.0@ =~= seq![73u8, 68u8, 65u8, 84u8]);
                        }
                    }
                    assert(walked_idats(before) == here + walked_idats(it.remaining()));
                }
                if is_idat {
                    match first {
                        None => {
                            first = Some(c.chunk_data);
                            proof {
                                assert(seen.push(c.chunk_data@).drop_first() =~= Seq::<Seq<u8>>::empty());
                                assert(more@ =~= Seq::<&[u8]>::empty());
                                assert(concat_slices(more@) == Seq::<u8>::empty());
                            }
                        },
                        Some(_) => {
                            let ghost more0 = more@;
                            if c.chunk_data.len() > 0 {
                                more.push(c.chunk_data);
                                proof {
                                    lemma_concat_push(more0, c.chunk_data);
                                }
                            }
                            proof {
                                assert(seen.push(c.chunk_data@).drop_first() =~= seen.drop_first().push(c.chunk_data@));
                                seen.drop_first().lemma_flatten_push(c.chunk_data@);
                                if c.chunk_data.len() == 0 {
                                    assert(seen.drop_first().flatten() + c.chunk_data@ =~= seen.drop_first().flatten());
                                }
                            }
                        },
                    }
                    proof {
                        seen = seen.push(c.chunk_data@);
                    }
                }
                proof {
                    assert(all =~= seen + walked_idats(it.remaining()));
                }
            },
            None => {
                proof {
                    assert(walked_idats(before) =~= Seq::<Seq<u8>>::empty());
                    assert(all =~= seen);
                }
                break;
            },
        }
    }
    match first {
        Some(f) => decompress_zlib_to(out, f, more.as_slice()),
        None => Err(PngError::UnexpectedEndOfInput),
    }
}

} // verus!
