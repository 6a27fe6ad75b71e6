//! Reconstructing (unfiltering) decompressed PNG scanlines.
use vstd::prelude::*;
use super::chunks::{IHDR, PngColorType, spec_bits_per_pixel, spec_bytes_per_filterline};
use super::interlace::{reduced_image_dimensions, spec_reduced_dims, spec_full_pos, interlaced_pos_to_full_pos, wrap32, sat, saturating_mul_usize};

verus! {

/// The Paeth predictor over exact integers: whichever of the left (`a`), up
/// (`b`) and up-left (`c`) bytes is closest to `a + b - c`, ties going to
/// `a`, then `b`.
pub open spec fn spec_paeth(a: u8, b: u8, c: u8) -> u8 {
    let p = a as int + b as int - c as int;
    let pa = if p - a >= 0 { p - a } else { a - p };
    let pb = if p - b >= 0 { p - b } else { b - p };
    let pc = if p - c >= 0 { p - c } else { c - p };
    if pa <= pb && pa <= pc {
        a
    } else if pb <= pc {
        b
    } else {
        c
    }
}

/// The reconstructed byte for filter type `f`, filtered byte `x`, and the
/// reconstructed neighbours `a` (left), `b` (up) and `c` (up-left). Unknown
/// filter types leave the byte alone. The average filter halves the full
/// sum `a + b`, which may exceed a byte.
pub open spec fn recon_byte(f: u8, x: u8, a: u8, b: u8, c: u8) -> u8 {
    if f == 1 {
        ((x + a) % 256) as u8
    } else if f == 2 {
        ((x + b) % 256) as u8
    } else if f == 3 {
        ((x + (a + b) / 2) % 256) as u8
    } else if f == 4 {
        ((x + spec_paeth(a, b, c)) % 256) as u8
    } else {
        x
    }
}

/// The first `n` reconstructed bytes of a filtered line `row`, given the
/// reconstructed previous line `prev` and the filter chunk size `cs`.
pub open spec fn recon_prefix(f: u8, row: Seq<u8>, prev: Seq<u8>, cs: int, n: nat) -> Seq<u8>
    decreases n,
{
    if n == 0 {
        Seq::empty()
    } else {
        let p = recon_prefix(f, row, prev, cs, (n - 1) as nat);
        let i = n - 1;
        let a = if i >= cs { p[i - cs] } else { 0u8 };
        let b = prev[i];
        let c = if i >= cs { prev[i - cs] } else { 0u8 };
        p.push(recon_byte(f, row[i], a, b, c))
    }
}

/// `n` zero bytes.
pub open spec fn zeros(n: int) -> Seq<u8> {
    Seq::new(n as nat, |i: int| 0u8)
}

/// The reconstructed pixel bytes of row `k` of an image whose filter lines
/// (`bpf` bytes each, filter byte first) are held in `lvl`. The line above the
/// first row counts as zeros.
pub open spec fn recon_row(lvl: Seq<u8>, bpf: int, cs: int, k: nat) -> Seq<u8>
    decreases k,
{
    let row = lvl.subrange(k * bpf + 1, k * bpf + bpf);
    let f = lvl[k * bpf];
    let prev = if k == 0 { zeros(bpf - 1) } else { recon_row(lvl, bpf, cs, (k - 1) as nat) };
    recon_prefix(f, row, prev, cs, (bpf - 1) as nat)
}

/// A filter line after unfiltering: the pixel bytes are reconstructed; the
/// first row's filter byte becomes 0 unless `keep_filter_bytes`.
pub open spec fn final_row(keep_filter_bytes: bool, lvl: Seq<u8>, bpf: int, cs: int, k: nat) -> Seq<u8> {
    seq![if k == 0 && !keep_filter_bytes { 0u8 } else { lvl[k * bpf] }] + recon_row(lvl, bpf, cs, k)
}

/// The first `k` filter lines after unfiltering.
pub open spec fn final_rows(keep_filter_bytes: bool, lvl: Seq<u8>, bpf: int, cs: int, k: nat) -> Seq<u8>
    decreases k,
{
    if k == 0 {
        Seq::empty()
    } else {
        final_rows(keep_filter_bytes, lvl, bpf, cs, (k - 1) as nat) + final_row(keep_filter_bytes, lvl, bpf, cs, (k - 1) as nat)
    }
}

/// How many bytes of a line form one filter unit: one pixel for pixels of a
/// byte or more, one byte otherwise. `None` for illegal depths.
pub open spec fn spec_filter_chunk_size(h: IHDR) -> Option<int> {
    let d = h.bit_depth;
    match h.color_type {
        PngColorType::Y => if d == 16 { Some(2) } else if d == 8 || d == 4 || d == 2 || d == 1 { Some(1) } else { None },
        PngColorType::RGB => if d == 8 { Some(3) } else if d == 16 { Some(6) } else { None },
        PngColorType::Index => if d == 8 || d == 4 || d == 2 || d == 1 { Some(1) } else { None },
        PngColorType::YA => if d == 8 { Some(2) } else if d == 16 { Some(4) } else { None },
        PngColorType::RGBA => if d == 8 { Some(4) } else if d == 16 { Some(8) } else { None },
    }
}

/// The filter chunk size of a header's pixel format, 0 for illegal depths.
pub fn filter_chunk_size(h: &IHDR) -> (cs: usize)
    ensures
        match spec_filter_chunk_size(*h) {
            Some(c) => cs == c && 1 <= cs <= 8,
            None => cs == 0,
        },
{
    let d = h.bit_depth;
    match h.color_type {
        PngColorType::Y => if d == 16 { 2 } else if d == 8 || d == 4 || d == 2 || d == 1 { 1 } else { 0 },
        PngColorType::RGB => if d == 8 { 3 } else if d == 16 { 6 } else { 0 },
        PngColorType::Index => if d == 8 || d == 4 || d == 2 || d == 1 { 1 } else { 0 },
        PngColorType::YA => if d == 8 { 2 } else if d == 16 { 4 } else { 0 },
        PngColorType::RGBA => if d == 8 { 4 } else if d == 16 { 8 } else { 0 },
    }
}

/// One pixel handed out by unfiltering: its full-image position and bytes.
pub type PixelModel = (u32, u32, Seq<u8>);

/// One pixel produced by unfiltering: its position in the full image, and its
/// data (the value in the low bits of one byte for depths below 8, one byte
/// per channel for depth 8, two big-endian bytes per channel for depth 16).
#[derive(Debug, Clone)]
pub struct UnfilteredPixel {
    pub x: u32,
    pub y: u32,
    pub data: Vec<u8>,
}

impl UnfilteredPixel {
    /// The pixel as plain values.
    pub open spec fn view(&self) -> PixelModel {
        (self.x, self.y, self.data@)
    }
}

/// The sub-byte pixels `k..` of a packed byte at depth `bd` (1, 2 or 4), from
/// the high bits down, stopping at the first one right of the image.
pub open spec fn sub_pixels(h: IHDR, level: int, rx: u32, ry: u32, byte: u8, bd: int, k: int) -> Seq<PixelModel>
    decreases 8 - k,
{
    if bd <= 0 || k < 0 || k >= 8 || bd * k >= 8 {
        Seq::empty()
    } else {
        let px = wrap32(rx as int * (8int / bd) + k);
        let pos = spec_full_pos(level, px, ry);
        if pos.0 >= h.width {
            Seq::empty()
        } else {
            let shift = (8 - bd * (k + 1)) as u8;
            let value = ((byte >> shift) as int % pow2_small(bd)) as u8;
            seq![(pos.0, pos.1, seq![value])] + sub_pixels(h, level, rx, ry, byte, bd, k + 1)
        }
    }
}

/// `2^e` for the small exponents used by bit depths.
pub open spec fn pow2_small(e: int) -> int {
    if e == 1 { 2 } else if e == 2 { 4 } else if e == 4 { 16 } else { 256 }
}

/// The pixels handed out for one filter unit at `(rx, ry)` of reduced image
/// `level`.
pub open spec fn unit_pixels(h: IHDR, level: int, rx: u32, ry: u32, data: Seq<u8>) -> Seq<PixelModel> {
    if h.bit_depth == 8 || h.bit_depth == 16 {
        let pos = spec_full_pos(level, rx, ry);
        seq![(pos.0, pos.1, data)]
    } else {
        sub_pixels(h, level, rx, ry, data[0], h.bit_depth as int, 0)
    }
}

/// The pixels handed out for the first `n` units of a reconstructed row.
pub open spec fn row_pixels(h: IHDR, level: int, ry: u32, row: Seq<u8>, cs: int, n: nat) -> Seq<PixelModel>
    decreases n,
{
    if n == 0 {
        Seq::empty()
    } else {
        row_pixels(h, level, ry, row, cs, (n - 1) as nat) + unit_pixels(
            h,
            level,
            (n - 1) as u32,
            ry,
            row.subrange((n - 1) * cs, n * cs),
        )
    }
}

/// The pixels handed out for the first `k` rows of a reduced image.
pub open spec fn level_pixels(h: IHDR, level: int, lvl: Seq<u8>, bpf: int, cs: int, k: nat) -> Seq<PixelModel>
    decreases k,
{
    if k == 0 {
        Seq::empty()
    } else {
        level_pixels(h, level, lvl, bpf, cs, (k - 1) as nat) + row_pixels(
            h,
            level,
            (k - 1) as u32,
            recon_row(lvl, bpf, cs, (k - 1) as nat),
            cs,
            ((bpf - 1) / cs) as nat,
        )
    }
}

/// The outcome of unfiltering the reduced images `level..=last`, starting at
/// byte `off` of `buf`: whether it succeeded, the pixels handed out, and the
/// buffer afterwards. A reduced image with a zero dimension is skipped; one
/// whose lines don't fit in what is left of the buffer stops everything with
/// a failure (the pixels and changes from earlier images stay).
pub open spec fn spec_unfilter_levels(h: IHDR, buf: Seq<u8>, cs: int, level: int, last: int, off: int) -> (bool, Seq<PixelModel>, Seq<u8>)
    decreases last + 1 - level,
{
    if level > last {
        (true, Seq::empty(), buf)
    } else {
        let d = spec_reduced_dims(level, h.width, h.height);
        if d.0 == 0 || d.1 == 0 {
            spec_unfilter_levels(h, buf, cs, level + 1, last, off)
        } else {
            let bpf = spec_bytes_per_filterline(h, d.0);
            let used = sat(bpf * d.1);
            if buf.len() - off < used {
                (false, Seq::empty(), buf)
            } else {
                let lvl = buf.subrange(off, off + used);
                let new_buf = buf.take(off) + final_rows(false, lvl, bpf, cs, d.1 as nat) + buf.skip(off + used);
                let rest = spec_unfilter_levels(h, new_buf, cs, level + 1, last, off + used);
                (rest.0, level_pixels(h, level, lvl, bpf, cs, d.1 as nat) + rest.1, rest.2)
            }
        }
    }
}

/// The outcome of [IHDR::unfilter_decompressed_data] on `buf`.
pub open spec fn spec_unfilter(h: IHDR, buf: Seq<u8>) -> (bool, Seq<PixelModel>, Seq<u8>) {
    if h.width == 0 || h.height == 0 || spec_filter_chunk_size(h) is None {
        (false, Seq::empty(), buf)
    } else if h.is_interlaced {
        spec_unfilter_levels(h, buf, spec_filter_chunk_size(h)->0, 1, 7, 0)
    } else {
        spec_unfilter_levels(h, buf, spec_filter_chunk_size(h)->0, 0, 0, 0)
    }
}

/// The Paeth predictor, computed exactly.
/// How far apart two integers are.
pub open spec fn distance(x: int, y: int) -> int {
    if x >= y { x - y } else { y - x }
}

/// The Paeth predictor picks one of `a`, `b` and `c`, one that is nearest to
/// the estimate `p = a + b - c` among the three; when `a` is among the
/// nearest it is `a`, otherwise when `b` is it is `b`, so it is `c` only
/// when `c` is strictly nearer than both.
pub proof fn lemma_paeth_picks_the_nearest(a: u8, b: u8, c: u8)
    ensures
        ({
            let p = a as int + b as int - c as int;
            let r = spec_paeth(a, b, c);
            &&& r == a || r == b || r == c
            &&& distance(p, r as int) <= distance(p, a as int)
            &&& distance(p, r as int) <= distance(p, b as int)
            &&& distance(p, r as int) <= distance(p, c as int)
            &&& (distance(p, a as int) <= distance(p, b as int) && distance(p, a as int) <= distance(p, c as int))
                ==> r == a
            &&& (distance(p, b as int) < distance(p, a as int) && distance(p, b as int) <= distance(p, c as int))
                ==> r == b
            &&& (distance(p, c as int) < distance(p, a as int) && distance(p, c as int) < distance(p, b as int))
                ==> r == c
        }),
{
}

fn paeth_predictor(a: u8, b: u8, c: u8) -> (r: u8)
    ensures
        r == spec_paeth(a, b, c),
{
    let a_ = a as i32;
    let b_ = b as i32;
    let c_ = c as i32;
    let p: i32 = a_ + b_ - c_;
    let pa = if p - a_ >= 0 { p - a_ } else { a_ - p };
    let pb = if p - b_ >= 0 { p - b_ } else { b_ - p };
    let pc = if p - c_ >= 0 { p - c_ } else { c_ - p };
    if pa <= pb && pa <= pc {
        a
    } else if pb <= pc {
        b
    } else {
        c
    }
}

/// The amount a filter adds to a filtered byte.
fn filter_addend(f: u8, a: u8, b: u8, c: u8) -> (p: u8)
    ensures
        forall|x: u8| #[trigger] recon_byte(f, x, a, b, c) == ((x + p) % 256) as u8,
{
    if f == 1 {
        a
    } else if f == 2 {
        b
    } else if f == 3 {
        average_full(a, b)
    } else if f == 4 {
        paeth_predictor(a, b, c)
    } else {
        0
    }
}

/// One reconstructed byte.
fn recon_byte_exec(f: u8, x: u8, a: u8, b: u8, c: u8) -> (r: u8)
    ensures
        r == recon_byte(f, x, a, b, c),
{
    let p = filter_addend(f, a, b, c);
    assert(recon_byte(f, x, a, b, c) == ((x + p) % 256) as u8);
    x.wrapping_add(p)
}

/// Half of `a + b` computed without overflow.
fn average_full(a: u8, b: u8) -> (r: u8)
    ensures
        r == (a + b) / 2,
{
    ((a as u16 + b as u16) / 2) as u8
}

proof fn lemma_final_rows_len(keep_filter_bytes: bool, lvl: Seq<u8>, bpf: int, cs: int, k: nat)
    requires
        bpf >= 1,
    ensures
        final_rows(keep_filter_bytes, lvl, bpf, cs, k).len() == k * bpf,
    decreases k,
{
    if k > 0 {
        lemma_final_rows_len(keep_filter_bytes, lvl, bpf, cs, (k - 1) as nat);
        lemma_recon_row_len(lvl, bpf, cs, (k - 1) as nat);
        assert(final_row(keep_filter_bytes, lvl, bpf, cs, (k - 1) as nat).len() == bpf);
        assert(final_rows(keep_filter_bytes, lvl, bpf, cs, k) == final_rows(keep_filter_bytes, lvl, bpf, cs, (k - 1) as nat) + final_row(keep_filter_bytes, lvl, bpf, cs, (k - 1) as nat));
        assert((k - 1) * bpf + bpf == k * bpf) by (nonlinear_arith);
    } else {
        assert(k * bpf == 0) by (nonlinear_arith) requires k == 0;
    }
}

proof fn lemma_recon_prefix_len(f: u8, row: Seq<u8>, prev: Seq<u8>, cs: int, n: nat)
    ensures
        recon_prefix(f, row, prev, cs, n).len() == n,
    decreases n,
{
    if n > 0 {
        lemma_recon_prefix_len(f, row, prev, cs, (n - 1) as nat);
    }
}

proof fn lemma_recon_row_len(lvl: Seq<u8>, bpf: int, cs: int, k: nat)
    requires
        bpf >= 1,
    ensures
        recon_row(lvl, bpf, cs, k).len() == bpf - 1,
{
    let prev = if k == 0 { zeros(bpf - 1) } else { recon_row(lvl, bpf, cs, (k - 1) as nat) };
    lemma_recon_prefix_len(lvl[k * bpf], lvl.subrange(k * bpf + 1, k * bpf + bpf), prev, cs, (bpf - 1) as nat);
}

/// Reconstructs, in place, the `rows` filter lines of `bpf` bytes that start
/// at `off` in `buf`.
#[verifier::rlimit(60)]
pub(crate) fn unfilter_lines_in_place(buf: &mut [u8], off: usize, bpf: usize, rows: usize, cs: usize, keep_filter_bytes: bool)
    requires
        bpf >= 1,
        1 <= cs <= 8,
        off + bpf * rows <= old(buf)@.len(),
    ensures
        final(buf)@ == old(buf)@.take(off as int) + final_rows(
            keep_filter_bytes,
            old(buf)@.subrange(off as int, off + bpf * rows),
            bpf as int,
            cs as int,
            rows as nat,
        ) + old(buf)@.skip(off + bpf * rows),
{
    let ghost orig = buf@;
    let blen = buf.len();
    let ghost used = bpf * rows;
    let ghost lvl = orig.subrange(off as int, off + used);
    let mut k: usize = 0;
    let mut base: usize = 0;
    proof {
        assert(bpf * rows >= 0) by (nonlinear_arith) requires bpf >= 1, rows >= 0;
    }
    while k < rows
        invariant
            bpf >= 1,
            1 <= cs <= 8,
            used == bpf * rows,
            off + used <= orig.len(),
            blen == orig.len(),
            lvl == orig.subrange(off as int, off + used),
            k <= rows,
            base == k * bpf,
            base <= used,
            buf@.len() == orig.len(),
            buf@.take(off as int) == orig.take(off as int),
            buf@.skip(off + base) == orig.skip(off + base),
            buf@.subrange(off as int, off + base) == final_rows(keep_filter_bytes, lvl, bpf as int, cs as int, k as nat),
        decreases rows - k,
    {
        proof {
            assert(base + bpf <= used) by (nonlinear_arith)
                requires base == k * bpf, k < rows, used == bpf * rows;
            assert((k + 1) * bpf == base + bpf) by (nonlinear_arith) requires base == k * bpf;
            lemma_final_rows_len(keep_filter_bytes, lvl, bpf as int, cs as int, k as nat);
        }
        let row_start = off + base;
        let f = buf[row_start];
        assert(f == lvl[k * bpf]) by {
            assert(buf@[row_start as int] == buf@.skip(off + base)[0]);
        }
        let ghost prev: Seq<u8> = if k == 0 { zeros(bpf - 1) } else { recon_row(lvl, bpf as int, cs as int, (k - 1) as nat) };
        let ghost row = lvl.subrange(k * bpf + 1, k * bpf + bpf);
        proof {
            if k > 0 {
                lemma_recon_row_len(lvl, bpf as int, cs as int, (k - 1) as nat);
                lemma_final_rows_len(keep_filter_bytes, lvl, bpf as int, cs as int, (k - 1) as nat);
                assert((k - 1) * bpf == base - bpf) by (nonlinear_arith) requires base == k * bpf, k >= 1;
                assert(final_rows(keep_filter_bytes, lvl, bpf as int, cs as int, k as nat) == final_rows(keep_filter_bytes, lvl, bpf as int, cs as int, (k - 1) as nat) + final_row(keep_filter_bytes, lvl, bpf as int, cs as int, (k - 1) as nat));
                let fr = final_rows(keep_filter_bytes, lvl, bpf as int, cs as int, k as nat);
                assert(buf@.subrange(row_start - bpf + 1, row_start as int) =~= fr.subrange(base - bpf + 1, base as int));
                assert(fr.subrange(base - bpf + 1, base as int) =~= final_row(keep_filter_bytes, lvl, bpf as int, cs as int, (k - 1) as nat).subrange(1, bpf as int));
                assert(final_row(keep_filter_bytes, lvl, bpf as int, cs as int, (k - 1) as nat).subrange(1, bpf as int) =~= prev);
            }
            assert(k > 0 ==> base >= bpf) by (nonlinear_arith) requires base == k * bpf;
            assert(buf@.skip(row_start + 1) =~= buf@.skip(off + base).skip(1));
            assert(orig.skip(row_start + 1) =~= orig.skip(off + base).skip(1));
            assert(buf@[row_start as int] == buf@.skip(off + base)[0]);
            assert(orig[row_start as int] == orig.skip(off + base)[0]);
            assert(buf@.subrange(row_start + 1, row_start + 1 + 0) =~= Seq::<u8>::empty());
        }
        let mut i: usize = 0;
        while i < bpf - 1
            invariant
                bpf >= 1,
                1 <= cs <= 8,
                used == bpf * rows,
                off + used <= orig.len(),
                blen == orig.len(),
                lvl == orig.subrange(off as int, off + used),
                k < rows,
                base == k * bpf,
                base + bpf <= used,
                k > 0 ==> base >= bpf,
                row_start == off + base,
                f == lvl[k * bpf],
                row == lvl.subrange(k * bpf + 1, k * bpf + bpf),
                prev == if k == 0 { zeros(bpf - 1) } else { recon_row(lvl, bpf as int, cs as int, (k - 1) as nat) },
                prev.len() == bpf - 1,
                i <= bpf - 1,
                buf@.len() == orig.len(),
                buf@.take(off as int) == orig.take(off as int),
                buf@.skip(row_start + 1 + i) == orig.skip(row_start + 1 + i),
                buf@[row_start as int] == orig[row_start as int],
                buf@.subrange(off as int, off + base) == final_rows(keep_filter_bytes, lvl, bpf as int, cs as int, k as nat),
                buf@.subrange(row_start + 1, row_start + 1 + i) == recon_prefix(f, row, prev, cs as int, i as nat),
                k > 0 ==> buf@.subrange(row_start - bpf + 1, row_start as int) == prev,
            decreases bpf - 1 - i,
        {
            let p = row_start + 1 + i;
            let x = buf[p];
            let a = if i >= cs { buf[p - cs] } else { 0u8 };
            let b = if k > 0 { buf[p - bpf] } else { 0u8 };
            let c = if k > 0 && i >= cs { buf[p - bpf - cs] } else { 0u8 };
            let nb = recon_byte_exec(f, x, a, b, c);
            proof {
                let rp = recon_prefix(f, row, prev, cs as int, i as nat);
                lemma_recon_prefix_len(f, row, prev, cs as int, i as nat);
                assert(x == row[i as int]) by {
                    assert(buf@[p as int] == buf@.skip(row_start + 1 + i)[0]);
                    assert(orig.skip(row_start + 1 + i)[0] == orig[p as int]);
                }
                if i >= cs {
                    assert(a == rp[i - cs]) by {
                        assert(buf@.subrange(row_start + 1, row_start + 1 + i)[i - cs] == buf@[p - cs]);
                    }
                }
                if k > 0 {
                    assert(b == prev[i as int]) by {
                        assert(buf@.subrange(row_start - bpf + 1, row_start as int)[i as int] == buf@[p - bpf]);
                    }
                    if i >= cs {
                        assert(c == prev[i - cs]) by {
                            assert(buf@.subrange(row_start - bpf + 1, row_start as int)[i - cs] == buf@[p - bpf - cs]);
                        }
                    }
                }
            }
            let ghost before = buf@;
            buf[p] = nb;
            proof {
                assert(buf@.subrange(row_start + 1, row_start + 1 + i + 1) =~= recon_prefix(f, row, prev, cs as int, (i + 1) as nat));
                assert(buf@.skip(row_start + 1 + i + 1) =~= before.skip(row_start + 1 + i + 1));
                assert(before.skip(row_start + 1 + i + 1) =~= before.skip(row_start + 1 + i).skip(1));
                assert(orig.skip(row_start + 1 + i + 1) =~= orig.skip(row_start + 1 + i).skip(1));
                assert(buf@.take(off as int) =~= before.take(off as int));
                assert(buf@.subrange(off as int, off + base) =~= before.subrange(off as int, off + base));
                if k > 0 {
                    assert(buf@.subrange(row_start - bpf + 1, row_start as int) =~= before.subrange(row_start - bpf + 1, row_start as int));
                }
            }
            i = i + 1;
        }
        if k == 0 && !keep_filter_bytes {
            buf[row_start] = 0;
        }
        proof {
            lemma_recon_prefix_len(f, row, prev, cs as int, (bpf - 1) as nat);
            assert(recon_row(lvl, bpf as int, cs as int, k as nat) == recon_prefix(f, row, prev, cs as int, (bpf - 1) as nat));
            let fr = final_row(keep_filter_bytes, lvl, bpf as int, cs as int, k as nat);
            assert(buf@.subrange(off as int, off + base + bpf) =~= final_rows(keep_filter_bytes, lvl, bpf as int, cs as int, k as nat) + fr);
            assert(buf@.skip(off + base + bpf) =~= orig.skip(off + base + bpf));
        }
        k = k + 1;
        base = base + bpf;
    }
    proof {
        assert(base == used) by (nonlinear_arith) requires base == k * bpf, k == rows, used == bpf * rows;
        assert(buf@ =~= buf@.take(off as int) + buf@.subrange(off as int, off + used) + buf@.skip(off + used));
    }
}


/// The pixels of a list of handed-out pixel records, as plain values.
pub open spec fn pixels_view(v: Seq<UnfilteredPixel>) -> Seq<PixelModel> {
    v.map_values(|p: UnfilteredPixel| p.view())
}

proof fn lemma_pixels_view_push(v: Seq<UnfilteredPixel>, p: UnfilteredPixel)
    ensures
        pixels_view(v.push(p)) == pixels_view(v).push(p.view()),
{
    assert(pixels_view(v.push(p)) =~= pixels_view(v).push(p.view()));
}

proof fn lemma_wrap_mul_add(rx: u32, m: u32, k: u32)
    ensures
        rx.wrapping_mul(m).wrapping_add(k) == wrap32(rx as int * m + k),
{
    let md = 0x1_0000_0000int;
    let t = (rx as int * m) % md;
    vstd::arithmetic::div_mod::lemma_add_mod_noop(rx as int * m, k as int, md);
    vstd::arithmetic::div_mod::lemma_mod_twice(rx as int * m, md);
    vstd::arithmetic::div_mod::lemma_small_mod(k as nat, md as nat);
    vstd::arithmetic::div_mod::lemma_mod_pos_bound(rx as int * m, md);
    assert(rx.wrapping_mul(m) as int == t);
    assert((t + k) % md == (rx as int * m + k) % md) by {
        vstd::arithmetic::div_mod::lemma_add_mod_noop(t, k as int, md);
        vstd::arithmetic::div_mod::lemma_mod_twice(rx as int * m, md);
    }
}

impl IHDR {
    /// Hands out the pixel(s) of one filter unit: a whole pixel for depths 8
    /// and 16, or each packed pixel of the byte for depths 1, 2 and 4 (stopping
    /// at the right edge of the image).
    fn send_out_pixel(&self, image_level: usize, reduced_x: u32, reduced_y: u32, data: &[u8], op: &mut Vec<UnfilteredPixel>)
        requires
            image_level <= 7,
            self.bit_depth == 1 || self.bit_depth == 2 || self.bit_depth == 4 || self.bit_depth == 8 || self.bit_depth == 16,
            self.bit_depth < 8 ==> data@.len() >= 1,
        ensures
            pixels_view(final(op)@) == pixels_view(old(op)@) + unit_pixels(*self, image_level as int, reduced_x, reduced_y, data@),
    {
        let bd = self.bit_depth;
        if bd == 8 || bd == 16 {
            let (x, y) = interlaced_pos_to_full_pos(image_level, reduced_x, reduced_y);
            let ghost before = op@;
            op.push(UnfilteredPixel { x, y, data: vstd::slice::slice_to_vec(data) });
            proof {
                lemma_pixels_view_push(before, op@.last());
                assert(pixels_view(op@) =~= pixels_view(old(op)@) + unit_pixels(*self, image_level as int, reduced_x, reduced_y, data@));
            }
            return;
        }
        let full_data = data[0];
        let per_byte: u32 = if bd == 1 { 8 } else if bd == 2 { 4 } else { 2 };
        let mask: u8 = if bd == 1 { 1 } else if bd == 2 { 3 } else { 15 };
        let step: u8 = bd;
        let ghost all = sub_pixels(*self, image_level as int, reduced_x, reduced_y, full_data, bd as int, 0);
        let mut plus_x: u32 = 0;
        let mut shift: u8 = 8 - step;
        while plus_x < per_byte
            invariant
                image_level <= 7,
                bd == self.bit_depth,
                bd == 1 || bd == 2 || bd == 4,
                per_byte == 8int / (bd as int),
                step == bd,
                mask as int == pow2_small(bd as int) - 1,
                plus_x <= per_byte,
                plus_x < per_byte ==> shift as int == 8 - bd * (plus_x + 1),
                all == sub_pixels(*self, image_level as int, reduced_x, reduced_y, full_data, bd as int, 0),
                full_data == data@[0],
                pixels_view(old(op)@) + all == pixels_view(op@) + sub_pixels(*self, image_level as int, reduced_x, reduced_y, full_data, bd as int, plus_x as int),
            decreases per_byte - plus_x,
        {
            let px = reduced_x.wrapping_mul(per_byte).wrapping_add(plus_x);
            proof {
                lemma_wrap_mul_add(reduced_x, per_byte, plus_x);
            }
            let (image_x, image_y) = interlaced_pos_to_full_pos(image_level, px, reduced_y);
            if image_x >= self.width {
                proof {
                    assert(sub_pixels(*self, image_level as int, reduced_x, reduced_y, full_data, bd as int, plus_x as int) == Seq::<PixelModel>::empty());
                    assert(pixels_view(op@) + Seq::<PixelModel>::empty() =~= pixels_view(op@));
                }
                return;
            }
            let value = (full_data >> shift) & mask;
            proof {
                let sh = shift;
                if bd == 1 {
                    assert((full_data >> sh) & 1u8 == ((full_data >> sh) as int % 2) as u8) by (bit_vector);
                } else if bd == 2 {
                    assert((full_data >> sh) & 3u8 == ((full_data >> sh) as int % 4) as u8) by (bit_vector);
                } else {
                    assert((full_data >> sh) & 15u8 == ((full_data >> sh) as int % 16) as u8) by (bit_vector);
                }
            }
            let ghost before = op@;
            let mut one: Vec<u8> = Vec::new();
            one.push(value);
            op.push(UnfilteredPixel { x: image_x, y: image_y, data: one });
            proof {
                lemma_pixels_view_push(before, op@.last());
                let rest = sub_pixels(*self, image_level as int, reduced_x, reduced_y, full_data, bd as int, plus_x + 1);
                assert(sub_pixels(*self, image_level as int, reduced_x, reduced_y, full_data, bd as int, plus_x as int)
                    == seq![(image_x, image_y, seq![value])] + rest);
                assert(pixels_view(op@) + rest =~= pixels_view(before) + (seq![(image_x, image_y, seq![value])] + rest));
            }
            plus_x = plus_x + 1;
            if plus_x < per_byte {
                shift = shift - step;
            }
        }
        proof {
            assert(sub_pixels(*self, image_level as int, reduced_x, reduced_y, full_data, bd as int, plus_x as int) == Seq::<PixelModel>::empty());
            assert(pixels_view(op@) + Seq::<PixelModel>::empty() =~= pixels_view(op@));
        }
    }
}


proof fn lemma_final_rows_row(keep_filter_bytes: bool, lvl: Seq<u8>, bpf: int, cs: int, n: nat, k: nat)
    requires
        bpf >= 1,
        k < n,
    ensures
        final_rows(keep_filter_bytes, lvl, bpf, cs, n).subrange(k * bpf + 1, k * bpf + bpf) == recon_row(lvl, bpf, cs, k),
    decreases n,
{
    lemma_final_rows_len(keep_filter_bytes, lvl, bpf, cs, (n - 1) as nat);
    lemma_recon_row_len(lvl, bpf, cs, (n - 1) as nat);
    let prefix = final_rows(keep_filter_bytes, lvl, bpf, cs, (n - 1) as nat);
    let last = final_row(keep_filter_bytes, lvl, bpf, cs, (n - 1) as nat);
    assert(final_rows(keep_filter_bytes, lvl, bpf, cs, n) == prefix + last);
    if k < n - 1 {
        lemma_final_rows_row(keep_filter_bytes, lvl, bpf, cs, (n - 1) as nat, k);
        assert(k * bpf + bpf <= (n - 1) * bpf) by (nonlinear_arith) requires k < n - 1, bpf >= 1;
        assert((prefix + last).subrange(k * bpf + 1, k * bpf + bpf) =~= prefix.subrange(k * bpf + 1, k * bpf + bpf));
    } else {
        assert(k * bpf == (n - 1) * bpf);
        assert((prefix + last).subrange(k * bpf + 1, k * bpf + bpf) =~= last.subrange(1, bpf));
        lemma_recon_row_len(lvl, bpf, cs, k);
        assert(last.subrange(1, bpf) =~= recon_row(lvl, bpf, cs, k));
    }
}

impl IHDR {
    /// Hands out every pixel of the `rows` reconstructed lines (`bpf` bytes
    /// each) that start at `off` in `buf`.
    fn send_out_rows(&self, image_level: usize, buf: &[u8], off: usize, bpf: usize, rows: usize, cs: usize, op: &mut Vec<UnfilteredPixel>, Ghost(lvl): Ghost<Seq<u8>>)
        requires
            image_level <= 7,
            self.bit_depth == 1 || self.bit_depth == 2 || self.bit_depth == 4 || self.bit_depth == 8 || self.bit_depth == 16,
            bpf >= 1,
            1 <= cs <= 8,
            self.bit_depth < 8 ==> cs == 1,
            off + bpf * rows <= buf@.len(),
            buf@.subrange(off as int, off + bpf * rows) == final_rows(false, lvl, bpf as int, cs as int, rows as nat),
        ensures
            pixels_view(final(op)@) == pixels_view(old(op)@) + level_pixels(*self, image_level as int, lvl, bpf as int, cs as int, rows as nat),
    {
        let n_units = (bpf - 1) / cs;
        let blen = buf.len();
        let mut r: usize = 0;
        let mut base: usize = 0;
        proof {
            assert(bpf * rows >= 0) by (nonlinear_arith) requires bpf >= 1, rows >= 0;
        }
        while r < rows
            invariant
                image_level <= 7,
                self.bit_depth == 1 || self.bit_depth == 2 || self.bit_depth == 4 || self.bit_depth == 8 || self.bit_depth == 16,
                bpf >= 1,
                1 <= cs <= 8,
                self.bit_depth < 8 ==> cs == 1,
                n_units == (bpf - 1) / (cs as int),
                blen == buf@.len(),
                off + bpf * rows <= buf@.len(),
                buf@.subrange(off as int, off + bpf * rows) == final_rows(false, lvl, bpf as int, cs as int, rows as nat),
                r <= rows,
                base == r * bpf,
                pixels_view(op@) == pixels_view(old(op)@) + level_pixels(*self, image_level as int, lvl, bpf as int, cs as int, r as nat),
            decreases rows - r,
        {
            proof {
                assert(base + bpf <= bpf * rows) by (nonlinear_arith) requires base == r * bpf, r < rows;
                lemma_final_rows_row(false, lvl, bpf as int, cs as int, rows as nat, r as nat);
                lemma_recon_row_len(lvl, bpf as int, cs as int, r as nat);
            }
            let row_start = off + base + 1;
            let ghost row = recon_row(lvl, bpf as int, cs as int, r as nat);
            assert(buf@.subrange(row_start as int, row_start + bpf - 1) =~= row) by {
                assert(buf@.subrange(row_start as int, row_start + bpf - 1) =~= buf@.subrange(off as int, off + bpf * rows).subrange(base + 1, base + bpf));
            }
            let ghost op_row_start = op@;
            let mut u: usize = 0;
            while u < n_units
                invariant
                    image_level <= 7,
                    self.bit_depth == 1 || self.bit_depth == 2 || self.bit_depth == 4 || self.bit_depth == 8 || self.bit_depth == 16,
                    bpf >= 1,
                    1 <= cs <= 8,
                    self.bit_depth < 8 ==> cs == 1,
                    n_units == (bpf - 1) / (cs as int),
                    blen == buf@.len(),
                    row_start + bpf - 1 <= buf@.len(),
                    buf@.subrange(row_start as int, row_start + bpf - 1) == row,
                    row.len() == bpf - 1,
                    u <= n_units,
                    pixels_view(op@) == pixels_view(op_row_start) + row_pixels(*self, image_level as int, r as u32, row, cs as int, u as nat),
                decreases n_units - u,
            {
                proof {
                    assert(u * cs + cs <= bpf - 1) by (nonlinear_arith)
                        requires u < n_units, n_units == (bpf - 1) / (cs as int), cs >= 1;
                }
                let a = row_start + u * cs;
                let unit = vstd::slice::slice_subrange(buf, a, a + cs);
                assert(unit@ =~= row.subrange(u * cs, u * cs + cs)) by {
                    assert(buf@.subrange(a as int, a + cs) =~= buf@.subrange(row_start as int, row_start + bpf - 1).subrange(u * cs, u * cs + cs));
                }
                let ghost before = op@;
                self.send_out_pixel(image_level, u as u32, r as u32, unit, op);
                proof {
                    assert((u + 1) * cs == u * cs + cs) by (nonlinear_arith);
                    assert(row_pixels(*self, image_level as int, r as u32, row, cs as int, (u + 1) as nat)
                        == row_pixels(*self, image_level as int, r as u32, row, cs as int, u as nat)
                        + unit_pixels(*self, image_level as int, u as u32, r as u32, row.subrange(u * cs, (u + 1) * cs)));
                    assert(pixels_view(op@) =~= pixels_view(op_row_start) + row_pixels(*self, image_level as int, r as u32, row, cs as int, (u + 1) as nat));
                }
                u = u + 1;
            }
            proof {
                assert(level_pixels(*self, image_level as int, lvl, bpf as int, cs as int, (r + 1) as nat)
                    == level_pixels(*self, image_level as int, lvl, bpf as int, cs as int, r as nat)
                    + row_pixels(*self, image_level as int, r as u32, row, cs as int, ((bpf - 1) / (cs as int)) as nat));
                assert(pixels_view(op@) =~= pixels_view(old(op)@) + level_pixels(*self, image_level as int, lvl, bpf as int, cs as int, (r + 1) as nat));
                assert((r + 1) * bpf == base + bpf) by (nonlinear_arith) requires base == r * bpf;
            }
            r = r + 1;
            base = base + bpf;
        }
    }

    /// Unfilters data from the zlib decompression buffer, handing out each
    /// output pixel (in place of a callback, the pixels are appended to `op`
    /// in the order the callback would have seen them).
    ///
    /// The filter lines are reconstructed in place; the filter byte of the
    /// first line of each reduced image is set to 0. Interlaced images are
    /// processed as reduced images 1 through 7; reduced images with a zero
    /// dimension are skipped. Fails when the width or height is 0, when the
    /// bit depth is illegal for the color type, or when the buffer runs out
    /// (pixels of earlier reduced images have been handed out by then).
    pub fn unfilter_decompressed_data(&self, decompressed: &mut [u8], op: &mut Vec<UnfilteredPixel>) -> (r: Result<(), ()>)
        requires
            spec_bits_per_pixel(*self) * self.width + 8 <= usize::MAX,
            old(decompressed)@.len() < usize::MAX,
        ensures
            r is Ok == spec_unfilter(*self, old(decompressed)@).0,
            pixels_view(final(op)@) == pixels_view(old(op)@) + spec_unfilter(*self, old(decompressed)@).1,
            final(decompressed)@ == spec_unfilter(*self, old(decompressed)@).2,
    {
        if self.width == 0 || self.height == 0 {
            assert(pixels_view(old(op)@) + Seq::<PixelModel>::empty() =~= pixels_view(old(op)@));
            return Err(());
        }
        let cs = filter_chunk_size(self);
        if cs == 0 {
            assert(pixels_view(old(op)@) + Seq::<PixelModel>::empty() =~= pixels_view(old(op)@));
            return Err(());
        }
        assert(spec_filter_chunk_size(*self) == Some(cs as int));
        let dims = reduced_image_dimensions(self.width, self.height);
        let (first, last): (usize, usize) = if self.is_interlaced { (1, 7) } else { (0, 0) };
        let ghost total = spec_unfilter_levels(*self, decompressed@, cs as int, first as int, last as int, 0);
        assert(total == spec_unfilter(*self, old(decompressed)@));
        let mut level: usize = first;
        let mut off: usize = 0;
        let ghost mut emitted: Seq<PixelModel> = Seq::empty();
        assert(pixels_view(op@) =~= pixels_view(old(op)@) + emitted);
        while level <= last
            invariant
                spec_bits_per_pixel(*self) * self.width + 8 <= usize::MAX,
                decompressed@.len() == old(decompressed)@.len(),
                decompressed@.len() < usize::MAX,
                self.width > 0,
                spec_filter_chunk_size(*self) == Some(cs as int),
                1 <= cs <= 8,
                last <= 7,
                first <= level,
                level <= last + 1,
                off <= decompressed@.len(),
                forall|l: int| 0 <= l < 8 ==> #[trigger] dims@[l] == spec_reduced_dims(l, self.width, self.height),
                total == spec_unfilter(*self, old(decompressed)@),
                total.0 == spec_unfilter_levels(*self, decompressed@, cs as int, level as int, last as int, off as int).0,
                total.1 == emitted + spec_unfilter_levels(*self, decompressed@, cs as int, level as int, last as int, off as int).1,
                total.2 == spec_unfilter_levels(*self, decompressed@, cs as int, level as int, last as int, off as int).2,
                pixels_view(op@) == pixels_view(old(op)@) + emitted,
            decreases last + 1 - level,
        {
            let (reduced_width, reduced_height) = dims[level];
            if reduced_width == 0 || reduced_height == 0 {
                level = level + 1;
                continue;
            }
            proof {
                assert(reduced_width <= self.width) by {
                    let st = super::interlace::pass_x_step(level as int);
                    let of = super::interlace::pass_x_off(level as int);
                    assert(self.width as int + st - 1 - of <= self.width as int * st) by (nonlinear_arith)
                        requires self.width >= 1, st >= 1, of >= 0;
                    vstd::arithmetic::div_mod::lemma_div_is_ordered(
                        self.width as int + super::interlace::pass_x_step(level as int) - 1 - super::interlace::pass_x_off(level as int),
                        self.width as int * super::interlace::pass_x_step(level as int),
                        super::interlace::pass_x_step(level as int));
                    vstd::arithmetic::div_mod::lemma_div_multiples_vanish(self.width as int, super::interlace::pass_x_step(level as int));
                }
                assert(spec_bits_per_pixel(*self) * reduced_width <= spec_bits_per_pixel(*self) * self.width) by (nonlinear_arith)
                    requires reduced_width <= self.width, spec_bits_per_pixel(*self) >= 0;
            }
            let bpf = self.bytes_per_filterline(reduced_width);
            let used = saturating_mul_usize(bpf, reduced_height as usize);
            proof {
                let dd = spec_reduced_dims(level as int, self.width, self.height);
                assert(dd == (reduced_width, reduced_height));
                assert(bpf == spec_bytes_per_filterline(*self, dd.0));
            }
            if decompressed.len() - off < used {
                proof {
                    assert(spec_unfilter_levels(*self, decompressed@, cs as int, level as int, last as int, off as int) == (false, Seq::<PixelModel>::empty(), decompressed@));
                    assert(emitted + Seq::<PixelModel>::empty() =~= emitted);
                }
                assert(pixels_view(op@) + Seq::<PixelModel>::empty() =~= pixels_view(op@));
                return Err(());
            }
            let ghost old_buf = decompressed@;
            let ghost lvl = old_buf.subrange(off as int, off + used);
            assert(used == bpf * reduced_height);
            unfilter_lines_in_place(decompressed, off, bpf, reduced_height as usize, cs, false);
            proof {
                lemma_final_rows_len(false, lvl, bpf as int, cs as int, reduced_height as nat);
                let fr = final_rows(false, lvl, bpf as int, cs as int, reduced_height as nat);
                assert(decompressed@ == old_buf.take(off as int) + fr + old_buf.skip(off + used));
                assert(decompressed@.subrange(off as int, off + bpf * reduced_height) =~= fr);
                let rest = spec_unfilter_levels(*self, decompressed@, cs as int, level + 1, last as int, off + used);
                assert(spec_unfilter_levels(*self, old_buf, cs as int, level as int, last as int, off as int)
                    == (rest.0, level_pixels(*self, level as int, lvl, bpf as int, cs as int, reduced_height as nat) + rest.1, rest.2));
            }
            self.send_out_rows(level, decompressed, off, bpf, reduced_height as usize, cs, op, Ghost(lvl));
            proof {
                emitted = emitted + level_pixels(*self, level as int, lvl, bpf as int, cs as int, reduced_height as nat);
            }
            off = off + used;
            level = level + 1;
        }
        assert(emitted + Seq::<PixelModel>::empty() =~= emitted);
        Ok(())
    }
}


/// How many data bytes each pixel handed out by unfiltering carries: one
/// filter unit for depths 8 and 16, a single value byte for smaller depths.
pub open spec fn unit_data_len(h: IHDR, cs: int) -> int {
    if h.bit_depth == 8 || h.bit_depth == 16 {
        cs
    } else {
        1
    }
}

/// Every pixel in `ps` carries exactly `n` data bytes.
pub open spec fn data_sized(ps: Seq<PixelModel>, n: int) -> bool {
    forall|i: int| 0 <= i < ps.len() ==> #[trigger] ps[i].2.len() == n
}

proof fn lemma_sub_pixels_sized(h: IHDR, level: int, rx: u32, ry: u32, byte: u8, bd: int, k: int)
    ensures
        data_sized(sub_pixels(h, level, rx, ry, byte, bd, k), 1),
    decreases 8 - k,
{
    if !(bd <= 0 || k < 0 || k >= 8 || bd * k >= 8) {
        let px = wrap32(rx as int * (8int / bd) + k);
        let pos = spec_full_pos(level, px, ry);
        if pos.0 < h.width {
            lemma_sub_pixels_sized(h, level, rx, ry, byte, bd, k + 1);
            let shift = (8 - bd * (k + 1)) as u8;
            let value = ((byte >> shift) as int % pow2_small(bd)) as u8;
            let head: Seq<PixelModel> = seq![(pos.0, pos.1, seq![value])];
            let tail = sub_pixels(h, level, rx, ry, byte, bd, k + 1);
            assert(sub_pixels(h, level, rx, ry, byte, bd, k) == head + tail);
            assert forall|i: int| 0 <= i < (head + tail).len() implies #[trigger] (head + tail)[i].2.len() == 1 by {
                if i >= 1 {
                    assert((head + tail)[i] == tail[i - 1]);
                }
            }
        }
    }
}

proof fn lemma_row_pixels_sized(h: IHDR, level: int, ry: u32, row: Seq<u8>, cs: int, n: nat)
    requires
        cs >= 1,
        n * cs <= row.len(),
    ensures
        data_sized(row_pixels(h, level, ry, row, cs, n), unit_data_len(h, cs)),
    decreases n,
{
    if n > 0 {
        assert((n - 1) * cs <= row.len()) by (nonlinear_arith) requires n * cs <= row.len(), cs >= 1, n >= 1;
        assert((n - 1) * cs + cs == n * cs) by (nonlinear_arith);
        lemma_row_pixels_sized(h, level, ry, row, cs, (n - 1) as nat);
        let prev = row_pixels(h, level, ry, row, cs, (n - 1) as nat);
        let data = row.subrange((n - 1) * cs, n * cs);
        let unit = unit_pixels(h, level, (n - 1) as u32, ry, data);
        if !(h.bit_depth == 8 || h.bit_depth == 16) {
            lemma_sub_pixels_sized(h, level, (n - 1) as u32, ry, data[0], h.bit_depth as int, 0);
        }
        assert(data_sized(unit, unit_data_len(h, cs)));
        assert forall|i: int| 0 <= i < (prev + unit).len() implies #[trigger] (prev + unit)[i].2.len() == unit_data_len(h, cs) by {
            if i >= prev.len() {
                assert((prev + unit)[i] == unit[i - prev.len()]);
            } else {
                assert((prev + unit)[i] == prev[i]);
            }
        }
    }
}

proof fn lemma_level_pixels_sized(h: IHDR, level: int, lvl: Seq<u8>, bpf: int, cs: int, k: nat)
    requires
        cs >= 1,
        bpf >= 1,
    ensures
        data_sized(level_pixels(h, level, lvl, bpf, cs, k), unit_data_len(h, cs)),
    decreases k,
{
    if k > 0 {
        lemma_level_pixels_sized(h, level, lvl, bpf, cs, (k - 1) as nat);
        let row = recon_row(lvl, bpf, cs, (k - 1) as nat);
        lemma_recon_row_len(lvl, bpf, cs, (k - 1) as nat);
        let n = ((bpf - 1) / cs) as nat;
        assert(n * cs <= bpf - 1) by (nonlinear_arith) requires n == (bpf - 1) / cs, cs >= 1, bpf >= 1;
        lemma_row_pixels_sized(h, level, (k - 1) as u32, row, cs, n);
        let prev = level_pixels(h, level, lvl, bpf, cs, (k - 1) as nat);
        let more = row_pixels(h, level, (k - 1) as u32, row, cs, n);
        assert forall|i: int| 0 <= i < (prev + more).len() implies #[trigger] (prev + more)[i].2.len() == unit_data_len(h, cs) by {
            if i >= prev.len() {
                assert((prev + more)[i] == more[i - prev.len()]);
            } else {
                assert((prev + more)[i] == prev[i]);
            }
        }
    }
}

proof fn lemma_unfilter_levels_sized(h: IHDR, buf: Seq<u8>, cs: int, level: int, last: int, off: int)
    requires
        cs >= 1,
    ensures
        data_sized(spec_unfilter_levels(h, buf, cs, level, last, off).1, unit_data_len(h, cs)),
    decreases last + 1 - level,
{
    if level <= last {
        let d = spec_reduced_dims(level, h.width, h.height);
        if d.0 == 0 || d.1 == 0 {
            lemma_unfilter_levels_sized(h, buf, cs, level + 1, last, off);
        } else {
            let bpf = spec_bytes_per_filterline(h, d.0);
            let used = sat(bpf * d.1);
            if buf.len() - off >= used {
                assert(spec_bits_per_pixel(h) * d.0 >= 0) by (nonlinear_arith)
                    requires spec_bits_per_pixel(h) >= 0, d.0 >= 0;
                let lvl = buf.subrange(off, off + used);
                let new_buf = buf.take(off) + final_rows(false, lvl, bpf, cs, d.1 as nat) + buf.skip(off + used);
                lemma_unfilter_levels_sized(h, new_buf, cs, level + 1, last, off + used);
                lemma_level_pixels_sized(h, level, lvl, bpf, cs, d.1 as nat);
                let a = level_pixels(h, level, lvl, bpf, cs, d.1 as nat);
                let b = spec_unfilter_levels(h, new_buf, cs, level + 1, last, off + used).1;
                assert forall|i: int| 0 <= i < (a + b).len() implies #[trigger] (a + b)[i].2.len() == unit_data_len(h, cs) by {
                    if i >= a.len() {
                        assert((a + b)[i] == b[i - a.len()]);
                    } else {
                        assert((a + b)[i] == a[i]);
                    }
                }
            }
        }
    }
}

/// Each pixel that unfiltering hands out carries one filter unit of data at
/// depths 8 and 16, and one value byte at smaller depths.
pub proof fn lemma_unfilter_pixels_sized(h: IHDR, buf: Seq<u8>)
    requires
        spec_filter_chunk_size(h) is Some,
    ensures
        data_sized(spec_unfilter(h, buf).1, unit_data_len(h, spec_filter_chunk_size(h)->0)),
{
    let cs = spec_filter_chunk_size(h)->0;
    if !(h.width == 0 || h.height == 0) {
        if h.is_interlaced {
            lemma_unfilter_levels_sized(h, buf, cs, 1, 7, 0);
        } else {
            lemma_unfilter_levels_sized(h, buf, cs, 0, 0, 0);
        }
    }
}

} // verus!
