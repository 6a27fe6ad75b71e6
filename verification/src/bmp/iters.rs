//! Decoding the pixel values of uncompressed BMP data, line by line.
use vstd::prelude::*;
use vstd::arithmetic::power2::pow2;
use crate::bmp::{spec_padded_bytes_per_line, padded_bytes_per_line};
use crate::bmp::raw_headers::{le16, le32};
use crate::pixel_formats::{RGB888, RGBA8888};

verus! {

/// The `k`-byte items of one line, at most `width` of them.
pub open spec fn line_items(line: Seq<u8>, k: nat, width: nat) -> Seq<Seq<u8>> {
    let m = if width < line.len() / k { width } else { line.len() / k };
    Seq::new(m, |j: int| line.subrange(j * k, j * k + k))
}

/// The items of each line of `padded` bytes; with `exact`, a final partial
/// line is dropped, otherwise it is read as well.
pub open spec fn lines_items(image: Seq<u8>, padded: nat, k: nat, width: nat, exact: bool) -> Seq<Seq<u8>>
    decreases image.len(),
{
    if padded == 0 || image.len() == 0 || (exact && image.len() < padded) {
        Seq::empty()
    } else {
        let n = if image.len() < padded { image.len() } else { padded };
        line_items(image.take(n as int), k, width) + lines_items(image.skip(n as int), padded, k, width, exact)
    }
}

/// The line length that the iterators use: the padded length, or 4 when it
/// can't be computed.
pub open spec fn line_len(width: u32, bits_per_pixel: u16) -> usize {
    match spec_padded_bytes_per_line(width, bits_per_pixel) {
        Ok(n) => n,
        Err(_) => 4,
    }
}

fn line_len_exec(width: u32, bits_per_pixel: u16) -> (n: usize)
    ensures
        n == line_len(width, bits_per_pixel),
{
    match padded_bytes_per_line(width, bits_per_pixel) {
        Ok(n) => n,
        Err(_) => 4,
    }
}

/// A non-zero width gives a non-zero line length.
proof fn lemma_line_len_positive(width: u32, bits_per_pixel: u16)
    requires
        width > 0,
        bits_per_pixel > 0,
    ensures
        line_len(width, bits_per_pixel) > 0,
{
    assert(bits_per_pixel as int * width as int >= 1) by (nonlinear_arith)
        requires
            width > 0,
            bits_per_pixel > 0,
    ;
}

fn items_of_line<'a>(line: &'a [u8], k: usize, width: usize, out: &mut Vec<&'a [u8]>)
    requires
        k > 0,
    ensures
        final(out)@.len() == old(out)@.len() + line_items(line@, k as nat, width as nat).len(),
        forall|j: int| 0 <= j < old(out)@.len() ==> #[trigger] final(out)@[j] == old(out)@[j],
        forall|j: int| 0 <= j < line_items(line@, k as nat, width as nat).len()
            ==> #[trigger] final(out)@[old(out)@.len() + j]@ == line_items(line@, k as nat, width as nat)[j],
        forall|j: int| old(out)@.len() <= j < final(out)@.len() ==> (#[trigger] final(out)@[j])@.len() == k,
{
    let ll = line.len();
    let per = ll / k;
    let m = if width < per { width } else { per };
    let ghost start = out@.len();
    let mut j: usize = 0;
    while j < m
        invariant
            ll == line@.len(),
            k > 0,
            m <= line@.len() / (k as nat),
            m == line_items(line@, k as nat, width as nat).len(),
            j <= m,
            out@.len() == start + j,
            forall|i: int| 0 <= i < start ==> #[trigger] out@[i] == old(out)@[i],
            start == old(out)@.len(),
            forall|i: int| 0 <= i < j ==> #[trigger] out@[start + i]@ == line_items(line@, k as nat, width as nat)[i],
            forall|i: int| start <= i < out@.len() ==> (#[trigger] out@[i])@.len() == k,
        decreases m - j,
    {
        proof {
            assert(j * k + k <= line@.len()) by (nonlinear_arith)
                requires
                    j < m,
                    m <= line@.len() / (k as nat),
                    k > 0,
            ;
        }
        let item = vstd::slice::slice_subrange(line, j * k, j * k + k);
        out.push(item);
        j = j + 1;
    }
}

/// The `k`-byte items of the lines of `image` (see `lines_items`).
fn collect_items<'a>(image: &'a [u8], padded: usize, k: usize, width: usize, exact: bool) -> (v: Vec<&'a [u8]>)
    requires
        padded > 0,
        k > 0,
    ensures
        v@.len() == lines_items(image@, padded as nat, k as nat, width as nat, exact).len(),
        forall|j: int| 0 <= j < v@.len() ==> #[trigger] v@[j]@ == lines_items(image@, padded as nat, k as nat, width as nat, exact)[j],
        forall|j: int| 0 <= j < v@.len() ==> (#[trigger] v@[j])@.len() == k,
{
    let mut v: Vec<&'a [u8]> = Vec::new();
    let mut pos: usize = 0;
    let n = image.len();
    let ghost total = lines_items(image@, padded as nat, k as nat, width as nat, exact);
    assert(image@.skip(0) =~= image@);
    while pos < n
        invariant
            n == image@.len(),
            pos <= n,
            padded > 0,
            k > 0,
            total == lines_items(image@, padded as nat, k as nat, width as nat, exact),
            v@.len() + lines_items(image@.skip(pos as int), padded as nat, k as nat, width as nat, exact).len() == total.len(),
            forall|j: int| 0 <= j < v@.len() ==> #[trigger] v@[j]@ == total[j],
            forall|j: int| 0 <= j < v@.len() ==> (#[trigger] v@[j])@.len() == k,
            forall|j: int| 0 <= j < lines_items(image@.skip(pos as int), padded as nat, k as nat, width as nat, exact).len()
                ==> total[v@.len() + j] == #[trigger] lines_items(image@.skip(pos as int), padded as nat, k as nat, width as nat, exact)[j],
        ensures
            pos <= n,
            pos == n || (exact && n - pos < padded),
            v@.len() + lines_items(image@.skip(pos as int), padded as nat, k as nat, width as nat, exact).len() == total.len(),
            forall|j: int| 0 <= j < v@.len() ==> #[trigger] v@[j]@ == total[j],
            forall|j: int| 0 <= j < v@.len() ==> (#[trigger] v@[j])@.len() == k,
        decreases n - pos,
    {
        let rest_len = n - pos;
        if exact && rest_len < padded {
            break;
        }
        let take = if rest_len < padded { rest_len } else { padded };
        let line = vstd::slice::slice_subrange(image, pos, pos + take);
        let ghost rest = image@.skip(pos as int);
        let ghost old_v = v@;
        proof {
            assert(line@ =~= rest.take(take as int));
            assert(rest.skip(take as int) =~= image@.skip(pos + take));
        }
        items_of_line(line, k, width, &mut v);
        proof {
            let li = line_items(line@, k as nat, width as nat);
            let later = lines_items(image@.skip(pos + take), padded as nat, k as nat, width as nat, exact);
            assert(lines_items(rest, padded as nat, k as nat, width as nat, exact) == li + later);
            assert forall|j: int| 0 <= j < v@.len() implies #[trigger] v@[j]@ == total[j] by {
                if j >= old_v.len() {
                    let q = j - old_v.len();
                    assert(v@[old_v.len() + q]@ == li[q]);
                    assert((li + later)[q] == li[q]);
                }
            }
            assert forall|j: int| 0 <= j < later.len() implies total[v@.len() + j] == #[trigger] later[j] by {
                assert((li + later)[li.len() + j] == later[j]);
            }
        }
        pos = pos + take;
    }
    proof {
        if pos < n {
            assert(lines_items(image@.skip(pos as int), padded as nat, k as nat, width as nat, exact) =~= Seq::<Seq<u8>>::empty());
        } else {
            assert(image@.skip(pos as int) =~= Seq::<u8>::empty());
        }
    }
    v
}

/// The groups of `count` bits of a byte, highest first; when `count` doesn't
/// divide 8, the last group is the leftover low bits, moved to the top of the
/// group.
pub open spec fn high_bit_chunks(count: nat, bits: u8) -> Seq<u8> {
    Seq::new((count + 7) / count, |k: int|
        (((bits as int * pow2((k * count) as nat) as int) % 256) / pow2((8 - count) as nat) as int) as u8)
}

/// `bitfrob::U8BitIterHigh`: the groups of `count` (1 to 8) bits of `bits`,
/// high to low. It yields `ceil(8 / count)` values: the top `count` bits of
/// `bits`, then of `bits` shifted left by `count`, and so on.
#[verifier::external_body]
fn bit_chunks_high(count: u32, bits: u8) -> (v: Vec<u8>)
    requires
        1 <= count <= 8,
    ensures
        v@ == high_bit_chunks(count as nat, bits),
{
    bitfrob::U8BitIterHigh::from_count_and_bits(count, bits).collect()
}

/// The palette indexes of one line: the bit groups of each byte, at most
/// `width` of them.
pub open spec fn line_indexes(line: Seq<u8>, count: nat, width: nat) -> Seq<u8> {
    let c: nat = (count + 7) / count;
    let all = Seq::new(line.len() * c, |t: int| high_bit_chunks(count, line[t / (c as int)])[t % (c as int)]);
    if width < all.len() { all.take(width as int) } else { all }
}

/// The palette indexes of every complete line of `image`.
pub open spec fn pal_indexes(image: Seq<u8>, padded: nat, count: nat, width: nat) -> Seq<u8>
    decreases image.len(),
{
    if padded == 0 || image.len() < padded {
        Seq::empty()
    } else {
        line_indexes(image.take(padded as int), count, width) + pal_indexes(image.skip(padded as int), padded, count, width)
    }
}

/// The palette indexes of the image bytes, based on the bit depth: each
/// complete (padded) line gives its first `width` indexes.
pub fn bmp_iter_pal_indexes_no_compression(image_bytes: &[u8], width: u32, bits_per_pixel: u16) -> (v: Vec<u8>)
    requires
        1 <= bits_per_pixel <= 8,
        width > 0,
    ensures
        v@ == pal_indexes(image_bytes@, line_len(width, bits_per_pixel) as nat, bits_per_pixel as nat, width as nat),
{
    let count = bits_per_pixel as u32;
    let padded = line_len_exec(width, bits_per_pixel);
    proof {
        lemma_line_len_positive(width, bits_per_pixel);
    }
    let c: usize = (count as usize + 7) / (count as usize);
    let n = image_bytes.len();
    let mut out: Vec<u8> = Vec::new();
    let mut pos: usize = 0;
    let ghost total = pal_indexes(image_bytes@, padded as nat, count as nat, width as nat);
    assert(image_bytes@.skip(0) =~= image_bytes@);
    assert(out@ + total =~= total);
    assert(1 <= c <= 8) by (nonlinear_arith)
        requires
            1 <= count <= 8,
            c == (count as nat + 7) / (count as nat),
    ;
    while n - pos >= padded
        invariant
            n == image_bytes@.len(),
            pos <= n,
            padded > 0,
            1 <= count <= 8,
            c == (count as nat + 7) / (count as nat),
            1 <= c <= 8,
            total == pal_indexes(image_bytes@, padded as nat, count as nat, width as nat),
            out@ + pal_indexes(image_bytes@.skip(pos as int), padded as nat, count as nat, width as nat) == total,
        decreases n - pos,
    {
        let ghost rest = image_bytes@.skip(pos as int);
        let line = vstd::slice::slice_subrange(image_bytes, pos, pos + padded);
        let mut all: Vec<u8> = Vec::new();
        let mut i: usize = 0;
        while i < padded
            invariant
                1 <= count <= 8,
                c == (count as nat + 7) / (count as nat),
                1 <= c <= 8,
                i <= padded,
                line@.len() == padded,
                all@ == Seq::new((i * c) as nat, |t: int| high_bit_chunks(count as nat, line@[t / (c as int)])[t % (c as int)]),
            decreases padded - i,
        {
            let chunk = bit_chunks_high(count, line[i]);
            let ghost before = all@;
            let mut k: usize = 0;
            while k < chunk.len()
                invariant
                    chunk@ == high_bit_chunks(count as nat, line@[i as int]),
                    chunk@.len() == c,
                    k <= c,
                    all@.len() == before.len() + k,
                    forall|t: int| 0 <= t < before.len() ==> #[trigger] all@[t] == before[t],
                    forall|t: int| 0 <= t < k ==> #[trigger] all@[before.len() + t] == chunk@[t],
                decreases c - k,
            {
                all.push(chunk[k]);
                k = k + 1;
            }
            proof {
                let target = Seq::new(((i + 1) * c) as nat, |t: int| high_bit_chunks(count as nat, line@[t / (c as int)])[t % (c as int)]);
                assert(before.len() == i * c);
                assert((i + 1) * c == i * c + c) by (nonlinear_arith);
                assert forall|t: int| 0 <= t < all@.len() implies all@[t] == target[t] by {
                    if t < before.len() {
                        assert(all@[t] == before[t]);
                    } else {
                        let q = t - before.len();
                        assert(t / (c as int) == i as int && t % (c as int) == q) by (nonlinear_arith)
                            requires
                                t == i * c + q,
                                0 <= q < c,
                        ;
                        assert(all@[before.len() + q] == chunk@[q]);
                    }
                }
                assert(all@ =~= target);
            }
            i = i + 1;
        }
        if (width as usize) < all.len() {
            all.truncate(width as usize);
        }
        proof {
            assert(line@ =~= rest.take(padded as int));
            assert(rest.skip(padded as int) =~= image_bytes@.skip(pos + padded));
            assert(all@ =~= line_indexes(rest.take(padded as int), count as nat, width as nat));
        }
        let ghost old_out = out@;
        out.append(&mut all);
        proof {
            assert(out@ + pal_indexes(image_bytes@.skip(pos + padded), padded as nat, count as nat, width as nat)
                =~= old_out + pal_indexes(rest, padded as nat, count as nat, width as nat));
        }
        pos = pos + padded;
    }
    proof {
        assert(pal_indexes(image_bytes@.skip(pos as int), padded as nat, count as nat, width as nat) =~= Seq::<u8>::empty());
        assert(out@ =~= total);
    }
    out
}


/// A color given as fractions: each channel is `value / max` (a linear
/// intensity; a `max` of 0 gives no number).
#[derive(Debug, Clone, Copy, PartialEq, Eq, Structural)]
pub struct LinearRgb {
    pub r: u32,
    pub g: u32,
    pub b: u32,
    pub r_max: u32,
    pub g_max: u32,
    pub b_max: u32,
}

/// A color with alpha given as fractions: each channel is `value / max`.
#[derive(Debug, Clone, Copy, PartialEq, Eq, Structural)]
pub struct LinearRgba {
    pub r: u32,
    pub g: u32,
    pub b: u32,
    pub a: u32,
    pub r_max: u32,
    pub g_max: u32,
    pub b_max: u32,
    pub a_max: u32,
}

/// The number of trailing zero bits of `x` from bit `k` up, capped at `limit`.
pub open spec fn zeros_from(x: u32, k: u32, limit: u32) -> u32
    decreases limit - k,
{
    if k >= limit {
        limit
    } else if (x >> k) & 1u32 == 1u32 {
        k
    } else {
        zeros_from(x, (k + 1) as u32, limit)
    }
}

/// How far a mask's field is shifted up: its trailing zeros, at most `limit`.
pub open spec fn shift_of(mask: u32, limit: u32) -> u32 {
    zeros_from(mask, 0, limit)
}

fn shift_of_exec(mask: u32, limit: u32) -> (s: u32)
    requires
        limit < 32,
    ensures
        s == shift_of(mask, limit),
        s <= limit,
{
    let mut k: u32 = 0;
    while k < limit
        invariant
            k <= limit < 32,
            zeros_from(mask, 0, limit) == zeros_from(mask, k, limit),
        decreases limit - k,
    {
        if (mask >> k) & 1 == 1 {
            return k;
        }
        k = k + 1;
    }
    limit
}

/// A 16-bit channel value: the masked bits, shifted down.
pub open spec fn channel16(u: u16, mask: u16) -> u32 {
    ((u & mask) >> (shift_of(mask as u32, 15) as u16)) as u32
}

/// The largest value of a 16-bit channel.
pub open spec fn max16(mask: u16) -> u32 {
    (mask >> (shift_of(mask as u32, 15) as u16)) as u32
}

/// A 32-bit channel value: the masked bits, shifted down.
pub open spec fn channel32(u: u32, mask: u32) -> u32 {
    (u & mask) >> shift_of(mask, 31)
}

/// The largest value of a 32-bit channel.
pub open spec fn max32(mask: u32) -> u32 {
    mask >> shift_of(mask, 31)
}

/// The `[b, g, r]` triples of 24-bit data: each line (the last one may be
/// partial) gives at most `width` of them.
pub fn bmp_iter_bgr24(image_bytes: &[u8], width: u32) -> (v: Vec<[u8; 3]>)
    requires
        width > 0,
    ensures
        v@.len() == lines_items(image_bytes@, line_len(width, 24) as nat, 3, width as nat, false).len(),
        forall|j: int| 0 <= j < v@.len() ==> #[trigger] v@[j]@ == lines_items(image_bytes@, line_len(width, 24) as nat, 3, width as nat, false)[j],
{
    let padded = line_len_exec(width, 24);
    proof {
        lemma_line_len_positive(width, 24);
    }
    let items = collect_items(image_bytes, padded, 3, width as usize, false);
    let mut v: Vec<[u8; 3]> = Vec::new();
    let mut j: usize = 0;
    while j < items.len()
        invariant
            j <= items@.len(),
            v@.len() == j,
            forall|t: int| 0 <= t < items@.len() ==> (#[trigger] items@[t])@.len() == 3,
            forall|t: int| 0 <= t < j ==> #[trigger] v@[t]@ == items@[t]@,
        decreases items@.len() - j,
    {
        let w = items[j];
        let px: [u8; 3] = [w[0], w[1], w[2]];
        assert(px@ =~= w@);
        v.push(px);
        j = j + 1;
    }
    v
}

/// The LinearRgb value of a 16-bit pixel.
pub open spec fn bitmask16_rgb_pixel(w: Seq<u8>, r_mask: u16, g_mask: u16, b_mask: u16) -> LinearRgb {
    LinearRgb { r: channel16(le16(w, 0), r_mask), g: channel16(le16(w, 0), g_mask), b: channel16(le16(w, 0), b_mask), r_max: max16(r_mask), g_max: max16(g_mask), b_max: max16(b_mask) }
}

/// Decodes 16-bits-per-pixel values with the RGB bitmasks given: each
/// channel is its masked bits shifted down, over the mask shifted down.
pub fn bmp_iter_bitmask16_rgb(image_bytes: &[u8], r_mask: u16, g_mask: u16, b_mask: u16, width: u32) -> (v: Vec<LinearRgb>)
    requires
        width > 0,
    ensures
        v@ == lines_items(image_bytes@, line_len(width, 16) as nat, 2, width as nat, true).map_values(
            |w: Seq<u8>| bitmask16_rgb_pixel(w, r_mask, g_mask, b_mask)),
{
    let r_shift = shift_of_exec(r_mask as u32, 15) as u16;
    let g_shift = shift_of_exec(g_mask as u32, 15) as u16;
    let b_shift = shift_of_exec(b_mask as u32, 15) as u16;
    let padded = line_len_exec(width, 16);
    proof {
        lemma_line_len_positive(width, 16);
    }
    let items = collect_items(image_bytes, padded, 2, width as usize, true);
    let ghost target = lines_items(image_bytes@, padded as nat, 2, width as nat, true).map_values(
        |w: Seq<u8>| bitmask16_rgb_pixel(w, r_mask, g_mask, b_mask));
    let mut v: Vec<LinearRgb> = Vec::new();
    let mut j: usize = 0;
    while j < items.len()
        invariant
            j <= items@.len(),
            v@.len() == j,
            items@.len() == target.len(),
            r_shift == shift_of(r_mask as u32, 15) as u16,
            r_shift <= 15,
            g_shift == shift_of(g_mask as u32, 15) as u16,
            g_shift <= 15,
            b_shift == shift_of(b_mask as u32, 15) as u16,
            b_shift <= 15,
            forall|t: int| 0 <= t < items@.len() ==> (#[trigger] items@[t])@.len() == 2,
            forall|t: int| 0 <= t < items@.len() ==> target[t] == bitmask16_rgb_pixel(#[trigger] items@[t]@, r_mask, g_mask, b_mask),
            forall|t: int| 0 <= t < j ==> #[trigger] v@[t] == target[t],
        decreases items@.len() - j,
    {
        let w = items[j];
        let u: u16 = crate::bmp::raw_headers::read_u16_le(w, 0);
        v.push(LinearRgb { r: ((u & r_mask) >> r_shift) as u32, g: ((u & g_mask) >> g_shift) as u32, b: ((u & b_mask) >> b_shift) as u32, r_max: (r_mask >> r_shift) as u32, g_max: (g_mask >> g_shift) as u32, b_max: (b_mask >> b_shift) as u32 });
        j = j + 1;
    }
    assert(v@ =~= target);
    v
}

/// The LinearRgba value of a 16-bit pixel.
pub open spec fn bitmask16_rgba_pixel(w: Seq<u8>, r_mask: u16, g_mask: u16, b_mask: u16, a_mask: u16) -> LinearRgba {
    LinearRgba { r: channel16(le16(w, 0), r_mask), g: channel16(le16(w, 0), g_mask), b: channel16(le16(w, 0), b_mask), a: channel16(le16(w, 0), a_mask), r_max: max16(r_mask), g_max: max16(g_mask), b_max: max16(b_mask), a_max: max16(a_mask) }
}

/// Decodes 16-bits-per-pixel values with the RGBA bitmasks given: each
/// channel is its masked bits shifted down, over the mask shifted down.
pub fn bmp_iter_bitmask16_rgba(image_bytes: &[u8], r_mask: u16, g_mask: u16, b_mask: u16, a_mask: u16, width: u32) -> (v: Vec<LinearRgba>)
    requires
        width > 0,
    ensures
        v@ == lines_items(image_bytes@, line_len(width, 16) as nat, 2, width as nat, true).map_values(
            |w: Seq<u8>| bitmask16_rgba_pixel(w, r_mask, g_mask, b_mask, a_mask)),
{
    let r_shift = shift_of_exec(r_mask as u32, 15) as u16;
    let g_shift = shift_of_exec(g_mask as u32, 15) as u16;
    let b_shift = shift_of_exec(b_mask as u32, 15) as u16;
    let a_shift = shift_of_exec(a_mask as u32, 15) as u16;
    let padded = line_len_exec(width, 16);
    proof {
        lemma_line_len_positive(width, 16);
    }
    let items = collect_items(image_bytes, padded, 2, width as usize, true);
    let ghost target = lines_items(image_bytes@, padded as nat, 2, width as nat, true).map_values(
        |w: Seq<u8>| bitmask16_rgba_pixel(w, r_mask, g_mask, b_mask, a_mask));
    let mut v: Vec<LinearRgba> = Vec::new();
    let mut j: usize = 0;
    while j < items.len()
        invariant
            j <= items@.len(),
            v@.len() == j,
            items@.len() == target.len(),
            r_shift == shift_of(r_mask as u32, 15) as u16,
            r_shift <= 15,
            g_shift == shift_of(g_mask as u32, 15) as u16,
            g_shift <= 15,
            b_shift == shift_of(b_mask as u32, 15) as u16,
            b_shift <= 15,
            a_shift == shift_of(a_mask as u32, 15) as u16,
            a_shift <= 15,
            forall|t: int| 0 <= t < items@.len() ==> (#[trigger] items@[t])@.len() == 2,
            forall|t: int| 0 <= t < items@.len() ==> target[t] == bitmask16_rgba_pixel(#[trigger] items@[t]@, r_mask, g_mask, b_mask, a_mask),
            forall|t: int| 0 <= t < j ==> #[trigger] v@[t] == target[t],
        decreases items@.len() - j,
    {
        let w = items[j];
        let u: u16 = crate::bmp::raw_headers::read_u16_le(w, 0);
        v.push(LinearRgba { r: ((u & r_mask) >> r_shift) as u32, g: ((u & g_mask) >> g_shift) as u32, b: ((u & b_mask) >> b_shift) as u32, a: ((u & a_mask) >> a_shift) as u32, r_max: (r_mask >> r_shift) as u32, g_max: (g_mask >> g_shift) as u32, b_max: (b_mask >> b_shift) as u32, a_max: (a_mask >> a_shift) as u32 });
        j = j + 1;
    }
    assert(v@ =~= target);
    v
}

/// The value of a 32-bit pixel for `bmp_iter_bitmask32_linear_rgb`.
pub open spec fn bitmask32_linear_rgb_pixel(w: Seq<u8>, r_mask: u32, g_mask: u32, b_mask: u32) -> LinearRgb {
    LinearRgb { r: channel32(le32(w, 0), r_mask), g: channel32(le32(w, 0), g_mask), b: channel32(le32(w, 0), b_mask), r_max: max32(r_mask), g_max: max32(g_mask), b_max: max32(b_mask) }
}

/// Decodes 32-bits-per-pixel linear RGB values with the bitmasks given: each
/// channel is its masked bits shifted down, over the mask shifted down.
pub fn bmp_iter_bitmask32_linear_rgb(image_bytes: &[u8], r_mask: u32, g_mask: u32, b_mask: u32, width: u32) -> (v: Vec<LinearRgb>)
    requires
        width > 0,
    ensures
        v@ == lines_items(image_bytes@, line_len(width, 32) as nat, 4, width as nat, true).map_values(
            |w: Seq<u8>| bitmask32_linear_rgb_pixel(w, r_mask, g_mask, b_mask)),
{
    let r_shift = shift_of_exec(r_mask, 31);
    let g_shift = shift_of_exec(g_mask, 31);
    let b_shift = shift_of_exec(b_mask, 31);
    let padded = line_len_exec(width, 32);
    proof {
        lemma_line_len_positive(width, 32);
    }
    let items = collect_items(image_bytes, padded, 4, width as usize, true);
    let ghost target = lines_items(image_bytes@, padded as nat, 4, width as nat, true).map_values(
        |w: Seq<u8>| bitmask32_linear_rgb_pixel(w, r_mask, g_mask, b_mask));
    let mut v: Vec<LinearRgb> = Vec::new();
    let mut j: usize = 0;
    while j < items.len()
        invariant
            j <= items@.len(),
            v@.len() == j,
            items@.len() == target.len(),
            r_shift == shift_of(r_mask, 31),
            r_shift <= 31,
            g_shift == shift_of(g_mask, 31),
            g_shift <= 31,
            b_shift == shift_of(b_mask, 31),
            b_shift <= 31,
            forall|t: int| 0 <= t < items@.len() ==> (#[trigger] items@[t])@.len() == 4,
            forall|t: int| 0 <= t < items@.len() ==> target[t] == bitmask32_linear_rgb_pixel(#[trigger] items@[t]@, r_mask, g_mask, b_mask),
            forall|t: int| 0 <= t < j ==> #[trigger] v@[t] == target[t],
        decreases items@.len() - j,
    {
        let w = items[j];
        let u: u32 = crate::bmp::raw_headers::read_u32_le(w, 0);
        v.push(LinearRgb { r: (u & r_mask) >> r_shift, g: (u & g_mask) >> g_shift, b: (u & b_mask) >> b_shift, r_max: r_mask >> r_shift, g_max: g_mask >> g_shift, b_max: b_mask >> b_shift });
        j = j + 1;
    }
    assert(v@ =~= target);
    v
}

/// The value of a 32-bit pixel for `bmp_iter_bitmask32_linear_rgba`.
pub open spec fn bitmask32_linear_rgba_pixel(w: Seq<u8>, r_mask: u32, g_mask: u32, b_mask: u32, a_mask: u32) -> LinearRgba {
    LinearRgba { r: channel32(le32(w, 0), r_mask), g: channel32(le32(w, 0), g_mask), b: channel32(le32(w, 0), b_mask), a: channel32(le32(w, 0), a_mask), r_max: max32(r_mask), g_max: max32(g_mask), b_max: max32(b_mask), a_max: max32(a_mask) }
}

/// Decodes 32-bits-per-pixel linear RGBA values with the bitmasks given: each
/// channel is its masked bits shifted down, over the mask shifted down.
pub fn bmp_iter_bitmask32_linear_rgba(image_bytes: &[u8], r_mask: u32, g_mask: u32, b_mask: u32, a_mask: u32, width: u32) -> (v: Vec<LinearRgba>)
    requires
        width > 0,
    ensures
        v@ == lines_items(image_bytes@, line_len(width, 32) as nat, 4, width as nat, true).map_values(
            |w: Seq<u8>| bitmask32_linear_rgba_pixel(w, r_mask, g_mask, b_mask, a_mask)),
{
    let r_shift = shift_of_exec(r_mask, 31);
    let g_shift = shift_of_exec(g_mask, 31);
    let b_shift = shift_of_exec(b_mask, 31);
    let a_shift = shift_of_exec(a_mask, 31);
    let padded = line_len_exec(width, 32);
    proof {
        lemma_line_len_positive(width, 32);
    }
    let items = collect_items(image_bytes, padded, 4, width as usize, true);
    let ghost target = lines_items(image_bytes@, padded as nat, 4, width as nat, true).map_values(
        |w: Seq<u8>| bitmask32_linear_rgba_pixel(w, r_mask, g_mask, b_mask, a_mask));
    let mut v: Vec<LinearRgba> = Vec::new();
    let mut j: usize = 0;
    while j < items.len()
        invariant
            j <= items@.len(),
            v@.len() == j,
            items@.len() == target.len(),
            r_shift == shift_of(r_mask, 31),
            r_shift <= 31,
            g_shift == shift_of(g_mask, 31),
            g_shift <= 31,
            b_shift == shift_of(b_mask, 31),
            b_shift <= 31,
            a_shift == shift_of(a_mask, 31),
            a_shift <= 31,
            forall|t: int| 0 <= t < items@.len() ==> (#[trigger] items@[t])@.len() == 4,
            forall|t: int| 0 <= t < items@.len() ==> target[t] == bitmask32_linear_rgba_pixel(#[trigger] items@[t]@, r_mask, g_mask, b_mask, a_mask),
            forall|t: int| 0 <= t < j ==> #[trigger] v@[t] == target[t],
        decreases items@.len() - j,
    {
        let w = items[j];
        let u: u32 = crate::bmp::raw_headers::read_u32_le(w, 0);
        v.push(LinearRgba { r: (u & r_mask) >> r_shift, g: (u & g_mask) >> g_shift, b: (u & b_mask) >> b_shift, a: (u & a_mask) >> a_shift, r_max: r_mask >> r_shift, g_max: g_mask >> g_shift, b_max: b_mask >> b_shift, a_max: a_mask >> a_shift });
        j = j + 1;
    }
    assert(v@ =~= target);
    v
}

/// The value of a 32-bit pixel for `bmp_iter_bitmask32_srgb`.
pub open spec fn bitmask32_srgb_pixel(w: Seq<u8>, r_mask: u32, g_mask: u32, b_mask: u32) -> RGB888 {
    RGB888 { r: channel32(le32(w, 0), r_mask) as u8, g: channel32(le32(w, 0), g_mask) as u8, b: channel32(le32(w, 0), b_mask) as u8 }
}

/// Decodes 32-bits-per-pixel sRGB values with the bitmasks given; each
/// channel is its masked bits shifted down, kept to 8 bits (meant for masks
/// of 8 bits).
pub fn bmp_iter_bitmask32_srgb(image_bytes: &[u8], r_mask: u32, g_mask: u32, b_mask: u32, width: u32) -> (v: Vec<RGB888>)
    requires
        width > 0,
    ensures
        v@ == lines_items(image_bytes@, line_len(width, 32) as nat, 4, width as nat, true).map_values(
            |w: Seq<u8>| bitmask32_srgb_pixel(w, r_mask, g_mask, b_mask)),
{
    let r_shift = shift_of_exec(r_mask, 31);
    let g_shift = shift_of_exec(g_mask, 31);
    let b_shift = shift_of_exec(b_mask, 31);
    let padded = line_len_exec(width, 32);
    proof {
        lemma_line_len_positive(width, 32);
    }
    let items = collect_items(image_bytes, padded, 4, width as usize, true);
    let ghost target = lines_items(image_bytes@, padded as nat, 4, width as nat, true).map_values(
        |w: Seq<u8>| bitmask32_srgb_pixel(w, r_mask, g_mask, b_mask));
    let mut v: Vec<RGB888> = Vec::new();
    let mut j: usize = 0;
    while j < items.len()
        invariant
            j <= items@.len(),
            v@.len() == j,
            items@.len() == target.len(),
            r_shift == shift_of(r_mask, 31),
            r_shift <= 31,
            g_shift == shift_of(g_mask, 31),
            g_shift <= 31,
            b_shift == shift_of(b_mask, 31),
            b_shift <= 31,
            forall|t: int| 0 <= t < items@.len() ==> (#[trigger] items@[t])@.len() == 4,
            forall|t: int| 0 <= t < items@.len() ==> target[t] == bitmask32_srgb_pixel(#[trigger] items@[t]@, r_mask, g_mask, b_mask),
            forall|t: int| 0 <= t < j ==> #[trigger] v@[t] == target[t],
        decreases items@.len() - j,
    {
        let w = items[j];
        let u: u32 = crate::bmp::raw_headers::read_u32_le(w, 0);
        v.push(RGB888 { r: ((u & r_mask) >> r_shift) as u8, g: ((u & g_mask) >> g_shift) as u8, b: ((u & b_mask) >> b_shift) as u8 });
        j = j + 1;
    }
    assert(v@ =~= target);
    v
}

/// The value of a 32-bit pixel for `bmp_iter_bitmask32_srgba`.
pub open spec fn bitmask32_srgba_pixel(w: Seq<u8>, r_mask: u32, g_mask: u32, b_mask: u32, a_mask: u32) -> RGBA8888 {
    RGBA8888 { r: channel32(le32(w, 0), r_mask) as u8, g: channel32(le32(w, 0), g_mask) as u8, b: channel32(le32(w, 0), b_mask) as u8, a: channel32(le32(w, 0), a_mask) as u8 }
}

/// The byte of a little-endian 32-bit word that `mask` selects, for the
/// four masks that cover exactly one whole byte.
pub open spec fn whole_byte_of(mask: u32) -> Option<int> {
    if mask == 0xFFu32 {
        Some(0)
    } else if mask == 0xFF00u32 {
        Some(1)
    } else if mask == 0xFF_0000u32 {
        Some(2)
    } else if mask == 0xFF00_0000u32 {
        Some(3)
    } else {
        None
    }
}

/// A mask that covers one whole byte of the pixel word picks out that byte.
proof fn lemma_whole_byte_channel(w: Seq<u8>, mask: u32)
    requires
        w.len() >= 4,
        whole_byte_of(mask) is Some,
    ensures
        channel32(le32(w, 0), mask) == w[whole_byte_of(mask)->0] as u32,
        max32(mask) == 255,
{
    let b0 = w[0];
    let b1 = w[1];
    let b2 = w[2];
    let b3 = w[3];
    let u = le32(w, 0);
    assert(u == (b0 as u32) + (b1 as u32) * 256 + (b2 as u32) * 0x1_0000 + (b3 as u32) * 0x100_0000);
    assert((0xFFu32 >> 0u32) & 1u32 == 1u32 && (0xFF00u32 >> 0u32) & 1u32 == 0u32 &&
        (0xFF00u32 >> 1u32) & 1u32 == 0u32 && (0xFF00u32 >> 2u32) & 1u32 == 0u32 &&
        (0xFF00u32 >> 3u32) & 1u32 == 0u32 && (0xFF00u32 >> 4u32) & 1u32 == 0u32 &&
        (0xFF00u32 >> 5u32) & 1u32 == 0u32 && (0xFF00u32 >> 6u32) & 1u32 == 0u32 &&
        (0xFF00u32 >> 7u32) & 1u32 == 0u32 && (0xFF00u32 >> 8u32) & 1u32 == 1u32 &&
        (0xFF_0000u32 >> 0u32) & 1u32 == 0u32 && (0xFF_0000u32 >> 1u32) & 1u32 == 0u32 &&
        (0xFF_0000u32 >> 2u32) & 1u32 == 0u32 && (0xFF_0000u32 >> 3u32) & 1u32 == 0u32 &&
        (0xFF_0000u32 >> 4u32) & 1u32 == 0u32 && (0xFF_0000u32 >> 5u32) & 1u32 == 0u32 &&
        (0xFF_0000u32 >> 6u32) & 1u32 == 0u32 && (0xFF_0000u32 >> 7u32) & 1u32 == 0u32 &&
        (0xFF_0000u32 >> 8u32) & 1u32 == 0u32 && (0xFF_0000u32 >> 9u32) & 1u32 == 0u32 &&
        (0xFF_0000u32 >> 10u32) & 1u32 == 0u32 && (0xFF_0000u32 >> 11u32) & 1u32 == 0u32 &&
        (0xFF_0000u32 >> 12u32) & 1u32 == 0u32 && (0xFF_0000u32 >> 13u32) & 1u32 == 0u32 &&
        (0xFF_0000u32 >> 14u32) & 1u32 == 0u32 && (0xFF_0000u32 >> 15u32) & 1u32 == 0u32 &&
        (0xFF_0000u32 >> 16u32) & 1u32 == 1u32 && (0xFF00_0000u32 >> 0u32) & 1u32 == 0u32 &&
        (0xFF00_0000u32 >> 1u32) & 1u32 == 0u32 && (0xFF00_0000u32 >> 2u32) & 1u32 == 0u32 &&
        (0xFF00_0000u32 >> 3u32) & 1u32 == 0u32 && (0xFF00_0000u32 >> 4u32) & 1u32 == 0u32 &&
        (0xFF00_0000u32 >> 5u32) & 1u32 == 0u32 && (0xFF00_0000u32 >> 6u32) & 1u32 == 0u32 &&
        (0xFF00_0000u32 >> 7u32) & 1u32 == 0u32 && (0xFF00_0000u32 >> 8u32) & 1u32 == 0u32 &&
        (0xFF00_0000u32 >> 9u32) & 1u32 == 0u32 && (0xFF00_0000u32 >> 10u32) & 1u32 == 0u32 &&
        (0xFF00_0000u32 >> 11u32) & 1u32 == 0u32 && (0xFF00_0000u32 >> 12u32) & 1u32 == 0u32 &&
        (0xFF00_0000u32 >> 13u32) & 1u32 == 0u32 && (0xFF00_0000u32 >> 14u32) & 1u32 == 0u32 &&
        (0xFF00_0000u32 >> 15u32) & 1u32 == 0u32 && (0xFF00_0000u32 >> 16u32) & 1u32 == 0u32 &&
        (0xFF00_0000u32 >> 17u32) & 1u32 == 0u32 && (0xFF00_0000u32 >> 18u32) & 1u32 == 0u32 &&
        (0xFF00_0000u32 >> 19u32) & 1u32 == 0u32 && (0xFF00_0000u32 >> 20u32) & 1u32 == 0u32 &&
        (0xFF00_0000u32 >> 21u32) & 1u32 == 0u32 && (0xFF00_0000u32 >> 22u32) & 1u32 == 0u32 &&
        (0xFF00_0000u32 >> 23u32) & 1u32 == 0u32 && (0xFF00_0000u32 >> 24u32) & 1u32 == 1u32) by (bit_vector);
    reveal_with_fuel(zeros_from, 26);
    assert(shift_of(0xFFu32, 31) == 0);
    assert(shift_of(0xFF00u32, 31) == 8);
    assert(shift_of(0xFF_0000u32, 31) == 16);
    assert(shift_of(0xFF00_0000u32, 31) == 24);
    assert((u & 0xFFu32) >> 0u32 == b0 as u32 && (u & 0xFF00u32) >> 8u32 == b1 as u32 && (u & 0xFF_0000u32) >> 16u32
        == b2 as u32 && (u & 0xFF00_0000u32) >> 24u32 == b3 as u32 && 0xFFu32 >> 0u32 == 255u32 && 0xFF00u32 >> 8u32
        == 255u32 && 0xFF_0000u32 >> 16u32 == 255u32 && 0xFF00_0000u32 >> 24u32 == 255u32) by (bit_vector)
        requires
            u == (b0 as u32) + (b1 as u32) * 256 + (b2 as u32) * 0x1_0000 + (b3 as u32) * 0x100_0000,
    ;
}

/// With masks that each cover one whole byte of the pixel word (the usual
/// `0xFF`, `0xFF00`, `0xFF0000` and `0xFF000000`), every channel of a
/// 32-bit sRGBA pixel, alpha included, is the byte its mask covers.
pub proof fn lemma_bitmask32_srgba_byte_masks(w: Seq<u8>, r_mask: u32, g_mask: u32, b_mask: u32, a_mask: u32)
    requires
        w.len() >= 4,
    ensures
        ({
            let px = bitmask32_srgba_pixel(w, r_mask, g_mask, b_mask, a_mask);
            &&& whole_byte_of(r_mask) matches Some(k) ==> px.r == w[k]
            &&& whole_byte_of(g_mask) matches Some(k) ==> px.g == w[k]
            &&& whole_byte_of(b_mask) matches Some(k) ==> px.b == w[k]
            &&& whole_byte_of(a_mask) matches Some(k) ==> px.a == w[k]
        }),
{
    if whole_byte_of(r_mask) is Some {
        lemma_whole_byte_channel(w, r_mask);
    }
    if whole_byte_of(g_mask) is Some {
        lemma_whole_byte_channel(w, g_mask);
    }
    if whole_byte_of(b_mask) is Some {
        lemma_whole_byte_channel(w, b_mask);
    }
    if whole_byte_of(a_mask) is Some {
        lemma_whole_byte_channel(w, a_mask);
    }
}

/// With masks that each cover one whole byte of the pixel word, every
/// channel of a 32-bit sRGB pixel is the byte its mask covers.
pub proof fn lemma_bitmask32_srgb_byte_masks(w: Seq<u8>, r_mask: u32, g_mask: u32, b_mask: u32)
    requires
        w.len() >= 4,
    ensures
        ({
            let px = bitmask32_srgb_pixel(w, r_mask, g_mask, b_mask);
            &&& whole_byte_of(r_mask) matches Some(k) ==> px.r == w[k]
            &&& whole_byte_of(g_mask) matches Some(k) ==> px.g == w[k]
            &&& whole_byte_of(b_mask) matches Some(k) ==> px.b == w[k]
        }),
{
    if whole_byte_of(r_mask) is Some {
        lemma_whole_byte_channel(w, r_mask);
    }
    if whole_byte_of(g_mask) is Some {
        lemma_whole_byte_channel(w, g_mask);
    }
    if whole_byte_of(b_mask) is Some {
        lemma_whole_byte_channel(w, b_mask);
    }
}

/// With masks that each cover one whole byte of the pixel word, every
/// channel of a 32-bit linear RGBA pixel is the byte its mask covers, out of
/// a largest value of 255.
pub proof fn lemma_bitmask32_linear_rgba_byte_masks(w: Seq<u8>, r_mask: u32, g_mask: u32, b_mask: u32, a_mask: u32)
    requires
        w.len() >= 4,
    ensures
        ({
            let px = bitmask32_linear_rgba_pixel(w, r_mask, g_mask, b_mask, a_mask);
            &&& whole_byte_of(r_mask) matches Some(k) ==> px.r == w[k] && px.r_max == 255
            &&& whole_byte_of(g_mask) matches Some(k) ==> px.g == w[k] && px.g_max == 255
            &&& whole_byte_of(b_mask) matches Some(k) ==> px.b == w[k] && px.b_max == 255
            &&& whole_byte_of(a_mask) matches Some(k) ==> px.a == w[k] && px.a_max == 255
        }),
{
    if whole_byte_of(r_mask) is Some {
        lemma_whole_byte_channel(w, r_mask);
    }
    if whole_byte_of(g_mask) is Some {
        lemma_whole_byte_channel(w, g_mask);
    }
    if whole_byte_of(b_mask) is Some {
        lemma_whole_byte_channel(w, b_mask);
    }
    if whole_byte_of(a_mask) is Some {
        lemma_whole_byte_channel(w, a_mask);
    }
}

/// With masks that each cover one whole byte of the pixel word, every
/// channel of a 32-bit linear RGB pixel is the byte its mask covers, out of
/// a largest value of 255.
pub proof fn lemma_bitmask32_linear_rgb_byte_masks(w: Seq<u8>, r_mask: u32, g_mask: u32, b_mask: u32)
    requires
        w.len() >= 4,
    ensures
        ({
            let px = bitmask32_linear_rgb_pixel(w, r_mask, g_mask, b_mask);
            &&& whole_byte_of(r_mask) matches Some(k) ==> px.r == w[k] && px.r_max == 255
            &&& whole_byte_of(g_mask) matches Some(k) ==> px.g == w[k] && px.g_max == 255
            &&& whole_byte_of(b_mask) matches Some(k) ==> px.b == w[k] && px.b_max == 255
        }),
{
    if whole_byte_of(r_mask) is Some {
        lemma_whole_byte_channel(w, r_mask);
    }
    if whole_byte_of(g_mask) is Some {
        lemma_whole_byte_channel(w, g_mask);
    }
    if whole_byte_of(b_mask) is Some {
        lemma_whole_byte_channel(w, b_mask);
    }
}

/// Decodes 32-bits-per-pixel sRGBA values with the bitmasks given; each
/// channel is its masked bits shifted down, kept to 8 bits (meant for masks
/// of 8 bits).
pub fn bmp_iter_bitmask32_srgba(image_bytes: &[u8], r_mask: u32, g_mask: u32, b_mask: u32, a_mask: u32, width: u32) -> (v: Vec<RGBA8888>)
    requires
        width > 0,
    ensures
        v@ == lines_items(image_bytes@, line_len(width, 32) as nat, 4, width as nat, true).map_values(
            |w: Seq<u8>| bitmask32_srgba_pixel(w, r_mask, g_mask, b_mask, a_mask)),
{
    let r_shift = shift_of_exec(r_mask, 31);
    let g_shift = shift_of_exec(g_mask, 31);
    let b_shift = shift_of_exec(b_mask, 31);
    let a_shift = shift_of_exec(a_mask, 31);
    let padded = line_len_exec(width, 32);
    proof {
        lemma_line_len_positive(width, 32);
    }
    let items = collect_items(image_bytes, padded, 4, width as usize, true);
    let ghost target = lines_items(image_bytes@, padded as nat, 4, width as nat, true).map_values(
        |w: Seq<u8>| bitmask32_srgba_pixel(w, r_mask, g_mask, b_mask, a_mask));
    let mut v: Vec<RGBA8888> = Vec::new();
    let mut j: usize = 0;
    while j < items.len()
        invariant
            j <= items@.len(),
            v@.len() == j,
            items@.len() == target.len(),
            r_shift == shift_of(r_mask, 31),
            r_shift <= 31,
            g_shift == shift_of(g_mask, 31),
            g_shift <= 31,
            b_shift == shift_of(b_mask, 31),
            b_shift <= 31,
            a_shift == shift_of(a_mask, 31),
            a_shift <= 31,
            forall|t: int| 0 <= t < items@.len() ==> (#[trigger] items@[t])@.len() == 4,
            forall|t: int| 0 <= t < items@.len() ==> target[t] == bitmask32_srgba_pixel(#[trigger] items@[t]@, r_mask, g_mask, b_mask, a_mask),
            forall|t: int| 0 <= t < j ==> #[trigger] v@[t] == target[t],
        decreases items@.len() - j,
    {
        let w = items[j];
        let u: u32 = crate::bmp::raw_headers::read_u32_le(w, 0);
        v.push(RGBA8888 { r: ((u & r_mask) >> r_shift) as u8, g: ((u & g_mask) >> g_shift) as u8, b: ((u & b_mask) >> b_shift) as u8, a: ((u & a_mask) >> a_shift) as u8 });
        j = j + 1;
    }
    assert(v@ =~= target);
    v
}

} // verus!
