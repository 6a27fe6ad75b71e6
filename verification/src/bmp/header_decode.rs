//! Decoding a whole BMP file through the typed headers: the file header, an
//! info header of any version, the palette, then the pixel data, into an
//! indexed image.
use vstd::prelude::*;
use crate::bmp::headers::{
    BmpCompression, BmpError, BmpFileHeader, BmpInfoHeader, file_header_from_bytes, info_header_from_bytes,
};
use crate::bmp::paint::{put, put_pixel, run, run_exec, next_x};
use crate::bmp::span_header::{div_ceil, magnitude, saturate, saturating_mul, unsigned_abs};
use crate::pixel_formats::RGBA8888;
use crate::image::Palmap;

verus! {

/// Whether a file tag is one of the six known ones: `BM`, `BA`, `CI`, `CP`,
/// `IC`, `PT`.
pub open spec fn is_common_tag(t: Seq<u8>) -> bool {
    ||| t[0] == 66 && t[1] == 77
    ||| t[0] == 66 && t[1] == 65
    ||| t[0] == 67 && t[1] == 73
    ||| t[0] == 67 && t[1] == 80
    ||| t[0] == 73 && t[1] == 67
    ||| t[0] == 80 && t[1] == 84
}

fn is_common_tag_exec(h: &BmpFileHeader) -> (b: bool)
    ensures
        b == is_common_tag(h.tag.0@),
{
    let t0 = h.tag.0[0];
    let t1 = h.tag.0[1];
    (t0 == 66 && t1 == 77) || (t0 == 66 && t1 == 65) || (t0 == 67 && t1 == 73) || (t0 == 67 && t1 == 80) || (
    t0 == 73 && t1 == 67) || (t0 == 80 && t1 == 84)
}

/// The headers at the start of a file, and where the bytes after them start:
/// `InsufficientBytes` without a file header, `ThisIsProbablyNotABmpFile`
/// when the stored file size is not the length or the tag is not a known one,
/// then what the info header parser says.
pub open spec fn file_stage(b: Seq<u8>) -> Result<(BmpFileHeader, BmpInfoHeader, int), BmpError> {
    if b.len() < 14 {
        Err(BmpError::InsufficientBytes)
    } else {
        let fh = file_header_from_bytes(b.subrange(0, 14));
        if fh.total_file_size != b.len() || !is_common_tag(fh.tag.0@) {
            Err(BmpError::ThisIsProbablyNotABmpFile)
        } else {
            match info_header_from_bytes(b.subrange(14, b.len() as int)) {
                Err(e) => Err(e),
                Ok((ih, n)) => Ok((fh, ih, 14 + n)),
            }
        }
    }
}

#[verifier::spinoff_prover]
#[verifier::rlimit(30)]
pub(crate) fn read_file_stage(bytes: &[u8]) -> (r: Result<(BmpFileHeader, BmpInfoHeader, &[u8]), BmpError>)
    ensures
        match file_stage(bytes@) {
            Ok((fh, ih, n)) => r is Ok && r->Ok_0.0 == fh && r->Ok_0.1 == ih && r->Ok_0.2@ == bytes@.subrange(
                n,
                bytes@.len() as int,
            ),
            Err(e) => r == Err::<(BmpFileHeader, BmpInfoHeader, &[u8]), BmpError>(e),
        },
{
    let (fh, rest) = match BmpFileHeader::try_from_bytes(bytes) {
        Ok(p) => p,
        Err(e) => return Err(e),
    };
    if fh.total_file_size as usize != bytes.len() || !is_common_tag_exec(&fh) {
        return Err(BmpError::ThisIsProbablyNotABmpFile);
    }
    match BmpInfoHeader::try_from_bytes(rest) {
        Ok((ih, rest2)) => {
            proof {
                let n = info_header_from_bytes(rest@)->Ok_0.1;
                assert(rest2@ =~= bytes@.subrange(14 + n, bytes@.len() as int));
            }
            Ok((fh, ih, rest2))
        },
        Err(e) => Err(e),
    }
}

/// `Vec::try_reserve` of `count` elements of `size` bytes refuses a capacity
/// above `isize::MAX` bytes.
pub open spec fn capacity_overflows(count: int, size: int) -> bool {
    count * size > isize::MAX
}

/// The palette entries stored as `k` bytes each (`[b, g, r]` or `[b, g, r, a]`).
pub open spec fn stored_palette(rest: Seq<u8>, n: nat, k: int) -> Seq<RGBA8888> {
    Seq::new(
        n,
        |i: int|
            RGBA8888 {
                r: rest[k * i + 2],
                g: rest[k * i + 1],
                b: rest[k * i],
                a: if k == 3 {
                    255u8
                } else {
                    rest[k * i + 3]
                },
            },
    )
}

/// A palette in which every entry is fully transparent is taken as opaque.
pub open spec fn opaque_if_all_transparent(p: Seq<RGBA8888>) -> Seq<RGBA8888> {
    if forall|i: int| 0 <= i < p.len() ==> #[trigger] p[i].a == 0 {
        p.map_values(|c: RGBA8888| RGBA8888 { a: 255, ..c })
    } else {
        p
    }
}

/// The palette after the info header: none when its length is 0; otherwise
/// `AllocError` when it cannot be reserved, `InsufficientBytes` when the
/// entries run past the bytes (3 per entry after a core header, 4 after the
/// others), with `reserve_again` `AllocError` again when room for as many
/// entries more cannot be reserved once they are read, else the entries.
pub open spec fn palette_stage(rest: Seq<u8>, ih: BmpInfoHeader, reserve_again: bool) -> Result<
    Seq<RGBA8888>,
    BmpError,
> {
    let n = ih.spec_palette_len();
    let k: int = if ih is Core {
        3
    } else {
        4
    };
    if n == 0 {
        Ok(Seq::empty())
    } else if capacity_overflows(n as int, 4) {
        Err(BmpError::AllocError)
    } else if rest.len() < k * n {
        Err(BmpError::InsufficientBytes)
    } else if reserve_again && capacity_overflows(2 * n as int, 4) {
        Err(BmpError::AllocError)
    } else if ih is Core {
        Ok(stored_palette(rest, n, 3))
    } else {
        Ok(opaque_if_all_transparent(stored_palette(rest, n, 4)))
    }
}

pub(crate) fn read_palette(rest: &[u8], ih: &BmpInfoHeader, reserve_again: bool) -> (r: Result<Vec<RGBA8888>, BmpError>)
    requires
        ih is Core ==> ih->Core_0.bits_per_pixel < usize::BITS,
    ensures
        match palette_stage(rest@, *ih, reserve_again) {
            Ok(p) => r is Ok && r->Ok_0@ == p,
            Err(e) => r == Err::<Vec<RGBA8888>, BmpError>(e),
        },
{
    let n = ih.palette_len();
    if n == 0 {
        return Ok(Vec::new());
    }
    if n > (isize::MAX as usize) / 4 {
        return Err(BmpError::AllocError);
    }
    let core = matches!(ih, BmpInfoHeader::Core(_));
    let k: usize = if core {
        3
    } else {
        4
    };
    if rest.len() < k * n {
        return Err(BmpError::InsufficientBytes);
    }
    let mut v: Vec<RGBA8888> = Vec::new();
    let mut i: usize = 0;
    while i < n
        invariant
            i <= n,
            n == ih.spec_palette_len(),
            k == (if *ih is Core {
                3int
            } else {
                4int
            }),
            k * n <= rest@.len(),
            core == (*ih is Core),
            v@ =~= stored_palette(rest@, n as nat, k as int).take(i as int),
        decreases n - i,
    {
        proof {
            assert(k * i + k <= k * n) by (nonlinear_arith)
                requires
                    i < n,
                    k == 3 || k == 4,
            ;
            assert(rest@.len() == rest.len());
        }
        let base = k * i;
        let a: u8 = if core {
            255
        } else {
            rest[base + 3]
        };
        v.push(RGBA8888 { r: rest[base + 2], g: rest[base + 1], b: rest[base], a });
        assert(stored_palette(rest@, n as nat, k as int)[i as int] == RGBA8888 {
            r: rest[base + 2],
            g: rest[base + 1],
            b: rest[base as int],
            a,
        });
        i = i + 1;
    }
    assert(v@ =~= stored_palette(rest@, n as nat, k as int));
    if reserve_again && n > (isize::MAX as usize) / 8 {
        return Err(BmpError::AllocError);
    }
    if core {
        return Ok(v);
    }
    let mut all_clear = true;
    let mut j: usize = 0;
    while j < v.len()
        invariant
            j <= v@.len(),
            all_clear == forall|t: int| 0 <= t < j ==> #[trigger] v@[t].a == 0,
        decreases v@.len() - j,
    {
        all_clear = all_clear && v[j].a == 0;
        j = j + 1;
    }
    if all_clear {
        let ghost before = v@;
        let mut t: usize = 0;
        while t < v.len()
            invariant
                t <= v@.len(),
                v@.len() == before.len(),
                forall|q: int| 0 <= q < t ==> #[trigger] v@[q] == (RGBA8888 { a: 255, ..before[q] }),
                forall|q: int| t <= q < v@.len() ==> #[trigger] v@[q] == before[q],
            decreases v@.len() - t,
        {
            let c = v[t];
            v.set(t, RGBA8888 { a: 255, ..c });
            t = t + 1;
        }
        assert(v@ =~= before.map_values(|c: RGBA8888| RGBA8888 { a: 255, ..c }));
    }
    Ok(v)
}

/// Bytes per stored row without padding: `bits_per_pixel * width`
/// (saturating at `usize::MAX`) rounded up to bytes.
pub open spec fn unpadded_line(bits_per_pixel: int, width: int) -> int {
    div_ceil(saturate(bits_per_pixel * width), 8)
}

/// Bytes per stored row: the unpadded length rounded up to 4 bytes.
pub open spec fn padded_line(bits_per_pixel: int, width: int) -> int {
    4 * div_ceil(unpadded_line(bits_per_pixel, width), 4)
}

/// Row `y` of the pixel data: rows are stored top down when `top_down`,
/// bottom up otherwise.
pub open spec fn stored_row(data: Seq<u8>, bpl: int, h: int, top_down: bool, y: int) -> Seq<u8> {
    if top_down {
        data.subrange(y * bpl, y * bpl + bpl)
    } else {
        data.subrange((h - 1 - y) * bpl, (h - y) * bpl)
    }
}

/// The `x`-th palette index of a row at 1, 2, 4 or 8 bits per pixel (the
/// leftmost pixel in the high bits of a byte).
pub open spec fn row_index(row: Seq<u8>, x: int, bits_per_pixel: int) -> u8 {
    if bits_per_pixel == 8 {
        row[x]
    } else {
        let per = 8int / bits_per_pixel;
        let shift = 8 - bits_per_pixel * (x % per + 1);
        ((row[x / per] as int / vstd::arithmetic::power2::pow2(shift as nat) as int) % vstd::arithmetic::power2::pow2(
            bits_per_pixel as nat,
        ) as int) as u8
    }
}

/// How many pixels of each row are written: at 8 bits per pixel the unpadded
/// row length, below it the width as far as the row's bytes reach.
pub open spec fn row_pixels(bits_per_pixel: int, width: int, bpl: int) -> int {
    if bits_per_pixel == 8 {
        unpadded_line(8, width)
    } else if width <= bpl * (8int / bits_per_pixel) {
        width
    } else {
        bpl * (8int / bits_per_pixel)
    }
}

/// Writing the first `xs` indexes of `row` into row `y`.
pub open spec fn paint_row(v: Seq<u8>, w: u32, h: u32, y: int, row: Seq<u8>, bpp: int, xs: nat) -> Seq<u8>
    decreases xs,
{
    if xs == 0 {
        v
    } else {
        let x = xs - 1;
        put(paint_row(v, w, h, y, row, bpp, x as nat), w, h, x as u32, y as u32, row_index(row, x, bpp))
    }
}

/// Writing the first `rows` rows of uncompressed paletted data.
pub open spec fn paint_rows(
    v: Seq<u8>,
    data: Seq<u8>,
    bpl: int,
    w: u32,
    h: u32,
    top_down: bool,
    bpp: int,
    rows: nat,
) -> Seq<u8>
    decreases rows,
{
    if rows == 0 {
        v
    } else {
        let y = rows - 1;
        paint_row(
            paint_rows(v, data, bpl, w, h, top_down, bpp, y as nat),
            w,
            h,
            y,
            stored_row(data, bpl, h as int, top_down, y),
            bpp,
            row_pixels(bpp, w as int, bpl) as nat,
        )
    }
}

pub(crate) proof fn lemma_row_pixels_bound(bpp: int, w: int, bpl: int)
    requires
        bpp == 1 || bpp == 2 || bpp == 4 || bpp == 8,
        0 <= w,
        0 <= bpl,
        bpl >= unpadded_line(bpp, w),
    ensures
        0 <= row_pixels(bpp, w, bpl) <= w,
        row_pixels(bpp, w, bpl) <= bpl * (8int / bpp),
        bpp == 8 ==> row_pixels(bpp, w, bpl) <= bpl,
{
    if bpp == 8 {
        let s = saturate(8 * w);
        assert(s <= 8 * w);
        assert(0 <= s);
        assert(div_ceil(s, 8) <= w) by (nonlinear_arith)
            requires
                0 <= s <= 8 * w,
        ;
    }
}

pub(crate) fn index_at(row: &[u8], x: u32, bpp: u32) -> (c: u8)
    requires
        bpp == 1 || bpp == 2 || bpp == 4 || bpp == 8,
        x < row@.len() * (8int / bpp as int),
    ensures
        c == row_index(row@, x as int, bpp as int),
{
    if bpp == 8 {
        row[x as usize]
    } else {
        let per: u32 = 8 / bpp;
        let j: u32 = x % per;
        let shift: u32 = 8 - bpp * (j + 1);
        let i: u32 = x / per;
        proof {
            assert(i < row@.len()) by (nonlinear_arith)
                requires
                    x < row@.len() * per,
                    i == x / per,
                    per > 0,
            ;
            assert(bpp * (j + 1) <= 8) by (nonlinear_arith)
                requires
                    j < per,
                    per == 8u32 / bpp,
                    bpp == 1 || bpp == 2 || bpp == 4,
            ;
        }
        let byte: u8 = row[i as usize];
        let mask: u8 = if bpp == 1 {
            1
        } else if bpp == 2 {
            3
        } else {
            15
        };
        proof {
            vstd::arithmetic::power2::lemma2_to64();
            vstd::bits::lemma_u8_shr_is_div(byte, shift as u8);
            let q: u8 = byte >> (shift as u8);
            assert(q & 1 == q % 2 && q & 3 == q % 4 && q & 15 == q % 16) by (bit_vector);
        }
        (byte >> (shift as u8)) & mask
    }
}

pub(crate) fn unpadded_line_exec(bpp: usize, w: u32) -> (n: usize)
    ensures
        n == unpadded_line(bpp as int, w as int),
{
    let bits = saturating_mul(bpp, w as usize);
    bits / 8 + if bits % 8 != 0 {
        1usize
    } else {
        0usize
    }
}

pub(crate) fn row_pixels_exec(bpp: u32, w: u32, bpl: usize) -> (n: usize)
    requires
        bpp == 1 || bpp == 2 || bpp == 4 || bpp == 8,
    ensures
        n == row_pixels(bpp as int, w as int, bpl as int),
{
    if bpp == 8 {
        unpadded_line_exec(8, w)
    } else {
        let per: usize = (8 / bpp) as usize;
        match bpl.checked_mul(per) {
            Some(cap) => if (w as usize) <= cap {
                w as usize
            } else {
                cap
            },
            None => w as usize,
        }
    }
}

fn paint_uncompressed(v: &mut Vec<u8>, data: &[u8], bpl: usize, w: u32, h: u32, top_down: bool, bpp: u32)
    requires
        bpp == 1 || bpp == 2 || bpp == 4 || bpp == 8,
        data@.len() == h * bpl,
        bpl >= unpadded_line(bpp as int, w as int),
    ensures
        final(v)@ == paint_rows(old(v)@, data@, bpl as int, w, h, top_down, bpp as int, h as nat),
{
    let xs = row_pixels_exec(bpp, w, bpl);
    proof {
        lemma_row_pixels_bound(bpp as int, w as int, bpl as int);
    }
    let mut y: u32 = 0;
    while y < h
        invariant
            y <= h,
            bpp == 1 || bpp == 2 || bpp == 4 || bpp == 8,
            data@.len() == h * bpl,
            xs == row_pixels(bpp as int, w as int, bpl as int),
            xs <= w,
            xs <= bpl * (8int / bpp as int),
            v@ == paint_rows(old(v)@, data@, bpl as int, w, h, top_down, bpp as int, y as nat),
        decreases h - y,
    {
        let k: usize = if top_down {
            y as usize
        } else {
            (h - 1 - y) as usize
        };
        proof {
            assert(k * bpl + bpl <= h * bpl) by (nonlinear_arith)
                requires
                    k < h,
            ;
            assert(data@.len() == data.len());
        }
        let start = k * bpl;
        let row = vstd::slice::slice_subrange(data, start, start + bpl);
        proof {
            if !top_down {
                assert((h - 1 - y) * bpl + bpl == (h - y) * bpl) by (nonlinear_arith);
            }
            assert(row@ == stored_row(data@, bpl as int, h as int, top_down, y as int));
        }
        let ghost before = v@;
        let mut x: u32 = 0;
        while (x as usize) < xs
            invariant
                x <= xs,
                xs <= w,
                xs <= bpl * (8int / bpp as int),
                bpp == 1 || bpp == 2 || bpp == 4 || bpp == 8,
                row@.len() == bpl,
                v@ == paint_row(before, w, h, y as int, row@, bpp as int, x as nat),
            decreases xs - x,
        {
            let c = index_at(row, x, bpp);
            put_pixel(v, w, h, x, y, c);
            x = x + 1;
        }
        y = y + 1;
    }
}

/// Why a run-length walk over paletted data stopped early.
#[derive(Debug, Clone, Copy, PartialEq, Eq, Structural)]
pub enum RleStop {
    /// The data ended inside an escape sequence or a raw run.
    BadContent,
    /// The column (or an index computed from it) went past the largest
    /// value of its type.
    Overflow,
    /// A run started past the end of the pixel buffer, or (at 4 bits per
    /// pixel) at a column past the image width.
    OutOfBounds,
}

/// Writing `vals` going right from column `x` of row `y`.
pub open spec fn put_vals(v: Seq<u8>, w: u32, h: u32, x: u32, y: u32, vals: Seq<u8>) -> Seq<u8>
    decreases vals.len(),
{
    if vals.len() == 0 {
        v
    } else {
        put(put_vals(v, w, h, x, y, vals.drop_last()), w, h, (x + vals.len() - 1) as u32, y, vals.last())
    }
}

/// `a - b`, or 0 when `b` is larger.
pub open spec fn sat_sub(a: int, b: int) -> int {
    if a >= b {
        a - b
    } else {
        0
    }
}

/// The values a raw pair `a, b` gives with `r` values of the raw run left:
/// at 8 bits per pixel the bytes (one when only one is left), at 4 bits the
/// nibbles, high first, as many as are left.
pub open spec fn raw_vals(four: bool, a: u8, b: u8, r: u8) -> Seq<u8> {
    if four {
        let m: int = if r >= 4 {
            4
        } else {
            r as int
        };
        seq![a >> 4u8, a & 15u8, b >> 4u8, b & 15u8].take(m)
    } else if r >= 2 {
        seq![a, b]
    } else {
        seq![a]
    }
}

/// Walking run-length encoded palette indexes (`four`: 4 bits per pixel)
/// from byte `p`, with `r` values of a raw run left, at column `x` of row `y`
/// (rows count down from the top row given, as the data starts at the
/// bottom). A pair `count, c` with a nonzero count writes `count` times `c`
/// (at 4 bits `count` times the two nibbles of `c`); `0, 0` ends the line,
/// `0, 1` ends the bitmap, `0, 2` moves right and up by the next two bytes,
/// and `0, n` starts a raw run of `n` values. Writes outside the image are
/// dropped; a column past `u32::MAX` stops the walk with `Overflow`.
pub open spec fn pal_rle_walk(
    d: Seq<u8>,
    four: bool,
    p: int,
    r: u8,
    x: u32,
    y: u32,
    w: u32,
    h: u32,
    v: Seq<u8>,
) -> Result<Seq<u8>, RleStop>
    decreases d.len() - p,
{
    if p < 0 || p + 2 > d.len() {
        if r > 0 {
            Err(RleStop::BadContent)
        } else {
            Ok(v)
        }
    } else {
        let a = d[p];
        let b = d[p + 1];
        if r > 0 {
            let vals = raw_vals(four, a, b, r);
            if x + vals.len() > u32::MAX {
                Err(RleStop::Overflow)
            } else {
                pal_rle_walk(
                    d,
                    four,
                    p + 2,
                    sat_sub(r as int, vals.len() as int) as u8,
                    (x + vals.len()) as u32,
                    y,
                    w,
                    h,
                    put_vals(v, w, h, x, y, vals),
                )
            }
        } else if a > 0 {
            let n: nat = if four {
                2 * a as nat
            } else {
                a as nat
            };
            let c0 = if four {
                b >> 4u8
            } else {
                b
            };
            let c1 = if four {
                b & 15u8
            } else {
                b
            };
            if x + n > u32::MAX {
                Err(RleStop::Overflow)
            } else {
                pal_rle_walk(d, four, p + 2, 0, (x + n) as u32, y, w, h, run(v, w, h, x, y, n, 0, c0, c1).1)
            }
        } else if b == 0 {
            pal_rle_walk(d, four, p + 2, 0, 0, sat_sub(y as int, 1) as u32, w, h, v)
        } else if b == 1 {
            Ok(v)
        } else if b == 2 {
            if p + 4 > d.len() {
                Err(RleStop::BadContent)
            } else if x + d[p + 2] > u32::MAX {
                Err(RleStop::Overflow)
            } else {
                pal_rle_walk(
                    d,
                    four,
                    p + 4,
                    0,
                    (x + d[p + 2]) as u32,
                    sat_sub(y as int, d[p + 3] as int) as u32,
                    w,
                    h,
                    v,
                )
            }
        } else {
            pal_rle_walk(d, four, p + 2, b, x, y, w, h, v)
        }
    }
}

pub(crate) proof fn lemma_run_end(v: Seq<u8>, w: u32, h: u32, x: u32, y: u32, n: nat, k: nat, c0: u8, c1: u8)
    requires
        x + n <= u32::MAX,
    ensures
        run(v, w, h, x, y, n, k, c0, c1).0 == x + n,
    decreases n,
{
    if n > 0 {
        let c = if k % 2 == 0 {
            c0
        } else {
            c1
        };
        assert(next_x(x) == x + 1);
        lemma_run_end(put(v, w, h, x, y, c), w, h, next_x(x), y, (n - 1) as nat, k + 1, c0, c1);
    }
}

pub(crate) fn put_vals_exec(v: &mut Vec<u8>, w: u32, h: u32, x: u32, y: u32, vals: &[u8])
    requires
        x + vals@.len() <= u32::MAX,
    ensures
        final(v)@ == put_vals(old(v)@, w, h, x, y, vals@),
{
    let mut k: usize = 0;
    assert(vals@.take(0) =~= Seq::<u8>::empty());
    while k < vals.len()
        invariant
            k <= vals@.len(),
            x + vals@.len() <= u32::MAX,
            v@ == put_vals(old(v)@, w, h, x, y, vals@.take(k as int)),
        decreases vals@.len() - k,
    {
        put_pixel(v, w, h, x + k as u32, y, vals[k]);
        assert(vals@.take(k + 1).drop_last() =~= vals@.take(k as int));
        k = k + 1;
    }
    assert(vals@.take(vals@.len() as int) =~= vals@);
}

fn pal_rle_exec(v: &mut Vec<u8>, d: &[u8], four: bool, w: u32, h: u32) -> (r: Result<(), RleStop>)
    requires
        h > 0,
    ensures
        match pal_rle_walk(d@, four, 0, 0, 0, (h - 1) as u32, w, h, old(v)@) {
            Ok(s) => r is Ok && final(v)@ == s,
            Err(e) => r == Err::<(), RleStop>(e),
        },
{
    let mut p: usize = 0;
    let mut r: u8 = 0;
    let mut x: u32 = 0;
    let mut y: u32 = h - 1;
    loop
        invariant
            p <= d@.len(),
            pal_rle_walk(d@, four, 0, 0, 0, (h - 1) as u32, w, h, old(v)@) == pal_rle_walk(
                d@,
                four,
                p as int,
                r,
                x,
                y,
                w,
                h,
                v@,
            ),
        decreases d@.len() - p,
    {
        if d.len() - p < 2 {
            if r > 0 {
                return Err(RleStop::BadContent);
            } else {
                return Ok(());
            }
        }
        let a = d[p];
        let b = d[p + 1];
        if r > 0 {
            let arr: [u8; 4] = if four {
                [a >> 4, a & 15, b >> 4, b & 15]
            } else {
                [a, b, 0, 0]
            };
            let m: usize = if four {
                if r >= 4 {
                    4
                } else {
                    r as usize
                }
            } else if r >= 2 {
                2
            } else {
                1
            };
            let vals = vstd::slice::slice_subrange(arr.as_slice(), 0, m);
            assert(vals@ =~= raw_vals(four, a, b, r));
            if x > u32::MAX - (m as u32) {
                return Err(RleStop::Overflow);
            }
            put_vals_exec(v, w, h, x, y, vals);
            x = x + m as u32;
            r = if r >= m as u8 {
                r - m as u8
            } else {
                0
            };
            p = p + 2;
        } else if a > 0 {
            let n: u16 = if four {
                2 * a as u16
            } else {
                a as u16
            };
            let c0 = if four {
                b >> 4
            } else {
                b
            };
            let c1 = if four {
                b & 15
            } else {
                b
            };
            if x > u32::MAX - (n as u32) {
                return Err(RleStop::Overflow);
            }
            proof {
                lemma_run_end(v@, w, h, x, y, n as nat, 0, c0, c1);
            }
            x = run_exec(v, w, h, x, y, n, c0, c1);
            p = p + 2;
        } else if b == 0 {
            x = 0;
            y = if y >= 1 {
                y - 1
            } else {
                0
            };
            p = p + 2;
        } else if b == 1 {
            return Ok(());
        } else if b == 2 {
            if d.len() - p < 4 {
                return Err(RleStop::BadContent);
            }
            let dr = d[p + 2];
            let du = d[p + 3];
            if x > u32::MAX - (dr as u32) {
                return Err(RleStop::Overflow);
            }
            x = x + dr as u32;
            y = if y >= du as u32 {
                y - du as u32
            } else {
                0
            };
            p = p + 4;
        } else {
            r = b;
            p = p + 2;
        }
    }
}

/// The indexes the pixel data gives, starting from `init`: uncompressed rows
/// at 1, 2, 4 or 8 bits per pixel (`PixelDataIllegalLength` unless the data
/// is exactly `h` padded rows, `NotAPalettedBmp` at 16, 24 or 32 bits,
/// `IllegalBitDepth` otherwise), or a run-length walk from the bottom row
/// (`PixelDataIllegalLength` for an odd length, `PixelDataIllegalRLEContent`
/// when the data ends too early); `ParserIncomplete` for the other
/// compressions.
pub open spec fn palmap_pixels(data: Seq<u8>, ih: BmpInfoHeader, w: u32, h: u32, init: Seq<u8>) -> Result<
    Seq<u8>,
    BmpError,
> {
    let c = ih.spec_compression();
    if c == BmpCompression::RgbNoCompression || c == BmpCompression::Bitfields || c
        == BmpCompression::AlphaBitfields {
        let bpp = ih.spec_bits_per_pixel() as int;
        let bpl = padded_line(bpp, w as int);
        if data.len() as int % bpl != 0 || data.len() as int / bpl != h {
            Err(BmpError::PixelDataIllegalLength)
        } else if bpp == 1 || bpp == 2 || bpp == 4 || bpp == 8 {
            Ok(paint_rows(init, data, bpl, w, h, ih.spec_height() < 0, bpp, h as nat))
        } else if bpp == 16 || bpp == 24 || bpp == 32 {
            Err(BmpError::NotAPalettedBmp)
        } else {
            Err(BmpError::IllegalBitDepth)
        }
    } else if c == BmpCompression::RgbRLE8 || c == BmpCompression::RgbRLE4 {
        if data.len() % 2 != 0 {
            Err(BmpError::PixelDataIllegalLength)
        } else {
            match pal_rle_walk(data, c == BmpCompression::RgbRLE4, 0, 0, 0, (h - 1) as u32, w, h, init) {
                Ok(s) => Ok(s),
                Err(_) => Err(BmpError::PixelDataIllegalRLEContent),
            }
        }
    } else {
        Err(BmpError::ParserIncomplete)
    }
}

/// The pixel data decodes without a division by zero (a row length of 0
/// bytes), without an empty image for run-length data (whose walk starts
/// at row `h - 1`) and without the walk's column passing `u32::MAX`.
pub open spec fn palmap_pixels_defined(data: Seq<u8>, ih: BmpInfoHeader, w: u32, h: u32, init: Seq<u8>) -> bool {
    let c = ih.spec_compression();
    if c == BmpCompression::RgbNoCompression || c == BmpCompression::Bitfields || c
        == BmpCompression::AlphaBitfields {
        padded_line(ih.spec_bits_per_pixel() as int, w as int) != 0
    } else if c == BmpCompression::RgbRLE8 || c == BmpCompression::RgbRLE4 {
        data.len() % 2 == 0 ==> h > 0 && pal_rle_walk(
            data,
            c == BmpCompression::RgbRLE4,
            0,
            0,
            0,
            (h - 1) as u32,
            w,
            h,
            init,
        ) != Err::<Seq<u8>, RleStop>(RleStop::Overflow)
    } else {
        true
    }
}

/// `width * height`, saturating at `u32::MAX`.
pub open spec fn pixel_count(w: u32, h: u32) -> int {
    if w * h > u32::MAX {
        u32::MAX as int
    } else {
        w * h
    }
}

/// What an indexed image made from a BMP file is: its width, height, indexes
/// and palette. After the headers and the palette, `AllocError` when the
/// indexes cannot be reserved, `InsufficientBytes` when the pixel data runs
/// past the end of the file, then what the pixel data gives.
pub open spec fn spec_palmap_from_bmp(b: Seq<u8>) -> Result<(u32, u32, Seq<u8>, Seq<RGBA8888>), BmpError> {
    match file_stage(b) {
        Err(e) => Err(e),
        Ok((fh, ih, n)) => {
            let w = magnitude(ih.spec_width());
            let h = magnitude(ih.spec_height());
            let count = pixel_count(w, h);
            match palette_stage(b.subrange(n, b.len() as int), ih, true) {
                Err(e) => Err(e),
                Ok(pal) => if capacity_overflows(count, 1) {
                    Err(BmpError::AllocError)
                } else {
                    let start = fh.pixel_data_offset as int;
                    let end = start + ih.spec_pixel_data_len();
                    if b.len() < end {
                        Err(BmpError::InsufficientBytes)
                    } else {
                        match palmap_pixels(b.subrange(start, end), ih, w, h, Seq::new(count as nat, |i: int| 0u8)) {
                            Err(e) => Err(e),
                            Ok(idx) => Ok((w, h, idx, pal)),
                        }
                    }
                },
            }
        },
    }
}

/// A file decodes to an indexed image without a panic: a core header's bit
/// depth is below the width of `usize`, the pixel data's end fits in `usize`,
/// and the pixel data decodes (see `palmap_pixels_defined`).
pub open spec fn palmap_decode_defined(b: Seq<u8>) -> bool {
    match file_stage(b) {
        Err(_) => true,
        Ok((fh, ih, n)) => {
            let w = magnitude(ih.spec_width());
            let h = magnitude(ih.spec_height());
            let count = pixel_count(w, h);
            let start = fh.pixel_data_offset as int;
            let end = start + ih.spec_pixel_data_len();
            &&& ih is Core ==> ih->Core_0.bits_per_pixel < usize::BITS
            &&& (palette_stage(b.subrange(n, b.len() as int), ih, true) is Ok && !capacity_overflows(count, 1)) ==> {
                &&& end <= usize::MAX
                &&& b.len() >= end ==> palmap_pixels_defined(
                    b.subrange(start, end),
                    ih,
                    w,
                    h,
                    Seq::new(count as nat, |i: int| 0u8),
                )
            }
        },
    }
}

#[verifier::spinoff_prover]
fn decode_indexes(indexes: &mut Vec<u8>, data: &[u8], ih: &BmpInfoHeader, w: u32, h: u32) -> (r: Result<(), BmpError>)
    requires
        w == magnitude(ih.spec_width()),
        h == magnitude(ih.spec_height()),
        palmap_pixels_defined(data@, *ih, w, h, old(indexes)@),
    ensures
        match palmap_pixels(data@, *ih, w, h, old(indexes)@) {
            Ok(s) => r is Ok && final(indexes)@ == s,
            Err(e) => r == Err::<(), BmpError>(e),
        },
{
    let c = ih.compression();
    match c {
        BmpCompression::RgbNoCompression | BmpCompression::Bitfields | BmpCompression::AlphaBitfields => {
            let bpp = ih.bits_per_pixel();
            let nopad = unpadded_line_exec(bpp as usize, w);
            let bpl = (nopad / 4 + if nopad % 4 != 0 {
                1usize
            } else {
                0usize
            }) * 4;
            if data.len() % bpl != 0 || data.len() / bpl != h as usize {
                return Err(BmpError::PixelDataIllegalLength);
            }
            proof {
                vstd::arithmetic::div_mod::lemma_fundamental_div_mod(data@.len() as int, bpl as int);
            }
            if bpp == 1 || bpp == 2 || bpp == 4 || bpp == 8 {
                paint_uncompressed(indexes, data, bpl, w, h, ih.height() < 0, bpp as u32);
            } else if bpp == 16 || bpp == 24 || bpp == 32 {
                return Err(BmpError::NotAPalettedBmp);
            } else {
                return Err(BmpError::IllegalBitDepth);
            }
        },
        BmpCompression::RgbRLE8 | BmpCompression::RgbRLE4 => {
            if data.len() % 2 != 0 {
                return Err(BmpError::PixelDataIllegalLength);
            }
            let four = matches!(c, BmpCompression::RgbRLE4);
            match pal_rle_exec(indexes, data, four, w, h) {
                Ok(()) => {},
                Err(_) => return Err(BmpError::PixelDataIllegalRLEContent),
            }
        },
        _ => return Err(BmpError::ParserIncomplete),
    }
    Ok(())
}

impl Palmap<u8, RGBA8888> {
    /// Makes an indexed image from the bytes of a BMP file (see
    /// `spec_palmap_from_bmp`; the palette is the file's, in RGBA).
    #[verifier::spinoff_prover]
    pub fn try_from_bmp_bytes(bytes: &[u8]) -> (r: Result<Palmap<u8, RGBA8888>, BmpError>)
        requires
            palmap_decode_defined(bytes@),
        ensures
            match spec_palmap_from_bmp(bytes@) {
                Ok((w, h, idx, pal)) => r is Ok && r->Ok_0.width == w && r->Ok_0.height == h && r->Ok_0.indexes@
                    == idx && r->Ok_0.palette@ == pal,
                Err(e) => r is Err && r->Err_0 == e,
            },
    {
        let (fh, ih, rest) = match read_file_stage(bytes) {
            Ok(t) => t,
            Err(e) => return Err(e),
        };
        let w = unsigned_abs(ih.width());
        let h = unsigned_abs(ih.height());
        let count: u32 = match w.checked_mul(h) {
            Some(c) => c,
            None => u32::MAX,
        };
        let palette = match read_palette(rest, &ih, true) {
            Ok(p) => p,
            Err(e) => return Err(e),
        };
        if count as usize > isize::MAX as usize {
            return Err(BmpError::AllocError);
        }
        let mut indexes: Vec<u8> = vec![0u8; count as usize];
        assert(indexes@ =~= Seq::new(count as nat, |i: int| 0u8));
        let start = fh.pixel_data_offset as usize;
        let end = start + ih.pixel_data_len();
        if bytes.len() < end {
            return Err(BmpError::InsufficientBytes);
        }
        let data = vstd::slice::slice_subrange(bytes, start, end);
        match decode_indexes(&mut indexes, data, &ih, w, h) {
            Ok(()) => {},
            Err(e) => return Err(e),
        }
        Ok(Palmap { width: w, height: h, indexes, palette })
    }
}

proof fn lemma_paint_row_len(v: Seq<u8>, w: u32, h: u32, y: int, row: Seq<u8>, bpp: int, xs: nat)
    ensures
        paint_row(v, w, h, y, row, bpp, xs).len() == v.len(),
    decreases xs,
{
    if xs > 0 {
        lemma_paint_row_len(v, w, h, y, row, bpp, (xs - 1) as nat);
    }
}

proof fn lemma_paint_rows_len(v: Seq<u8>, data: Seq<u8>, bpl: int, w: u32, h: u32, top_down: bool, bpp: int, rows: nat)
    ensures
        paint_rows(v, data, bpl, w, h, top_down, bpp, rows).len() == v.len(),
    decreases rows,
{
    if rows > 0 {
        let y = rows - 1;
        lemma_paint_rows_len(v, data, bpl, w, h, top_down, bpp, y as nat);
        lemma_paint_row_len(
            paint_rows(v, data, bpl, w, h, top_down, bpp, y as nat),
            w,
            h,
            y,
            stored_row(data, bpl, h as int, top_down, y),
            bpp,
            row_pixels(bpp, w as int, bpl) as nat,
        );
    }
}

proof fn lemma_put_vals_len(v: Seq<u8>, w: u32, h: u32, x: u32, y: u32, vals: Seq<u8>)
    ensures
        put_vals(v, w, h, x, y, vals).len() == v.len(),
    decreases vals.len(),
{
    if vals.len() > 0 {
        lemma_put_vals_len(v, w, h, x, y, vals.drop_last());
    }
}

proof fn lemma_run_len(v: Seq<u8>, w: u32, h: u32, x: u32, y: u32, n: nat, k: nat, c0: u8, c1: u8)
    ensures
        run(v, w, h, x, y, n, k, c0, c1).1.len() == v.len(),
    decreases n,
{
    if n > 0 {
        let c = if k % 2 == 0 {
            c0
        } else {
            c1
        };
        lemma_run_len(put(v, w, h, x, y, c), w, h, next_x(x), y, (n - 1) as nat, k + 1, c0, c1);
    }
}

proof fn lemma_pal_rle_walk_len(d: Seq<u8>, four: bool, p: int, r: u8, x: u32, y: u32, w: u32, h: u32, v: Seq<u8>)
    ensures
        pal_rle_walk(d, four, p, r, x, y, w, h, v) matches Ok(s) ==> s.len() == v.len(),
    decreases d.len() - p,
{
    if !(p < 0 || p + 2 > d.len()) {
        let a = d[p];
        let b = d[p + 1];
        if r > 0 {
            let vals = raw_vals(four, a, b, r);
            if x + vals.len() <= u32::MAX {
                lemma_put_vals_len(v, w, h, x, y, vals);
                lemma_pal_rle_walk_len(
                    d,
                    four,
                    p + 2,
                    sat_sub(r as int, vals.len() as int) as u8,
                    (x + vals.len()) as u32,
                    y,
                    w,
                    h,
                    put_vals(v, w, h, x, y, vals),
                );
            }
        } else if a > 0 {
            let n: nat = if four {
                2 * a as nat
            } else {
                a as nat
            };
            let c0 = if four {
                b >> 4u8
            } else {
                b
            };
            let c1 = if four {
                b & 15u8
            } else {
                b
            };
            if x + n <= u32::MAX {
                lemma_run_len(v, w, h, x, y, n, 0, c0, c1);
                lemma_pal_rle_walk_len(d, four, p + 2, 0, (x + n) as u32, y, w, h, run(v, w, h, x, y, n, 0, c0, c1).1);
            }
        } else if b == 0 {
            lemma_pal_rle_walk_len(d, four, p + 2, 0, 0, sat_sub(y as int, 1) as u32, w, h, v);
        } else if b == 2 {
            if p + 4 <= d.len() && x + d[p + 2] <= u32::MAX {
                lemma_pal_rle_walk_len(
                    d,
                    four,
                    p + 4,
                    0,
                    (x + d[p + 2]) as u32,
                    sat_sub(y as int, d[p + 3] as int) as u32,
                    w,
                    h,
                    v,
                );
            }
        } else if b != 1 {
            lemma_pal_rle_walk_len(d, four, p + 2, b, x, y, w, h, v);
        }
    }
}

/// An indexed image decoded from a BMP file holds exactly `width * height`
/// indexes (saturating at `u32::MAX`).
pub proof fn lemma_palmap_index_count(b: Seq<u8>)
    ensures
        spec_palmap_from_bmp(b) matches Ok((w, h, idx, pal)) ==> idx.len() == pixel_count(w, h),
{
    if let Ok((fh, ih, n)) = file_stage(b) {
        let w = magnitude(ih.spec_width());
        let h = magnitude(ih.spec_height());
        let count = pixel_count(w, h);
        let start = fh.pixel_data_offset as int;
        let end = start + ih.spec_pixel_data_len();
        let init = Seq::new(count as nat, |i: int| 0u8);
        if b.len() >= end && start <= end {
            let data = b.subrange(start, end);
            let bpp = ih.spec_bits_per_pixel() as int;
            let bpl = padded_line(bpp, w as int);
            lemma_paint_rows_len(init, data, bpl, w, h, ih.spec_height() < 0, bpp, h as nat);
            lemma_pal_rle_walk_len(data, ih.spec_compression() == BmpCompression::RgbRLE4, 0, 0, 0, (h - 1) as u32, w, h, init);
        }
    }
}

} // verus!
