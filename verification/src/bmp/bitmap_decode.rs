//! Decoding a whole BMP file through the typed headers into direct colors:
//! palette lookups, BGR triples, and for 16 and 32 bit masked pixels the
//! stored words (scaling masked channels to 8 bits takes floating point,
//! which is left to the caller).
use vstd::prelude::*;
use crate::bmp::headers::{BmpCompression, BmpError, BmpInfoHeader};
use crate::bmp::raw_headers::{le16, le32, read_u16_le, read_u32_le};
use crate::bmp::header_decode::{
    capacity_overflows, file_stage, padded_line, palette_stage, raw_vals, read_file_stage, read_palette, row_index,
    row_pixels, sat_sub, stored_row, unpadded_line, index_at, lemma_row_pixels_bound, row_pixels_exec,
    unpadded_line_exec, RleStop, paint_row, paint_rows, spec_palmap_from_bmp, pixel_count, palmap_pixels,
};
use crate::bmp::paint::put;
use crate::image::spec_xy_index;
use crate::bmp::span_header::{magnitude, saturate, saturating_mul, unsigned_abs};
use crate::image::Bitmap;
use crate::pixel_formats::RGBA8888;

verus! {

/// Transparent black, what a palette index past the palette's end gives.
pub open spec fn transparent_black() -> RGBA8888 {
    RGBA8888 { r: 0, g: 0, b: 0, a: 0 }
}

/// The color of palette index `i`: its entry, or transparent black past the
/// end of the palette.
pub open spec fn pal_color(pal: Seq<RGBA8888>, i: int) -> RGBA8888 {
    if 0 <= i < pal.len() {
        pal[i]
    } else {
        transparent_black()
    }
}

fn pal_color_exec(pal: &Vec<RGBA8888>, i: u8) -> (c: RGBA8888)
    ensures
        c == pal_color(pal@, i as int),
{
    if (i as usize) < pal.len() {
        pal[i as usize]
    } else {
        RGBA8888 { r: 0, g: 0, b: 0, a: 0 }
    }
}

/// The red, green, blue and alpha masks that 16 and 32 bit pixels use when
/// the file gives none: 5-5-5 and 8-8-8 with no alpha.
pub open spec fn default_masks(bits_per_pixel: int) -> Seq<u32> {
    if bits_per_pixel == 16 {
        seq![0x7C00u32, 0x3E0, 0x1F, 0]
    } else if bits_per_pixel == 32 {
        seq![0xFF_0000u32, 0xFF00, 0xFF, 0]
    } else {
        seq![0u32, 0, 0, 0]
    }
}

/// The channel masks, and how many bytes after the info header hold them:
/// three masks for bit fields, four for alpha bit fields
/// (`InsufficientBytes` when they run past the bytes), the defaults
/// otherwise.
pub open spec fn masks_stage(rest: Seq<u8>, ih: BmpInfoHeader) -> Result<(Seq<u32>, int), BmpError> {
    let c = ih.spec_compression();
    if c == BmpCompression::Bitfields {
        if rest.len() < 12 {
            Err(BmpError::InsufficientBytes)
        } else {
            Ok((seq![le32(rest, 0), le32(rest, 4), le32(rest, 8), 0u32], 12))
        }
    } else if c == BmpCompression::AlphaBitfields {
        if rest.len() < 16 {
            Err(BmpError::InsufficientBytes)
        } else {
            Ok((seq![le32(rest, 0), le32(rest, 4), le32(rest, 8), le32(rest, 12)], 16))
        }
    } else {
        Ok((default_masks(ih.spec_bits_per_pixel() as int), 0))
    }
}

fn read_masks(rest: &[u8], ih: &BmpInfoHeader) -> (r: Result<([u32; 4], usize), BmpError>)
    ensures
        match masks_stage(rest@, *ih) {
            Ok((m, k)) => r is Ok && r->Ok_0.0@ == m && r->Ok_0.1 == k,
            Err(e) => r == Err::<([u32; 4], usize), BmpError>(e),
        },
{
    let c = ih.compression();
    let m: [u32; 4];
    let k: usize;
    match c {
        BmpCompression::Bitfields => {
            if rest.len() < 12 {
                return Err(BmpError::InsufficientBytes);
            }
            m = [read_u32_le(rest, 0), read_u32_le(rest, 4), read_u32_le(rest, 8), 0];
            k = 12;
        },
        BmpCompression::AlphaBitfields => {
            if rest.len() < 16 {
                return Err(BmpError::InsufficientBytes);
            }
            m = [read_u32_le(rest, 0), read_u32_le(rest, 4), read_u32_le(rest, 8), read_u32_le(rest, 12)];
            k = 16;
        },
        _ => {
            let bpp = ih.bits_per_pixel();
            m = if bpp == 16 {
                [0x7C00, 0x3E0, 0x1F, 0]
            } else if bpp == 32 {
                [0xFF_0000, 0xFF00, 0xFF, 0]
            } else {
                [0, 0, 0, 0]
            };
            k = 0;
        },
    }
    assert(m@ =~= masks_stage(rest@, *ih)->Ok_0.0);
    Ok((m, k))
}

/// Writing `c` at index `i` when it is in the buffer.
pub open spec fn set_in<T>(px: Seq<T>, i: int, c: T) -> Seq<T> {
    if 0 <= i < px.len() {
        px.update(i, c)
    } else {
        px
    }
}

/// The color of pixel `x` of a stored row: a BGR triple at 24 bits per
/// pixel, otherwise the palette color of its index.
pub open spec fn row_color(row: Seq<u8>, x: int, bpp: int, pal: Seq<RGBA8888>) -> RGBA8888 {
    if bpp == 24 {
        RGBA8888 { r: row[3 * x + 2], g: row[3 * x + 1], b: row[3 * x], a: 255 }
    } else {
        pal_color(pal, row_index(row, x, bpp) as int)
    }
}

/// How many pixels of each row are written: at 24 bits per pixel the whole
/// triples of the unpadded row, otherwise as for indexes.
pub open spec fn color_row_pixels(bpp: int, w: int, bpl: int) -> int {
    if bpp == 24 {
        unpadded_line(24, w) / 3
    } else {
        row_pixels(bpp, w, bpl)
    }
}

/// Writing the first `xs` colors of `row` into row `y` of a `w` wide image.
pub open spec fn color_row(
    px: Seq<RGBA8888>,
    w: int,
    y: int,
    row: Seq<u8>,
    bpp: int,
    pal: Seq<RGBA8888>,
    xs: nat,
) -> Seq<RGBA8888>
    decreases xs,
{
    if xs == 0 {
        px
    } else {
        let x = xs - 1;
        set_in(color_row(px, w, y, row, bpp, pal, x as nat), y * w + x, row_color(row, x, bpp, pal))
    }
}

/// Writing the first `rows` rows of uncompressed colors.
pub open spec fn color_rows(
    px: Seq<RGBA8888>,
    data: Seq<u8>,
    bpl: int,
    w: int,
    h: int,
    top_down: bool,
    bpp: int,
    pal: Seq<RGBA8888>,
    rows: nat,
) -> Seq<RGBA8888>
    decreases rows,
{
    if rows == 0 {
        px
    } else {
        let y = rows - 1;
        color_row(
            color_rows(px, data, bpl, w, h, top_down, bpp, pal, y as nat),
            w,
            y,
            stored_row(data, bpl, h, top_down, y),
            bpp,
            pal,
            color_row_pixels(bpp, w, bpl) as nat,
        )
    }
}

/// The stored word of pixel `x` of a 16 or 32 bit row.
pub open spec fn row_word(row: Seq<u8>, x: int, bpp: int) -> u32 {
    if bpp == 16 {
        le16(row, 2 * x) as u32
    } else {
        le32(row, 4 * x)
    }
}

/// How many words of each 16 or 32 bit row are read: the whole words of the
/// unpadded row.
pub open spec fn word_row_pixels(bpp: int, w: int) -> int {
    unpadded_line(bpp, w) / (bpp / 8)
}

/// Writing the first `xs` words of `row` into row `y` of a `w` wide image.
pub open spec fn word_row(words: Seq<u32>, w: int, y: int, row: Seq<u8>, bpp: int, xs: nat) -> Seq<u32>
    decreases xs,
{
    if xs == 0 {
        words
    } else {
        let x = xs - 1;
        set_in(word_row(words, w, y, row, bpp, x as nat), y * w + x, row_word(row, x, bpp))
    }
}

/// Writing the first `rows` rows of 16 or 32 bit words.
pub open spec fn word_rows(
    words: Seq<u32>,
    data: Seq<u8>,
    bpl: int,
    w: int,
    h: int,
    top_down: bool,
    bpp: int,
    rows: nat,
) -> Seq<u32>
    decreases rows,
{
    if rows == 0 {
        words
    } else {
        let y = rows - 1;
        word_row(
            word_rows(words, data, bpl, w, h, top_down, bpp, y as nat),
            w,
            y,
            stored_row(data, bpl, h, top_down, y),
            bpp,
            word_row_pixels(bpp, w) as nat,
        )
    }
}

proof fn lemma_cell_in_grid(x: int, y: int, w: int, h: int)
    requires
        0 <= x < w,
        0 <= y < h,
    ensures
        0 <= y * w + x < w * h,
        y * w + x + 1 <= w * h,
{
    assert(0 <= y * w + x < w * h && y * w + x + 1 <= w * h) by (nonlinear_arith)
        requires
            0 <= x < w,
            0 <= y < h,
    ;
}

proof fn lemma_row_slice(k: int, bpl: int, h: int)
    requires
        0 <= k < h,
        0 <= bpl,
    ensures
        0 <= k * bpl,
        k * bpl + bpl <= h * bpl,
        k * bpl + bpl == (k + 1) * bpl,
{
    assert(0 <= k * bpl && k * bpl + bpl <= h * bpl && k * bpl + bpl == (k + 1) * bpl) by (nonlinear_arith)
        requires
            0 <= k < h,
            0 <= bpl,
    ;
}

fn color_row_pixels_exec(bpp: u32, w: u32, bpl: usize) -> (n: usize)
    requires
        bpp == 1 || bpp == 2 || bpp == 4 || bpp == 8 || bpp == 24,
    ensures
        n == color_row_pixels(bpp as int, w as int, bpl as int),
{
    if bpp == 24 {
        unpadded_line_exec(24, w) / 3
    } else {
        row_pixels_exec(bpp, w, bpl)
    }
}

proof fn lemma_color_row_pixels_bound(bpp: int, w: int, bpl: int)
    requires
        bpp == 1 || bpp == 2 || bpp == 4 || bpp == 8 || bpp == 24,
        0 <= w,
        0 <= bpl,
        bpl >= unpadded_line(bpp, w),
    ensures
        0 <= color_row_pixels(bpp, w, bpl) <= w,
        bpp == 24 ==> 3 * color_row_pixels(bpp, w, bpl) <= bpl,
        bpp != 24 ==> color_row_pixels(bpp, w, bpl) <= bpl * (8int / bpp),
{
    if bpp == 24 {
        let s = saturate(24 * w);
        assert(0 <= s <= 24 * w);
        let n = unpadded_line(24, w);
        assert(n <= 3 * w && 0 <= n) by (nonlinear_arith)
            requires
                0 <= s <= 24 * w,
                n == s / 8 + if s % 8 != 0 {
                    1int
                } else {
                    0int
                },
        ;
        assert(n / 3 <= w && 3 * (n / 3) <= n) by (nonlinear_arith)
            requires
                0 <= n <= 3 * w,
        ;
    } else {
        lemma_row_pixels_bound(bpp, w, bpl);
    }
}

fn color_at(row: &[u8], x: usize, bpp: u32, pal: &Vec<RGBA8888>) -> (c: RGBA8888)
    requires
        bpp == 1 || bpp == 2 || bpp == 4 || bpp == 8 || bpp == 24,
        bpp == 24 ==> 3 * x + 3 <= row@.len(),
        bpp != 24 ==> x < row@.len() * (8int / bpp as int),
        x <= u32::MAX,
    ensures
        c == row_color(row@, x as int, bpp as int, pal@),
{
    if bpp == 24 {
        let n = row.len();
        assert(n == row@.len());
        RGBA8888 { r: row[3 * x + 2], g: row[3 * x + 1], b: row[3 * x], a: 255 }
    } else {
        pal_color_exec(pal, index_at(row, x as u32, bpp))
    }
}

fn paint_color_rows(
    px: &mut Vec<RGBA8888>,
    data: &[u8],
    bpl: usize,
    w: u32,
    h: u32,
    top_down: bool,
    bpp: u32,
    pal: &Vec<RGBA8888>,
)
    requires
        bpp == 1 || bpp == 2 || bpp == 4 || bpp == 8 || bpp == 24,
        data@.len() == h * bpl,
        bpl >= unpadded_line(bpp as int, w as int),
        old(px)@.len() == w * h,
    ensures
        final(px)@ == color_rows(old(px)@, data@, bpl as int, w as int, h as int, top_down, bpp as int, pal@, h as nat),
{
    let xs = color_row_pixels_exec(bpp, w, bpl);
    proof {
        lemma_color_row_pixels_bound(bpp as int, w as int, bpl as int);
    }
    let mut y: u32 = 0;
    while y < h
        invariant
            y <= h,
            bpp == 1 || bpp == 2 || bpp == 4 || bpp == 8 || bpp == 24,
            data@.len() == h * bpl,
            xs == color_row_pixels(bpp as int, w as int, bpl as int),
            xs <= w,
            bpp == 24 ==> 3 * xs <= bpl,
            bpp != 24 ==> xs <= bpl * (8int / bpp as int),
            px@.len() == w * h,
            px@ == color_rows(old(px)@, data@, bpl as int, w as int, h as int, top_down, bpp as int, pal@, y as nat),
        decreases h - y,
    {
        let k: usize = if top_down {
            y as usize
        } else {
            (h - 1 - y) as usize
        };
        proof {
            lemma_row_slice(k as int, bpl as int, h as int);
            assert(data@.len() == data.len());
        }
        let start = k * bpl;
        let row = vstd::slice::slice_subrange(data, start, start + bpl);
        assert(row@ == stored_row(data@, bpl as int, h as int, top_down, y as int));
        let ghost before = px@;
        let mut x: usize = 0;
        while x < xs
            invariant
                x <= xs,
                xs <= w,
                y < h,
                bpp == 1 || bpp == 2 || bpp == 4 || bpp == 8 || bpp == 24,
                bpp == 24 ==> 3 * xs <= bpl,
                bpp != 24 ==> xs <= bpl * (8int / bpp as int),
                row@.len() == bpl,
                px@.len() == w * h,
                px@ == color_row(before, w as int, y as int, row@, bpp as int, pal@, x as nat),
            decreases xs - x,
        {
            let c = color_at(row, x, bpp, pal);
            proof {
                lemma_cell_in_grid(x as int, y as int, w as int, h as int);
            }
            let len = px.len();
            assert(len == w * h);
            let i = (y as usize) * (w as usize) + x;
            px.set(i, c);
            x = x + 1;
        }
        y = y + 1;
    }
}

fn word_at(row: &[u8], x: usize, bpp: u32) -> (v: u32)
    requires
        bpp == 16 || bpp == 32,
        (bpp / 8) * x + bpp / 8 <= row@.len(),
    ensures
        v == row_word(row@, x as int, bpp as int),
{
    let n = row.len();
    assert(n == row@.len());
    if bpp == 16 {
        read_u16_le(row, 2 * x) as u32
    } else {
        read_u32_le(row, 4 * x)
    }
}

proof fn lemma_word_row_pixels_bound(bpp: int, w: int, bpl: int)
    requires
        bpp == 16 || bpp == 32,
        0 <= w,
        bpl >= unpadded_line(bpp, w),
    ensures
        0 <= word_row_pixels(bpp, w) <= w,
        (bpp / 8) * word_row_pixels(bpp, w) <= bpl,
{
    let s = saturate(bpp * w);
    assert(0 <= s <= bpp * w) by (nonlinear_arith)
        requires
            0 <= w,
            bpp == 16 || bpp == 32,
            s == saturate(bpp * w),
    ;
    let n = unpadded_line(bpp, w);
    let k = bpp / 8;
    assert(n <= k * w && 0 <= n) by (nonlinear_arith)
        requires
            0 <= s <= bpp * w,
            k == bpp / 8,
            bpp == 16 || bpp == 32,
            n == s / 8 + if s % 8 != 0 {
                1int
            } else {
                0int
            },
    ;
    assert(n / k <= w && k * (n / k) <= n && 0 <= n / k) by (nonlinear_arith)
        requires
            0 <= n <= k * w,
            k == 2 || k == 4,
    ;
}

fn paint_word_rows(words: &mut Vec<u32>, data: &[u8], bpl: usize, w: u32, h: u32, top_down: bool, bpp: u32) -> (xs: usize)
    requires
        bpp == 16 || bpp == 32,
        data@.len() == h * bpl,
        bpl >= unpadded_line(bpp as int, w as int),
        old(words)@.len() == w * h,
    ensures
        final(words)@ == word_rows(old(words)@, data@, bpl as int, w as int, h as int, top_down, bpp as int, h as nat),
        xs == word_row_pixels(bpp as int, w as int),
{
    let xs = unpadded_line_exec(bpp as usize, w) / ((bpp / 8) as usize);
    proof {
        lemma_word_row_pixels_bound(bpp as int, w as int, bpl as int);
    }
    let mut y: u32 = 0;
    while y < h
        invariant
            y <= h,
            bpp == 16 || bpp == 32,
            data@.len() == h * bpl,
            xs == word_row_pixels(bpp as int, w as int),
            xs <= w,
            (bpp / 8) * xs <= bpl,
            words@.len() == w * h,
            words@ == word_rows(old(words)@, data@, bpl as int, w as int, h as int, top_down, bpp as int, y as nat),
        decreases h - y,
    {
        let k: usize = if top_down {
            y as usize
        } else {
            (h - 1 - y) as usize
        };
        proof {
            lemma_row_slice(k as int, bpl as int, h as int);
            assert(data@.len() == data.len());
        }
        let start = k * bpl;
        let row = vstd::slice::slice_subrange(data, start, start + bpl);
        assert(row@ == stored_row(data@, bpl as int, h as int, top_down, y as int));
        let ghost before = words@;
        let mut x: usize = 0;
        while x < xs
            invariant
                x <= xs,
                xs <= w,
                y < h,
                bpp == 16 || bpp == 32,
                (bpp / 8) * xs <= bpl,
                row@.len() == bpl,
                words@.len() == w * h,
                words@ == word_row(before, w as int, y as int, row@, bpp as int, x as nat),
            decreases xs - x,
        {
            proof {
                assert((bpp / 8) * x + bpp / 8 <= (bpp / 8) * xs) by (nonlinear_arith)
                    requires
                        x < xs,
                        bpp == 16 || bpp == 32,
                ;
                lemma_cell_in_grid(x as int, y as int, w as int, h as int);
            }
            let v = word_at(row, x, bpp);
            let len = words.len();
            assert(len == w * h);
            let i = (y as usize) * (w as usize) + x;
            words.set(i, v);
            x = x + 1;
        }
        y = y + 1;
    }
    xs
}

/// Filling indexes `i..end` of `px`, alternating `c0` and `c1` from `c0`.
pub open spec fn fill_run(px: Seq<RGBA8888>, i: int, end: int, c0: RGBA8888, c1: RGBA8888) -> Seq<RGBA8888> {
    Seq::new(
        px.len(),
        |k: int|
            if i <= k < end {
                if (k - i) % 2 == 0 {
                    c0
                } else {
                    c1
                }
            } else {
                px[k]
            },
    )
}

/// Writing `vals` at consecutive indexes from `start`, each only when it is
/// in the buffer.
pub open spec fn set_vals(px: Seq<RGBA8888>, start: int, vals: Seq<RGBA8888>) -> Seq<RGBA8888>
    decreases vals.len(),
{
    if vals.len() == 0 {
        px
    } else {
        set_in(set_vals(px, start, vals.drop_last()), start + vals.len() - 1, vals.last())
    }
}

/// Walking run-length encoded palette indexes into colors (`four`: 4 bits
/// per pixel) from byte `p`, with `r` values of a raw run left, at column
/// `x` of row `y` of a `w` by `h` image; a pixel's index in the buffer is
/// `y * w + x`. A pair `count, c` with a nonzero count fills `count` buffer
/// places from the current one (alternating the colors of the two nibbles at
/// 4 bits), stopping at the end of the buffer, and moves right by `count`;
/// the escapes are as for indexes (`0, 0` end of line, `0, 1` end of bitmap,
/// `0, 2` move right and up, `0, n` raw run of `n` values, each written only
/// inside the buffer).
pub open spec fn bmp_rle_walk(
    d: Seq<u8>,
    four: bool,
    pal: Seq<RGBA8888>,
    p: int,
    r: u8,
    x: int,
    y: int,
    w: int,
    h: int,
    px: Seq<RGBA8888>,
) -> Result<Seq<RGBA8888>, RleStop>
    decreases d.len() - p,
{
    if p < 0 || p + 2 > d.len() {
        if r > 0 {
            Err(RleStop::BadContent)
        } else {
            Ok(px)
        }
    } else {
        let a = d[p];
        let b = d[p + 1];
        if r > 0 {
            let vals = raw_vals(four, a, b, r);
            let n = vals.len() as int;
            if y * w + x + n - 1 > usize::MAX || x + n > usize::MAX {
                Err(RleStop::Overflow)
            } else {
                bmp_rle_walk(
                    d,
                    four,
                    pal,
                    p + 2,
                    sat_sub(r as int, n) as u8,
                    x + n,
                    y,
                    w,
                    h,
                    set_vals(px, y * w + x, vals.map_values(|v: u8| pal_color(pal, v as int))),
                )
            }
        } else if a > 0 {
            let i = y * w + x;
            if i + a > usize::MAX || x + a > usize::MAX {
                Err(RleStop::Overflow)
            } else if (four && x >= w) || i > px.len() {
                Err(RleStop::OutOfBounds)
            } else {
                let end = if i + a <= px.len() {
                    i + a
                } else {
                    px.len() as int
                };
                let c0 = if four {
                    pal_color(pal, (b >> 4u8) as int)
                } else {
                    pal_color(pal, b as int)
                };
                let c1 = if four {
                    pal_color(pal, (b & 15u8) as int)
                } else {
                    pal_color(pal, b as int)
                };
                bmp_rle_walk(d, four, pal, p + 2, 0, x + a, y, w, h, fill_run(px, i, end, c0, c1))
            }
        } else if b == 0 {
            bmp_rle_walk(d, four, pal, p + 2, 0, 0, sat_sub(y, 1), w, h, px)
        } else if b == 1 {
            Ok(px)
        } else if b == 2 {
            if p + 4 > d.len() {
                Err(RleStop::BadContent)
            } else if x + d[p + 2] > usize::MAX {
                Err(RleStop::Overflow)
            } else {
                bmp_rle_walk(d, four, pal, p + 4, 0, x + d[p + 2], sat_sub(y, d[p + 3] as int), w, h, px)
            }
        } else {
            bmp_rle_walk(d, four, pal, p + 2, b, x, y, w, h, px)
        }
    }
}

fn fill_run_exec(px: &mut Vec<RGBA8888>, i: usize, end: usize, c0: RGBA8888, c1: RGBA8888)
    requires
        i <= end <= old(px)@.len(),
    ensures
        final(px)@ == fill_run(old(px)@, i as int, end as int, c0, c1),
{
    let mut k = i;
    while k < end
        invariant
            i <= k <= end,
            end <= px@.len(),
            px@ =~= fill_run(old(px)@, i as int, k as int, c0, c1),
        decreases end - k,
    {
        let c = if (k - i) % 2 == 0 {
            c0
        } else {
            c1
        };
        px.set(k, c);
        k = k + 1;
    }
}

fn set_vals_exec(px: &mut Vec<RGBA8888>, start: usize, vals: &[u8], pal: &Vec<RGBA8888>)
    requires
        start + vals@.len() <= usize::MAX + 1,
    ensures
        final(px)@ == set_vals(old(px)@, start as int, vals@.map_values(|v: u8| pal_color(pal@, v as int))),
{
    let ghost colors = vals@.map_values(|v: u8| pal_color(pal@, v as int));
    let mut k: usize = 0;
    assert(colors.take(0) =~= Seq::<RGBA8888>::empty());
    while k < vals.len()
        invariant
            k <= vals@.len(),
            start + vals@.len() <= usize::MAX + 1,
            colors == vals@.map_values(|v: u8| pal_color(pal@, v as int)),
            px@ == set_vals(old(px)@, start as int, colors.take(k as int)),
        decreases vals@.len() - k,
    {
        let c = pal_color_exec(pal, vals[k]);
        let idx = start + k;
        if idx < px.len() {
            px.set(idx, c);
        }
        assert(colors.take(k + 1).drop_last() =~= colors.take(k as int));
        k = k + 1;
    }
    assert(colors.take(vals@.len() as int) =~= colors);
}

fn bmp_rle_exec(px: &mut Vec<RGBA8888>, d: &[u8], four: bool, pal: &Vec<RGBA8888>, w: usize, h: usize) -> (r: Result<(), RleStop>)
    requires
        h > 0,
    ensures
        match bmp_rle_walk(d@, four, pal@, 0, 0, 0, h - 1, w as int, h as int, old(px)@) {
            Ok(s) => r is Ok && final(px)@ == s,
            Err(e) => r == Err::<(), RleStop>(e),
        },
{
    let mut p: usize = 0;
    let mut r: u8 = 0;
    let mut x: usize = 0;
    let mut y: usize = h - 1;
    loop
        invariant
            p <= d@.len(),
            y < h,
            bmp_rle_walk(d@, four, pal@, 0, 0, 0, h - 1, w as int, h as int, old(px)@) == bmp_rle_walk(
                d@,
                four,
                pal@,
                p as int,
                r,
                x as int,
                y as int,
                w as int,
                h as int,
                px@,
            ),
        decreases d@.len() - p,
    {
        if d.len() - p < 2 {
            if r > 0 {
                return Err(RleStop::BadContent);
            } else {
                return Ok(());
            }
        }
        let a = d[p];
        let b = d[p + 1];
        if r > 0 {
            let arr: [u8; 4] = if four {
                [a >> 4, a & 15, b >> 4, b & 15]
            } else {
                [a, b, 0, 0]
            };
            let m: usize = if four {
                if r >= 4 {
                    4
                } else {
                    r as usize
                }
            } else if r >= 2 {
                2
            } else {
                1
            };
            let vals = vstd::slice::slice_subrange(arr.as_slice(), 0, m);
            assert(vals@ =~= raw_vals(four, a, b, r));
            let row_start = match y.checked_mul(w) {
                Some(v) => v,
                None => return Err(RleStop::Overflow),
            };
            if row_start > usize::MAX - x || row_start + x > usize::MAX - (m - 1) || x > usize::MAX - m {
                return Err(RleStop::Overflow);
            }
            set_vals_exec(px, row_start + x, vals, pal);
            x = x + m;
            r = if r >= m as u8 {
                r - m as u8
            } else {
                0
            };
            p = p + 2;
        } else if a > 0 {
            let row_start = match y.checked_mul(w) {
                Some(v) => v,
                None => return Err(RleStop::Overflow),
            };
            if row_start > usize::MAX - x || row_start + x > usize::MAX - (a as usize) || x > usize::MAX - (a as usize) {
                return Err(RleStop::Overflow);
            }
            let i = row_start + x;
            if (four && x >= w) || i > px.len() {
                return Err(RleStop::OutOfBounds);
            }
            let end = if i + (a as usize) <= px.len() {
                i + a as usize
            } else {
                px.len()
            };
            let c0 = if four {
                pal_color_exec(pal, b >> 4)
            } else {
                pal_color_exec(pal, b)
            };
            let c1 = if four {
                pal_color_exec(pal, b & 15)
            } else {
                pal_color_exec(pal, b)
            };
            fill_run_exec(px, i, end, c0, c1);
            x = x + a as usize;
            p = p + 2;
        } else if b == 0 {
            x = 0;
            y = if y >= 1 {
                y - 1
            } else {
                0
            };
            p = p + 2;
        } else if b == 1 {
            return Ok(());
        } else if b == 2 {
            if d.len() - p < 4 {
                return Err(RleStop::BadContent);
            }
            let dr = d[p + 2];
            let du = d[p + 3];
            if x > usize::MAX - (dr as usize) {
                return Err(RleStop::Overflow);
            }
            x = x + dr as usize;
            y = if y >= du as usize {
                y - du as usize
            } else {
                0
            };
            p = p + 4;
        } else {
            r = b;
            p = p + 2;
        }
    }
}

/// Opaque black, the background of images without an alpha mask.
pub open spec fn opaque_black() -> RGBA8888 {
    RGBA8888 { r: 0, g: 0, b: 0, a: 255 }
}

/// What a BMP file decodes to as direct colors.
#[derive(Debug, Clone)]
pub enum BmpBitmap {
    /// The finished image.
    Colors(Bitmap<RGBA8888>),
    /// A 16 or 32 bit image with channel masks, whose colors come from
    /// scaling each masked channel to 8 bits: the stored word of each pixel
    /// in image order (`width * height` of them, the first `row_pixels` of
    /// each row read from the file, 0 elsewhere), the red, green, blue and
    /// alpha masks, and the color of pixels that no word was read for.
    Masked {
        width: u32,
        height: u32,
        bits_per_pixel: u16,
        words: Vec<u32>,
        masks: [u32; 4],
        row_pixels: usize,
        background: RGBA8888,
    },
}

/// The colors the pixel data gives, starting from `init`, or for 16 and 32
/// bits per pixel the stored words (with how many per row) and bit depth:
/// uncompressed rows (`PixelDataIllegalLength` unless the data is exactly
/// `h` padded rows, `IllegalBitDepth` for a depth other than 1, 2, 4, 8, 16,
/// 24 or 32), or a run-length walk from the bottom row
/// (`PixelDataIllegalLength` for an odd length,
/// `PixelDataIllegalRLEContent` when the data ends too early);
/// `ParserIncomplete` for the other compressions.
pub open spec fn bitmap_pixels(
    data: Seq<u8>,
    ih: BmpInfoHeader,
    w: u32,
    h: u32,
    pal: Seq<RGBA8888>,
    init: Seq<RGBA8888>,
) -> Result<(Seq<RGBA8888>, Option<(Seq<u32>, nat, u16)>), BmpError> {
    let c = ih.spec_compression();
    if c == BmpCompression::RgbNoCompression || c == BmpCompression::Bitfields || c
        == BmpCompression::AlphaBitfields {
        let bpp = ih.spec_bits_per_pixel() as int;
        let bpl = padded_line(bpp, w as int);
        let top_down = ih.spec_height() < 0;
        if data.len() as int % bpl != 0 || data.len() as int / bpl != h {
            Err(BmpError::PixelDataIllegalLength)
        } else if bpp == 1 || bpp == 2 || bpp == 4 || bpp == 8 || bpp == 24 {
            Ok((color_rows(init, data, bpl, w as int, h as int, top_down, bpp, pal, h as nat), None))
        } else if bpp == 16 || bpp == 32 {
            Ok(
                (
                    init,
                    Some(
                        (
                            word_rows(
                                Seq::new(init.len(), |i: int| 0u32),
                                data,
                                bpl,
                                w as int,
                                h as int,
                                top_down,
                                bpp,
                                h as nat,
                            ),
                            word_row_pixels(bpp, w as int) as nat,
                            bpp as u16,
                        ),
                    ),
                ),
            )
        } else {
            Err(BmpError::IllegalBitDepth)
        }
    } else if c == BmpCompression::RgbRLE8 || c == BmpCompression::RgbRLE4 {
        if data.len() % 2 != 0 {
            Err(BmpError::PixelDataIllegalLength)
        } else {
            match bmp_rle_walk(data, c == BmpCompression::RgbRLE4, pal, 0, 0, 0, h - 1, w as int, h as int, init) {
                Ok(s) => Ok((s, None)),
                Err(_) => Err(BmpError::PixelDataIllegalRLEContent),
            }
        }
    } else {
        Err(BmpError::ParserIncomplete)
    }
}

/// The pixel data decodes without a fault: no row length of 0 bytes, and
/// for rows at a known depth a pixel count that fits in `usize` and rows
/// that split into whole triples (24 bits) or words (16 and 32 bits); for
/// run-length data a nonempty image and a walk without `Overflow` or
/// `OutOfBounds`.
pub open spec fn bitmap_pixels_defined(
    data: Seq<u8>,
    ih: BmpInfoHeader,
    w: u32,
    h: u32,
    pal: Seq<RGBA8888>,
    init: Seq<RGBA8888>,
) -> bool {
    let c = ih.spec_compression();
    if c == BmpCompression::RgbNoCompression || c == BmpCompression::Bitfields || c
        == BmpCompression::AlphaBitfields {
        let bpp = ih.spec_bits_per_pixel() as int;
        let bpl = padded_line(bpp, w as int);
        let n = unpadded_line(bpp, w as int);
        &&& bpl != 0
        &&& (data.len() as int % bpl == 0 && data.len() as int / bpl == h && (bpp == 1 || bpp == 2 || bpp == 4
            || bpp == 8 || bpp == 16 || bpp == 24 || bpp == 32)) ==> {
            &&& w * h <= usize::MAX
            &&& h > 0 && bpp == 24 ==> n % 3 == 0
            &&& h > 0 && bpp == 16 ==> n % 2 == 0
            &&& h > 0 && bpp == 32 ==> n % 4 == 0
        }
    } else if c == BmpCompression::RgbRLE8 || c == BmpCompression::RgbRLE4 {
        data.len() % 2 == 0 ==> {
            &&& h > 0
            &&& !(bmp_rle_walk(data, c == BmpCompression::RgbRLE4, pal, 0, 0, 0, h - 1, w as int, h as int, init) matches Err(
                e,
            ) && e != RleStop::BadContent)
        }
    } else {
        true
    }
}

/// What a BMP file decodes to as direct colors: width, height, the colors
/// (the background for masked images), for a masked image its words, row
/// length and depth, the channel masks, and the background. After the
/// headers: the masks, `AllocError` when the pixels cannot be reserved, the
/// palette after the masks, `InsufficientBytes` when the pixel data runs
/// past the end of the file, then what the pixel data gives. The background
/// is transparent black when there is an alpha mask, opaque black otherwise.
pub open spec fn spec_bitmap_from_bmp(b: Seq<u8>) -> Result<
    (u32, u32, Seq<RGBA8888>, Option<(Seq<u32>, nat, u16)>, Seq<u32>, RGBA8888),
    BmpError,
> {
    match file_stage(b) {
        Err(e) => Err(e),
        Ok((fh, ih, n)) => {
            let rest = b.subrange(n, b.len() as int);
            let w = magnitude(ih.spec_width());
            let h = magnitude(ih.spec_height());
            let count = saturate(w * h);
            match masks_stage(rest, ih) {
                Err(e) => Err(e),
                Ok((masks, m)) => if capacity_overflows(count, 4) {
                    Err(BmpError::AllocError)
                } else {
                    let bg = if masks[3] != 0 {
                        transparent_black()
                    } else {
                        opaque_black()
                    };
                    let init = Seq::new(count as nat, |i: int| bg);
                    match palette_stage(rest.subrange(m, rest.len() as int), ih, false) {
                        Err(e) => Err(e),
                        Ok(pal) => {
                            let start = fh.pixel_data_offset as int;
                            let end = start + ih.spec_pixel_data_len();
                            if b.len() < end {
                                Err(BmpError::InsufficientBytes)
                            } else {
                                match bitmap_pixels(b.subrange(start, end), ih, w, h, pal, init) {
                                    Err(e) => Err(e),
                                    Ok((px, words)) => Ok((w, h, px, words, masks, bg)),
                                }
                            }
                        },
                    }
                },
            }
        },
    }
}

/// A file decodes to direct colors without a fault: a core header's bit
/// depth is below the width of `usize`, the pixel data's end fits in
/// `usize`, and the pixel data decodes (see `bitmap_pixels_defined`).
pub open spec fn bitmap_decode_defined(b: Seq<u8>) -> bool {
    match file_stage(b) {
        Err(_) => true,
        Ok((fh, ih, n)) => {
            let rest = b.subrange(n, b.len() as int);
            let w = magnitude(ih.spec_width());
            let h = magnitude(ih.spec_height());
            let count = saturate(w * h);
            match masks_stage(rest, ih) {
                Err(_) => true,
                Ok((masks, m)) => !capacity_overflows(count, 4) ==> {
                    let bg = if masks[3] != 0 {
                        transparent_black()
                    } else {
                        opaque_black()
                    };
                    let init = Seq::new(count as nat, |i: int| bg);
                    let start = fh.pixel_data_offset as int;
                    let end = start + ih.spec_pixel_data_len();
                    &&& ih is Core ==> ih->Core_0.bits_per_pixel < usize::BITS
                    &&& palette_stage(rest.subrange(m, rest.len() as int), ih, false) matches Ok(pal) ==> {
                        &&& end <= usize::MAX
                        &&& b.len() >= end ==> bitmap_pixels_defined(b.subrange(start, end), ih, w, h, pal, init)
                    }
                },
            }
        },
    }
}

#[verifier::spinoff_prover]
fn decode_colors(
    px: &mut Vec<RGBA8888>,
    data: &[u8],
    ih: &BmpInfoHeader,
    w: u32,
    h: u32,
    pal: &Vec<RGBA8888>,
) -> (r: Result<Option<(Vec<u32>, usize, u16)>, BmpError>)
    requires
        w == magnitude(ih.spec_width()),
        h == magnitude(ih.spec_height()),
        old(px)@.len() == saturate(w * h),
        bitmap_pixels_defined(data@, *ih, w, h, pal@, old(px)@),
    ensures
        match bitmap_pixels(data@, *ih, w, h, pal@, old(px)@) {
            Ok((s, None)) => r == Ok::<Option<(Vec<u32>, usize, u16)>, BmpError>(None) && final(px)@ == s,
            Ok((s, Some((ws, xs, bpp)))) => r is Ok && r->Ok_0 is Some && r->Ok_0->Some_0.0@ == ws
                && r->Ok_0->Some_0.1 == xs && r->Ok_0->Some_0.2 == bpp && final(px)@ == s,
            Err(e) => r == Err::<Option<(Vec<u32>, usize, u16)>, BmpError>(e),
        },
{
    let c = ih.compression();
    match c {
        BmpCompression::RgbNoCompression | BmpCompression::Bitfields | BmpCompression::AlphaBitfields => {
            let bpp = ih.bits_per_pixel();
            let nopad = unpadded_line_exec(bpp as usize, w);
            let bpl = (nopad / 4 + if nopad % 4 != 0 {
                1usize
            } else {
                0usize
            }) * 4;
            if data.len() % bpl != 0 || data.len() / bpl != h as usize {
                return Err(BmpError::PixelDataIllegalLength);
            }
            proof {
                vstd::arithmetic::div_mod::lemma_fundamental_div_mod(data@.len() as int, bpl as int);
            }
            let top_down = ih.height() < 0;
            if bpp == 1 || bpp == 2 || bpp == 4 || bpp == 8 || bpp == 24 {
                paint_color_rows(px, data, bpl, w, h, top_down, bpp as u32, pal);
                Ok(None)
            } else if bpp == 16 || bpp == 32 {
                let mut words: Vec<u32> = vec![0u32; px.len()];
                assert(words@ =~= Seq::new(old(px)@.len(), |i: int| 0u32));
                let xs = paint_word_rows(&mut words, data, bpl, w, h, top_down, bpp as u32);
                Ok(Some((words, xs, bpp)))
            } else {
                Err(BmpError::IllegalBitDepth)
            }
        },
        BmpCompression::RgbRLE8 | BmpCompression::RgbRLE4 => {
            if data.len() % 2 != 0 {
                return Err(BmpError::PixelDataIllegalLength);
            }
            let four = matches!(c, BmpCompression::RgbRLE4);
            match bmp_rle_exec(px, data, four, pal, w as usize, h as usize) {
                Ok(()) => Ok(None),
                Err(_) => Err(BmpError::PixelDataIllegalRLEContent),
            }
        },
        _ => Err(BmpError::ParserIncomplete),
    }
}

impl Bitmap<RGBA8888> {
    /// Decodes the bytes of a BMP file into direct colors (see
    /// `spec_bitmap_from_bmp`); 16 and 32 bit images come back as their
    /// stored words and masks.
    #[verifier::spinoff_prover]
    pub fn try_from_bmp_bytes(bytes: &[u8]) -> (r: Result<BmpBitmap, BmpError>)
        requires
            bitmap_decode_defined(bytes@),
        ensures
            match spec_bitmap_from_bmp(bytes@) {
                Err(e) => r is Err && r->Err_0 == e,
                Ok((w, h, px, None, masks, bg)) => r is Ok && r->Ok_0 is Colors && r->Ok_0->Colors_0.width == w
                    && r->Ok_0->Colors_0.height == h && r->Ok_0->Colors_0.pixels@ == px,
                Ok((w, h, px, Some((ws, xs, bpp)), masks, bg)) => r is Ok && r->Ok_0 is Masked && r->Ok_0->width
                    == w && r->Ok_0->height == h && r->Ok_0->bits_per_pixel == bpp && r->Ok_0->words@ == ws
                    && r->Ok_0->row_pixels == xs && r->Ok_0->masks@ == masks && r->Ok_0->background == bg,
            },
    {
        let (fh, ih, rest) = match read_file_stage(bytes) {
            Ok(t) => t,
            Err(e) => return Err(e),
        };
        let w = unsigned_abs(ih.width());
        let h = unsigned_abs(ih.height());
        let count = saturating_mul(w as usize, h as usize);
        let (masks, m) = match read_masks(rest, &ih) {
            Ok(t) => t,
            Err(e) => return Err(e),
        };
        if count > (isize::MAX as usize) / 4 {
            return Err(BmpError::AllocError);
        }
        let background = if masks[3] != 0 {
            RGBA8888 { r: 0, g: 0, b: 0, a: 0 }
        } else {
            RGBA8888 { r: 0, g: 0, b: 0, a: 255 }
        };
        let mut pixels: Vec<RGBA8888> = vec![background; count];
        assert(pixels@ =~= Seq::new(count as nat, |i: int| background));
        let rest2 = vstd::slice::slice_subrange(rest, m, rest.len());
        let palette = match read_palette(rest2, &ih, false) {
            Ok(p) => p,
            Err(e) => return Err(e),
        };
        let start = fh.pixel_data_offset as usize;
        let end = start + ih.pixel_data_len();
        if bytes.len() < end {
            return Err(BmpError::InsufficientBytes);
        }
        let data = vstd::slice::slice_subrange(bytes, start, end);
        match decode_colors(&mut pixels, data, &ih, w, h, &palette) {
            Err(e) => Err(e),
            Ok(None) => Ok(BmpBitmap::Colors(Bitmap { width: w, height: h, pixels })),
            Ok(Some((words, row_pixels, bits_per_pixel))) => Ok(
                BmpBitmap::Masked { width: w, height: h, bits_per_pixel, words, masks, row_pixels, background },
            ),
        }
    }
}

proof fn lemma_color_row_len(px: Seq<RGBA8888>, w: int, y: int, row: Seq<u8>, bpp: int, pal: Seq<RGBA8888>, xs: nat)
    ensures
        color_row(px, w, y, row, bpp, pal, xs).len() == px.len(),
    decreases xs,
{
    if xs > 0 {
        lemma_color_row_len(px, w, y, row, bpp, pal, (xs - 1) as nat);
    }
}

proof fn lemma_color_rows_len(
    px: Seq<RGBA8888>,
    data: Seq<u8>,
    bpl: int,
    w: int,
    h: int,
    top_down: bool,
    bpp: int,
    pal: Seq<RGBA8888>,
    rows: nat,
)
    ensures
        color_rows(px, data, bpl, w, h, top_down, bpp, pal, rows).len() == px.len(),
    decreases rows,
{
    if rows > 0 {
        let y = rows - 1;
        lemma_color_rows_len(px, data, bpl, w, h, top_down, bpp, pal, y as nat);
        lemma_color_row_len(
            color_rows(px, data, bpl, w, h, top_down, bpp, pal, y as nat),
            w,
            y,
            stored_row(data, bpl, h, top_down, y),
            bpp,
            pal,
            color_row_pixels(bpp, w, bpl) as nat,
        );
    }
}

proof fn lemma_word_row_len(words: Seq<u32>, w: int, y: int, row: Seq<u8>, bpp: int, xs: nat)
    ensures
        word_row(words, w, y, row, bpp, xs).len() == words.len(),
    decreases xs,
{
    if xs > 0 {
        lemma_word_row_len(words, w, y, row, bpp, (xs - 1) as nat);
    }
}

proof fn lemma_word_rows_len(words: Seq<u32>, data: Seq<u8>, bpl: int, w: int, h: int, top_down: bool, bpp: int, rows: nat)
    ensures
        word_rows(words, data, bpl, w, h, top_down, bpp, rows).len() == words.len(),
    decreases rows,
{
    if rows > 0 {
        let y = rows - 1;
        lemma_word_rows_len(words, data, bpl, w, h, top_down, bpp, y as nat);
        lemma_word_row_len(
            word_rows(words, data, bpl, w, h, top_down, bpp, y as nat),
            w,
            y,
            stored_row(data, bpl, h, top_down, y),
            bpp,
            word_row_pixels(bpp, w) as nat,
        );
    }
}

proof fn lemma_set_vals_len(px: Seq<RGBA8888>, start: int, vals: Seq<RGBA8888>)
    ensures
        set_vals(px, start, vals).len() == px.len(),
    decreases vals.len(),
{
    if vals.len() > 0 {
        lemma_set_vals_len(px, start, vals.drop_last());
    }
}

proof fn lemma_bmp_rle_walk_len(
    d: Seq<u8>,
    four: bool,
    pal: Seq<RGBA8888>,
    p: int,
    r: u8,
    x: int,
    y: int,
    w: int,
    h: int,
    px: Seq<RGBA8888>,
)
    ensures
        bmp_rle_walk(d, four, pal, p, r, x, y, w, h, px) matches Ok(s) ==> s.len() == px.len(),
    decreases d.len() - p,
{
    if !(p < 0 || p + 2 > d.len()) {
        let a = d[p];
        let b = d[p + 1];
        if r > 0 {
            let vals = raw_vals(four, a, b, r);
            let n = vals.len() as int;
            let cs = vals.map_values(|v: u8| pal_color(pal, v as int));
            lemma_set_vals_len(px, y * w + x, cs);
            lemma_bmp_rle_walk_len(d, four, pal, p + 2, sat_sub(r as int, n) as u8, x + n, y, w, h, set_vals(px, y * w + x, cs));
        } else if a > 0 {
            let i = y * w + x;
            let end = if i + a <= px.len() {
                i + a
            } else {
                px.len() as int
            };
            let c0 = if four {
                pal_color(pal, (b >> 4u8) as int)
            } else {
                pal_color(pal, b as int)
            };
            let c1 = if four {
                pal_color(pal, (b & 15u8) as int)
            } else {
                pal_color(pal, b as int)
            };
            lemma_bmp_rle_walk_len(d, four, pal, p + 2, 0, x + a, y, w, h, fill_run(px, i, end, c0, c1));
        } else if b == 0 {
            lemma_bmp_rle_walk_len(d, four, pal, p + 2, 0, 0, sat_sub(y, 1), w, h, px);
        } else if b == 2 {
            if p + 4 <= d.len() {
                lemma_bmp_rle_walk_len(d, four, pal, p + 4, 0, x + d[p + 2], sat_sub(y, d[p + 3] as int), w, h, px);
            }
        } else if b != 1 {
            lemma_bmp_rle_walk_len(d, four, pal, p + 2, b, x, y, w, h, px);
        }
    }
}

/// A BMP file decoded to direct colors holds exactly `width * height`
/// pixels (saturating at `usize::MAX`), and so do the words of a masked one.
pub proof fn lemma_bitmap_pixel_count(b: Seq<u8>)
    ensures
        spec_bitmap_from_bmp(b) matches Ok((w, h, px, words, masks, bg)) ==> {
            &&& px.len() == saturate(w * h)
            &&& words matches Some((ws, xs, bpp)) ==> ws.len() == saturate(w * h)
        },
{
    if let Ok((fh, ih, n)) = file_stage(b) {
        let rest = b.subrange(n, b.len() as int);
        let w = magnitude(ih.spec_width());
        let h = magnitude(ih.spec_height());
        let count = saturate(w * h);
        if let Ok((masks, m)) = masks_stage(rest, ih) {
            let bg = if masks[3] != 0 {
                transparent_black()
            } else {
                opaque_black()
            };
            let init = Seq::new(count as nat, |i: int| bg);
            if let Ok(pal) = palette_stage(rest.subrange(m, rest.len() as int), ih, false) {
                let start = fh.pixel_data_offset as int;
                let end = start + ih.spec_pixel_data_len();
                if b.len() >= end {
                    let data = b.subrange(start, end);
                    let bpp = ih.spec_bits_per_pixel() as int;
                    let bpl = padded_line(bpp, w as int);
                    let top_down = ih.spec_height() < 0;
                    lemma_color_rows_len(init, data, bpl, w as int, h as int, top_down, bpp, pal, h as nat);
                    lemma_word_rows_len(
                        Seq::new(init.len(), |i: int| 0u32),
                        data,
                        bpl,
                        w as int,
                        h as int,
                        top_down,
                        bpp,
                        h as nat,
                    );
                    lemma_bmp_rle_walk_len(
                        data,
                        ih.spec_compression() == BmpCompression::RgbRLE4,
                        pal,
                        0,
                        0,
                        0,
                        h - 1,
                        w as int,
                        h as int,
                        init,
                    );
                }
            }
        }
    }
}

/// The colors of indexes looked up in a palette.
pub open spec fn looked_up(idx: Seq<u8>, pal: Seq<RGBA8888>) -> Seq<RGBA8888> {
    idx.map_values(|i: u8| pal_color(pal, i as int))
}

/// Painting one row of indexes and painting its colors agree: positions
/// before `y * w + xs` carry the looked-up indexes, later ones are untouched.
proof fn lemma_row_agree(
    v0: Seq<u8>,
    px0: Seq<RGBA8888>,
    w: u32,
    h: u32,
    y: int,
    row: Seq<u8>,
    bpp: int,
    pal: Seq<RGBA8888>,
    xs: nat,
)
    requires
        0 <= y < h,
        xs <= w,
        w * h <= u32::MAX,
        v0.len() == px0.len() == w * h,
        bpp == 1 || bpp == 2 || bpp == 4 || bpp == 8,
        forall|k: int| 0 <= k < y * w ==> #[trigger] px0[k] == pal_color(pal, v0[k] as int),
    ensures
        paint_row(v0, w, h, y, row, bpp, xs).len() == v0.len(),
        color_row(px0, w as int, y, row, bpp, pal, xs).len() == px0.len(),
        forall|k: int|
            0 <= k < y * w + xs ==> #[trigger] color_row(px0, w as int, y, row, bpp, pal, xs)[k] == pal_color(
                pal,
                paint_row(v0, w, h, y, row, bpp, xs)[k] as int,
            ),
        forall|k: int| y * w + xs <= k < v0.len() ==> #[trigger] paint_row(v0, w, h, y, row, bpp, xs)[k] == v0[k],
        forall|k: int|
            y * w + xs <= k < v0.len() ==> #[trigger] color_row(px0, w as int, y, row, bpp, pal, xs)[k] == px0[k],
    decreases xs,
{
    if xs > 0 {
        let x = xs - 1;
        lemma_row_agree(v0, px0, w, h, y, row, bpp, pal, x as nat);
        let v1 = paint_row(v0, w, h, y, row, bpp, x as nat);
        let p1 = color_row(px0, w as int, y, row, bpp, pal, x as nat);
        let c = row_index(row, x, bpp);
        assert(0 <= y * w + x < w * h) by (nonlinear_arith)
            requires
                0 <= y < h,
                0 <= x < w,
        ;
        let k = y * w + x;
        assert((x as u32) as int == x && (y as u32) as int == y);
        assert(spec_xy_index(x as u32, y as u32, w) == k);
        assert(row_color(row, x, bpp, pal) == pal_color(pal, c as int));
        let v = paint_row(v0, w, h, y, row, bpp, xs);
        let px = color_row(px0, w as int, y, row, bpp, pal, xs);
        assert(v == v1.update(k, c));
        assert(px == p1.update(k, pal_color(pal, c as int)));
        assert forall|j: int| 0 <= j < y * w + xs implies #[trigger] px[j] == pal_color(pal, v[j] as int) by {
            if j != k {
                assert(px[j] == p1[j] && v[j] == v1[j]);
            }
        }
        assert(v.len() == v0.len() && px.len() == px0.len());
        assert forall|j: int| y * w + xs <= j < v0.len() implies #[trigger] v[j] == v0[j] && px[j] == px0[j] by {
            assert(px[j] == p1[j] && v[j] == v1[j]);
            assert(v1[j] == v0[j] && p1[j] == px0[j]);
        }
    } else {
        let v = paint_row(v0, w, h, y, row, bpp, xs);
        let px = color_row(px0, w as int, y, row, bpp, pal, xs);
        assert(v == v0 && px == px0);
        assert forall|j: int| 0 <= j < y * w + xs implies #[trigger] px[j] == pal_color(pal, v[j] as int) by {
            assert(px0[j] == pal_color(pal, v0[j] as int));
        }
        assert forall|j: int| y * w + xs <= j < v0.len() implies #[trigger] v[j] == v0[j] && px[j] == px0[j] by {}
    }
}

/// Painting the first `rows` rows of indexes and of their colors agree on
/// the first `rows * w` positions, and leave the others untouched.
proof fn lemma_rows_agree(
    v0: Seq<u8>,
    px0: Seq<RGBA8888>,
    data: Seq<u8>,
    bpl: int,
    w: u32,
    h: u32,
    top_down: bool,
    bpp: int,
    pal: Seq<RGBA8888>,
    rows: nat,
)
    requires
        rows <= h,
        w * h <= u32::MAX,
        v0.len() == px0.len() == w * h,
        bpp == 1 || bpp == 2 || bpp == 4 || bpp == 8,
        row_pixels(bpp, w as int, bpl) == w,
    ensures
        paint_rows(v0, data, bpl, w, h, top_down, bpp, rows).len() == v0.len(),
        color_rows(px0, data, bpl, w as int, h as int, top_down, bpp, pal, rows).len() == px0.len(),
        forall|k: int|
            0 <= k < rows * w ==> #[trigger] color_rows(px0, data, bpl, w as int, h as int, top_down, bpp, pal, rows)[k]
                == pal_color(pal, paint_rows(v0, data, bpl, w, h, top_down, bpp, rows)[k] as int),
        forall|k: int|
            rows * w <= k < v0.len() ==> #[trigger] paint_rows(v0, data, bpl, w, h, top_down, bpp, rows)[k] == v0[k],
        forall|k: int|
            rows * w <= k < v0.len() ==> #[trigger] color_rows(px0, data, bpl, w as int, h as int, top_down, bpp, pal, rows)[k]
                == px0[k],
    decreases rows,
{
    if rows > 0 {
        let y = rows - 1;
        lemma_rows_agree(v0, px0, data, bpl, w, h, top_down, bpp, pal, y as nat);
        let v1 = paint_rows(v0, data, bpl, w, h, top_down, bpp, y as nat);
        let p1 = color_rows(px0, data, bpl, w as int, h as int, top_down, bpp, pal, y as nat);
        let row = stored_row(data, bpl, h as int, top_down, y);
        assert(y * w + w == rows * w) by (nonlinear_arith)
            requires
                y == rows - 1,
        ;
        lemma_row_agree(v1, p1, w, h, y, row, bpp, pal, w as nat);
        assert(color_row_pixels(bpp, w as int, bpl) == w);
    } else {
        assert(0 * w == 0);
    }
}

proof fn lemma_full_rows(bpp: int, w: int, bpl: int)
    requires
        bpp == 1 || bpp == 2 || bpp == 4 || bpp == 8,
        0 <= w,
        8 * w <= usize::MAX,
        bpl >= unpadded_line(bpp, w),
    ensures
        row_pixels(bpp, w, bpl) == w,
{
    let n = unpadded_line(bpp, w);
    assert(saturate(bpp * w) == bpp * w) by (nonlinear_arith)
        requires
            bpp <= 8,
            0 <= w,
            8 * w <= usize::MAX,
    ;
    let per = 8int / bpp;
    assert(per * bpp == 8);
    assert(bpl * per >= w) by (nonlinear_arith)
        requires
            bpl >= n,
            n == (bpp * w) / 8 + if (bpp * w) % 8 != 0 {
                1int
            } else {
                0int
            },
            per * bpp == 8,
            per >= 1,
            0 <= w,
            bpp >= 1,
    ;
    if bpp == 8 {
        assert(n == w);
    }
}

/// For an uncompressed file at 1, 2, 4 or 8 bits per pixel, decoding to
/// direct colors gives the indexed image's indexes looked up in its palette
/// (when `width * height` fits in `u32` and eight bits per pixel of a row fit
/// in `usize`).
#[verifier::spinoff_prover]
#[verifier::rlimit(80)]
pub proof fn lemma_bitmap_is_palmap_looked_up(b: Seq<u8>)
    requires
        file_stage(b) matches Ok((fh, ih, n)) && {
            let bpp = ih.spec_bits_per_pixel();
            let w = magnitude(ih.spec_width());
            let h = magnitude(ih.spec_height());
            &&& ih.spec_compression() == BmpCompression::RgbNoCompression
            &&& bpp == 1 || bpp == 2 || bpp == 4 || bpp == 8
            &&& w * h <= u32::MAX
            &&& 8 * w <= usize::MAX
        },
        spec_palmap_from_bmp(b) is Ok,
        spec_bitmap_from_bmp(b) is Ok,
    ensures
        ({
            let (w, h, idx, pal) = spec_palmap_from_bmp(b)->Ok_0;
            let (w2, h2, px, words, masks, bg) = spec_bitmap_from_bmp(b)->Ok_0;
            &&& w2 == w && h2 == h
            &&& words is None
            &&& px == looked_up(idx, pal)
        }),
{
    let (fh, ih, n) = file_stage(b)->Ok_0;
    let rest = b.subrange(n, b.len() as int);
    let w = magnitude(ih.spec_width());
    let h = magnitude(ih.spec_height());
    let bpp = ih.spec_bits_per_pixel() as int;
    let count = pixel_count(w, h);
    assert(count == w * h);
    assert(saturate(w * h) == w * h);
    let pal = palette_stage(rest, ih, true)->Ok_0;
    assert(masks_stage(rest, ih) == Ok::<(Seq<u32>, int), BmpError>((default_masks(bpp), 0)));
    assert(rest.subrange(0, rest.len() as int) =~= rest);
    assert(palette_stage(rest, ih, false) == Ok::<Seq<RGBA8888>, BmpError>(pal));
    let start = fh.pixel_data_offset as int;
    let end = start + ih.spec_pixel_data_len();
    let data = b.subrange(start, end);
    let zeros = Seq::new(count as nat, |i: int| 0u8);
    let bg = opaque_black();
    let init = Seq::new(count as nat, |i: int| bg);
    let bpl = padded_line(bpp, w as int);
    let top_down = ih.spec_height() < 0;
    assert(palmap_pixels(data, ih, w, h, zeros) == Ok::<Seq<u8>, BmpError>(
        paint_rows(zeros, data, bpl, w, h, top_down, bpp, h as nat),
    ));
    lemma_full_rows(bpp, w as int, bpl);
    lemma_rows_agree(zeros, init, data, bpl, w, h, top_down, bpp, pal, h as nat);
    let idx = paint_rows(zeros, data, bpl, w, h, top_down, bpp, h as nat);
    let px = color_rows(init, data, bpl, w as int, h as int, top_down, bpp, pal, h as nat);
    assert(h * w == w * h) by (nonlinear_arith);
    assert(px =~= looked_up(idx, pal));
}

} // verus!
